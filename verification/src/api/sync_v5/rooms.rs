use vstd::prelude::*;
use crate::matrix::event::{Event, MembershipState, member_type};
use crate::utils::string::{push_text, str_eq};
use crate::utils::math::MAX_SAFE_INT;
use crate::api::sync_v3::holds_user;

verus! {

/// How many timeline events, and which state, a list or a subscription
/// asks for.
pub struct RoomDetails {
    pub timeline_limit: usize,
    /// Pairs of event type and state key.
    pub required_state: Vec<(String, String)>,
}

/// A list of the connection and what it asks of its rooms.
pub struct ListConfig {
    pub id: String,
    pub details: RoomDetails,
}

/// The details of the first list named `id`, if any.
pub open spec fn find_config(conn: Seq<ListConfig>, id: Seq<char>) -> Option<RoomDetails>
    decreases conn.len(),
{
    if conn.len() == 0 {
        None
    } else {
        match find_config(conn.drop_last(), id) {
            Some(d) => Some(d),
            None => if conn.last().id@ == id {
                Some(conn.last().details)
            } else {
                None
            },
        }
    }
}

/// The details that apply to a room through its lists, in order.
pub open spec fn list_configs(lists: Seq<String>, conn: Seq<ListConfig>) -> Seq<RoomDetails>
    decreases lists.len(),
{
    if lists.len() == 0 {
        Seq::empty()
    } else {
        let rest = list_configs(lists.drop_last(), conn);
        match find_config(conn, lists.last()@) {
            Some(d) => rest.push(d),
            None => rest,
        }
    }
}

/// The details that apply to a room: those of its lists, then that of its
/// subscription.
pub open spec fn room_configs(lists: Seq<String>, conn: Seq<ListConfig>, sub: Option<RoomDetails>) -> Seq<
    RoomDetails,
> {
    match sub {
        Some(d) => list_configs(lists, conn).push(d),
        None => list_configs(lists, conn),
    }
}

/// The largest timeline limit, zero when nothing applies.
pub open spec fn limit_of(cfgs: Seq<RoomDetails>) -> usize
    decreases cfgs.len(),
{
    if cfgs.len() == 0 {
        0
    } else {
        let rest = limit_of(cfgs.drop_last());
        if cfgs.last().timeline_limit > rest {
            cfgs.last().timeline_limit
        } else {
            rest
        }
    }
}

pub open spec fn pair_view(p: (String, String)) -> (Seq<char>, Seq<char>) {
    (p.0@, p.1@)
}

pub open spec fn views(ps: Seq<(String, String)>) -> Seq<(Seq<char>, Seq<char>)> {
    ps.map_values(|p: (String, String)| pair_view(p))
}

pub open spec fn pairs_view(ps: Seq<(String, String)>) -> Set<(Seq<char>, Seq<char>)> {
    views(ps).to_set()
}

/// All the state asked for.
pub open spec fn state_of(cfgs: Seq<RoomDetails>) -> Set<(Seq<char>, Seq<char>)>
    decreases cfgs.len(),
{
    if cfgs.len() == 0 {
        Set::empty()
    } else {
        state_of(cfgs.drop_last()).union(pairs_view(cfgs.last().required_state@))
    }
}

/// No pair occurs twice.
pub open spec fn distinct_pairs(ps: Seq<(String, String)>) -> bool {
    forall|i: int, j: int| 0 <= i < j < ps.len() ==> pair_view(#[trigger] ps[i]) != pair_view(#[trigger] ps[j])
}

/// What a room is sent with: the largest timeline limit and every state
/// pair asked for, once.
pub struct RoomConfig {
    pub timeline_limit: usize,
    pub required_state: Vec<(String, String)>,
}

fn find_list_config(conn: &Vec<ListConfig>, id: &str) -> (r: Option<usize>)
    ensures
        match find_config(conn@, id@) {
            Some(d) => r matches Some(k) && k < conn@.len() && conn@[k as int].details == d,
            None => r is None,
        },
{
    let mut k: usize = 0;
    while k < conn.len()
        invariant
            k <= conn@.len(),
            find_config(conn@.take(k as int), id@) is None,
        decreases conn.len() - k,
    {
        proof {
            assert(conn@.take(k + 1).drop_last() =~= conn@.take(k as int));
        }
        if str_eq(conn[k].id.as_str(), id) {
            proof {
                lemma_find_config_prefix(conn@, k + 1, id@);
            }
            return Some(k);
        }
        k = k + 1;
    }
    proof {
        assert(conn@.take(k as int) =~= conn@);
    }
    None
}

proof fn lemma_find_config_prefix(conn: Seq<ListConfig>, k: int, id: Seq<char>)
    requires
        0 <= k <= conn.len(),
        find_config(conn.take(k), id) is Some,
    ensures
        find_config(conn, id) == find_config(conn.take(k), id),
    decreases conn.len() - k,
{
    if k < conn.len() {
        assert(conn.take(k + 1).drop_last() =~= conn.take(k));
        lemma_find_config_prefix(conn, k + 1, id);
    } else {
        assert(conn.take(k) =~= conn);
    }
}

fn has_pair(ps: &Vec<(String, String)>, p: &(String, String)) -> (r: bool)
    ensures
        r == pairs_view(ps@).contains(pair_view(*p)),
{
    let mut i: usize = 0;
    while i < ps.len()
        invariant
            i <= ps@.len(),
            forall|j: int| 0 <= j < i ==> pair_view(#[trigger] ps@[j]) != pair_view(*p),
        decreases ps.len() - i,
    {
        if str_eq(ps[i].0.as_str(), p.0.as_str()) && str_eq(ps[i].1.as_str(), p.1.as_str()) {
            proof {
                assert(views(ps@)[i as int] == pair_view(*p));
            }
            return true;
        }
        i = i + 1;
    }
    proof {
        if pairs_view(ps@).contains(pair_view(*p)) {
            let k = choose|k: int|
                0 <= k < ps@.len() && #[trigger] views(ps@)[k]
                    == pair_view(*p);
            assert(pair_view(ps@[k]) != pair_view(*p));
        }
    }
    false
}

proof fn lemma_pairs_view_push(ps: Seq<(String, String)>, p: (String, String))
    ensures
        pairs_view(ps.push(p)) == pairs_view(ps).insert(pair_view(p)),
{
    assert(views(ps.push(p)) =~= views(ps).push(pair_view(p)));
    assert(pairs_view(ps.push(p)) =~= pairs_view(ps).insert(pair_view(p))) by {
        assert forall|x| pairs_view(ps.push(p)).contains(x) implies pairs_view(ps).insert(pair_view(p)).contains(x) by {
            let k = choose|k: int| 0 <= k < views(ps.push(p)).len() && views(ps.push(p))[k] == x;
            if k < ps.len() {
                assert(views(ps)[k] == x);
            }
        }
        assert forall|x| pairs_view(ps).insert(pair_view(p)).contains(x) implies pairs_view(ps.push(p)).contains(x) by {
            if x == pair_view(p) {
                assert(views(ps.push(p))[ps.len() as int] == x);
            } else {
                let k = choose|k: int| 0 <= k < views(ps).len() && views(ps)[k] == x;
                assert(views(ps.push(p))[k] == x);
            }
        }
    }
}

/// Takes in one list's or subscription's details.
fn absorb(d: &RoomDetails, limit: &mut usize, state: &mut Vec<(String, String)>)
    requires
        distinct_pairs(old(state)@),
    ensures
        *final(limit) == if d.timeline_limit > *old(limit) {
            d.timeline_limit
        } else {
            *old(limit)
        },
        distinct_pairs(final(state)@),
        pairs_view(final(state)@) == pairs_view(old(state)@).union(pairs_view(d.required_state@)),
{
    if d.timeline_limit > *limit {
        *limit = d.timeline_limit;
    }
    let ghost start = state@;
    let mut i: usize = 0;
    while i < d.required_state.len()
        invariant
            i <= d.required_state@.len(),
            distinct_pairs(state@),
            pairs_view(state@) == pairs_view(start).union(pairs_view(d.required_state@.take(i as int))),
        decreases d.required_state.len() - i,
    {
        let p = &d.required_state[i];
        proof {
            lemma_pairs_view_push(d.required_state@.take(i as int), *p);
            assert(d.required_state@.take(i + 1) =~= d.required_state@.take(i as int).push(*p));
        }
        if !has_pair(state, p) {
            let q = (p.0.clone(), p.1.clone());
            let ghost before = state@;
            state.push(q);
            proof {
                lemma_pairs_view_push(before, q);
                assert forall|a: int, b: int| 0 <= a < b < state@.len() implies pair_view(#[trigger] state@[a])
                    != pair_view(#[trigger] state@[b]) by {
                    if b == before.len() {
                        assert(pairs_view(before).contains(pair_view(before[a]))) by {
                            assert(views(before)[a] == pair_view(before[a]));
                        }
                    } else {
                        assert(state@[a] == before[a]);
                        assert(state@[b] == before[b]);
                    }
                }
            }
        }
        proof {
            assert(pairs_view(state@) =~= pairs_view(start).union(pairs_view(d.required_state@.take(i + 1))));
        }
        i = i + 1;
    }
    proof {
        assert(d.required_state@.take(d.required_state@.len() as int) =~= d.required_state@);
    }
}

/// Folds what the room's lists and its subscription ask for: the largest
/// timeline limit and the union of the required state.
pub fn room_config(lists: &Vec<String>, conn: &Vec<ListConfig>, sub: &Option<RoomDetails>) -> (r: RoomConfig)
    ensures
        r.timeline_limit == limit_of(room_configs(lists@, conn@, *sub)),
        distinct_pairs(r.required_state@),
        pairs_view(r.required_state@) == state_of(room_configs(lists@, conn@, *sub)),
{
    let mut limit: usize = 0;
    let mut state: Vec<(String, String)> = Vec::new();
    let mut i: usize = 0;
    proof {
        assert(pairs_view(state@) =~= Set::empty());
    }
    while i < lists.len()
        invariant
            i <= lists@.len(),
            limit == limit_of(list_configs(lists@.take(i as int), conn@)),
            distinct_pairs(state@),
            pairs_view(state@) == state_of(list_configs(lists@.take(i as int), conn@)),
        decreases lists.len() - i,
    {
        let ghost cfgs = list_configs(lists@.take(i as int), conn@);
        proof {
            assert(lists@.take(i + 1).drop_last() =~= lists@.take(i as int));
            assert(lists@.take(i + 1).last() == lists@[i as int]);
        }
        match find_list_config(conn, lists[i].as_str()) {
            Some(k) => {
                absorb(&conn[k].details, &mut limit, &mut state);
                proof {
                    assert(cfgs.push(conn@[k as int].details).drop_last() =~= cfgs);
                }
            },
            None => {},
        }
        i = i + 1;
    }
    proof {
        assert(lists@.take(lists@.len() as int) =~= lists@);
    }
    let ghost cfgs = list_configs(lists@, conn@);
    match sub {
        Some(d) => {
            absorb(d, &mut limit, &mut state);
            proof {
                assert(cfgs.push(*d).drop_last() =~= cfgs);
            }
        },
        None => {},
    }
    RoomConfig { timeline_limit: limit, required_state: state }
}


/// The answer for a room the user left: marked initial when not sent
/// before, with its lists and the leave, the connection's batch as the
/// token before it, a timeline marked limited, and the user's own
/// membership event as its only state.
pub struct LeftWindowRoom {
    pub initial: Option<bool>,
    pub lists: Vec<String>,
    pub membership: MembershipState,
    pub prev_batch: u64,
    pub limited: bool,
    pub required_state: Vec<Event>,
}

/// Builds [`LeftWindowRoom`].
pub fn left_window_room(roomsince: u64, lists: Vec<String>, next_batch: u64, own_member: Event) -> (r:
    LeftWindowRoom)
    ensures
        r.initial == if roomsince == 0 {
            Some(true)
        } else {
            None
        },
        r.lists@ == lists@,
        r.membership == MembershipState::Leave,
        r.prev_batch == next_batch,
        r.limited,
        r.required_state@ == seq![own_member],
{
    let mut required_state: Vec<Event> = Vec::new();
    required_state.push(own_member);
    LeftWindowRoom {
        initial: initial_flag(roomsince),
        lists,
        membership: MembershipState::Leave,
        prev_batch: next_batch,
        limited: true,
        required_state,
    }
}

/// A room not sent before on the connection is marked initial.
pub fn initial_flag(roomsince: u64) -> (r: Option<bool>)
    ensures
        r == if roomsince == 0 {
            Some(true)
        } else {
            None
        },
{
    if roomsince == 0 {
        Some(true)
    } else {
        None
    }
}

/// The required state goes only with a timeline.
pub fn kept_required_state(required: Vec<(String, String)>, timeline_empty: bool) -> (r: Vec<(String, String)>)
    ensures
        timeline_empty ==> r@.len() == 0,
        !timeline_empty ==> r@ == required@,
{
    if timeline_empty {
        Vec::new()
    } else {
        required
    }
}

/// The event types that move a room up: calls, polls, beacons, messages
/// (encrypted or not) and stickers.
pub open spec fn is_bump_type(t: Seq<char>) -> bool {
    ||| t == "m.call.invite"@
    ||| t == "m.poll.start"@
    ||| t == "m.beacon"@
    ||| t == "org.matrix.msc3672.beacon"@
    ||| t == "m.room.encrypted"@
    ||| t == "m.room.message"@
    ||| t == "m.sticker"@
}

fn bump_type(t: &str) -> (r: bool)
    ensures
        r == is_bump_type(t@),
        default_bump_type(t@) ==> r,
{
    proof {
        reveal_strlit("m.call.invite");
        reveal_strlit("m.poll.start");
        reveal_strlit("m.beacon");
        reveal_strlit("org.matrix.msc3672.beacon");
        reveal_strlit("m.room.encrypted");
        reveal_strlit("m.room.message");
        reveal_strlit("m.sticker");
    }
    str_eq(t, "m.call.invite") || str_eq(t, "m.poll.start")
        || str_eq(t, "m.beacon") || str_eq(t, "org.matrix.msc3672.beacon") || str_eq(t, "m.room.encrypted")
        || str_eq(t, "m.room.message") || str_eq(t, "m.sticker")
}

/// The event types that bump a room by default: call invites, polls,
/// beacons (stable and unstable names), encrypted and plain messages, and
/// stickers.
pub open spec fn default_bump_type(t: Seq<char>) -> bool {
    ||| t == "m.call.invite"@
    ||| t == "m.poll.start"@
    ||| t == "m.beacon"@
    ||| t == "org.matrix.msc3672.beacon"@
    ||| t == "m.room.encrypted"@
    ||| t == "m.room.message"@
    ||| t == "m.sticker"@
}

/// Every event of a default bumping type that is not redacted moves the
/// room up, for any user.
pub proof fn lemma_default_types_bump(e: Event, sender: Seq<char>)
    ensures
        !e.redacted && default_bump_type(e.kind@) ==> bumps(e, sender),
{
    reveal_strlit("m.call.invite");
    reveal_strlit("m.poll.start");
    reveal_strlit("m.beacon");
    reveal_strlit("org.matrix.msc3672.beacon");
    reveal_strlit("m.room.encrypted");
    reveal_strlit("m.room.message");
    reveal_strlit("m.sticker");
    reveal_strlit("m.room.member");
    if !e.redacted && default_bump_type(e.kind@) {
        assert(e.kind@ != member_type()) by {
            if e.kind@ == member_type() {
                assert(e.kind@.len() == 13);
                assert(e.kind@[7] == 'm');
            }
        }
    }
}

/// The bump maximum is the largest count among the bumping events: at
/// least the count of each, and the count of one of them.
pub proof fn lemma_bump_max_is_max(timeline: Seq<(i64, Event)>, sender: Seq<char>)
    ensures
        forall|i: int|
            0 <= i < timeline.len() && bumps(#[trigger] timeline[i].1, sender) ==> (spec_bump_max(timeline, sender)
                matches Some(m) && m >= timeline[i].0),
        spec_bump_max(timeline, sender) matches Some(m) ==> exists|i: int|
            0 <= i < timeline.len() && bumps(#[trigger] timeline[i].1, sender) && timeline[i].0 == m,
        spec_bump_max(timeline, sender) is None ==> forall|i: int|
            0 <= i < timeline.len() ==> !bumps(#[trigger] timeline[i].1, sender),
    decreases timeline.len(),
{
    if timeline.len() > 0 {
        let front = timeline.drop_last();
        lemma_bump_max_is_max(front, sender);
        assert forall|i: int| 0 <= i < front.len() implies #[trigger] front[i] == timeline[i] by {}
        let n = timeline.len() - 1;
        assert(timeline.last() == timeline[n]);
        assert forall|i: int|
            0 <= i < timeline.len() && bumps(#[trigger] timeline[i].1, sender) implies (spec_bump_max(
            timeline,
            sender,
        ) matches Some(m) && m >= timeline[i].0) by {
            if i < n {
                assert(front[i] == timeline[i]);
            }
        }
        if spec_bump_max(timeline, sender) is Some {
            let m = spec_bump_max(timeline, sender)->0;
            if bumps(timeline[n].1, sender) && timeline[n].0 == m {
                assert(bumps(timeline[n].1, sender) && timeline[n].0 == m);
            } else {
                let j = choose|j: int| 0 <= j < front.len() && bumps(#[trigger] front[j].1, sender) && front[j].0 == m;
                assert(timeline[j] == front[j]);
            }
        }
        if spec_bump_max(timeline, sender) is None {
            assert forall|i: int| 0 <= i < timeline.len() implies !bumps(#[trigger] timeline[i].1, sender) by {
                if i < n {
                    assert(front[i] == timeline[i]);
                }
            }
        }
    }
}

/// Whether an event moves the room up for `sender`: the sender's own
/// membership changes, or an event of a bumping type; never a redacted one.
pub open spec fn bumps(e: Event, sender: Seq<char>) -> bool {
    !e.redacted && if e.kind@ == member_type() {
        e.state_key matches Some(k) && k@ == sender
    } else {
        is_bump_type(e.kind@)
    }
}

/// The largest count of the events that bump the room.
pub open spec fn spec_bump_max(timeline: Seq<(i64, Event)>, sender: Seq<char>) -> Option<i64>
    decreases timeline.len(),
{
    if timeline.len() == 0 {
        None
    } else {
        let rest = spec_bump_max(timeline.drop_last(), sender);
        let (count, e) = timeline.last();
        if bumps(e, sender) {
            match rest {
                Some(m) => if count > m {
                    Some(count)
                } else {
                    Some(m)
                },
                None => Some(count),
            }
        } else {
            rest
        }
    }
}

/// The bump stamp of a room: the largest count of an event that bumps it,
/// when that is a JSON-safe unsigned number.
pub fn bump_stamp(timeline: &Vec<(i64, Event)>, sender: &str) -> (r: Option<u64>)
    ensures
        r == match spec_bump_max(timeline@, sender@) {
            Some(m) => if 0 <= m <= MAX_SAFE_INT {
                Some(m as u64)
            } else {
                None
            },
            None => None,
        },
        forall|i: int|
            0 <= i < timeline@.len() && bumps(#[trigger] timeline@[i].1, sender@) ==> (spec_bump_max(timeline@, sender@)
                matches Some(m) && m >= timeline@[i].0),
        forall|i: int|
            0 <= i < timeline@.len() && !timeline@[i].1.redacted && default_bump_type(#[trigger] timeline@[i].1.kind@)
                ==> (spec_bump_max(timeline@, sender@) matches Some(m) && m >= timeline@[i].0),
{
    proof {
        reveal_strlit("m.room.member");
        lemma_bump_max_is_max(timeline@, sender@);
        assert forall|i: int|
            0 <= i < timeline@.len() && !timeline@[i].1.redacted && default_bump_type(
                #[trigger] timeline@[i].1.kind@,
            ) implies (spec_bump_max(timeline@, sender@) matches Some(m) && m >= timeline@[i].0) by {
            lemma_default_types_bump(timeline@[i].1, sender@);
        }
    }
    let mut best: Option<i64> = None;
    let mut i: usize = 0;
    while i < timeline.len()
        invariant
            i <= timeline@.len(),
            best == spec_bump_max(timeline@.take(i as int), sender@),
        decreases timeline.len() - i,
    {
        proof {
            assert(timeline@.take(i + 1).drop_last() =~= timeline@.take(i as int));
        }
        let (count, e) = (timeline[i].0, &timeline[i].1);
        let counts = !e.redacted && if str_eq(e.kind.as_str(), "m.room.member") {
            match &e.state_key {
                Some(k) => str_eq(k.as_str(), sender),
                None => false,
            }
        } else {
            bump_type(e.kind.as_str())
        };
        if counts {
            best = match best {
                Some(m) => if count > m {
                    Some(count)
                } else {
                    Some(m)
                },
                None => Some(count),
            };
        }
        i = i + 1;
    }
    proof {
        assert(timeline@.take(timeline@.len() as int) =~= timeline@);
    }
    match best {
        Some(m) => if 0 <= m && m <= MAX_SAFE_INT as i64 {
            Some(m as u64)
        } else {
            None
        },
        None => None,
    }
}

/// The number of live events is sent for a room already known to the
/// connection whose timeline was cut or filled.
pub fn wants_num_live(roomsince: u64, limited: bool, timeline_len: usize, timeline_limit: usize) -> (r: bool)
    ensures
        r == (roomsince != 0 && (limited || timeline_len >= timeline_limit)),
{
    roomsince != 0 && (limited || timeline_len >= timeline_limit)
}

/// Whether the required state asks for members lazily.
pub open spec fn spec_is_lazy(required: Seq<(String, String)>) -> bool {
    exists|i: int| 0 <= i < required.len() && #[trigger] pair_view(required[i]) == (member_type(), "$LAZY"@)
}

/// See [`spec_is_lazy`].
pub fn is_lazy(required: &Vec<(String, String)>) -> (r: bool)
    ensures
        r == spec_is_lazy(required@),
{
    proof {
        reveal_strlit("m.room.member");
        reveal_strlit("$LAZY");
    }
    let mut i: usize = 0;
    while i < required.len()
        invariant
            i <= required@.len(),
            forall|j: int| 0 <= j < i ==> #[trigger] pair_view(required@[j]) != (member_type(), "$LAZY"@),
        decreases required.len() - i,
    {
        if str_eq(required[i].0.as_str(), "m.room.member") && str_eq(required[i].1.as_str(), "$LAZY") {
            proof {
                assert(pair_view(required@[i as int]) == (member_type(), "$LAZY"@));
            }
            return true;
        }
        i = i + 1;
    }
    false
}

/// Whether `s` sent an event of the timeline.
pub open spec fn sent_in(timeline: Seq<(i64, Event)>, s: Seq<char>) -> bool {
    exists|j: int| 0 <= j < timeline.len() && (#[trigger] timeline[j]).1.sender@ == s
}

/// The senders of the timeline events, each once, when members load
/// lazily; none otherwise.
pub fn lazy_senders(timeline: &Vec<(i64, Event)>, lazy: bool) -> (r: Vec<String>)
    ensures
        !lazy ==> r@.len() == 0,
        forall|a: int, b: int| 0 <= a < b < r@.len() ==> (#[trigger] r@[a])@ != (#[trigger] r@[b])@,
        forall|a: int| 0 <= a < r@.len() ==> sent_in(timeline@, (#[trigger] r@[a])@),
        lazy ==> forall|j: int| 0 <= j < timeline@.len() ==> holds_user(r@, (#[trigger] timeline@[j]).1.sender@),
{
    let mut out: Vec<String> = Vec::new();
    if !lazy {
        return out;
    }
    let mut i: usize = 0;
    while i < timeline.len()
        invariant
            i <= timeline@.len(),
            forall|a: int, b: int| 0 <= a < b < out@.len() ==> (#[trigger] out@[a])@ != (#[trigger] out@[b])@,
            forall|a: int| 0 <= a < out@.len() ==> sent_in(timeline@, (#[trigger] out@[a])@),
            forall|j: int| 0 <= j < i ==> holds_user(out@, (#[trigger] timeline@[j]).1.sender@),
        decreases timeline.len() - i,
    {
        let s = &timeline[i].1.sender;
        let ghost before = out@;
        if !crate::utils::string::list_contains(out.as_slice(), s.as_str()) {
            out.push(s.clone());
            proof {
                assert(out@[before.len() as int]@ == timeline@[i as int].1.sender@);
                assert forall|j: int| 0 <= j < i + 1 implies holds_user(out@, (#[trigger] timeline@[j]).1.sender@) by {
                    if j < i {
                        assert(holds_user(before, timeline@[j].1.sender@));
                        let a = choose|a: int| 0 <= a < before.len() && (#[trigger] before[a])@ == timeline@[j].1.sender@;
                        assert(out@[a] == before[a]);
                    } else {
                        assert(out@[before.len() as int]@ == timeline@[j].1.sender@);
                    }
                }
                assert forall|a: int| 0 <= a < out@.len() implies sent_in(timeline@, (#[trigger] out@[a])@) by {
                    if a < before.len() {
                        assert(out@[a] == before[a]);
                    } else {
                        assert(timeline@[i as int].1.sender@ == out@[a]@);
                    }
                }
            }
        }
        i = i + 1;
    }
    out
}

/// The state key to look up: none for `$LAZY` and `*`, the user's own ID
/// for `$ME`.
pub open spec fn spec_state_key(key: Seq<char>, sender: Seq<char>) -> Option<Seq<char>> {
    if key == "$LAZY"@ || key == "*"@ {
        None
    } else if key == "$ME"@ {
        Some(sender)
    } else {
        Some(key)
    }
}

/// See [`spec_state_key`].
pub fn resolve_state_key(key: &str, sender: &str) -> (r: Option<String>)
    ensures
        match spec_state_key(key@, sender@) {
            Some(k) => r matches Some(s) && s@ == k,
            None => r is None,
        },
{
    proof {
        reveal_strlit("$LAZY");
        reveal_strlit("*");
        reveal_strlit("$ME");
    }
    if str_eq(key, "$LAZY") || str_eq(key, "*") {
        None
    } else if str_eq(key, "$ME") {
        Some(sender.to_string())
    } else {
        Some(key.to_string())
    }
}

/// The state lookups of a request: each pair whose key resolves, with the
/// resolved key.
pub open spec fn resolve_all(ps: Seq<(Seq<char>, Seq<char>)>, sender: Seq<char>) -> Seq<(Seq<char>, Seq<char>)>
    decreases ps.len(),
{
    if ps.len() == 0 {
        Seq::empty()
    } else {
        let rest = resolve_all(ps.drop_last(), sender);
        match spec_state_key(ps.last().1, sender) {
            Some(k) => rest.push((ps.last().0, k)),
            None => rest,
        }
    }
}

/// The membership lookups for lazily loaded senders.
pub open spec fn member_pairs(senders: Seq<String>) -> Seq<(Seq<char>, Seq<char>)> {
    senders.map_values(|s: String| (member_type(), s@))
}

fn resolve_into(out: &mut Vec<(String, String)>, kind: &str, key: &str, sender: &str)
    ensures
        views(final(out)@) == match spec_state_key(key@, sender@) {
            Some(k) => views(old(out)@).push((kind@, k)),
            None => views(old(out)@),
        },
{
    match resolve_state_key(key, sender) {
        Some(k) => {
            let ghost before = out@;
            out.push((kind.to_string(), k));
            proof {
                assert(views(out@) =~= views(before).push(pair_view(out@.last())));
            }
        },
        None => {},
    }
}

/// The state to look up for a room: the required pairs, then the pairs of
/// the wildcard lookups, then a membership pair per lazily loaded sender;
/// each with its key resolved, those that do not resolve left out.
pub fn state_requests(
    required: &Vec<(String, String)>,
    wildcard: &Vec<(String, String)>,
    senders: &Vec<String>,
    sender_user: &str,
) -> (r: Vec<(String, String)>)
    ensures
        views(r@) == resolve_all(views(required@) + views(wildcard@) + member_pairs(senders@), sender_user@),
{
    proof {
        reveal_strlit("m.room.member");
    }
    let ghost all = views(required@) + views(wildcard@) + member_pairs(senders@);
    let mut out: Vec<(String, String)> = Vec::new();
    let mut i: usize = 0;
    proof {
        assert(views(out@) =~= resolve_all(all.take(0), sender_user@));
    }
    while i < required.len()
        invariant
            i <= required@.len(),
            all == views(required@) + views(wildcard@) + member_pairs(senders@),
            views(out@) == resolve_all(all.take(i as int), sender_user@),
        decreases required.len() - i,
    {
        resolve_into(&mut out, required[i].0.as_str(), required[i].1.as_str(), sender_user);
        proof {
            assert(all.take(i + 1).drop_last() =~= all.take(i as int));
            assert(all.take(i + 1).last() == pair_view(required@[i as int]));
        }
        i = i + 1;
    }
    let base = required.len();
    let mut j: usize = 0;
    while j < wildcard.len()
        invariant
            base == required@.len(),
            j <= wildcard@.len(),
            all == views(required@) + views(wildcard@) + member_pairs(senders@),
            views(out@) == resolve_all(all.take(base + j), sender_user@),
        decreases wildcard.len() - j,
    {
        resolve_into(&mut out, wildcard[j].0.as_str(), wildcard[j].1.as_str(), sender_user);
        proof {
            assert(all.take(base + j + 1).drop_last() =~= all.take(base + j));
            assert(all.take(base + j + 1).last() == pair_view(wildcard@[j as int]));
        }
        j = j + 1;
    }
    let base2 = wildcard.len();
    let mut k: usize = 0;
    while k < senders.len()
        invariant
            base == required@.len(),
            base2 == wildcard@.len(),
            k <= senders@.len(),
            all == views(required@) + views(wildcard@) + member_pairs(senders@),
            views(out@) == resolve_all(all.take(base + base2 + k), sender_user@),
        decreases senders.len() - k,
    {
        resolve_into(&mut out, "m.room.member", senders[k].as_str(), sender_user);
        proof {
            assert(all.take(base + base2 + k + 1).drop_last() =~= all.take(base + base2 + k));
            assert(all.take(base + base2 + k + 1).last() == (member_type(), senders@[k as int]@));
        }
        k = k + 1;
    }
    proof {
        assert(all.take(base + base2 + k) =~= all);
    }
    out
}


/// A member shown in place of a room's name and avatar.
pub struct Hero {
    pub user_id: String,
    pub name: Option<String>,
    pub avatar: Option<String>,
}

/// A hero's name and avatar: those of the membership event, else those of
/// the user's profile.
pub fn hero(
    user_id: String,
    member_name: Option<String>,
    profile_name: Option<String>,
    member_avatar: Option<String>,
    profile_avatar: Option<String>,
) -> (r: Hero)
    ensures
        r.user_id == user_id,
        r.name == if member_name is Some {
            member_name
        } else {
            profile_name
        },
        r.avatar == if member_avatar is Some {
            member_avatar
        } else {
            profile_avatar
        },
{
    let name = match member_name {
        Some(n) => Some(n),
        None => profile_name,
    };
    let avatar = match member_avatar {
        Some(a) => Some(a),
        None => profile_avatar,
    };
    Hero { user_id, name, avatar }
}

/// The members other than `sender`.
pub open spec fn others(members: Seq<String>, sender: Seq<char>) -> Seq<String> {
    members.filter(|m: String| m@ != sender)
}

/// The members that may become heroes: none when the room has a name,
/// otherwise every member but the user.
pub fn hero_candidates(members: Vec<String>, sender: &str, has_room_name: bool) -> (r: Vec<String>)
    ensures
        r@ == if has_room_name {
            Seq::empty()
        } else {
            others(members@, sender@)
        },
{
    let mut out: Vec<String> = Vec::new();
    if has_room_name {
        return out;
    }
    let ghost all = members@;
    let mut rest = members;
    let n = rest.len();
    let mut i: usize = 0;
    while i < n
        invariant
            n == all.len(),
            i <= n,
            rest@ == all.skip(i as int),
            out@ == others(all.take(i as int), sender@),
        decreases n - i,
    {
        let m = rest.remove(0);
        proof {
            assert(m == all[i as int]);
            assert(rest@ =~= all.skip(i + 1));
            assert(all.take(i + 1).drop_last() =~= all.take(i as int));
            reveal_with_fuel(Seq::filter, 1);
        }
        if !str_eq(m.as_str(), sender) {
            out.push(m);
        }
        i = i + 1;
    }
    proof {
        assert(all.take(n as int) =~= all);
    }
    out
}

/// At most five heroes.
pub open spec fn max_heroes() -> nat {
    5
}

/// The first five members whose membership could be read.
pub open spec fn take_heroes_spec(loaded: Seq<Option<Hero>>) -> Seq<Hero>
    decreases loaded.len(),
{
    if loaded.len() == 0 {
        Seq::empty()
    } else {
        let rest = take_heroes_spec(loaded.drop_last());
        match loaded.last() {
            Some(h) => if rest.len() < max_heroes() {
                rest.push(h)
            } else {
                rest
            },
            None => rest,
        }
    }
}

/// Keeps the first five heroes among the members looked up.
pub fn take_heroes(loaded: Vec<Option<Hero>>) -> (r: Vec<Hero>)
    ensures
        r@ == take_heroes_spec(loaded@),
        r@.len() <= max_heroes(),
{
    let ghost all = loaded@;
    let mut rest = loaded;
    let mut out: Vec<Hero> = Vec::new();
    let n = rest.len();
    let mut i: usize = 0;
    while i < n
        invariant
            n == all.len(),
            i <= n,
            rest@ == all.skip(i as int),
            out@ == take_heroes_spec(all.take(i as int)),
            out@.len() <= max_heroes(),
        decreases n - i,
    {
        let h = rest.remove(0);
        proof {
            assert(h == all[i as int]);
            assert(rest@ =~= all.skip(i + 1));
            assert(all.take(i + 1).drop_last() =~= all.take(i as int));
        }
        match h {
            Some(hero) => {
                if out.len() < 5 {
                    out.push(hero);
                }
            },
            None => {},
        }
        i = i + 1;
    }
    proof {
        assert(all.take(n as int) =~= all);
    }
    out
}

/// How a hero is named: its display name, else its user ID.
pub open spec fn label(h: Hero) -> Seq<char> {
    match h.name {
        Some(n) => n@,
        None => h.user_id@,
    }
}

/// Labels joined with `", "`.
pub open spec fn joined(labels: Seq<Seq<char>>) -> Seq<char>
    decreases labels.len(),
{
    if labels.len() == 0 {
        Seq::empty()
    } else if labels.len() == 1 {
        labels[0]
    } else {
        joined(labels.drop_last()) + ", "@ + labels.last()
    }
}

pub open spec fn labels(heroes: Seq<Hero>) -> Seq<Seq<char>> {
    heroes.map_values(|h: Hero| label(h))
}

/// The name made of the heroes: none without heroes; the one hero's label;
/// or the labels of all heroes but the first, then `" and "` and the first.
pub open spec fn spec_hero_name(heroes: Seq<Hero>) -> Option<Seq<char>> {
    if heroes.len() == 0 {
        None
    } else if heroes.len() == 1 {
        Some(label(heroes[0]))
    } else {
        Some(joined(labels(heroes.drop_first())) + " and "@ + label(heroes[0]))
    }
}

fn push_label(s: &mut String, h: &Hero)
    ensures
        final(s)@ == old(s)@ + label(*h),
{
    match &h.name {
        Some(n) => push_text(s, n.as_str()),
        None => push_text(s, h.user_id.as_str()),
    }
}

/// Builds [`spec_hero_name`].
pub fn hero_name(heroes: &Vec<Hero>) -> (r: Option<String>)
    ensures
        match spec_hero_name(heroes@) {
            Some(n) => r matches Some(s) && s@ == n,
            None => r is None,
        },
{
    proof {
        reveal_strlit(", ");
        reveal_strlit(" and ");
    }
    if heroes.len() == 0 {
        return None;
    }
    let mut s = String::new();
    if heroes.len() == 1 {
        push_label(&mut s, &heroes[0]);
        proof {
            assert(s@ =~= label(heroes@[0]));
        }
        return Some(s);
    }
    let ghost rest = heroes@.drop_first();
    let mut i: usize = 1;
    push_label(&mut s, &heroes[1]);
    proof {
        assert(labels(rest).take(1) =~= seq![label(heroes@[1])]);
        assert(s@ =~= joined(labels(rest).take(1)));
    }
    i = 2;
    while i < heroes.len()
        invariant
            2 <= i <= heroes@.len(),
            rest == heroes@.drop_first(),
            s@ == joined(labels(rest).take(i - 1)),
        decreases heroes.len() - i,
    {
        push_text(&mut s, ", ");
        push_label(&mut s, &heroes[i]);
        proof {
            let t = labels(rest).take(i as int);
            assert(t.drop_last() =~= labels(rest).take(i - 1));
            assert(t.last() == label(heroes@[i as int]));
            assert(s@ =~= joined(t));
        }
        i = i + 1;
    }
    proof {
        assert(labels(rest).take(i - 1) =~= labels(rest));
    }
    push_text(&mut s, " and ");
    push_label(&mut s, &heroes[0]);
    proof {
        assert(s@ =~= joined(labels(rest)) + " and "@ + label(heroes@[0]));
    }
    Some(s)
}

/// The heroes stand in for the room's avatar only when the room has
/// neither name nor avatar: the first hero's avatar.
pub fn heroes_avatar(room_avatar: &Option<String>, has_room_name: bool, heroes: &Vec<Hero>) -> (r: Option<String>)
    ensures
        r == if room_avatar is None && !has_room_name && heroes@.len() > 0 {
            heroes@[0].avatar
        } else {
            None
        },
{
    if room_avatar.is_none() && !has_room_name && heroes.len() > 0 {
        match &heroes[0].avatar {
            Some(a) => Some(a.clone()),
            None => None,
        }
    } else {
        None
    }
}

/// The name or avatar sent: the room's own, else the heroes'.
pub fn room_or_heroes(own: Option<String>, heroes: Option<String>) -> (r: Option<String>)
    ensures
        r == if own is Some {
            own
        } else {
            heroes
        },
{
    match own {
        Some(o) => Some(o),
        None => heroes,
    }
}

} // verus!
