use vstd::prelude::*;
use crate::matrix::event::{member_content_membership, member_type, ruma_member_membership, Event};
use crate::matrix::ids::{parse_user_id, ruma_user_id_valid};
use crate::utils::string::{list_contains, str_eq};
use crate::api::sync_v3::{distinct_users, holds_user, insert_user, inserted, inserted_all, merge_users, DeviceListUpdates};

verus! {

/// Whether the state of a room moved since the last sync, so that its
/// membership changes are looked at: it has a current state past
/// `globalsince`, and the state at `globalsince` differs from it. The state
/// at `globalsince` is only consulted once the first holds.
pub fn room_state_moved(current: Option<u64>, globalsince: u64, since: Option<u64>) -> (r: bool)
    ensures
        r == match current {
            Some(c) => c > globalsince && match since {
                Some(s) => s != c,
                None => false,
            },
            None => false,
        },
{
    match current {
        Some(c) => {
            if c <= globalsince {
                return false;
            }
            match since {
                Some(s) => s != c,
                None => false,
            }
        },
        None => false,
    }
}

/// For a room whose state moved: nothing more when it is not encrypted;
/// otherwise whether every member counts as changed, because the user
/// joined since the last sync or the room became encrypted since.
pub fn members_burst(encrypted: bool, encrypted_before: bool, joined_count: Option<u64>, globalsince: u64) -> (r: Option<bool>)
    ensures
        !encrypted ==> r is None,
        encrypted ==> r == Some(
            (match joined_count {
                Some(c) => c > globalsince,
                None => false,
            }) || !encrypted_before,
        ),
{
    if !encrypted {
        return None;
    }
    let joined_since = match joined_count {
        Some(c) => c > globalsince,
        None => false,
    };
    Some(joined_since || !encrypted_before)
}

/// The count of one-time keys is sent when the keys changed since the last
/// sync.
pub fn wants_one_time_keys_count(last_update: u64, globalsince: u64) -> (r: bool)
    ensures
        r == (last_update > globalsince),
{
    last_update > globalsince
}

/// Whether the private read marker goes with the receipts of a room: when
/// it moved after the room was last sent and not past the batch.
pub fn private_receipt_wanted(last_update: u64, roomsince: u64, next_batch: u64) -> (r: bool)
    ensures
        r == (roomsince < last_update && last_update <= next_batch),
{
    !(last_update <= roomsince || last_update > next_batch)
}

/// The receipts of a room: those of users the user does not ignore, then
/// the private read marker; nothing when that leaves none.
pub fn room_receipts(receipts: Vec<(String, bool)>, private: Option<String>) -> (r: Option<Vec<String>>)
    ensures
        ({
            let kept = receipts@.filter(|p: (String, bool)| !p.1).map_values(|p: (String, bool)| p.0);
            let all = match private {
                Some(p) => kept.push(p),
                None => kept,
            };
            if all.len() == 0 {
                r is None
            } else {
                r matches Some(v) && v@ == all
            }
        }),
{
    let mut out = crate::api::sync_v3::still_left(receipts);
    match private {
        Some(p) => out.push(p),
        None => {},
    }
    if out.len() == 0 {
        None
    } else {
        Some(out)
    }
}

/// The to-device events are sent, with the batch they go up to, only when
/// there are some.
pub fn to_device_response(events: Vec<String>, next_batch: u64) -> (r: Option<(u64, Vec<String>)>)
    ensures
        events@.len() == 0 ==> r is None,
        events@.len() > 0 ==> (r matches Some(p) && p.0 == next_batch && p.1@ == events@),
{
    if events.len() == 0 {
        None
    } else {
        Some((next_batch, events))
    }
}

/// The rooms with someone typing, each with the users typing; rooms whose
/// typing users could not be read, or with nobody typing, are left out.
pub fn typing_rooms(rooms: Vec<(String, Option<Vec<String>>)>) -> (r: Vec<(String, Vec<String>)>)
    ensures
        r@.len() <= rooms@.len(),
        r@ == rooms@.filter(|p: (String, Option<Vec<String>>)| (p.1 matches Some(u) && u@.len() > 0)).map_values(
            |p: (String, Option<Vec<String>>)| (p.0, p.1->0),
        ),
{
    let ghost all = rooms@;
    let ghost f = |p: (String, Option<Vec<String>>)| (p.1 matches Some(u) && u@.len() > 0);
    let ghost g = |p: (String, Option<Vec<String>>)| (p.0, p.1->0);
    let mut rest = rooms;
    let mut out: Vec<(String, Vec<String>)> = Vec::new();
    let n = rest.len();
    let mut i: usize = 0;
    while i < n
        invariant
            n == all.len(),
            i <= n,
            rest@ == all.skip(i as int),
            f == (|p: (String, Option<Vec<String>>)| (p.1 matches Some(u) && u@.len() > 0)),
            g == (|p: (String, Option<Vec<String>>)| (p.0, p.1->0)),
            out@ == all.take(i as int).filter(f).map_values(g),
        decreases n - i,
    {
        let (room_id, users) = rest.remove(0);
        let ghost item = (room_id, users);
        proof {
            assert(item == all[i as int]);
            assert(rest@ =~= all.skip(i + 1));
            assert(all.take(i + 1).drop_last() =~= all.take(i as int));
            reveal_with_fuel(Seq::filter, 1);
        }
        let ghost old_f = all.take(i as int).filter(f);
        match users {
            Some(u) => {
                if u.len() > 0 {
                    out.push((room_id, u));
                    proof {
                        assert(all.take(i + 1).filter(f) == old_f.push(item));
                        assert(old_f.push(item).map_values(g) =~= old_f.map_values(g).push(g(item)));
                    }
                } else {
                    proof {
                        assert(all.take(i + 1).filter(f) == old_f);
                    }
                }
            },
            None => {
                proof {
                    assert(all.take(i + 1).filter(f) == old_f);
                }
            },
        }
        i = i + 1;
    }
    proof {
        assert(all.take(n as int) =~= all);
        broadcast use vstd::seq_lib::group_filter_ensures;

    }
    out
}

/// The membership change that a state event added since the last sync
/// records: a membership event about another user, whose content reads as
/// member content and whose state key is a user ID; the membership by its
/// string form, and the user.
pub open spec fn spec_member_change(e: Event, sender: Seq<char>) -> Option<(Seq<char>, Seq<char>)> {
    if e.kind@ == member_type() && (e.state_key matches Some(k) && k@ != sender) {
        match ruma_member_membership(e.content@) {
            Some(m) => if ruma_user_id_valid(e.state_key->0@) {
                Some((m, e.state_key->0@))
            } else {
                None
            },
            None => None,
        }
    } else {
        None
    }
}

/// The changes of [`spec_member_change`] of the events, in order.
pub open spec fn spec_member_changes(events: Seq<Event>, sender: Seq<char>) -> Seq<(Seq<char>, Seq<char>)>
    decreases events.len(),
{
    if events.len() == 0 {
        Seq::empty()
    } else {
        let rest = spec_member_changes(events.drop_last(), sender);
        match spec_member_change(events.last(), sender) {
            Some(c) => rest.push(c),
            None => rest,
        }
    }
}

pub open spec fn change_views(v: Seq<(String, String)>) -> Seq<(Seq<char>, Seq<char>)> {
    v.map_values(|p: (String, String)| (p.0@, p.1@))
}

/// The membership changes among the state events added to a room since
/// the last sync, leaving out those about the user: each as its membership
/// (`join`, `leave`, ...) and the user it is about.
pub fn member_changes(events: &Vec<Event>, sender: &str) -> (r: Vec<(String, String)>)
    ensures
        change_views(r@) == spec_member_changes(events@, sender@),
{
    proof {
        reveal_strlit("m.room.member");
    }
    let mut out: Vec<(String, String)> = Vec::new();
    let mut i: usize = 0;
    while i < events.len()
        invariant
            i <= events@.len(),
            change_views(out@) == spec_member_changes(events@.take(i as int), sender@),
        decreases events.len() - i,
    {
        proof {
            assert(events@.take(i + 1).drop_last() =~= events@.take(i as int));
            assert(events@.take(i + 1).last() == events@[i as int]);
        }
        let e = &events[i];
        if str_eq(e.kind.as_str(), "m.room.member") {
            match &e.state_key {
                Some(k) => {
                    if !str_eq(k.as_str(), sender) {
                        match member_content_membership(e.content.as_str()) {
                            Some(m) => match parse_user_id(k.as_str()) {
                                Some(u) => {
                                    let ghost before = out@;
                                    out.push((m, u));
                                    proof {
                                        assert(change_views(out@) =~= change_views(before).push((m@, u@)));
                                    }
                                },
                                None => {},
                            },
                            None => {},
                        }
                    }
                },
                None => {},
            }
        }
        i = i + 1;
    }
    proof {
        assert(events@.take(events@.len() as int) =~= events@);
    }
    out
}

/// The members that count as joined when every member counts as changed:
/// all but the user, in order.
pub fn burst_members(members: &Vec<String>, sender: &str) -> (r: Vec<String>)
    ensures
        r@.map_values(|u: String| u@) == members@.map_values(|u: String| u@).filter(|u: Seq<char>| u != sender@),
{
    let ghost f = |u: Seq<char>| u != sender@;
    let mut out: Vec<String> = Vec::new();
    let mut i: usize = 0;
    while i < members.len()
        invariant
            i <= members@.len(),
            f == (|u: Seq<char>| u != sender@),
            out@.map_values(|u: String| u@) == members@.take(i as int).map_values(|u: String| u@).filter(f),
        decreases members.len() - i,
    {
        proof {
            assert(members@.take(i + 1).map_values(|u: String| u@) =~= members@.take(i as int).map_values(
                |u: String| u@,
            ).push(members@[i as int]@));
            let s1 = members@.take(i + 1).map_values(|u: String| u@);
            assert(s1.drop_last() =~= members@.take(i as int).map_values(|u: String| u@));
            assert(s1.last() == members@[i as int]@);
            reveal_with_fuel(Seq::filter, 1);
        }
        if !str_eq(members[i].as_str(), sender) {
            let ghost before = out@;
            out.push(members[i].clone());
            proof {
                assert(out@.map_values(|u: String| u@) =~= before.map_values(|u: String| u@).push(members@[i as int]@));
            }
        }
        i = i + 1;
    }
    proof {
        assert(members@.take(members@.len() as int) =~= members@);
    }
    out
}

/// A change in `changes` says `membership` of `user`.
pub open spec fn has_change(changes: Seq<(Seq<char>, Seq<char>)>, membership: Seq<char>, user: Seq<char>) -> bool {
    exists|i: int| 0 <= i < changes.len() && #[trigger] changes[i] == (membership, user)
}

proof fn lemma_changes_not_sender(events: Seq<Event>, sender: Seq<char>)
    ensures
        forall|i: int|
            0 <= i < spec_member_changes(events, sender).len() ==> (#[trigger] spec_member_changes(events, sender)[i]).1
                != sender,
    decreases events.len(),
{
    if events.len() > 0 {
        lemma_changes_not_sender(events.drop_last(), sender);
        let rest = spec_member_changes(events.drop_last(), sender);
        assert forall|i: int| 0 <= i < spec_member_changes(events, sender).len() implies (
        #[trigger] spec_member_changes(events, sender)[i]).1 != sender by {
            if i < rest.len() {
                assert(spec_member_changes(events, sender)[i] == rest[i]);
            }
        }
    }
}

proof fn lemma_inserted_holds(users: Seq<String>, user: String)
    ensures
        forall|u: Seq<char>| #[trigger] holds_user(inserted(users, user), u) <==> (holds_user(users, u) || user@ == u),
{
    assert forall|u: Seq<char>| #[trigger] holds_user(inserted(users, user), u) <==> (holds_user(users, u) || user@
        == u) by {
        if !holds_user(users, user@) {
            let s = users.push(user);
            if holds_user(s, u) {
                let i = choose|i: int| 0 <= i < s.len() && (#[trigger] s[i])@ == u;
                if i < users.len() {
                    assert(users[i] == s[i]);
                }
            }
            if holds_user(users, u) {
                let i = choose|i: int| 0 <= i < users.len() && (#[trigger] users[i])@ == u;
                assert(s[i] == users[i]);
            }
            if user@ == u {
                assert(s[users.len() as int] == user);
            }
        }
    }
}

proof fn lemma_inserted_all_holds(users: Seq<String>, more: Seq<String>)
    ensures
        forall|u: Seq<char>| #[trigger] holds_user(inserted_all(users, more), u) <==> (holds_user(users, u)
            || holds_user(more, u)),
    decreases more.len(),
{
    if more.len() > 0 {
        lemma_inserted_all_holds(users, more.drop_last());
        lemma_inserted_holds(inserted_all(users, more.drop_last()), more.last());
        assert forall|u: Seq<char>| #[trigger] holds_user(more, u) <==> (holds_user(more.drop_last(), u)
            || more.last()@ == u) by {
            if holds_user(more, u) {
                let i = choose|i: int| 0 <= i < more.len() && (#[trigger] more[i])@ == u;
                if i < more.len() - 1 {
                    assert(more.drop_last()[i] == more[i]);
                }
            }
            if holds_user(more.drop_last(), u) {
                let i = choose|i: int| 0 <= i < more.len() - 1 && (#[trigger] more.drop_last()[i])@ == u;
                assert(more[i] == more.drop_last()[i]);
            }
            if more.last()@ == u {
                assert(more[more.len() - 1] == more.last());
            }
        }
    }
}

/// What the device lists learn from one room: the users
/// whose keys changed in it; then, when its state moved since the last
/// sync and it is encrypted (`burst` is [`members_burst`], `None` for a
/// room that is not), each other user that joined and shares no other
/// encrypted room with the user (every other member so, when `burst` says
/// all count), and each other user that left.
pub fn e2ee_room_changes(
    sender: &str,
    key_changes: Vec<String>,
    state_moved: bool,
    burst: Option<bool>,
    added_state: &Vec<Event>,
    members: &Vec<String>,
    shared: &Vec<String>,
) -> (r: DeviceListUpdates)
    ensures
        distinct_users(r.changed@),
        distinct_users(r.left@),
        forall|u: Seq<char>|
            #[trigger] holds_user(r.left@, u) <==> (state_moved && burst is Some && has_change(
                spec_member_changes(added_state@, sender@),
                "leave"@,
                u,
            )),
        forall|u: Seq<char>|
            #[trigger] holds_user(r.changed@, u) <==> (holds_user(key_changes@, u) || (state_moved && burst is Some
                && !holds_user(shared@, u) && (has_change(spec_member_changes(added_state@, sender@), "join"@, u) || (
            burst == Some(true) && u != sender@ && holds_user(members@, u))))),
        forall|u: Seq<char>| #[trigger] holds_user(r.left@, u) ==> u != sender@,
{
    let mut updates = DeviceListUpdates { changed: Vec::new(), left: Vec::new() };
    let ghost keys = key_changes@;
    merge_users(&mut updates.changed, key_changes);
    proof {
        lemma_inserted_all_holds(Seq::empty(), keys);
        assert forall|u: Seq<char>| !holds_user(Seq::<String>::empty(), u) by {}
        assert(distinct_users(Seq::<String>::empty()));
    }
    if !state_moved {
        return updates;
    }
    let all = match burst {
        None => {
            return updates;
        },
        Some(b) => b,
    };
    proof {
        reveal_strlit("join");
        reveal_strlit("leave");
    }
    let changes = member_changes(added_state, sender);
    let ghost cs = spec_member_changes(added_state@, sender@);
    proof {
        lemma_changes_not_sender(added_state@, sender@);
        assert(changes@.len() == cs.len()) by {
            assert(crate::api::sync_v5::extensions::change_views(changes@).len() == changes@.len());
        }
    }
    let mut i: usize = 0;
    while i < changes.len()
        invariant
            i <= changes@.len(),
            change_views(changes@) == cs,
            cs == spec_member_changes(added_state@, sender@),
            forall|k: int| 0 <= k < cs.len() ==> (#[trigger] cs[k]).1 != sender@,
            distinct_users(updates.changed@),
            distinct_users(updates.left@),
            forall|u: Seq<char>|
                #[trigger] holds_user(updates.left@, u) <==> has_change(cs.take(i as int), "leave"@, u),
            forall|u: Seq<char>|
                #[trigger] holds_user(updates.changed@, u) <==> (holds_user(keys, u) || (!holds_user(shared@, u)
                    && has_change(cs.take(i as int), "join"@, u))),
        decreases changes.len() - i,
    {
        let ghost c = cs[i as int];
        proof {
            assert(change_views(changes@)[i as int] == (changes@[i as int].0@, changes@[i as int].1@));
            assert forall|m: Seq<char>, u: Seq<char>| #[trigger] has_change(cs.take(i + 1), m, u) <==> (has_change(
                cs.take(i as int),
                m,
                u,
            ) || c == (m, u)) by {
                if has_change(cs.take(i + 1), m, u) {
                    let k = choose|k: int| 0 <= k < cs.take(i + 1).len() && #[trigger] cs.take(i + 1)[k] == (m, u);
                    if k < i {
                        assert(cs.take(i as int)[k] == cs.take(i + 1)[k]);
                    }
                }
                if has_change(cs.take(i as int), m, u) {
                    let k = choose|k: int| 0 <= k < cs.take(i as int).len() && #[trigger] cs.take(i as int)[k] == (m, u);
                    assert(cs.take(i + 1)[k] == cs.take(i as int)[k]);
                }
                if c == (m, u) {
                    assert(cs.take(i + 1)[i as int] == c);
                }
            }
        }
        let m = &changes[i].0;
        let u = &changes[i].1;
        proof {
            reveal_strlit("join");
            reveal_strlit("leave");
            assert("join"@.len() == 4);
            assert("leave"@.len() == 5);
            assert(c == (m@, u@));
        }
        if str_eq(m.as_str(), "join") {
            if !list_contains(shared.as_slice(), u.as_str()) {
                proof {
                    lemma_inserted_holds(updates.changed@, *u);
                }
                insert_user(&mut updates.changed, u.clone());
            }
        } else if str_eq(m.as_str(), "leave") {
            proof {
                lemma_inserted_holds(updates.left@, *u);
            }
            insert_user(&mut updates.left, u.clone());
        }
        i = i + 1;
    }
    proof {
        assert(cs.take(changes@.len() as int) =~= cs);
    }
    if all {
        let others = burst_members(members, sender);
        let ghost ov = others@.map_values(|x: String| x@);
        let mut j: usize = 0;
        while j < others.len()
            invariant
                j <= others@.len(),
                ov == others@.map_values(|x: String| x@),
                ov == members@.map_values(|x: String| x@).filter(|x: Seq<char>| x != sender@),
                cs == spec_member_changes(added_state@, sender@),
                forall|k: int| 0 <= k < cs.len() ==> (#[trigger] cs[k]).1 != sender@,
                distinct_users(updates.changed@),
                distinct_users(updates.left@),
                forall|u: Seq<char>| #[trigger] holds_user(updates.left@, u) <==> has_change(cs, "leave"@, u),
                forall|u: Seq<char>|
                    #[trigger] holds_user(updates.changed@, u) <==> (holds_user(keys, u) || (!holds_user(shared@, u)
                        && (has_change(cs, "join"@, u) || holds_user(others@.take(j as int), u)))),
            decreases others.len() - j,
        {
            proof {
                assert forall|u: Seq<char>| #[trigger] holds_user(others@.take(j + 1), u) <==> (holds_user(
                    others@.take(j as int),
                    u,
                ) || others@[j as int]@ == u) by {
                    assert(others@.take(j + 1).drop_last() =~= others@.take(j as int));
                    if holds_user(others@.take(j + 1), u) {
                        let k = choose|k: int| 0 <= k < j + 1 && (#[trigger] others@.take(j + 1)[k])@ == u;
                        if k < j {
                            assert(others@.take(j as int)[k] == others@.take(j + 1)[k]);
                        }
                    }
                    if holds_user(others@.take(j as int), u) {
                        let k = choose|k: int| 0 <= k < j && (#[trigger] others@.take(j as int)[k])@ == u;
                        assert(others@.take(j + 1)[k] == others@.take(j as int)[k]);
                    }
                    if others@[j as int]@ == u {
                        assert(others@.take(j + 1)[j as int] == others@[j as int]);
                    }
                }
            }
            let u = &others[j];
            if !list_contains(shared.as_slice(), u.as_str()) {
                proof {
                    lemma_inserted_holds(updates.changed@, *u);
                }
                insert_user(&mut updates.changed, u.clone());
            }
            j = j + 1;
        }
        proof {
            assert(others@.take(others@.len() as int) =~= others@);
            assert forall|u: Seq<char>| #[trigger] holds_user(others@, u) <==> (u != sender@ && holds_user(members@, u)) by {
                let f = |x: Seq<char>| x != sender@;
                let mv = members@.map_values(|x: String| x@);
                if holds_user(others@, u) {
                    let k = choose|k: int| 0 <= k < others@.len() && (#[trigger] others@[k])@ == u;
                    assert(ov[k] == u);
                    mv.lemma_filter_pred(f, k);
                    assert(mv.filter(f).contains(u));
                    mv.lemma_filter_contains_rev(f, u);
                    let m = choose|m: int| 0 <= m < mv.len() && mv[m] == u;
                    assert(members@[m]@ == u);
                }
                if u != sender@ && holds_user(members@, u) {
                    let m = choose|m: int| 0 <= m < members@.len() && (#[trigger] members@[m])@ == u;
                    assert(mv[m] == u);
                    mv.lemma_filter_contains(f, m);
                    assert(ov.contains(u));
                    let k = choose|k: int| 0 <= k < ov.len() && ov[k] == u;
                    assert(others@[k]@ == u);
                }
            }
        }
    }
    proof {
        assert forall|u: Seq<char>| #[trigger] holds_user(updates.left@, u) implies u != sender@ by {
            let k = choose|k: int| 0 <= k < cs.len() && #[trigger] cs[k] == ("leave"@, u);
        }
    }
    updates
}

} // verus!
