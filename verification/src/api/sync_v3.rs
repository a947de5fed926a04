use vstd::prelude::*;
use crate::matrix::event::{Event, MembershipState, is_membership_of, member_type};
use crate::matrix::filter::{allowed, Matches, RoomEventFilter, RoomFilter, spec_event_matches};
use crate::utils::string::{decimal, digit_char, str_eq};

verus! {

/// The value of a string of decimal digits.
pub open spec fn digits_value(s: Seq<char>) -> nat
    decreases s.len(),
{
    if s.len() == 0 {
        0
    } else {
        (digits_value(s.drop_last()) * 10 + (s.last() as nat - 48)) as nat
    }
}

pub open spec fn all_digits(s: Seq<char>) -> bool {
    forall|i: int| 0 <= i < s.len() ==> '0' <= #[trigger] s[i] <= '9'
}

/// What `str::parse::<u64>` gives: an optional `+`, then at least one
/// decimal digit, and a value that fits.
pub open spec fn spec_parse_u64(s: Seq<char>) -> Option<u64> {
    let t = if s.len() > 0 && s[0] == '+' {
        s.drop_first()
    } else {
        s
    };
    if t.len() > 0 && all_digits(t) && digits_value(t) <= u64::MAX {
        Some(digits_value(t) as u64)
    } else {
        None
    }
}

proof fn lemma_digits_value_mono(t: Seq<char>, k: int)
    requires
        0 <= k <= t.len(),
        all_digits(t),
    ensures
        digits_value(t.take(k)) <= digits_value(t),
    decreases t.len() - k,
{
    if k < t.len() {
        lemma_digits_value_mono(t, k + 1);
        assert(t.take(k + 1).drop_last() =~= t.take(k));
        assert('0' <= t[k] <= '9');
    } else {
        assert(t.take(k) =~= t);
    }
}

/// Parses a decimal `u64` as `str::parse` does.
pub fn parse_u64(s: &str) -> (r: Option<u64>)
    ensures
        r == spec_parse_u64(s@),
{
    let n = s.unicode_len();
    let mut i: usize = 0;
    if n > 0 && s.get_char(0) == '+' {
        i = 1;
    }
    let ghost t = if s@.len() > 0 && s@[0] == '+' {
        s@.drop_first()
    } else {
        s@
    };
    if i == n {
        return None;
    }
    let start = i;
    let mut v: u64 = 0;
    let mut ok = true;
    while i < n
        invariant
            n == s@.len(),
            start <= i <= n,
            start < n,
            t == s@.skip(start as int),
            t == (if s@.len() > 0 && s@[0] == '+' {
                s@.drop_first()
            } else {
                s@
            }),
            ok ==> all_digits(t.take(i - start)) && v == digits_value(t.take(i - start)),
            !ok ==> spec_parse_u64(s@) is None,
        decreases n - i,
    {
        let c = s.get_char(i);
        if ok {
            proof {
                assert(t.take(i + 1 - start).drop_last() =~= t.take(i - start));
                assert(t[i - start] == c);
                assert(t.take(i + 1 - start).last() == c);
            }
            if c < '0' || c > '9' {
                ok = false;
                proof {
                    assert(!('0' <= t[i - start] <= '9'));
                    assert(!all_digits(t));
                    assert(spec_parse_u64(s@) is None);
                }
            } else {
                let d: u64 = (c as u32 - 48) as u64;
                proof {
                    assert(d == c as nat - 48);
                    assert(digits_value(t.take(i + 1 - start)) == digits_value(t.take(i - start)) * 10 + d);
                }
                match v.checked_mul(10) {
                    Some(m) => match m.checked_add(d) {
                        Some(w) => {
                            v = w;
                        },
                        None => {
                            ok = false;
                            proof {
                                if all_digits(t) {
                                    lemma_digits_value_mono(t, i + 1 - start);
                                    assert(digits_value(t.take(i + 1 - start)) == v * 10 + d);
                                }
                                assert(spec_parse_u64(s@) is None);
                            }
                        },
                    },
                    None => {
                        ok = false;
                        proof {
                            if all_digits(t) {
                                lemma_digits_value_mono(t, i + 1 - start);
                                assert(digits_value(t.take(i + 1 - start)) == v * 10 + d);
                            }
                        }
                    },
                }
            }
        }
        i = i + 1;
    }
    proof {
        assert(t.take(n - start) =~= t);
        if s@.len() > 0 && s@[0] == '+' {
            assert(s@.skip(1) =~= s@.drop_first());
        } else {
            assert(s@.skip(0) =~= s@);
        }
    }
    if ok {
        Some(v)
    } else {
        None
    }
}

/// A stream token, as a count: the parsed value, or zero when it is missing
/// or malformed.
pub fn parse_count(token: Option<&str>) -> (r: u64)
    ensures
        r == match token {
            Some(s) => match spec_parse_u64(s@) {
                Some(n) => n,
                None => 0,
            },
            None => 0,
        },
{
    match token {
        Some(s) => match parse_u64(s) {
            Some(n) => n,
            None => 0,
        },
        None => 0,
    }
}

/// The long-poll timeout in milliseconds: the requested one when it fits
/// in a `u64`, otherwise the default, then raised to the minimum and
/// lowered to the maximum.
pub open spec fn spec_client_timeout(requested: Option<u128>, default: u64, min: u64, max: u64) -> u64 {
    let t = match requested {
        Some(ms) if ms <= u64::MAX => ms as u64,
        _ => default,
    };
    let t = if t < min {
        min
    } else {
        t
    };
    if t > max {
        max
    } else {
        t
    }
}

/// See [`spec_client_timeout`].
pub fn client_timeout(requested: Option<u128>, default: u64, min: u64, max: u64) -> (r: u64)
    ensures
        r == spec_client_timeout(requested, default, min, max),
{
    let t = match requested {
        Some(ms) => if ms <= u64::MAX as u128 {
            ms as u64
        } else {
            default
        },
        None => default,
    };
    let t = if t < min {
        min
    } else {
        t
    };
    if t > max {
        max
    } else {
        t
    }
}

/// The state of a long-polling sync request.
#[derive(Debug, Clone, Copy, PartialEq, Eq, Structural)]
pub struct SyncState {
    pub since: u64,
    pub full_state: bool,
    /// The upper end of the window being served, once known.
    pub next_batch: Option<u64>,
    /// When the request must be answered, in milliseconds: every wait ends
    /// by then.
    pub stop_at: u64,
}

/// The state of a new sync request at `now`: waits end `timeout`
/// milliseconds later (the clamped [`client_timeout`]), which must not run
/// past the clock's range.
pub fn sync_start(since: u64, full_state: bool, now: u64, timeout: u64) -> (r: SyncState)
    requires
        now + timeout <= u64::MAX,
    ensures
        r == (SyncState { since, full_state, next_batch: None, stop_at: (now + timeout) as u64 }),
{
    SyncState { since, full_state, next_batch: None, stop_at: now + timeout }
}

/// What happened since the last step.
#[derive(Debug, Clone, Copy, PartialEq, Eq, Structural)]
pub enum SyncEvent {
    /// The pending writes are done; `next_batch` is the current count.
    Pending { next_batch: u64 },
    /// A response was built; `empty` when it holds nothing.
    Built { empty: bool },
    /// The wait for activity ended, by a timeout or not, possibly while the
    /// server stops.
    Woke { timed_out: bool, stopping: bool },
}

/// What to do next.
#[derive(Debug, Clone, Copy, PartialEq, Eq, Structural)]
pub enum SyncAction {
    /// Build a response for the window `(since, next_batch]`.
    Build { since: u64, next_batch: u64 },
    /// Send the response that was built.
    Respond,
    /// Wait for activity in the watched rooms, until `until` at the latest.
    Wait { until: u64 },
    /// Send an empty response at `next_batch`.
    RespondEmpty { next_batch: u64 },
    /// Wait for the pending writes to finish.
    AwaitPending,
}

pub open spec fn spec_sync_step(state: SyncState, event: SyncEvent) -> (SyncState, SyncAction) {
    match event {
        SyncEvent::Pending { next_batch } => {
            let since = if state.since > next_batch {
                next_batch
            } else {
                state.since
            };
            let s = SyncState { since, next_batch: Some(next_batch), ..state };
            if since < next_batch || state.full_state {
                (s, SyncAction::Build { since, next_batch })
            } else {
                (s, SyncAction::Wait { until: state.stop_at })
            }
        },
        SyncEvent::Built { empty } => if !empty || state.full_state {
            (state, SyncAction::Respond)
        } else {
            (state, SyncAction::Wait { until: state.stop_at })
        },
        SyncEvent::Woke { timed_out, stopping } => match state.next_batch {
            Some(nb) => if timed_out || stopping {
                (state, SyncAction::RespondEmpty { next_batch: nb })
            } else {
                (SyncState { since: nb, next_batch: None, ..state }, SyncAction::AwaitPending)
            },
            None => (state, SyncAction::AwaitPending),
        },
    }
}

/// One step of the sync long-poll: clamps `since` to the current count,
/// builds a response when there is something new (or full state is asked
/// for), returns a response that is not empty, and after a wait either
/// answers empty (on timeout or shutdown) or starts over from the count it
/// waited at.
pub fn sync_step(state: SyncState, event: SyncEvent) -> (r: (SyncState, SyncAction))
    ensures
        r == spec_sync_step(state, event),
{
    match event {
        SyncEvent::Pending { next_batch } => {
            let since = if state.since > next_batch {
                next_batch
            } else {
                state.since
            };
            let s = SyncState { since, next_batch: Some(next_batch), full_state: state.full_state, stop_at: state.stop_at };
            if since < next_batch || state.full_state {
                (s, SyncAction::Build { since, next_batch })
            } else {
                (s, SyncAction::Wait { until: state.stop_at })
            }
        },
        SyncEvent::Built { empty } => if !empty || state.full_state {
            (state, SyncAction::Respond)
        } else {
            (state, SyncAction::Wait { until: state.stop_at })
        },
        SyncEvent::Woke { timed_out, stopping } => match state.next_batch {
            Some(nb) => if timed_out || stopping {
                (state, SyncAction::RespondEmpty { next_batch: nb })
            } else {
                (
                    SyncState { since: nb, next_batch: None, full_state: state.full_state, stop_at: state.stop_at },
                    SyncAction::AwaitPending,
                )
            },
            None => (state, SyncAction::AwaitPending),
        },
    }
}

/// No step moves the deadline, and every wait ends by it: a request that
/// started at `now` with `timeout` waits at most `timeout` milliseconds in
/// all before it is answered.
pub proof fn lemma_sync_waits_end_by_deadline(state: SyncState, event: SyncEvent)
    ensures
        spec_sync_step(state, event).0.stop_at == state.stop_at,
        spec_sync_step(state, event).1 matches SyncAction::Wait { until } ==> until == state.stop_at,
{
}

/// Every response is built for a window that does not reach past the
/// current count, and that is non-empty unless full state is asked for.
pub proof fn lemma_sync_builds_valid_window(state: SyncState, next_batch: u64)
    ensures
        spec_sync_step(state, SyncEvent::Pending { next_batch }).1 matches SyncAction::Build {
            since,
            next_batch: nb,
        } ==> since <= nb && nb == next_batch && (since < nb || state.full_state),
        spec_sync_step(state, SyncEvent::Pending { next_batch }).0.since <= next_batch,
{
}

/// Whether an invite or knock at `count` falls in the window
/// `(since, next_batch]`; a missing count never does.
pub open spec fn spec_in_window(since: u64, next_batch: u64, count: Option<u64>) -> bool {
    count matches Some(c) && since < c && c <= next_batch
}

/// See [`spec_in_window`].
pub fn in_sync_window(since: u64, next_batch: u64, count: Option<u64>) -> (r: bool)
    ensures
        r == spec_in_window(since, next_batch, count),
{
    match count {
        Some(c) => since < c && c <= next_batch,
        None => false,
    }
}

/// What to send for a room the user has left.
#[derive(Debug, Clone, Copy, PartialEq, Eq, Structural)]
pub enum LeftRoomAction {
    /// Nothing: the leave is outside the window, or unwanted.
    Skip,
    /// Only a synthetic leave event, as the room is gone, disabled or banned.
    Placeholder { prev_batch: u64 },
    /// The room's state and timeline up to the leave.
    Load { left_count: u64 },
}

pub open spec fn spec_left_room_action(
    left_count: Option<u64>,
    since: u64,
    next_batch: u64,
    include_leave: bool,
    room_unavailable: bool,
) -> LeftRoomAction {
    let left = match left_count {
        Some(c) => c,
        None => 0,
    };
    if left == 0 || left > next_batch {
        LeftRoomAction::Skip
    } else if since == 0 && !include_leave {
        LeftRoomAction::Skip
    } else if since != 0 && left <= since {
        LeftRoomAction::Skip
    } else if room_unavailable {
        LeftRoomAction::Placeholder { prev_batch: left }
    } else {
        LeftRoomAction::Load { left_count: left }
    }
}

/// A leave is wanted when it happened at a count inside the window: after
/// `since` (any count above zero on an initial sync, and then only when the
/// filter includes left rooms) and not past `next_batch`.
pub open spec fn leave_wanted(left_count: Option<u64>, since: u64, next_batch: u64, include_leave: bool) -> bool {
    left_count matches Some(c) && 0 < c <= next_batch && (if since == 0 {
        include_leave
    } else {
        since < c
    })
}

/// A left room is synced exactly when its leave is wanted: then it is
/// loaded up to the leave, or given as a placeholder when the room is no
/// longer available, at the count of the leave; otherwise it is skipped.
pub proof fn lemma_left_room_synced(
    left_count: Option<u64>,
    since: u64,
    next_batch: u64,
    include_leave: bool,
    room_unavailable: bool,
)
    ensures
        ({
            let a = spec_left_room_action(left_count, since, next_batch, include_leave, room_unavailable);
            &&& (a == LeftRoomAction::Skip) <==> !leave_wanted(left_count, since, next_batch, include_leave)
            &&& leave_wanted(left_count, since, next_batch, include_leave) && !room_unavailable ==> a
                == LeftRoomAction::Load { left_count: left_count->0 }
            &&& leave_wanted(left_count, since, next_batch, include_leave) && room_unavailable ==> a
                == LeftRoomAction::Placeholder { prev_batch: left_count->0 }
        }),
{
}

/// Decides how a left room is synced: only a leave inside the window, only
/// once, and on an initial sync only when the filter includes left rooms.
pub fn left_room_action(
    left_count: Option<u64>,
    since: u64,
    next_batch: u64,
    include_leave: bool,
    room_unavailable: bool,
) -> (r: LeftRoomAction)
    ensures
        r == spec_left_room_action(left_count, since, next_batch, include_leave, room_unavailable),
        leave_wanted(left_count, since, next_batch, include_leave) ==> r != LeftRoomAction::Skip,
        !leave_wanted(left_count, since, next_batch, include_leave) ==> r == LeftRoomAction::Skip,
{
    let left = match left_count {
        Some(c) => c,
        None => 0,
    };
    if left == 0 || left > next_batch {
        return LeftRoomAction::Skip;
    }
    if since == 0 && !include_leave {
        return LeftRoomAction::Skip;
    }
    if since != 0 && left <= since {
        return LeftRoomAction::Skip;
    }
    if room_unavailable {
        LeftRoomAction::Placeholder { prev_batch: left }
    } else {
        LeftRoomAction::Load { left_count: left }
    }
}

/// The number of timeline events to send: the filter's limit or ten, at
/// most a hundred.
pub open spec fn spec_timeline_limit(limit: Option<u64>) -> usize {
    match limit {
        Some(l) => if l > 100 {
            100
        } else {
            l as usize
        },
        None => 10,
    }
}

/// See [`spec_timeline_limit`]. A limit must fit in a `usize`.
pub fn timeline_limit(limit: Option<u64>) -> (r: usize)
    requires
        limit matches Some(l) ==> l <= usize::MAX,
    ensures
        r == spec_timeline_limit(limit),
{
    let l: usize = match limit {
        Some(l) => l as usize,
        None => 10,
    };
    if l > 100 {
        100
    } else {
        l
    }
}

/// The events that pass `filter`, in order, at most `limit` of them.
pub open spec fn take_matching(events: Seq<Event>, filter: RoomEventFilter, limit: nat) -> Seq<Event>
    decreases events.len(),
{
    if events.len() == 0 {
        Seq::empty()
    } else {
        let rest = take_matching(events.drop_last(), filter, limit);
        if spec_event_matches(filter, events.last()) && rest.len() < limit {
            rest.push(events.last())
        } else {
            rest
        }
    }
}

/// Keeps the events that pass `filter`, in order, stopping after `limit`.
pub fn filter_timeline(events: Vec<Event>, filter: &RoomEventFilter, limit: usize) -> (r: Vec<
    Event,
>)
    ensures
        r@ == take_matching(events@, *filter, limit as nat),
        r@.len() <= limit,
{
    let mut out: Vec<Event> = Vec::new();
    let mut rest = events;
    let ghost all = rest@;
    let n = rest.len();
    let mut i: usize = 0;
    while i < n
        invariant
            n == all.len(),
            i <= n,
            rest@ == all.skip(i as int),
            out@ == take_matching(all.take(i as int), *filter, limit as nat),
            out@.len() <= limit,
        decreases n - i,
    {
        let e = rest.remove(0);
        proof {
            assert(e == all[i as int]);
            assert(rest@ =~= all.skip(i + 1));
            assert(all.take(i + 1).drop_last() =~= all.take(i as int));
            assert(all.take(i + 1).last() == all[i as int]);
        }
        if out.len() < limit && filter.matches(&e) {
            out.push(e);
        }
        i = i + 1;
    }
    proof {
        assert(all.take(n as int) =~= all);
    }
    out
}


/// The state of a left room to send: the state events that pass the
/// filter (without the user's own membership when no timeline is sent), and
/// then, when no timeline is sent, the last timeline event.
pub open spec fn spec_left_room_state(
    state: Seq<Event>,
    filter: RoomEventFilter,
    timeline_limit: usize,
    sender: Seq<char>,
    last_timeline: Option<Event>,
) -> Seq<Event> {
    state.filter(
        |e: Event| spec_event_matches(filter, e) && (timeline_limit > 0 || !is_membership_of(e, sender)),
    ) + if timeline_limit == 0 && last_timeline is Some {
        seq![last_timeline->0]
    } else {
        Seq::empty()
    }
}

/// See [`spec_left_room_state`].
pub fn left_room_state(
    state: Vec<Event>,
    filter: &RoomEventFilter,
    timeline_limit: usize,
    sender: &str,
    last_timeline: Option<Event>,
) -> (r: Vec<Event>)
    ensures
        r@ == spec_left_room_state(state@, *filter, timeline_limit, sender@, last_timeline),
{
    let ghost keep = |e: Event|
        spec_event_matches(*filter, e) && (timeline_limit > 0 || !is_membership_of(e, sender@));
    let ghost all = state@;
    let mut rest = state;
    let mut out: Vec<Event> = Vec::new();
    let n = rest.len();
    let mut i: usize = 0;
    while i < n
        invariant
            n == all.len(),
            i <= n,
            rest@ == all.skip(i as int),
            out@ == all.take(i as int).filter(keep),
            keep == (|e: Event|
                spec_event_matches(*filter, e) && (timeline_limit > 0 || !is_membership_of(e, sender@))),
        decreases n - i,
    {
        let e = rest.remove(0);
        proof {
            assert(e == all[i as int]);
            assert(rest@ =~= all.skip(i + 1));
            assert(all.take(i + 1).drop_last() =~= all.take(i as int));
            reveal_with_fuel(Seq::filter, 1);
        }
        if filter.matches(&e) && (timeline_limit > 0 || !e.is_membership_of(sender)) {
            out.push(e);
        }
        i = i + 1;
    }
    proof {
        assert(all.take(n as int) =~= all);
    }
    if timeline_limit == 0 {
        match last_timeline {
            Some(e) => {
                out.push(e);
            },
            None => {},
        }
    }
    proof {
        assert(out@ =~= spec_left_room_state(all, *filter, timeline_limit, sender@, last_timeline));
    }
    out
}

/// The token before the timeline of a left room: the first timeline event's
/// count when a timeline is sent, otherwise the count of the leave.
pub fn left_room_prev_batch(first_timeline: Option<u64>, timeline_limit: usize, left_count: u64) -> (r: Option<u64>)
    ensures
        r == if timeline_limit > 0 && first_timeline is Some {
            first_timeline
        } else if timeline_limit == 0 {
            Some(left_count)
        } else {
            None
        },
{
    if timeline_limit > 0 && first_timeline.is_some() {
        first_timeline
    } else if timeline_limit == 0 {
        Some(left_count)
    } else {
        None
    }
}

/// The entries whose flag is `want` and whose room passes the room filter,
/// in order, without the flag.
pub open spec fn kept_rooms<T>(entries: Seq<(String, T, bool)>, filter: RoomFilter, want: bool) -> Seq<(String, T)> {
    entries.filter(room_kept(filter, want)).map_values(unflagged())
}

/// An entry whose flag is `want` and whose room passes the filter.
pub open spec fn room_kept<T>(filter: RoomFilter, want: bool) -> spec_fn((String, T, bool)) -> bool {
    |e: (String, T, bool)| e.2 == want && allowed(filter.not_rooms@, filter.rooms, e.0@)
}

/// An entry without its flag.
pub open spec fn unflagged<T>() -> spec_fn((String, T, bool)) -> (String, T) {
    |e: (String, T, bool)| (e.0, e.1)
}

fn keep_rooms<T>(entries: Vec<(String, T, bool)>, filter: &RoomFilter, want: bool) -> (r: Vec<(String, T)>)
    ensures
        r@ == kept_rooms(entries@, *filter, want),
{
    let ghost keep = room_kept::<T>(*filter, want);
    let ghost strip = unflagged::<T>();
    let ghost all = entries@;
    let mut rest = entries;
    let mut out: Vec<(String, T)> = Vec::new();
    let n = rest.len();
    let mut i: usize = 0;
    while i < n
        invariant
            n == all.len(),
            i <= n,
            rest@ == all.skip(i as int),
            keep == room_kept::<T>(*filter, want),
            strip == unflagged::<T>(),
            out@ == all.take(i as int).filter(keep).map_values(strip),
        decreases n - i,
    {
        let e = rest.remove(0);
        proof {
            assert(e == all[i as int]);
            assert(rest@ =~= all.skip(i + 1));
            assert(all.take(i + 1).drop_last() =~= all.take(i as int));
            assert(all.take(i + 1).last() == all[i as int]);
            reveal_with_fuel(Seq::filter, 1);
        }
        let (room_id, room, flag) = e;
        if flag == want && filter.matches(room_id.as_str()) {
            let ghost before = out@;
            out.push((room_id, room));
            proof {
                assert(all.take(i + 1).filter(keep) == all.take(i as int).filter(keep).push(all[i as int]));
                assert(out@ =~= all.take(i + 1).filter(keep).map_values(strip));
            }
        } else {
            proof {
                assert(all.take(i + 1).filter(keep) == all.take(i as int).filter(keep));
            }
        }
        i = i + 1;
    }
    proof {
        assert(all.take(n as int) =~= all);
    }
    out
}

/// Each entry with whether its count lies in the sync window.
pub open spec fn window_flagged<T>(entries: Seq<(String, Option<u64>, T)>, since: u64, next_batch: u64) -> Seq<
    (String, T, bool),
> {
    entries.map_values(|e: (String, Option<u64>, T)| (e.0, e.2, spec_in_window(since, next_batch, e.1)))
}

fn flag_window<T>(entries: Vec<(String, Option<u64>, T)>, since: u64, next_batch: u64) -> (r: Vec<(String, T, bool)>)
    ensures
        r@ == window_flagged(entries@, since, next_batch),
{
    let ghost all = entries@;
    let mut rest = entries;
    let mut out: Vec<(String, T, bool)> = Vec::new();
    let n = rest.len();
    let mut i: usize = 0;
    while i < n
        invariant
            n == all.len(),
            i <= n,
            rest@ == all.skip(i as int),
            out@ == window_flagged(all.take(i as int), since, next_batch),
        decreases n - i,
    {
        let e = rest.remove(0);
        proof {
            assert(e == all[i as int]);
            assert(rest@ =~= all.skip(i + 1));
        }
        let (room_id, count, room) = e;
        let inside = in_sync_window(since, next_batch, count);
        out.push((room_id, room, inside));
        proof {
            assert(out@ =~= window_flagged(all.take(i + 1), since, next_batch));
        }
        i = i + 1;
    }
    proof {
        assert(all.take(n as int) =~= all);
    }
    out
}

/// The rooms of a sync response, by room ID.
pub struct SyncRooms<J, I, L> {
    pub next_batch: u64,
    pub joined: Vec<(String, J)>,
    pub invited: Vec<(String, I)>,
    pub knocked: Vec<(String, I)>,
    pub left: Vec<(String, L)>,
}

/// Assembles the rooms of a sync response from what was loaded: the rooms
/// that pass the room filter; joined rooms only when they hold something
/// (each comes with whether it is empty); invites and knocks only when
/// their count lies in the window (`since < count <= next_batch`); and the
/// batch the response goes up to.
pub fn assemble_sync<J, I, L>(
    next_batch: u64,
    since: u64,
    filter: &RoomFilter,
    joined: Vec<(String, J, bool)>,
    invited: Vec<(String, Option<u64>, I)>,
    knocked: Vec<(String, Option<u64>, I)>,
    left: Vec<(String, L)>,
) -> (r: SyncRooms<J, I, L>)
    ensures
        r.next_batch == next_batch,
        r.joined@ == kept_rooms(joined@, *filter, false),
        r.invited@ == kept_rooms(window_flagged(invited@, since, next_batch), *filter, true),
        r.knocked@ == kept_rooms(window_flagged(knocked@, since, next_batch), *filter, true),
        r.left@ == kept_rooms(left@.map_values(|e: (String, L)| (e.0, e.1, true)), *filter, true),
{
    let joined = keep_rooms(joined, filter, false);
    let invited = keep_rooms(flag_window(invited, since, next_batch), filter, true);
    let knocked = keep_rooms(flag_window(knocked, since, next_batch), filter, true);
    let ghost left0 = left@;
    let mut rest = left;
    let mut flagged: Vec<(String, L, bool)> = Vec::new();
    let n = rest.len();
    let mut i: usize = 0;
    while i < n
        invariant
            n == left0.len(),
            i <= n,
            rest@ == left0.skip(i as int),
            flagged@ == left0.take(i as int).map_values(|e: (String, L)| (e.0, e.1, true)),
        decreases n - i,
    {
        let e = rest.remove(0);
        proof {
            assert(e == left0[i as int]);
            assert(rest@ =~= left0.skip(i + 1));
        }
        let (room_id, room) = e;
        flagged.push((room_id, room, true));
        proof {
            assert(flagged@ =~= left0.take(i + 1).map_values(|e: (String, L)| (e.0, e.1, true)));
        }
        i = i + 1;
    }
    proof {
        assert(left0.take(n as int) =~= left0);
    }
    let left = keep_rooms(flagged, filter, true);
    SyncRooms { next_batch, joined, invited, knocked, left }
}

/// Every room that [`assemble_sync`] keeps passes the room filter: each
/// joined room it keeps is one that was loaded and not empty; each invite
/// it keeps (and each knock, alike) is one that was loaded with a count in
/// the window.
pub proof fn lemma_assembled_rooms<J, I>(
    filter: RoomFilter,
    since: u64,
    next_batch: u64,
    joined: Seq<(String, J, bool)>,
    invited: Seq<(String, Option<u64>, I)>,
)
    ensures
        forall|k: int|
            0 <= k < kept_rooms(joined, filter, false).len() ==> joined.contains(
                (#[trigger] kept_rooms(joined, filter, false)[k].0, kept_rooms(joined, filter, false)[k].1, false),
            ) && allowed(filter.not_rooms@, filter.rooms, kept_rooms(joined, filter, false)[k].0@),
        forall|k: int|
            0 <= k < kept_rooms(window_flagged(invited, since, next_batch), filter, true).len() ==> {
                let e = #[trigger] kept_rooms(window_flagged(invited, since, next_batch), filter, true)[k];
                &&& allowed(filter.not_rooms@, filter.rooms, e.0@)
                &&& exists|c: Option<u64>| #[trigger] invited.contains((e.0, c, e.1)) && spec_in_window(since, next_batch, c)
            },
{
    let pj = room_kept::<J>(filter, false);
    let fj = joined.filter(pj);
    assert forall|k: int| 0 <= k < kept_rooms(joined, filter, false).len() implies joined.contains(
        (#[trigger] kept_rooms(joined, filter, false)[k].0, kept_rooms(joined, filter, false)[k].1, false),
    ) && allowed(filter.not_rooms@, filter.rooms, kept_rooms(joined, filter, false)[k].0@) by {
        joined.lemma_filter_pred(pj, k);
        assert(fj.contains(fj[k]));
        joined.lemma_filter_contains_rev(pj, fj[k]);
        assert(pj(fj[k]));
        assert(fj[k] == (kept_rooms(joined, filter, false)[k].0, kept_rooms(joined, filter, false)[k].1, false));
    }
    let w = window_flagged(invited, since, next_batch);
    let pi = room_kept::<I>(filter, true);
    let fi = w.filter(pi);
    assert forall|k: int| 0 <= k < kept_rooms(w, filter, true).len() implies {
        let e = #[trigger] kept_rooms(w, filter, true)[k];
        &&& allowed(filter.not_rooms@, filter.rooms, e.0@)
        &&& exists|c: Option<u64>| #[trigger] invited.contains((e.0, c, e.1)) && spec_in_window(since, next_batch, c)
    } by {
        let e = kept_rooms(w, filter, true)[k];
        w.lemma_filter_pred(pi, k);
        assert(fi.contains(fi[k]));
        w.lemma_filter_contains_rev(pi, fi[k]);
        assert(pi(fi[k]));
        let j = choose|j: int| 0 <= j < w.len() && w[j] == fi[k];
        assert(w[j] == (invited[j].0, invited[j].2, spec_in_window(since, next_batch, invited[j].1)));
        assert(e == (fi[k].0, fi[k].1));
        assert(invited.contains(invited[j]));
        assert(invited[j] == (e.0, invited[j].1, e.1));
        assert(invited.contains((e.0, invited[j].1, e.1)) && spec_in_window(since, next_batch, invited[j].1));
    }
}

/// The timeline sent for a left room.
pub struct LeftTimeline {
    /// The token before the timeline, as a count.
    pub prev_batch: Option<u64>,
    pub limited: bool,
    pub events: Vec<Event>,
}

/// Builds the timeline of a left room from the events loaded up to the
/// leave (those of ignored senders already left out), whether loading cut
/// them, and the count of the first one: the events that pass the filter,
/// at most `timeline_limit`; the token of [`left_room_prev_batch`]; and a
/// timeline marked limited when loading cut it or when no timeline is sent
/// at all (a limit of zero).
pub fn left_room_timeline(
    loaded: Vec<Event>,
    loaded_limited: bool,
    first_count: Option<u64>,
    filter: &RoomEventFilter,
    timeline_limit: usize,
    left_count: u64,
) -> (r: LeftTimeline)
    ensures
        r.events@ == take_matching(loaded@, *filter, timeline_limit as nat),
        r.events@.len() <= timeline_limit,
        r.limited == (loaded_limited || timeline_limit == 0),
        r.prev_batch == if timeline_limit > 0 && first_count is Some {
            first_count
        } else if timeline_limit == 0 {
            Some(left_count)
        } else {
            None
        },
        timeline_limit == 0 ==> r.events@.len() == 0 && r.limited && r.prev_batch == Some(left_count),
{
    let prev_batch = left_room_prev_batch(first_count, timeline_limit, left_count);
    let events = filter_timeline(loaded, filter, timeline_limit);
    LeftTimeline { prev_batch, limited: loaded_limited || timeline_limit == 0, events }
}

/// What the timeline of a joined room tells about the sync.
#[derive(Debug, Clone, Copy, PartialEq, Eq, Structural)]
pub struct JoinedRoomFlags {
    /// The timeline has moved since the last sync.
    pub timeline_changed: bool,
    /// The user joined since the last sync.
    pub joined_since_last_sync: bool,
    /// Membership events are loaded lazily.
    pub lazy_loading: bool,
    /// Notification counts are sent.
    pub send_notification_counts: bool,
    /// Counts of zero are sent too, as the user read the room since.
    pub send_notification_resets: bool,
}

pub open spec fn spec_joined_room_flags(
    since: u64,
    next_batch: u64,
    last_timeline_count: u64,
    sender_joined_count: Option<u64>,
    encrypted: Option<bool>,
    state_lazy: bool,
    timeline_lazy: bool,
    last_notification_read: Option<u64>,
) -> JoinedRoomFlags {
    JoinedRoomFlags {
        timeline_changed: last_timeline_count > since,
        joined_since_last_sync: match sender_joined_count {
            Some(c) => c > since,
            None => false,
        },
        lazy_loading: encrypted == Some(false) && (state_lazy || timeline_lazy),
        send_notification_counts: match last_notification_read {
            Some(c) => c > since && c <= next_batch,
            None => true,
        },
        send_notification_resets: match last_notification_read {
            Some(c) => c > since,
            None => false,
        },
    }
}

/// See [`spec_joined_room_flags`]: the timeline changed when its last count
/// is past `since`; the user joined since when the join count is; lazy
/// loading needs a room known to be unencrypted and a filter that asks for
/// it; counts are sent unless the last read marker lies outside the window,
/// and zero counts only when the user read the room since.
pub fn joined_room_flags(
    since: u64,
    next_batch: u64,
    last_timeline_count: u64,
    sender_joined_count: Option<u64>,
    encrypted: Option<bool>,
    state_lazy: bool,
    timeline_lazy: bool,
    last_notification_read: Option<u64>,
) -> (r: JoinedRoomFlags)
    ensures
        r == spec_joined_room_flags(
            since,
            next_batch,
            last_timeline_count,
            sender_joined_count,
            encrypted,
            state_lazy,
            timeline_lazy,
            last_notification_read,
        ),
{
    JoinedRoomFlags {
        timeline_changed: last_timeline_count > since,
        joined_since_last_sync: match sender_joined_count {
            Some(c) => c > since,
            None => false,
        },
        lazy_loading: match encrypted {
            Some(e) => !e,
            None => false,
        } && (state_lazy || timeline_lazy),
        send_notification_counts: match last_notification_read {
            Some(c) => c > since && c <= next_batch,
            None => true,
        },
        send_notification_resets: match last_notification_read {
            Some(c) => c > since,
            None => false,
        },
    }
}

/// A notification count to send: only when counts are sent, and a zero only
/// as a reset.
pub fn notification_count(count: u64, flags: &JoinedRoomFlags) -> (r: Option<u64>)
    ensures
        r == if flags.send_notification_counts && (count != 0 || flags.send_notification_resets) {
            Some(count)
        } else {
            None
        },
{
    if flags.send_notification_counts && (count != 0 || flags.send_notification_resets) {
        Some(count)
    } else {
        None
    }
}

/// The index of the first membership event of `user` among `state`.
pub open spec fn first_membership(state: Seq<Event>, user: Seq<char>) -> Option<int> {
    if exists|i: int| 0 <= i < state.len() && #[trigger] is_membership_of(state[i], user) {
        Some(
            choose|i: int|
                0 <= i < state.len() && #[trigger] is_membership_of(state[i], user) && forall|j: int|
                    0 <= j < i ==> !#[trigger] is_membership_of(state[j], user),
        )
    } else {
        None
    }
}

/// When the user joined since the last sync and the timeline is empty (on
/// an incremental sync), the user's own membership event moves from the
/// state into the timeline: removed by swapping the last state event into
/// its place.
pub fn take_sender_membership(
    state: &mut Vec<Event>,
    sender: &str,
    joined_since_last_sync: bool,
    timeline_empty: bool,
    initial: bool,
) -> (r: Option<Event>)
    ensures
        !(joined_since_last_sync && timeline_empty && !initial) ==> r is None && final(state)@ == old(state)@,
        joined_since_last_sync && timeline_empty && !initial ==> match first_membership(old(state)@, sender@) {
            None => r is None && final(state)@ == old(state)@,
            Some(i) => r == Some(old(state)@[i]) && final(state)@ == old(state)@.update(
                i,
                old(state)@.last(),
            ).drop_last(),
        },
{
    if !(joined_since_last_sync && timeline_empty && !initial) {
        return None;
    }
    let mut i: usize = 0;
    while i < state.len()
        invariant
            i <= state@.len(),
            state@ == old(state)@,
            joined_since_last_sync && timeline_empty && !initial,
            forall|j: int| 0 <= j < i ==> !#[trigger] is_membership_of(state@[j], sender@),
        decreases state.len() - i,
    {
        if state[i].is_membership_of(sender) {
            proof {
                let k = first_membership(state@, sender@)->0;
                if k != i {
                    if k < i {
                        assert(!is_membership_of(state@[k], sender@));
                    } else {
                        assert(is_membership_of(state@[i as int], sender@));
                    }
                }
            }
            let e = state.swap_remove(i);
            return Some(e);
        }
        i = i + 1;
    }
    None
}

/// The token before the timeline of a joined room: the first timeline
/// event's count, or `since` when the user's membership event is sent in
/// place of a timeline.
pub fn joined_room_prev_batch(first_timeline: Option<u64>, sent_membership: bool, since: u64) -> (r: Option<u64>)
    ensures
        r == if first_timeline is Some {
            first_timeline
        } else if sent_membership {
            Some(since)
        } else {
            None
        },
{
    if first_timeline.is_some() {
        first_timeline
    } else if sent_membership {
        Some(since)
    } else {
        None
    }
}

/// Whether an event appears among the timeline events, by event ID.
pub open spec fn in_timeline(timeline: Seq<Event>, e: Event) -> bool {
    exists|i: int| 0 <= i < timeline.len() && (#[trigger] timeline[i]).event_id@ == e.event_id@
}

/// The state events to send for a joined room: those that pass the state
/// filter and, unless full state is asked for, are not in the timeline.
pub fn joined_room_state(
    state: Vec<Event>,
    timeline: &Vec<Event>,
    filter: &RoomEventFilter,
    full_state: bool,
) -> (r: Vec<Event>)
    ensures
        r@ == state@.filter(
            |e: Event| spec_event_matches(*filter, e) && (full_state || !in_timeline(timeline@, e)),
        ),
{
    let ghost keep = |e: Event| spec_event_matches(*filter, e) && (full_state || !in_timeline(timeline@, e));
    let ghost all = state@;
    let mut rest = state;
    let mut out: Vec<Event> = Vec::new();
    let n = rest.len();
    let mut i: usize = 0;
    while i < n
        invariant
            n == all.len(),
            i <= n,
            rest@ == all.skip(i as int),
            out@ == all.take(i as int).filter(keep),
            keep == (|e: Event| spec_event_matches(*filter, e) && (full_state || !in_timeline(timeline@, e))),
        decreases n - i,
    {
        let e = rest.remove(0);
        proof {
            assert(e == all[i as int]);
            assert(rest@ =~= all.skip(i + 1));
            assert(all.take(i + 1).drop_last() =~= all.take(i as int));
            reveal_with_fuel(Seq::filter, 1);
        }
        if filter.matches(&e) && (full_state || !event_in(timeline, &e)) {
            out.push(e);
        }
        i = i + 1;
    }
    proof {
        assert(all.take(n as int) =~= all);
    }
    out
}

fn event_in(timeline: &Vec<Event>, e: &Event) -> (r: bool)
    ensures
        r == in_timeline(timeline@, *e),
{
    let mut i: usize = 0;
    while i < timeline.len()
        invariant
            i <= timeline@.len(),
            forall|j: int| 0 <= j < i ==> (#[trigger] timeline@[j]).event_id@ != e.event_id@,
        decreases timeline.len() - i,
    {
        if str_eq(timeline[i].event_id.as_str(), e.event_id.as_str()) {
            return true;
        }
        i = i + 1;
    }
    false
}

/// The position of the user's own membership event that moves from the
/// state into the timeline, if one does (see [`take_sender_membership`]).
pub open spec fn moved_membership(
    state: Seq<Event>,
    sender: Seq<char>,
    joined_since_last_sync: bool,
    loaded_empty: bool,
    initial: bool,
) -> Option<int> {
    if joined_since_last_sync && loaded_empty && !initial {
        first_membership(state, sender)
    } else {
        None
    }
}

/// The events that pass `filter`, in order.
pub fn matching_events(events: Vec<Event>, filter: &RoomEventFilter) -> (r: Vec<Event>)
    ensures
        r@ == events@.filter(|e: Event| spec_event_matches(*filter, e)),
{
    let ghost keep = |e: Event| spec_event_matches(*filter, e);
    let ghost all = events@;
    let mut rest = events;
    let mut out: Vec<Event> = Vec::new();
    let n = rest.len();
    let mut i: usize = 0;
    while i < n
        invariant
            n == all.len(),
            i <= n,
            rest@ == all.skip(i as int),
            out@ == all.take(i as int).filter(keep),
            keep == (|e: Event| spec_event_matches(*filter, e)),
        decreases n - i,
    {
        let e = rest.remove(0);
        proof {
            assert(e == all[i as int]);
            assert(rest@ =~= all.skip(i + 1));
            assert(all.take(i + 1).drop_last() =~= all.take(i as int));
            reveal_with_fuel(Seq::filter, 1);
        }
        if filter.matches(&e) {
            out.push(e);
        }
        i = i + 1;
    }
    proof {
        assert(all.take(n as int) =~= all);
    }
    out
}

/// The timeline and state of a joined room as sent.
pub struct JoinedTimeline {
    pub events: Vec<Event>,
    pub limited: bool,
    /// The token before the timeline, as a count.
    pub prev_batch: Option<u64>,
    pub state: Vec<Event>,
}

/// Builds the timeline and state of a joined room from the events loaded
/// (whether any were, the count of the first, and those left once ignored
/// senders are dropped) and the state changes: the user's own membership
/// event moves from the state to the end of the timeline when the user
/// joined since the last sync and nothing was loaded (on an incremental
/// sync); the timeline keeps what passes its filter; the state keeps what
/// passes its filter and, unless full state is asked for, is not in the
/// timeline; the timeline is limited when loading cut it or the user
/// joined since.
pub fn joined_room_timeline(
    loaded_empty: bool,
    first_count: Option<u64>,
    loaded_limited: bool,
    visible: Vec<Event>,
    state: Vec<Event>,
    sender: &str,
    timeline_filter: &RoomEventFilter,
    state_filter: &RoomEventFilter,
    joined_since_last_sync: bool,
    initial: bool,
    since: u64,
    full_state: bool,
) -> (r: JoinedTimeline)
    ensures
        ({
            let moved = moved_membership(state@, sender@, joined_since_last_sync, loaded_empty, initial);
            let rest = match moved {
                Some(i) => state@.update(i, state@.last()).drop_last(),
                None => state@,
            };
            let timeline = match moved {
                Some(i) => visible@.push(state@[i]),
                None => visible@,
            };
            &&& r.events@ == timeline.filter(|e: Event| spec_event_matches(*timeline_filter, e))
            &&& r.state@ == rest.filter(
                |e: Event| spec_event_matches(*state_filter, e) && (full_state || !in_timeline(r.events@, e)),
            )
            &&& r.prev_batch == if first_count is Some {
                first_count
            } else if moved is Some {
                Some(since)
            } else {
                None
            }
        }),
        r.limited == (loaded_limited || joined_since_last_sync),
        !full_state ==> forall|k: int| 0 <= k < r.state@.len() ==> !in_timeline(r.events@, #[trigger] r.state@[k]),
{
    let ghost s0 = state@;
    let mut state = state;
    let moved = take_sender_membership(&mut state, sender, joined_since_last_sync, loaded_empty, initial);
    let sent = moved.is_some();
    let mut timeline = visible;
    let ghost v0 = timeline@;
    match moved {
        Some(e) => {
            timeline.push(e);
        },
        None => {},
    }
    let ghost tl = match moved_membership(s0, sender@, joined_since_last_sync, loaded_empty, initial) {
        Some(i) => v0.push(s0[i]),
        None => v0,
    };
    let ghost rest = match moved_membership(s0, sender@, joined_since_last_sync, loaded_empty, initial) {
        Some(i) => s0.update(i, s0.last()).drop_last(),
        None => s0,
    };
    proof {
        assert(timeline@ == tl);
        assert(state@ == rest);
    }
    let ghost t1 = timeline@;
    let events = matching_events(timeline, timeline_filter);
    let st = joined_room_state(state, &events, state_filter, full_state);
    let prev_batch = joined_room_prev_batch(first_count, sent, since);
    proof {
        let keep = |e: Event| spec_event_matches(*state_filter, e) && (full_state || !in_timeline(events@, e));
        if !full_state {
            assert forall|k: int| 0 <= k < st@.len() implies !in_timeline(events@, #[trigger] st@[k]) by {
                state@.lemma_filter_pred(keep, k);
            }
        }
    }
    JoinedTimeline { events, limited: loaded_limited || joined_since_last_sync, prev_batch, state: st }
}

/// How the state of a room is computed.
#[derive(Debug, Clone, Copy, PartialEq, Eq, Structural)]
pub struct StatePlan {
    /// Only the state added between `since` and `horizon` is sent.
    pub incremental: bool,
    /// The state at the start of the timeline.
    pub horizon: u64,
    /// The state at the last sync.
    pub since: u64,
}

/// Plans the state to send: incremental only when neither full state is
/// asked for nor the user just joined, and the earlier state is known; the
/// horizon defaults to the current state and the earlier state to the
/// horizon.
pub fn state_plan(
    full_state: bool,
    joined_since_last_sync: bool,
    since_shortstatehash: Option<u64>,
    horizon_shortstatehash: Option<u64>,
    current_shortstatehash: u64,
) -> (r: StatePlan)
    ensures
        r.incremental == (!full_state && !joined_since_last_sync && since_shortstatehash is Some),
        r.horizon == match horizon_shortstatehash {
            Some(h) => h,
            None => current_shortstatehash,
        },
        r.since == match since_shortstatehash {
            Some(s) => s,
            None => r.horizon,
        },
{
    let incremental = !full_state && !joined_since_last_sync && since_shortstatehash.is_some();
    let horizon = match horizon_shortstatehash {
        Some(h) => h,
        None => current_shortstatehash,
    };
    let since = match since_shortstatehash {
        Some(s) => s,
        None => horizon,
    };
    StatePlan { incremental, horizon, since }
}

/// With lazy loading, membership state is sent only for the user; every
/// other state event is kept.
pub fn lazy_filter(lazy: bool, event_type: &str, state_key: &str, sender: &str) -> (r: bool)
    ensures
        r == (!lazy || event_type@ != member_type() || state_key@ == sender@),
{
    proof {
        reveal_strlit("m.room.member");
    }
    !lazy || !str_eq(event_type, "m.room.member") || str_eq(state_key, sender)
}

/// Whether member counts are sent: when any state event sent is a
/// membership event.
pub fn send_member_counts(state: &Vec<Event>) -> (r: bool)
    ensures
        r == exists|i: int| 0 <= i < state@.len() && (#[trigger] state@[i]).kind@ == member_type(),
{
    let mut i: usize = 0;
    while i < state.len()
        invariant
            i <= state@.len(),
            forall|j: int| 0 <= j < i ==> (#[trigger] state@[j]).kind@ != member_type(),
        decreases state.len() - i,
    {
        if state[i].is_membership() {
            return true;
        }
        i = i + 1;
    }
    false
}

/// Heroes are computed for small rooms only: at most five joined and
/// invited members together, and only when the server is configured to.
pub fn compute_heroes(calculate_heroes: bool, joined: u64, invited: u64) -> (r: bool)
    ensures
        r == (calculate_heroes && joined + invited <= 5),
{
    calculate_heroes && joined.saturating_add(invited) <= 5
}

/// What membership event a hero candidate has.
pub struct HeroCandidate {
    /// The state key, when it is a valid user ID.
    pub user_id: Option<String>,
    pub membership: Option<MembershipState>,
    pub is_invited: bool,
    pub is_joined: bool,
}

pub open spec fn holds_user(v: Seq<String>, u: Seq<char>) -> bool {
    exists|i: int| 0 <= i < v.len() && (#[trigger] v[i])@ == u
}

/// Whether a candidate becomes a hero: another user, still joined or
/// invited, not yet among the heroes, and not one whose invite is pending
/// without a join.
pub open spec fn spec_is_hero(heroes: Seq<String>, sender: Seq<char>, c: HeroCandidate) -> bool {
    c.user_id matches Some(u) && u@ != sender && (c.membership == Some(MembershipState::Join)
        || c.membership == Some(MembershipState::Invite)) && !holds_user(heroes, u@) && !(!c.is_joined
        && c.is_invited)
}

/// Adds a candidate to the heroes when [`spec_is_hero`] holds.
pub fn fold_hero(heroes: &mut Vec<String>, sender: &str, c: HeroCandidate)
    ensures
        spec_is_hero(old(heroes)@, sender@, c) ==> final(heroes)@ == old(heroes)@.push(c.user_id->0),
        !spec_is_hero(old(heroes)@, sender@, c) ==> final(heroes)@ == old(heroes)@,
{
    let user_id = match c.user_id {
        Some(u) => u,
        None => return,
    };
    if str_eq(user_id.as_str(), sender) {
        return;
    }
    match c.membership {
        Some(MembershipState::Join) | Some(MembershipState::Invite) => {},
        _ => return,
    }
    if crate::utils::string::list_contains(heroes.as_slice(), user_id.as_str()) {
        return;
    }
    if !c.is_joined && c.is_invited {
        return;
    }
    heroes.push(user_id);
}

/// `users` with `user` added, unless it is there already.
pub open spec fn inserted(users: Seq<String>, user: String) -> Seq<String> {
    if holds_user(users, user@) {
        users
    } else {
        users.push(user)
    }
}

/// No user occurs twice.
pub open spec fn distinct_users(users: Seq<String>) -> bool {
    forall|i: int, j: int| 0 <= i < j < users.len() ==> (#[trigger] users[i])@ != (#[trigger] users[j])@
}

/// Adds `user` to a set of users kept as a list.
pub fn insert_user(users: &mut Vec<String>, user: String)
    ensures
        final(users)@ == inserted(old(users)@, user),
        distinct_users(old(users)@) ==> distinct_users(final(users)@),
{
    if !crate::utils::string::list_contains(users.as_slice(), user.as_str()) {
        users.push(user);
    }
}

/// Device list changes seen in a room: users whose keys the user must
/// refetch, and users that left; each once.
pub struct DeviceListUpdates {
    pub changed: Vec<String>,
    pub left: Vec<String>,
}

/// Records a membership change: a join of a user that shares no other
/// encrypted room with the syncing user counts as changed, a leave as left.
pub fn fold_membership_change(
    updates: &mut DeviceListUpdates,
    membership: MembershipState,
    user_id: String,
    shares_encrypted_room: bool,
)
    ensures
        membership == MembershipState::Join && !shares_encrypted_room ==> final(updates).changed@
            == inserted(old(updates).changed@, user_id) && final(updates).left@ == old(updates).left@,
        membership == MembershipState::Leave ==> final(updates).left@ == inserted(old(updates).left@, user_id)
            && final(updates).changed@ == old(updates).changed@,
        !(membership == MembershipState::Join && !shares_encrypted_room) && membership
            != MembershipState::Leave ==> final(updates).changed@ == old(updates).changed@
            && final(updates).left@ == old(updates).left@,
{
    match membership {
        MembershipState::Join => {
            if !shares_encrypted_room {
                insert_user(&mut updates.changed, user_id);
            }
        },
        MembershipState::Leave => {
            insert_user(&mut updates.left, user_id);
        },
        _ => {},
    }
}

/// The users that left and share no encrypted room with the user any more,
/// given with whether they still do.
pub fn still_left(left: Vec<(String, bool)>) -> (r: Vec<String>)
    ensures
        r@ == left@.filter(|p: (String, bool)| !p.1).map_values(|p: (String, bool)| p.0),
{
    let ghost all = left@;
    let mut rest = left;
    let mut out: Vec<String> = Vec::new();
    let n = rest.len();
    let mut i: usize = 0;
    while i < n
        invariant
            n == all.len(),
            i <= n,
            rest@ == all.skip(i as int),
            out@ == all.take(i as int).filter(|p: (String, bool)| !p.1).map_values(|p: (String, bool)| p.0),
        decreases n - i,
    {
        let (user, shares) = rest.remove(0);
        proof {
            assert((user, shares) == all[i as int]);
            assert(rest@ =~= all.skip(i + 1));
            assert(all.take(i + 1).drop_last() =~= all.take(i as int));
            reveal_with_fuel(Seq::filter, 1);
        }
        let ghost before = out@;
        if !shares {
            out.push(user);
        }
        proof {
            let f = |p: (String, bool)| !p.1;
            let g = |p: (String, bool)| p.0;
            let old_f = all.take(i as int).filter(f);
            if !shares {
                assert(all.take(i + 1).filter(f) == old_f.push((user, shares)));
                assert(old_f.push((user, shares)).map_values(g) =~= old_f.map_values(g).push(user));
            } else {
                assert(all.take(i + 1).filter(f) == old_f);
            }
        }
        i = i + 1;
    }
    proof {
        assert(all.take(n as int) =~= all);
    }
    out
}

/// `users` with each of `more` added in turn.
pub open spec fn inserted_all(users: Seq<String>, more: Seq<String>) -> Seq<String>
    decreases more.len(),
{
    if more.len() == 0 {
        users
    } else {
        inserted(inserted_all(users, more.drop_last()), more.last())
    }
}

/// Adds the users of `more` that are not there yet (`extend` on a set).
pub fn merge_users(users: &mut Vec<String>, more: Vec<String>)
    ensures
        final(users)@ == inserted_all(old(users)@, more@),
        distinct_users(old(users)@) ==> distinct_users(final(users)@),
{
    let ghost all = more@;
    let ghost start = users@;
    let mut rest = more;
    let n = rest.len();
    let mut i: usize = 0;
    while i < n
        invariant
            n == all.len(),
            i <= n,
            rest@ == all.skip(i as int),
            users@ == inserted_all(start, all.take(i as int)),
            distinct_users(start) ==> distinct_users(users@),
        decreases n - i,
    {
        let u = rest.remove(0);
        proof {
            assert(u == all[i as int]);
            assert(rest@ =~= all.skip(i + 1));
            assert(all.take(i + 1).drop_last() =~= all.take(i as int));
        }
        insert_user(users, u);
        i = i + 1;
    }
    proof {
        assert(all.take(n as int) =~= all);
    }
}

proof fn lemma_decimal_digits(n: nat)
    ensures
        decimal(n).len() > 0,
        all_digits(decimal(n)),
        digits_value(decimal(n)) == n,
    decreases n,
{
    if n < 10 {
        let d = decimal(n);
        assert(d == seq![digit_char(n)]);
        assert(d.drop_last() =~= Seq::<char>::empty());
        assert(digit_char(n) as nat == 48 + n);
        assert(d.last() == digit_char(n));
        assert(digits_value(d) == digits_value(d.drop_last()) * 10 + n);
    } else {
        lemma_decimal_digits(n / 10);
        let d = decimal(n);
        assert(d.drop_last() =~= decimal(n / 10));
        assert(digit_char(n % 10) as nat == 48 + n % 10);
        assert(forall|i: int| 0 <= i < d.len() ==> '0' <= #[trigger] d[i] <= '9') by {
            assert forall|i: int| 0 <= i < d.len() implies '0' <= #[trigger] d[i] <= '9' by {
                if i < d.len() - 1 {
                    assert(d[i] == decimal(n / 10)[i]);
                }
            }
        }
        assert(digits_value(d) == digits_value(decimal(n / 10)) * 10 + n % 10);
        assert((n / 10) * 10 + n % 10 == n) by (nonlinear_arith);
    }
}

/// A count written as a token reads back as the same count: what
/// `to_small_string` writes, `parse_u64` (and `str::parse`) reads as the
/// number written.
pub proof fn lemma_count_token_roundtrip(n: u64)
    ensures
        spec_parse_u64(decimal(n as nat)) == Some(n),
{
    lemma_decimal_digits(n as nat);
    let d = decimal(n as nat);
    assert(d[0] != '+') by {
        assert('0' <= d[0] <= '9');
    }
}

/// Folding candidates into the heroes keeps them distinct and never adds
/// the syncing user.
pub proof fn lemma_fold_hero_keeps_heroes_valid(heroes: Seq<String>, sender: Seq<char>, c: HeroCandidate)
    requires
        distinct_users(heroes),
        !holds_user(heroes, sender),
    ensures
        ({
            let after = if spec_is_hero(heroes, sender, c) {
                heroes.push(c.user_id->0)
            } else {
                heroes
            };
            distinct_users(after) && !holds_user(after, sender)
        }),
{
    if spec_is_hero(heroes, sender, c) {
        let u = c.user_id->0;
        let after = heroes.push(u);
        assert forall|i: int, j: int| 0 <= i < j < after.len() implies (#[trigger] after[i])@ != (#[trigger] after[j])@ by {
            if j == heroes.len() {
                assert(after[i] == heroes[i]);
                assert(!holds_user(heroes, u@));
            } else {
                assert(after[i] == heroes[i] && after[j] == heroes[j]);
            }
        }
        if holds_user(after, sender) {
            let k = choose|k: int| 0 <= k < after.len() && (#[trigger] after[k])@ == sender;
            if k < heroes.len() {
                assert(after[k] == heroes[k]);
            }
        }
    }
}

} // verus!
