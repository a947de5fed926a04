pub mod extensions;
pub mod rooms;

use vstd::prelude::*;
use core::cmp::Ordering;
use vstd::multiset::Multiset;
use crate::matrix::event::MembershipState;
use crate::utils::string::{list_contains, str_eq};
use crate::utils::math::MAX_SAFE_INT;
use crate::api::sync_v3::holds_user;

verus! {

/// A room as the sliding sync selector sees it.
pub struct WindowRoom {
    pub room_id: String,
    pub membership: Option<MembershipState>,
    /// The lists of the connection that the room passes the filters of.
    pub lists: Vec<String>,
    /// The room's place among all rooms, by activity.
    pub ranked: usize,
    /// The latest count of activity in the room, up to the batch being built.
    pub last_count: u64,
}

/// Two rooms that hold the same values.
pub open spec fn same_room(a: WindowRoom, b: WindowRoom) -> bool {
    &&& a.room_id == b.room_id
    &&& a.membership == b.membership
    &&& a.lists@ == b.lists@
    &&& a.ranked == b.ranked
    &&& a.last_count == b.last_count
}

impl WindowRoom {
    /// A copy that holds the same values.
    pub fn duplicate(&self) -> (r: WindowRoom)
        ensures
            same_room(r, *self),
    {
        let lists = self.lists.clone();
        proof {
            assert(lists@ =~= self.lists@);
        }
        WindowRoom {
            room_id: self.room_id.clone(),
            membership: self.membership,
            lists,
            ranked: self.ranked,
            last_count: self.last_count,
        }
    }
}

/// Orders rooms by activity, the most recent first.
pub fn room_sort(a: &WindowRoom, b: &WindowRoom) -> (r: Ordering)
    ensures
        (r == Ordering::Less) == (a.last_count > b.last_count),
        (r == Ordering::Equal) == (a.last_count == b.last_count),
        (r == Ordering::Greater) == (a.last_count < b.last_count),
{
    if b.last_count < a.last_count {
        Ordering::Less
    } else if b.last_count == a.last_count {
        Ordering::Equal
    } else {
        Ordering::Greater
    }
}

/// Whether `a` comes strictly before `b` in [`room_sort`] order.
pub fn ranks_before(a: &WindowRoom, b: &WindowRoom) -> (r: bool)
    ensures
        r == (a.last_count > b.last_count),
{
    match room_sort(a, b) {
        Ordering::Less => true,
        _ => false,
    }
}

/// The most recently active rooms first.
pub open spec fn sorted_by_activity(s: Seq<WindowRoom>) -> bool {
    forall|i: int, j: int| 0 <= i < j < s.len() ==> #[trigger] s[i].last_count >= #[trigger] s[j].last_count
}

/// The rooms whose last activity is `k`, in order.
pub open spec fn of_activity(s: Seq<WindowRoom>, k: u64) -> Seq<WindowRoom> {
    s.filter(|x: WindowRoom| x.last_count == k)
}

proof fn lemma_none_of_activity(s: Seq<WindowRoom>, k: u64)
    requires
        forall|j: int| 0 <= j < s.len() ==> (#[trigger] s[j]).last_count != k,
    ensures
        of_activity(s, k).len() == 0,
    decreases s.len(),
{
    reveal_with_fuel(Seq::filter, 1);
    if s.len() > 0 {
        lemma_none_of_activity(s.drop_last(), k);
        assert(s.last() == s[s.len() - 1]);
    }
}

/// Moving the first room of the highest activity from `before` to the end
/// of `out` keeps, for every activity, the rooms of that activity in order.
proof fn lemma_sort_step(out: Seq<WindowRoom>, before: Seq<WindowRoom>, best: int, all: Seq<WindowRoom>)
    requires
        0 <= best < before.len(),
        forall|j: int| 0 <= j < best ==> (#[trigger] before[j]).last_count < before[best].last_count,
        forall|k: u64| #[trigger] of_activity(all, k) == of_activity(out, k) + of_activity(before, k),
    ensures
        forall|k: u64|
            #[trigger] of_activity(all, k) == of_activity(out.push(before[best]), k) + of_activity(
                before.remove(best),
                k,
            ),
{
    let x = before[best];
    let m = x.last_count;
    let head = before.take(best);
    let tail = before.skip(best + 1);
    assert(before =~= head + seq![x] + tail);
    assert(before.remove(best) =~= head + tail);
    assert forall|k: u64| #[trigger] of_activity(all, k) == of_activity(out.push(x), k) + of_activity(
        before.remove(best),
        k,
    ) by {
        let pred = |y: WindowRoom| y.last_count == k;
        Seq::filter_distributes_over_add(head + seq![x], tail, pred);
        Seq::filter_distributes_over_add(head, seq![x], pred);
        Seq::filter_distributes_over_add(head, tail, pred);
        out.lemma_filter_push(x, pred);
        Seq::<WindowRoom>::empty().lemma_filter_push(x, pred);
        assert(seq![x] =~= Seq::<WindowRoom>::empty().push(x));
        assert(Seq::<WindowRoom>::empty().filter(pred) =~= Seq::<WindowRoom>::empty()) by {
            reveal_with_fuel(Seq::filter, 1);
        }
        if k == m {
            lemma_none_of_activity(head, k);
            assert(of_activity(head, k) =~= Seq::<WindowRoom>::empty());
            assert(of_activity(before, k) =~= seq![x] + of_activity(tail, k));
            assert(of_activity(before.remove(best), k) =~= of_activity(tail, k));
            assert(of_activity(out.push(x), k) =~= of_activity(out, k).push(x));
            assert(of_activity(out, k) + of_activity(before, k) =~= of_activity(out.push(x), k) + of_activity(
                before.remove(best),
                k,
            ));
        } else {
            assert(of_activity(before, k) =~= of_activity(head, k) + of_activity(tail, k));
            assert(of_activity(out.push(x), k) =~= of_activity(out, k));
        }
    }
}

/// Sorts the rooms by [`room_sort`]; rooms of equal activity keep their
/// order.
pub fn sort_rooms(rooms: Vec<WindowRoom>) -> (r: Vec<WindowRoom>)
    ensures
        sorted_by_activity(r@),
        r@.to_multiset() == rooms@.to_multiset(),
        forall|k: u64| #[trigger] of_activity(r@, k) == of_activity(rooms@, k),
{
    let ghost all = rooms@;
    let mut rest = rooms;
    let mut out: Vec<WindowRoom> = Vec::new();
    proof {
        out@.to_multiset_ensures();
        vstd::multiset::lemma_multiset_empty_len(out@.to_multiset());
        assert(out@.to_multiset().add(rest@.to_multiset()) =~= all.to_multiset());
        assert forall|k: u64| #[trigger] of_activity(all, k) == of_activity(out@, k) + of_activity(rest@, k) by {
            assert(of_activity(out@, k) =~= Seq::<WindowRoom>::empty()) by {
                reveal_with_fuel(Seq::filter, 1);
            }
            assert(of_activity(out@, k) + of_activity(rest@, k) =~= of_activity(rest@, k));
        }
    }
    while rest.len() > 0
        invariant
            sorted_by_activity(out@),
            forall|i: int, j: int|
                0 <= i < out@.len() && 0 <= j < rest@.len() ==> #[trigger] out@[i].last_count
                    >= #[trigger] rest@[j].last_count,
            out@.to_multiset().add(rest@.to_multiset()) == all.to_multiset(),
            forall|k: u64| #[trigger] of_activity(all, k) == of_activity(out@, k) + of_activity(rest@, k),
        decreases rest.len(),
    {
        let mut best: usize = 0;
        let mut k: usize = 1;
        while k < rest.len()
            invariant
                0 < rest@.len(),
                best < k <= rest@.len(),
                forall|j: int| 0 <= j < k ==> rest@[best as int].last_count >= #[trigger] rest@[j].last_count,
                forall|j: int| 0 <= j < best ==> #[trigger] rest@[j].last_count < rest@[best as int].last_count,
            decreases rest.len() - k,
        {
            if ranks_before(&rest[k], &rest[best]) {
                best = k;
            }
            k = k + 1;
        }
        let ghost before = rest@;
        let ghost out_before = out@;
        proof {
            lemma_sort_step(out_before, before, best as int, all);
        }
        let x = rest.remove(best);
        proof {
            before.to_multiset_ensures();
            out_before.to_multiset_ensures();
            assert(before.remove(best as int).to_multiset() == before.to_multiset().remove(x));
            assert(before.to_multiset().count(x) > 0) by {
                assert(before.contains(x)) by {
                    assert(before[best as int] == x);
                }
            }
            assert forall|j: int| 0 <= j < rest@.len() implies x.last_count >= #[trigger] rest@[j].last_count by {
                if j < best {
                    assert(rest@[j] == before[j]);
                } else {
                    assert(rest@[j] == before[j + 1]);
                }
            }
        }
        out.push(x);
        proof {
            assert(out@.to_multiset() == out_before.to_multiset().insert(x));
            assert(out@.to_multiset().add(rest@.to_multiset()) =~= all.to_multiset());
            assert forall|i: int, j: int|
                0 <= i < out@.len() && 0 <= j < rest@.len() implies #[trigger] out@[i].last_count
                >= #[trigger] rest@[j].last_count by {
                if i < out_before.len() {
                    assert(out@[i] == out_before[i]);
                    if j < best {
                        assert(rest@[j] == before[j]);
                    } else {
                        assert(rest@[j] == before[j + 1]);
                    }
                }
            }
            assert forall|i: int, j: int| 0 <= i < j < out@.len() implies #[trigger] out@[i].last_count
                >= #[trigger] out@[j].last_count by {
                if j == out@.len() - 1 {
                    assert(out@[j] == x);
                    assert(x == before[best as int]);
                    assert(out_before[i] == out@[i]);
                } else {
                    assert(out_before[i] == out@[i]);
                    assert(out_before[j] == out@[j]);
                }
            }
        }
    }
    proof {
        assert forall|k: u64| #[trigger] of_activity(out@, k) == of_activity(all, k) by {
            assert(of_activity(rest@, k) =~= Seq::<WindowRoom>::empty()) by {
                reveal_with_fuel(Seq::filter, 1);
            }
            assert(of_activity(out@, k) + of_activity(rest@, k) =~= of_activity(out@, k));
        }
        rest@.to_multiset_ensures();
        vstd::multiset::lemma_multiset_empty_len(rest@.to_multiset());
        assert(rest@.to_multiset() =~= Multiset::empty());
        assert(out@.to_multiset() =~= all.to_multiset());
    }
    out
}

/// Gives each room its place: the index it has.
pub fn rank_rooms(rooms: Vec<WindowRoom>) -> (r: Vec<WindowRoom>)
    ensures
        r@.len() == rooms@.len(),
        forall|i: int|
            0 <= i < r@.len() ==> (#[trigger] r@[i]).ranked == i && r@[i].room_id == rooms@[i].room_id
                && r@[i].membership == rooms@[i].membership && r@[i].lists == rooms@[i].lists
                && r@[i].last_count == rooms@[i].last_count,
{
    let ghost all = rooms@;
    let mut rest = rooms;
    let mut out: Vec<WindowRoom> = Vec::new();
    let n = rest.len();
    let mut i: usize = 0;
    while i < n
        invariant
            n == all.len(),
            i <= n,
            rest@ == all.skip(i as int),
            out@.len() == i,
            forall|k: int|
                0 <= k < i ==> (#[trigger] out@[k]).ranked == k && out@[k].room_id == all[k].room_id
                    && out@[k].membership == all[k].membership && out@[k].lists == all[k].lists
                    && out@[k].last_count == all[k].last_count,
        decreases n - i,
    {
        let room = rest.remove(0);
        proof {
            assert(room == all[i as int]);
            assert(rest@ =~= all.skip(i + 1));
        }
        out.push(
            WindowRoom {
                room_id: room.room_id,
                membership: room.membership,
                lists: room.lists,
                ranked: i,
                last_count: room.last_count,
            },
        );
        i = i + 1;
    }
    out
}

/// A missing count counts as zero.
pub open spec fn count_or_zero(c: Option<u64>) -> u64 {
    match c {
        Some(v) => v,
        None => 0,
    }
}

/// `r` is the largest of the counts that do not pass `next_batch`, or zero
/// when there is none.
pub open spec fn is_last_count(counts: Seq<Option<u64>>, next_batch: u64, r: u64) -> bool {
    &&& r <= next_batch
    &&& forall|i: int|
        0 <= i < counts.len() && count_or_zero(#[trigger] counts[i]) <= next_batch ==> count_or_zero(
            counts[i],
        ) <= r
    &&& (r == 0 || exists|i: int| 0 <= i < counts.len() && count_or_zero(#[trigger] counts[i]) == r)
}

/// The latest activity of a room among its timeline, notification, account
/// data, receipt and private read counts, leaving out those past
/// `next_batch`.
pub fn window_last_count(counts: &Vec<Option<u64>>, next_batch: u64) -> (r: u64)
    ensures
        is_last_count(counts@, next_batch, r),
{
    let mut best: u64 = 0;
    let mut i: usize = 0;
    while i < counts.len()
        invariant
            i <= counts@.len(),
            best <= next_batch,
            forall|k: int|
                0 <= k < i && count_or_zero(#[trigger] counts@[k]) <= next_batch ==> count_or_zero(
                    counts@[k],
                ) <= best,
            best == 0 || exists|k: int| 0 <= k < i && count_or_zero(#[trigger] counts@[k]) == best,
        decreases counts.len() - i,
    {
        let c = match counts[i] {
            Some(v) => v,
            None => 0,
        };
        proof {
            assert(c == count_or_zero(counts@[i as int]));
        }
        if c <= next_batch && c > best {
            best = c;
        }
        i = i + 1;
    }
    best
}

/// The lists a room is in: those without filters, and those whose filters
/// it passes.
pub open spec fn spec_matched_lists(results: Seq<(String, Option<bool>)>) -> Seq<String>
    decreases results.len(),
{
    if results.len() == 0 {
        Seq::empty()
    } else {
        let rest = spec_matched_lists(results.drop_last());
        if results.last().1 != Some(false) {
            rest.push(results.last().0)
        } else {
            rest
        }
    }
}

/// Keeps the IDs of the lists whose filter result is absent or true, in
/// order.
pub fn matched_lists(results: Vec<(String, Option<bool>)>) -> (r: Vec<String>)
    ensures
        r@ == spec_matched_lists(results@),
{
    let ghost all = results@;
    let mut rest = results;
    let mut out: Vec<String> = Vec::new();
    let n = rest.len();
    let mut i: usize = 0;
    while i < n
        invariant
            n == all.len(),
            i <= n,
            rest@ == all.skip(i as int),
            out@ == spec_matched_lists(all.take(i as int)),
        decreases n - i,
    {
        let (id, passed) = rest.remove(0);
        proof {
            assert((id, passed) == all[i as int]);
            assert(rest@ =~= all.skip(i + 1));
            assert(all.take(i + 1).drop_last() =~= all.take(i as int));
        }
        let keep = match passed {
            Some(p) => p,
            None => true,
        };
        if keep {
            out.push(id);
        }
        i = i + 1;
    }
    proof {
        assert(all.take(n as int) =~= all);
    }
    out
}

/// A room as matched against the lists: not yet ranked; its activity counts
/// only when it is in some list.
pub fn window_room(
    room_id: String,
    membership: Option<MembershipState>,
    lists: Vec<String>,
    counts: &Vec<Option<u64>>,
    next_batch: u64,
) -> (r: WindowRoom)
    ensures
        r.room_id == room_id,
        r.membership == membership,
        r.lists == lists,
        r.ranked == 0,
        lists@.len() == 0 ==> r.last_count == 0,
        lists@.len() > 0 ==> is_last_count(counts@, next_batch, r.last_count),
{
    let last_count = if lists.len() > 0 {
        window_last_count(counts, next_batch)
    } else {
        0
    };
    WindowRoom { room_id, membership, lists, ranked: 0, last_count }
}


/// How many times `id` occurs among `ids`.
pub open spec fn count_in(ids: Seq<String>, id: Seq<char>) -> nat
    decreases ids.len(),
{
    if ids.len() == 0 {
        0
    } else {
        count_in(ids.drop_last(), id) + if ids.last()@ == id {
            1nat
        } else {
            0nat
        }
    }
}

/// How many times the rooms name the list `id`.
pub open spec fn list_occurrences(rooms: Seq<WindowRoom>, id: Seq<char>) -> nat
    decreases rooms.len(),
{
    if rooms.len() == 0 {
        0
    } else {
        list_occurrences(rooms.drop_last(), id) + count_in(rooms.last().lists@, id)
    }
}

proof fn lemma_count_in_prefix(ids: Seq<String>, k: int, id: Seq<char>)
    requires
        0 <= k <= ids.len(),
    ensures
        count_in(ids.take(k), id) <= count_in(ids, id),
    decreases ids.len() - k,
{
    if k < ids.len() {
        lemma_count_in_prefix(ids, k + 1, id);
        assert(ids.take(k + 1).drop_last() =~= ids.take(k));
    } else {
        assert(ids.take(k) =~= ids);
    }
}

proof fn lemma_list_occurrences_prefix(rooms: Seq<WindowRoom>, k: int, id: Seq<char>)
    requires
        0 <= k <= rooms.len(),
    ensures
        list_occurrences(rooms.take(k), id) <= list_occurrences(rooms, id),
    decreases rooms.len() - k,
{
    if k < rooms.len() {
        lemma_list_occurrences_prefix(rooms, k + 1, id);
        assert(rooms.take(k + 1).drop_last() =~= rooms.take(k));
    } else {
        assert(rooms.take(k) =~= rooms);
    }
}

/// The number of rooms in one list of the response.
pub struct ListCount {
    pub id: String,
    pub count: u64,
}

pub open spec fn distinct_ids(r: Seq<ListCount>) -> bool {
    forall|i: int, j: int| 0 <= i < j < r.len() ==> (#[trigger] r[i]).id@ != (#[trigger] r[j]).id@
}

fn find_list(out: &Vec<ListCount>, id: &str) -> (r: Option<usize>)
    ensures
        match r {
            Some(k) => k < out@.len() && out@[k as int].id@ == id@,
            None => forall|k: int| 0 <= k < out@.len() ==> (#[trigger] out@[k]).id@ != id@,
        },
{
    let mut k: usize = 0;
    while k < out.len()
        invariant
            k <= out@.len(),
            forall|j: int| 0 <= j < k ==> (#[trigger] out@[j]).id@ != id@,
        decreases out.len() - k,
    {
        if str_eq(out[k].id.as_str(), id) {
            return Some(k);
        }
        k = k + 1;
    }
    None
}

/// The occurrences of `id` in the first `i` rooms and the first `j` lists
/// of room `i`.
spec fn occurrences_upto(rooms: Seq<WindowRoom>, i: int, j: int, id: Seq<char>) -> nat {
    list_occurrences(rooms.take(i), id) + count_in(rooms[i].lists@.take(j), id)
}

/// Counts the rooms of each list: one entry per list that some room is in.
/// A count must stay within what a JSON number holds.
pub fn response_lists(rooms: &Vec<WindowRoom>) -> (r: Vec<ListCount>)
    requires
        forall|id: Seq<char>| #[trigger] list_occurrences(rooms@, id) <= MAX_SAFE_INT,
    ensures
        distinct_ids(r@),
        forall|k: int|
            0 <= k < r@.len() ==> (#[trigger] r@[k]).count == list_occurrences(rooms@, r@[k].id@)
                && r@[k].count > 0,
        forall|id: Seq<char>|
            #[trigger] list_occurrences(rooms@, id) > 0 ==> exists|k: int|
                0 <= k < r@.len() && (#[trigger] r@[k]).id@ == id,
{
    let mut out: Vec<ListCount> = Vec::new();
    let mut i: usize = 0;
    proof {
        assert forall|id: Seq<char>| #[trigger] list_occurrences(rooms@.take(0), id) == 0 by {
            assert(rooms@.take(0).len() == 0);
        }
    }
    while i < rooms.len()
        invariant
            i <= rooms@.len(),
            forall|id: Seq<char>| #[trigger] list_occurrences(rooms@, id) <= MAX_SAFE_INT,
            distinct_ids(out@),
            forall|k: int|
                0 <= k < out@.len() ==> (#[trigger] out@[k]).count == list_occurrences(
                    rooms@.take(i as int),
                    out@[k].id@,
                ) && out@[k].count > 0,
            forall|id: Seq<char>|
                #[trigger] list_occurrences(rooms@.take(i as int), id) > 0 ==> exists|k: int|
                    0 <= k < out@.len() && (#[trigger] out@[k]).id@ == id,
        decreases rooms.len() - i,
    {
        let lists = &rooms[i].lists;
        let mut j: usize = 0;
        proof {
            assert forall|id: Seq<char>|
                #[trigger] occurrences_upto(rooms@, i as int, 0, id) == list_occurrences(
                    rooms@.take(i as int),
                    id,
                ) by {
                assert(rooms@[i as int].lists@.take(0).len() == 0);
            }
        }
        while j < lists.len()
            invariant
                i < rooms@.len(),
                j <= lists@.len(),
                lists@ == rooms@[i as int].lists@,
                forall|id: Seq<char>| #[trigger] list_occurrences(rooms@, id) <= MAX_SAFE_INT,
                distinct_ids(out@),
                forall|k: int|
                    0 <= k < out@.len() ==> (#[trigger] out@[k]).count == occurrences_upto(
                        rooms@,
                        i as int,
                        j as int,
                        out@[k].id@,
                    ) && out@[k].count > 0,
                forall|id: Seq<char>|
                    #[trigger] occurrences_upto(rooms@, i as int, j as int, id) > 0 ==> exists|k: int|
                        0 <= k < out@.len() && (#[trigger] out@[k]).id@ == id,
            decreases lists.len() - j,
        {
            let id = &lists[j];
            let ghost old_out = out@;
            proof {
                assert(lists@.take(j + 1).drop_last() =~= lists@.take(j as int));
                assert forall|x: Seq<char>|
                    #[trigger] occurrences_upto(rooms@, i as int, j + 1, x) == occurrences_upto(
                        rooms@,
                        i as int,
                        j as int,
                        x,
                    ) + if lists@[j as int]@ == x {
                        1nat
                    } else {
                        0nat
                    } by {}
                lemma_count_in_prefix(lists@, j + 1, id@);
                lemma_list_occurrences_prefix(rooms@, i + 1, id@);
                assert(rooms@.take(i + 1).drop_last() =~= rooms@.take(i as int));
                assert(list_occurrences(rooms@.take(i + 1), id@) == list_occurrences(
                    rooms@.take(i as int),
                    id@,
                ) + count_in(lists@, id@));
                assert(occurrences_upto(rooms@, i as int, j + 1, id@) <= list_occurrences(rooms@, id@));
            }
            match find_list(&out, id.as_str()) {
                Some(k) => {
                    let c = out[k].count;
                    out[k].count = c + 1;
                    proof {
                        assert forall|a: int, b: int| 0 <= a < b < out@.len() implies (#[trigger] out@[a]).id@
                            != (#[trigger] out@[b]).id@ by {
                            assert(old_out[a].id == out@[a].id);
                            assert(old_out[b].id == out@[b].id);
                        }
                        assert forall|x: Seq<char>|
                            #[trigger] occurrences_upto(rooms@, i as int, j + 1, x) > 0 implies exists|m: int|
                                0 <= m < out@.len() && (#[trigger] out@[m]).id@ == x by {
                            if x == id@ {
                                assert(out@[k as int].id@ == x);
                            } else {
                                assert(occurrences_upto(rooms@, i as int, j as int, x) > 0);
                                let m = choose|m: int| 0 <= m < old_out.len() && (#[trigger] old_out[m]).id@ == x;
                                assert(out@[m].id == old_out[m].id);
                            }
                        }
                    }
                },
                None => {
                    out.push(ListCount { id: id.clone(), count: 1 });
                    proof {
                        assert forall|x: Seq<char>|
                            #[trigger] occurrences_upto(rooms@, i as int, j + 1, x) > 0 implies exists|m: int|
                                0 <= m < out@.len() && (#[trigger] out@[m]).id@ == x by {
                            if x == id@ {
                                assert(out@[old_out.len() as int].id@ == x);
                            } else {
                                assert(occurrences_upto(rooms@, i as int, j as int, x) > 0);
                                let m = choose|m: int| 0 <= m < old_out.len() && (#[trigger] old_out[m]).id@ == x;
                                assert(out@[m] == old_out[m]);
                            }
                        }
                        assert(occurrences_upto(rooms@, i as int, j as int, id@) == 0);
                    }
                },
            }
            j = j + 1;
        }
        proof {
            assert(lists@.take(lists@.len() as int) =~= lists@);
            assert(rooms@.take(i + 1).drop_last() =~= rooms@.take(i as int));
            assert forall|x: Seq<char>|
                #[trigger] list_occurrences(rooms@.take(i + 1), x) == occurrences_upto(
                    rooms@,
                    i as int,
                    j as int,
                    x,
                ) by {}
        }
        i = i + 1;
    }
    proof {
        assert(rooms@.take(rooms@.len() as int) =~= rooms@);
    }
    out
}


/// What the connection remembers of a room: the count up to which it was
/// last sent.
pub struct ConnRoom {
    pub room_id: String,
    pub roomsince: u64,
}

/// The `roomsince` of the first entry for `room_id`, if any.
pub open spec fn spec_roomsince(conn: Seq<ConnRoom>, room_id: Seq<char>) -> Option<u64>
    decreases conn.len(),
{
    if conn.len() == 0 {
        None
    } else {
        match spec_roomsince(conn.drop_last(), room_id) {
            Some(since) => Some(since),
            None => if conn.last().room_id@ == room_id {
                Some(conn.last().roomsince)
            } else {
                None
            },
        }
    }
}

proof fn lemma_roomsince_prefix(conn: Seq<ConnRoom>, k: int, room_id: Seq<char>)
    requires
        0 <= k <= conn.len(),
        spec_roomsince(conn.take(k), room_id) is Some,
    ensures
        spec_roomsince(conn, room_id) == spec_roomsince(conn.take(k), room_id),
    decreases conn.len() - k,
{
    if k < conn.len() {
        assert(conn.take(k + 1).drop_last() =~= conn.take(k));
        lemma_roomsince_prefix(conn, k + 1, room_id);
    } else {
        assert(conn.take(k) =~= conn);
    }
}

/// The `roomsince` the connection keeps for a room: a room of the window
/// that the connection does not know is an error (missing connection
/// state), given back with the room's ID.
pub fn connection_roomsince(conn: &Vec<ConnRoom>, room_id: &str) -> (r: Result<u64, String>)
    ensures
        match spec_roomsince(conn@, room_id@) {
            Some(since) => r == Ok::<u64, String>(since),
            None => r matches Err(id) && id@ == room_id@,
        },
{
    match roomsince(conn, room_id) {
        Some(since) => Ok(since),
        None => Err(room_id.to_string()),
    }
}

fn roomsince(conn: &Vec<ConnRoom>, room_id: &str) -> (r: Option<u64>)
    ensures
        r == spec_roomsince(conn@, room_id@),
{
    let mut k: usize = 0;
    while k < conn.len()
        invariant
            k <= conn@.len(),
            spec_roomsince(conn@.take(k as int), room_id@) is None,
        decreases conn.len() - k,
    {
        proof {
            assert(conn@.take(k + 1).drop_last() =~= conn@.take(k as int));
        }
        if str_eq(conn[k].room_id.as_str(), room_id) {
            proof {
                lemma_roomsince_prefix(conn@, k + 1, room_id@);
            }
            return Some(conn[k].roomsince);
        }
        k = k + 1;
    }
    proof {
        assert(conn@.take(k as int) =~= conn@);
    }
    None
}

/// Whether a room is offered in list `list_id`: it is in the list, the
/// connection knows it, and it is new to the connection or active since it
/// was last sent.
pub open spec fn spec_eligible(room: WindowRoom, list_id: Seq<char>, conn: Seq<ConnRoom>) -> bool {
    holds_user(room.lists@, list_id) && match spec_roomsince(conn, room.room_id@) {
        Some(since) => since == 0 || room.last_count > since,
        None => false,
    }
}

pub open spec fn eligible_rooms(rooms: Seq<WindowRoom>, list_id: Seq<char>, conn: Seq<ConnRoom>) -> Seq<
    WindowRoom,
> {
    rooms.filter(|r: WindowRoom| spec_eligible(r, list_id, conn))
}

fn eligible(room: &WindowRoom, list_id: &str, conn: &Vec<ConnRoom>) -> (r: bool)
    ensures
        r == spec_eligible(*room, list_id@, conn@),
{
    if !list_contains(room.lists.as_slice(), list_id) {
        return false;
    }
    match roomsince(conn, room.room_id.as_str()) {
        Some(since) => since == 0 || room.last_count > since,
        None => false,
    }
}

/// How many rooms the inclusive range `start..=end` takes.
pub open spec fn range_len(start: usize, end: usize) -> int {
    let stop: int = if end == usize::MAX {
        usize::MAX as int
    } else {
        end + 1
    };
    if stop > start {
        stop - start
    } else {
        0
    }
}

pub open spec fn min_int(a: int, b: int) -> int {
    if a < b {
        a
    } else {
        b
    }
}

/// The rooms of list `list_id` in the range `start..=end` of its eligible
/// rooms.
pub open spec fn spec_select_range(
    rooms: Seq<WindowRoom>,
    list_id: Seq<char>,
    conn: Seq<ConnRoom>,
    start: usize,
    end: usize,
) -> Seq<WindowRoom> {
    let el = eligible_rooms(rooms, list_id, conn);
    el.subrange(min_int(start as int, el.len() as int), min_int(start + range_len(start, end), el.len() as int))
}

proof fn lemma_eligible_step(rooms: Seq<WindowRoom>, list_id: Seq<char>, conn: Seq<ConnRoom>, i: int)
    requires
        0 <= i < rooms.len(),
    ensures
        eligible_rooms(rooms.take(i + 1), list_id, conn) == if spec_eligible(rooms[i], list_id, conn) {
            eligible_rooms(rooms.take(i), list_id, conn).push(rooms[i])
        } else {
            eligible_rooms(rooms.take(i), list_id, conn)
        },
{
    assert(rooms.take(i + 1).drop_last() =~= rooms.take(i));
    reveal_with_fuel(Seq::filter, 1);
}

proof fn lemma_window_step(prev: Seq<WindowRoom>, x: WindowRoom, start: int, n: int)
    requires
        0 <= start,
        0 <= n,
    ensures
        prev.len() >= start && prev.len() - start < n ==> prev.push(x).subrange(
            min_int(start, prev.len() + 1int),
            min_int(start + n, prev.len() + 1int),
        ) =~= prev.subrange(min_int(start, prev.len() as int), min_int(start + n, prev.len() as int)).push(x),
        !(prev.len() >= start && prev.len() - start < n) ==> prev.push(x).subrange(
            min_int(start, prev.len() + 1int),
            min_int(start + n, prev.len() + 1int),
        ) =~= prev.subrange(min_int(start, prev.len() as int), min_int(start + n, prev.len() as int)),
{
}

/// Two sequences of rooms that hold the same values.
pub open spec fn same_rooms(a: Seq<WindowRoom>, b: Seq<WindowRoom>) -> bool {
    a.len() == b.len() && forall|k: int| 0 <= k < a.len() ==> same_room(#[trigger] a[k], b[k])
}

/// Selects the rooms of one range of one list.
pub fn select_range(
    rooms: &Vec<WindowRoom>,
    list_id: &str,
    conn: &Vec<ConnRoom>,
    start: usize,
    end: usize,
) -> (r: Vec<WindowRoom>)
    ensures
        same_rooms(r@, spec_select_range(rooms@, list_id@, conn@, start, end)),
{
    let n = end.saturating_add(1).saturating_sub(start);
    let mut out: Vec<WindowRoom> = Vec::new();
    let mut seen: usize = 0;
    let mut i: usize = 0;
    while i < rooms.len()
        invariant
            i <= rooms@.len(),
            n == range_len(start, end),
            seen == eligible_rooms(rooms@.take(i as int), list_id@, conn@).len(),
            seen <= i,
            same_rooms(
                out@,
                eligible_rooms(rooms@.take(i as int), list_id@, conn@).subrange(
                    min_int(start as int, seen as int),
                    min_int(start + n, seen as int),
                ),
            ),
        decreases rooms.len() - i,
    {
        let ghost prev = eligible_rooms(rooms@.take(i as int), list_id@, conn@);
        let ghost old_out = out@;
        proof {
            lemma_eligible_step(rooms@, list_id@, conn@, i as int);
        }
        if eligible(&rooms[i], list_id, conn) {
            proof {
                lemma_window_step(prev, rooms@[i as int], start as int, n as int);
            }
            if seen >= start && seen - start < n {
                out.push(rooms[i].duplicate());
                proof {
                    assert(out@ == old_out.push(out@.last()));
                    assert forall|k: int| 0 <= k < out@.len() implies same_room(
                        #[trigger] out@[k],
                        prev.push(rooms@[i as int]).subrange(min_int(start as int, seen + 1), min_int(start + n, seen + 1))[k],
                    ) by {
                        if k < old_out.len() {
                            assert(out@[k] == old_out[k]);
                        }
                    }
                }
            }
            seen = seen + 1;
        }
        i = i + 1;
    }
    proof {
        assert(rooms@.take(rooms@.len() as int) =~= rooms@);
    }
    out
}


proof fn lemma_same_rooms_concat(a: Seq<WindowRoom>, b: Seq<WindowRoom>, c: Seq<WindowRoom>, d: Seq<WindowRoom>)
    requires
        same_rooms(a, b),
        same_rooms(c, d),
    ensures
        same_rooms(a + c, b + d),
{
    assert forall|k: int| 0 <= k < (a + c).len() implies same_room(#[trigger] (a + c)[k], (b + d)[k]) by {
        if k < a.len() {
            assert(same_room(a[k], b[k]));
        } else {
            assert(same_room(c[k - a.len()], d[k - a.len()]));
        }
    }
}

/// The ranges a list asks for; a list without ranges asks for all its rooms.
pub struct ListRanges {
    pub id: String,
    pub ranges: Vec<(usize, usize)>,
}

pub open spec fn effective_ranges(ranges: Seq<(usize, usize)>) -> Seq<(usize, usize)> {
    if ranges.len() == 0 {
        seq![(0usize, usize::MAX)]
    } else {
        ranges
    }
}

/// The rooms of list `list_id` in each of `ranges`, range after range.
pub open spec fn spec_list_selection(
    rooms: Seq<WindowRoom>,
    list_id: Seq<char>,
    conn: Seq<ConnRoom>,
    ranges: Seq<(usize, usize)>,
) -> Seq<WindowRoom>
    decreases ranges.len(),
{
    if ranges.len() == 0 {
        Seq::empty()
    } else {
        spec_list_selection(rooms, list_id, conn, ranges.drop_last()) + spec_select_range(
            rooms,
            list_id,
            conn,
            ranges.last().0,
            ranges.last().1,
        )
    }
}

/// The ranges that the connection holds for list `id`, from its first entry.
pub open spec fn spec_find_ranges(lists: Seq<ListRanges>, id: Seq<char>) -> Option<Seq<(usize, usize)>> {
    if exists|k: int| 0 <= k < lists.len() && (#[trigger] lists[k]).id@ == id {
        let k = choose|k: int|
            0 <= k < lists.len() && (#[trigger] lists[k]).id@ == id && forall|j: int|
                0 <= j < k ==> (#[trigger] lists[j]).id@ != id;
        Some(lists[k].ranges@)
    } else {
        None
    }
}

/// The rooms selected for every list of the response that the connection
/// holds, list after list.
pub open spec fn spec_selections(
    rooms: Seq<WindowRoom>,
    conn: Seq<ConnRoom>,
    lists: Seq<ListCount>,
    ranges: Seq<ListRanges>,
) -> Seq<WindowRoom>
    decreases lists.len(),
{
    if lists.len() == 0 {
        Seq::empty()
    } else {
        let rest = spec_selections(rooms, conn, lists.drop_last(), ranges);
        match spec_find_ranges(ranges, lists.last().id@) {
            Some(rs) => rest + spec_list_selection(rooms, lists.last().id@, conn, effective_ranges(rs)),
            None => rest,
        }
    }
}

fn copy_ranges(v: &Vec<(usize, usize)>) -> (r: Vec<(usize, usize)>)
    ensures
        r@ == v@,
{
    let mut out: Vec<(usize, usize)> = Vec::new();
    let mut i: usize = 0;
    while i < v.len()
        invariant
            i <= v@.len(),
            out@ == v@.take(i as int),
        decreases v.len() - i,
    {
        out.push(v[i]);
        proof {
            assert(v@.take(i + 1) =~= v@.take(i as int).push(v@[i as int]));
        }
        i = i + 1;
    }
    proof {
        assert(v@.take(v@.len() as int) =~= v@);
    }
    out
}

fn find_ranges(lists: &Vec<ListRanges>, id: &str) -> (r: Option<Vec<(usize, usize)>>)
    ensures
        match spec_find_ranges(lists@, id@) {
            Some(rs) => r matches Some(v) && v@ == rs,
            None => r is None,
        },
{
    let mut k: usize = 0;
    while k < lists.len()
        invariant
            k <= lists@.len(),
            forall|j: int| 0 <= j < k ==> (#[trigger] lists@[j]).id@ != id@,
        decreases lists.len() - k,
    {
        if str_eq(lists[k].id.as_str(), id) {
            proof {
                let c = choose|c: int|
                    0 <= c < lists@.len() && (#[trigger] lists@[c]).id@ == id@ && forall|j: int|
                        0 <= j < c ==> (#[trigger] lists@[j]).id@ != id@;
                if c < k {
                    assert(lists@[c].id@ != id@);
                } else if c > k {
                    assert(lists@[k as int].id@ == id@);
                }
            }
            return Some(copy_ranges(&lists[k].ranges));
        }
        k = k + 1;
    }
    None
}

fn list_selection(
    rooms: &Vec<WindowRoom>,
    list_id: &str,
    conn: &Vec<ConnRoom>,
    ranges: &Vec<(usize, usize)>,
) -> (r: Vec<WindowRoom>)
    ensures
        same_rooms(r@, spec_list_selection(rooms@, list_id@, conn@, ranges@)),
{
    let mut out: Vec<WindowRoom> = Vec::new();
    let mut i: usize = 0;
    while i < ranges.len()
        invariant
            i <= ranges@.len(),
            same_rooms(out@, spec_list_selection(rooms@, list_id@, conn@, ranges@.take(i as int))),
        decreases ranges.len() - i,
    {
        let (start, end) = ranges[i];
        let mut part = select_range(rooms, list_id, conn, start, end);
        proof {
            assert(ranges@.take(i + 1).drop_last() =~= ranges@.take(i as int));
            lemma_same_rooms_concat(
                out@,
                spec_list_selection(rooms@, list_id@, conn@, ranges@.take(i as int)),
                part@,
                spec_select_range(rooms@, list_id@, conn@, start, end),
            );
        }
        out.append(&mut part);
        i = i + 1;
    }
    proof {
        assert(ranges@.take(ranges@.len() as int) =~= ranges@);
    }
    out
}

/// Selects the rooms of every list of the response, range by range.
pub fn selections(
    rooms: &Vec<WindowRoom>,
    conn: &Vec<ConnRoom>,
    lists: &Vec<ListCount>,
    ranges: &Vec<ListRanges>,
) -> (r: Vec<WindowRoom>)
    ensures
        same_rooms(r@, spec_selections(rooms@, conn@, lists@, ranges@)),
{
    let mut out: Vec<WindowRoom> = Vec::new();
    let mut i: usize = 0;
    while i < lists.len()
        invariant
            i <= lists@.len(),
            same_rooms(out@, spec_selections(rooms@, conn@, lists@.take(i as int), ranges@)),
        decreases lists.len() - i,
    {
        proof {
            assert(lists@.take(i + 1).drop_last() =~= lists@.take(i as int));
        }
        match find_ranges(ranges, lists[i].id.as_str()) {
            Some(rs) => {
                let effective = if rs.len() == 0 {
                    vec![(0usize, usize::MAX)]
                } else {
                    rs
                };
                proof {
                    assert(effective@ =~= effective_ranges(spec_find_ranges(ranges@, lists@[i as int].id@)->0));
                }
                let mut part = list_selection(rooms, lists[i].id.as_str(), conn, &effective);
                proof {
                    lemma_same_rooms_concat(
                        out@,
                        spec_selections(rooms@, conn@, lists@.take(i as int), ranges@),
                        part@,
                        spec_list_selection(rooms@, lists@[i as int].id@, conn@, effective@),
                    );
                }
                out.append(&mut part);
            },
            None => {},
        }
        i = i + 1;
    }
    proof {
        assert(lists@.take(lists@.len() as int) =~= lists@);
    }
    out
}

/// No two rooms share an ID.
pub open spec fn distinct_rooms(r: Seq<WindowRoom>) -> bool {
    forall|i: int, j: int| 0 <= i < j < r.len() ==> (#[trigger] r[i]).room_id@ != (#[trigger] r[j]).room_id@
}

/// `room` is the last entry of `entries` with its ID.
pub open spec fn last_of_id(entries: Seq<WindowRoom>, room: WindowRoom) -> bool {
    exists|j: int|
        0 <= j < entries.len() && #[trigger] entries[j] == room && forall|l: int|
            j < l < entries.len() ==> (#[trigger] entries[l]).room_id@ != room.room_id@
}

fn find_room(out: &Vec<WindowRoom>, room_id: &str) -> (r: Option<usize>)
    ensures
        match r {
            Some(k) => k < out@.len() && out@[k as int].room_id@ == room_id@,
            None => forall|k: int| 0 <= k < out@.len() ==> (#[trigger] out@[k]).room_id@ != room_id@,
        },
{
    let mut k: usize = 0;
    while k < out.len()
        invariant
            k <= out@.len(),
            forall|j: int| 0 <= j < k ==> (#[trigger] out@[j]).room_id@ != room_id@,
        decreases out.len() - k,
    {
        if str_eq(out[k].room_id.as_str(), room_id) {
            return Some(k);
        }
        k = k + 1;
    }
    None
}

/// Collects the window keyed by room ID: a later entry for a room replaces
/// an earlier one.
pub fn collect_window(entries: Vec<WindowRoom>) -> (r: Vec<WindowRoom>)
    ensures
        distinct_rooms(r@),
        forall|k: int| 0 <= k < r@.len() ==> last_of_id(entries@, #[trigger] r@[k]),
        forall|j: int|
            0 <= j < entries@.len() ==> exists|k: int|
                0 <= k < r@.len() && (#[trigger] r@[k]).room_id@ == (#[trigger] entries@[j]).room_id@,
{
    let ghost all = entries@;
    let mut rest = entries;
    let mut out: Vec<WindowRoom> = Vec::new();
    let n = rest.len();
    let mut i: usize = 0;
    while i < n
        invariant
            n == all.len(),
            i <= n,
            rest@ == all.skip(i as int),
            distinct_rooms(out@),
            forall|k: int| 0 <= k < out@.len() ==> last_of_id(all.take(i as int), #[trigger] out@[k]),
            forall|j: int|
                0 <= j < i ==> exists|k: int|
                    0 <= k < out@.len() && (#[trigger] out@[k]).room_id@ == (#[trigger] all[j]).room_id@,
        decreases n - i,
    {
        let e = rest.remove(0);
        let ghost old_out = out@;
        let ghost pre = all.take(i as int);
        let ghost post = all.take(i + 1);
        proof {
            assert(e == all[i as int]);
            assert(rest@ =~= all.skip(i + 1));
            assert(post =~= pre.push(e));
        }
        match find_room(&out, e.room_id.as_str()) {
            Some(k) => {
                out.set(k, e);
                proof {
                    assert forall|a: int, b: int| 0 <= a < b < out@.len() implies (#[trigger] out@[a]).room_id@
                        != (#[trigger] out@[b]).room_id@ by {
                        assert(old_out[a].room_id@ != old_out[b].room_id@);
                    }
                    assert forall|m: int| 0 <= m < out@.len() implies last_of_id(post, #[trigger] out@[m]) by {
                        if m == k {
                            assert(post[i as int] == out@[m]);
                        } else {
                            let room = out@[m];
                            assert(room == old_out[m]);
                            assert(last_of_id(pre, room));
                            let j = choose|j: int|
                                0 <= j < pre.len() && #[trigger] pre[j] == room && forall|l: int|
                                    j < l < pre.len() ==> (#[trigger] pre[l]).room_id@ != room.room_id@;
                            assert(post[j] == room);
                            assert(old_out[k as int].room_id@ != room.room_id@);
                            assert forall|l: int| j < l < post.len() implies (#[trigger] post[l]).room_id@
                                != room.room_id@ by {
                                if l < pre.len() {
                                    assert(post[l] == pre[l]);
                                }
                            }
                        }
                    }
                    assert forall|j: int| 0 <= j < i + 1 implies exists|m: int|
                        0 <= m < out@.len() && (#[trigger] out@[m]).room_id@ == (#[trigger] all[j]).room_id@ by {
                        if j == i {
                            assert(out@[k as int].room_id@ == all[j].room_id@);
                        } else {
                            let m = choose|m: int|
                                0 <= m < old_out.len() && (#[trigger] old_out[m]).room_id@ == (#[trigger] all[j]).room_id@;
                            if m == k {
                                assert(out@[k as int].room_id@ == all[j].room_id@);
                            } else {
                                assert(out@[m] == old_out[m]);
                            }
                        }
                    }
                }
            },
            None => {
                out.push(e);
                proof {
                    assert forall|m: int| 0 <= m < out@.len() implies last_of_id(post, #[trigger] out@[m]) by {
                        if m == old_out.len() {
                            assert(post[i as int] == out@[m]);
                        } else {
                            let room = out@[m];
                            assert(room == old_out[m]);
                            assert(last_of_id(pre, room));
                            let j = choose|j: int|
                                0 <= j < pre.len() && #[trigger] pre[j] == room && forall|l: int|
                                    j < l < pre.len() ==> (#[trigger] pre[l]).room_id@ != room.room_id@;
                            assert(post[j] == room);
                            assert forall|l: int| j < l < post.len() implies (#[trigger] post[l]).room_id@
                                != room.room_id@ by {
                                if l < pre.len() {
                                    assert(post[l] == pre[l]);
                                }
                            }
                        }
                    }
                    assert forall|j: int| 0 <= j < i + 1 implies exists|m: int|
                        0 <= m < out@.len() && (#[trigger] out@[m]).room_id@ == (#[trigger] all[j]).room_id@ by {
                        if j == i {
                            assert(out@[old_out.len() as int].room_id@ == all[j].room_id@);
                        } else {
                            let m = choose|m: int|
                                0 <= m < old_out.len() && (#[trigger] old_out[m]).room_id@ == (#[trigger] all[j]).room_id@;
                            assert(out@[m] == old_out[m]);
                        }
                    }
                }
            },
        }
        i = i + 1;
    }
    proof {
        assert(all.take(n as int) =~= all);
    }
    out
}

/// A room the connection subscribed to: in no list and unranked.
pub fn subscription_room(room_id: String, membership: Option<MembershipState>) -> (r: WindowRoom)
    ensures
        r.room_id == room_id,
        r.membership == membership,
        r.lists@.len() == 0,
        r.ranked == usize::MAX,
        r.last_count == 0,
{
    WindowRoom { room_id, membership, lists: Vec::new(), ranked: usize::MAX, last_count: 0 }
}


/// Whether some room has the ID `room_id`.
pub open spec fn has_room(rooms: Seq<WindowRoom>, room_id: Seq<char>) -> bool {
    exists|k: int| 0 <= k < rooms.len() && (#[trigger] rooms[k]).room_id@ == room_id
}

proof fn lemma_has_room_step(rooms: Seq<WindowRoom>, i: int, x: Seq<char>)
    requires
        0 <= i < rooms.len(),
    ensures
        has_room(rooms.take(i + 1), x) == (has_room(rooms.take(i), x) || x == rooms[i].room_id@),
{
    if has_room(rooms.take(i + 1), x) {
        let k = choose|k: int| 0 <= k < i + 1 && (#[trigger] rooms.take(i + 1)[k]).room_id@ == x;
        if k < i {
            assert(rooms.take(i)[k] == rooms.take(i + 1)[k]);
        }
    }
    if has_room(rooms.take(i), x) {
        let k = choose|k: int| 0 <= k < i && (#[trigger] rooms.take(i)[k]).room_id@ == x;
        assert(rooms.take(i)[k] == rooms.take(i + 1)[k]);
    }
    if x == rooms[i].room_id@ {
        assert(rooms.take(i + 1)[i] == rooms[i]);
    }
}

proof fn lemma_roomsince_push(before: Seq<ConnRoom>, e: ConnRoom, x: Seq<char>)
    ensures
        spec_roomsince(before.push(e), x) == match spec_roomsince(before, x) {
            Some(since) => Some(since),
            None => if e.room_id@ == x {
                Some(e.roomsince)
            } else {
                None
            },
        },
{
    assert(before.push(e).drop_last() =~= before);
}

/// Makes sure the connection remembers every room: a room it does not know
/// yet starts with a `roomsince` of zero.
pub fn remember_rooms(conn: &mut Vec<ConnRoom>, rooms: &Vec<WindowRoom>)
    ensures
        forall|id: Seq<char>|
            #[trigger] spec_roomsince(final(conn)@, id) == match spec_roomsince(old(conn)@, id) {
                Some(since) => Some(since),
                None => if has_room(rooms@, id) {
                    Some(0u64)
                } else {
                    None
                },
            },
{
    let ghost start = conn@;
    let mut i: usize = 0;
    while i < rooms.len()
        invariant
            i <= rooms@.len(),
            start.len() <= conn@.len(),
            forall|k: int| 0 <= k < start.len() ==> #[trigger] conn@[k] == start[k],
            forall|k: int| start.len() <= k < conn@.len() ==> (#[trigger] conn@[k]).roomsince == 0,
            forall|id: Seq<char>|
                #[trigger] spec_roomsince(conn@, id) == match spec_roomsince(start, id) {
                    Some(since) => Some(since),
                    None => if has_room(rooms@.take(i as int), id) {
                        Some(0u64)
                    } else {
                        None
                    },
                },
        decreases rooms.len() - i,
    {
        let id = &rooms[i].room_id;
        let ghost before = conn@;
        proof {
            assert forall|x: Seq<char>| #[trigger] has_room(rooms@.take(i + 1), x) == (has_room(rooms@.take(i as int), x) || x == id@) by {
                lemma_has_room_step(rooms@, i as int, x);
            }
        }
        match roomsince(conn, id.as_str()) {
            Some(_) => {},
            None => {
                let e = ConnRoom { room_id: id.clone(), roomsince: 0 };
                let ghost eg = e;
                conn.push(e);
                proof {
                    assert forall|x: Seq<char>| #[trigger] spec_roomsince(conn@, x) == match spec_roomsince(before, x) {
                        Some(since) => Some(since),
                        None => if eg.room_id@ == x {
                            Some(0u64)
                        } else {
                            None
                        },
                    } by {
                        lemma_roomsince_push(before, eg, x);
                    }
                }
            },
        }
        i = i + 1;
    }
    proof {
        assert(rooms@.take(rooms@.len() as int) =~= rooms@);
    }
}

/// What the selector gives: the rooms ranked by activity, the count of
/// each list, and the window of rooms to send.
pub struct Selection {
    pub rooms: Vec<WindowRoom>,
    pub lists: Vec<ListCount>,
    pub window: Vec<WindowRoom>,
}

/// Ranks the matched rooms by activity, counts the lists, remembers every
/// room in the connection, and selects the window: the subscribed rooms
/// first, then the ranges of each list, a later entry for a room replacing
/// an earlier one. The ranked rooms are the matched rooms in activity order
/// (those of equal activity in the order they came), each with its place
/// as its rank and nothing else changed.
pub fn selector(
    conn: &mut Vec<ConnRoom>,
    rooms: Vec<WindowRoom>,
    ranges: &Vec<ListRanges>,
    subscriptions: Vec<WindowRoom>,
) -> (r: Selection)
    requires
        forall|id: Seq<char>| #[trigger] list_occurrences(rooms@, id) <= MAX_SAFE_INT,
    ensures
        sorted_by_activity(r.rooms@),
        r.rooms@.len() == rooms@.len(),
        forall|k: int| 0 <= k < r.rooms@.len() ==> (#[trigger] r.rooms@[k]).ranked == k,
        exists|s: Seq<WindowRoom>|
            #![trigger s.to_multiset()]
            {
                &&& s.to_multiset() == rooms@.to_multiset()
                &&& s.len() == r.rooms@.len()
                &&& forall|a: u64| #[trigger] of_activity(s, a) == of_activity(rooms@, a)
                &&& forall|k: int|
                    0 <= k < s.len() ==> (#[trigger] r.rooms@[k]).room_id == s[k].room_id && r.rooms@[k].membership
                        == s[k].membership && r.rooms@[k].lists@ == s[k].lists@ && r.rooms@[k].last_count
                        == s[k].last_count
            },
        distinct_ids(r.lists@),
        forall|k: int|
            0 <= k < r.lists@.len() ==> (#[trigger] r.lists@[k]).count == list_occurrences(rooms@, r.lists@[k].id@)
                && r.lists@[k].count > 0,
        forall|id: Seq<char>|
            #[trigger] list_occurrences(rooms@, id) > 0 ==> exists|k: int|
                0 <= k < r.lists@.len() && (#[trigger] r.lists@[k]).id@ == id,
        forall|id: Seq<char>|
            #[trigger] spec_roomsince(final(conn)@, id) == match spec_roomsince(old(conn)@, id) {
                Some(since) => Some(since),
                None => if has_room(rooms@, id) {
                    Some(0u64)
                } else {
                    None
                },
            },
        exists|sel: Seq<WindowRoom>|
            #![trigger same_rooms(sel, spec_selections(r.rooms@, final(conn)@, r.lists@, ranges@))]
            same_rooms(sel, spec_selections(r.rooms@, final(conn)@, r.lists@, ranges@)) && {
                let entries = subscriptions@ + sel;
                &&& distinct_rooms(r.window@)
                &&& forall|k: int| 0 <= k < r.window@.len() ==> last_of_id(entries, #[trigger] r.window@[k])
                &&& forall|j: int|
                    0 <= j < entries.len() ==> exists|k: int|
                        0 <= k < r.window@.len() && (#[trigger] r.window@[k]).room_id@
                            == (#[trigger] entries[j]).room_id@
            },
{
    let ghost rooms0 = rooms@;
    let lists = response_lists(&rooms);
    proof {
        assert forall|id: Seq<char>| #[trigger] list_occurrences(rooms0, id) > 0 implies exists|k: int|
            0 <= k < lists@.len() && (#[trigger] lists@[k]).id@ == id by {
            assert(list_occurrences(rooms@, id) > 0);
        }
    }
    let sorted = sort_rooms(rooms);
    let ranked = rank_rooms(sorted);
    proof {
        assert forall|i: int, j: int| 0 <= i < j < ranked@.len() implies #[trigger] ranked@[i].last_count
            >= #[trigger] ranked@[j].last_count by {
            assert(sorted@[i].last_count >= sorted@[j].last_count);
        }
        sorted@.to_multiset_ensures();
        rooms@.to_multiset_ensures();
        assert(sorted@.len() == rooms@.len()) by {
            assert(sorted@.to_multiset().len() == rooms@.to_multiset().len());
        }
        assert(forall|k: int|
            0 <= k < sorted@.len() ==> (#[trigger] ranked@[k]).room_id == sorted@[k].room_id && ranked@[k].membership
                == sorted@[k].membership && ranked@[k].lists@ == sorted@[k].lists@ && ranked@[k].last_count
                == sorted@[k].last_count);
    }
    let ghost sorted_view = sorted@;
    remember_rooms(conn, &ranked);
    proof {
        assert forall|id: Seq<char>| #[trigger] has_room(ranked@, id) == has_room(rooms@, id) by {
            if has_room(ranked@, id) {
                let k = choose|k: int| 0 <= k < ranked@.len() && (#[trigger] ranked@[k]).room_id@ == id;
                assert(ranked@[k].room_id == sorted@[k].room_id);
                assert(sorted@.to_multiset().count(sorted@[k]) > 0) by {
                    assert(sorted@.contains(sorted@[k]));
                }
                assert(rooms@.contains(sorted@[k]));
                let m = choose|m: int| 0 <= m < rooms@.len() && rooms@[m] == sorted@[k];
                assert(rooms@[m].room_id@ == id);
            }
            if has_room(rooms@, id) {
                let m = choose|m: int| 0 <= m < rooms@.len() && (#[trigger] rooms@[m]).room_id@ == id;
                assert(rooms@.to_multiset().count(rooms@[m]) > 0) by {
                    assert(rooms@.contains(rooms@[m]));
                }
                assert(sorted@.contains(rooms@[m]));
                let k = choose|k: int| 0 <= k < sorted@.len() && sorted@[k] == rooms@[m];
                assert(ranked@[k].room_id == sorted@[k].room_id);
                assert(ranked@[k].room_id@ == id);
            }
        }
    }
    let sel = selections(&ranked, conn, &lists, ranges);
    let mut entries = subscriptions;
    let ghost subs = entries@;
    let ghost sel_view = sel@;
    let mut sel = sel;
    entries.append(&mut sel);
    let window = collect_window(entries);
    proof {
        assert(same_rooms(sel_view, spec_selections(ranked@, conn@, lists@, ranges@)));
        let entries_v = subs + sel_view;
        assert(distinct_rooms(window@));
        assert(forall|k: int| 0 <= k < window@.len() ==> last_of_id(entries_v, #[trigger] window@[k]));
        assert(forall|j: int|
            0 <= j < entries_v.len() ==> exists|k: int|
                0 <= k < window@.len() && (#[trigger] window@[k]).room_id@ == (#[trigger] entries_v[j]).room_id@);
        assert(exists|sel: Seq<WindowRoom>|
            #![trigger same_rooms(sel, spec_selections(ranked@, conn@, lists@, ranges@))]
            same_rooms(sel, spec_selections(ranked@, conn@, lists@, ranges@)) && {
                let entries = subscriptions@ + sel;
                &&& distinct_rooms(window@)
                &&& forall|k: int| 0 <= k < window@.len() ==> last_of_id(entries, #[trigger] window@[k])
                &&& forall|j: int|
                    0 <= j < entries.len() ==> exists|k: int|
                        0 <= k < window@.len() && (#[trigger] window@[k]).room_id@
                            == (#[trigger] entries[j]).room_id@
            });
    }
    proof {
        assert(sorted_view.to_multiset() == rooms0.to_multiset());
        assert(exists|s: Seq<WindowRoom>|
            #![trigger s.to_multiset()]
            {
                &&& s.to_multiset() == rooms0.to_multiset()
                &&& s.len() == ranked@.len()
                &&& forall|a: u64| #[trigger] of_activity(s, a) == of_activity(rooms0, a)
                &&& forall|k: int|
                    0 <= k < s.len() ==> (#[trigger] ranked@[k]).room_id == s[k].room_id && ranked@[k].membership
                        == s[k].membership && ranked@[k].lists@ == s[k].lists@ && ranked@[k].last_count
                        == s[k].last_count
            });
    }
    Selection { rooms: ranked, lists, window }
}

} // verus!
