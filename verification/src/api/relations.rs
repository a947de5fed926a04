use vstd::prelude::*;
use crate::utils::math::UInt;
use crate::utils::string::str_eq;

verus! {

/// How deep relations are followed: three levels when asked to recurse.
pub fn max_depth(recurse: bool) -> (r: usize)
    ensures
        r == if recurse {
            3usize
        } else {
            0usize
        },
{
    if recurse {
        3
    } else {
        0
    }
}

/// How many relations a page holds: the limit asked for, thirty by
/// default or when it does not fit, and never more than a hundred.
pub fn relations_limit(limit: Option<UInt>) -> (r: usize)
    ensures
        r == match limit {
            Some(l) => if l.spec_value() <= usize::MAX {
                if l.spec_value() < 100 {
                    l.spec_value() as usize
                } else {
                    100usize
                }
            } else {
                30usize
            },
            None => 30usize,
        },
{
    let l: usize = match limit {
        Some(l) => {
            let v = l.get();
            if v <= usize::MAX as u64 {
                v as usize
            } else {
                30
            }
        },
        None => 30,
    };
    if l < 100 {
        l
    } else {
        100
    }
}

/// Why relations cannot be listed.
#[derive(Debug, Clone, Copy, PartialEq, Eq, Structural)]
pub enum RelationsError {
    /// The user cannot see the room.
    Forbidden,
    /// The event is not in the room.
    NotFound,
}

/// What to do about the target event: refuse, answer with no relations, or
/// follow its relations.
#[derive(Debug, Clone, Copy, PartialEq, Eq, Structural)]
pub enum TargetOutcome {
    Refuse(RelationsError),
    Empty,
    Follow,
}

/// The user must see the room; an unknown target has no relations; a
/// target of another room is not found; a backfilled target has no
/// relations followed.
pub fn target_outcome(visible: bool, target_room: Option<u64>, room: u64, backfilled: bool) -> (r: TargetOutcome)
    ensures
        !visible ==> r == TargetOutcome::Refuse(RelationsError::Forbidden),
        visible && target_room is None ==> r == TargetOutcome::Empty,
        (visible && (target_room matches Some(t) && t != room)) ==> r == TargetOutcome::Refuse(RelationsError::NotFound),
        visible && target_room == Some(room) && backfilled ==> r == TargetOutcome::Empty,
        visible && target_room == Some(room) && !backfilled ==> r == TargetOutcome::Follow,
{
    if !visible {
        return TargetOutcome::Refuse(RelationsError::Forbidden);
    }
    match target_room {
        None => TargetOutcome::Empty,
        Some(t) => if t != room {
            TargetOutcome::Refuse(RelationsError::NotFound)
        } else if backfilled {
            TargetOutcome::Empty
        } else {
            TargetOutcome::Follow
        },
    }
}

/// The relations of a relating event are followed while it lies above the
/// depth limit, one level deeper.
pub fn child_depth(depth: usize, max_depth: usize) -> (r: Option<usize>)
    ensures
        depth < max_depth ==> r == Some((depth + 1) as usize),
        depth >= max_depth ==> r is None,
{
    if depth < max_depth {
        Some(depth + 1)
    } else {
        None
    }
}

/// A relating event as found while walking the relations: at the depth of
/// the lookup that found it, which never passes the walk's depth limit.
pub struct Relation {
    depth: usize,
    max_depth: usize,
    count: u64,
    kind: String,
    rel_type: Option<String>,
    visible: bool,
    event_id: String,
}

/// One lookup of the walk: the relations of one event, found at `depth`,
/// in a walk that follows relations down to `max_depth` (at most three).
pub struct Fetch {
    depth: usize,
    max_depth: usize,
}

impl Fetch {
    #[verifier::type_invariant]
    spec fn inv(self) -> bool {
        self.depth <= self.max_depth && self.max_depth <= 3
    }

    pub closed spec fn spec_depth(self) -> usize {
        self.depth
    }

    pub closed spec fn spec_max_depth(self) -> usize {
        self.max_depth
    }

    /// The first lookup: the relations of the target event, at depth zero,
    /// followed three levels down when asked to recurse.
    pub fn target(recurse: bool) -> (f: Fetch)
        ensures
            f.spec_depth() == 0,
            f.spec_max_depth() == if recurse {
                3usize
            } else {
                0usize
            },
    {
        Fetch { depth: 0, max_depth: max_depth(recurse) }
    }

    /// A relation that this lookup found, and the lookup of its own
    /// relations one level deeper, while this one lies above the limit.
    pub fn found(&self, count: u64, kind: String, rel_type: Option<String>, visible: bool, event_id: String) -> (r: (
        Relation,
        Option<Fetch>,
    ))
        ensures
            r.0.spec_depth() == self.spec_depth(),
            r.0.spec_max_depth() == self.spec_max_depth(),
            r.0.spec_count() == count,
            r.0.spec_kind() == kind@,
            r.0.spec_rel_type() == opt_string_view(rel_type),
            r.0.spec_visible() == visible,
            r.0.spec_event_id() == event_id@,
            self.spec_depth() < self.spec_max_depth() ==> (r.1 matches Some(f) && f.spec_depth()
                == self.spec_depth() + 1 && f.spec_max_depth() == self.spec_max_depth()),
            self.spec_depth() >= self.spec_max_depth() ==> r.1 is None,
    {
        proof {
            use_type_invariant(self);
        }
        let next = match child_depth(self.depth, self.max_depth) {
            Some(d) => Some(Fetch { depth: d, max_depth: self.max_depth }),
            None => None,
        };
        (Relation { depth: self.depth, max_depth: self.max_depth, count, kind, rel_type, visible, event_id }, next)
    }
}

pub open spec fn opt_string_view(o: Option<String>) -> Option<Seq<char>> {
    match o {
        Some(s) => Some(s@),
        None => None,
    }
}

impl Relation {
    #[verifier::type_invariant]
    spec fn inv(self) -> bool {
        self.depth <= self.max_depth && self.max_depth <= 3
    }

    /// The depth of the lookup that found the relation.
    pub closed spec fn spec_depth(self) -> usize {
        self.depth
    }

    /// The depth limit of the walk that found it.
    pub closed spec fn spec_max_depth(self) -> usize {
        self.max_depth
    }

    pub closed spec fn spec_count(self) -> u64 {
        self.count
    }

    /// The event type.
    pub closed spec fn spec_kind(self) -> Seq<char> {
        self.kind@
    }

    /// The relation type that the event states, if any.
    pub closed spec fn spec_rel_type(self) -> Option<Seq<char>> {
        opt_string_view(self.rel_type)
    }

    /// Whether the user may see the event.
    pub closed spec fn spec_visible(self) -> bool {
        self.visible
    }

    pub closed spec fn spec_event_id(self) -> Seq<char> {
        self.event_id@
    }

    pub fn depth(&self) -> (r: usize)
        ensures
            r == self.spec_depth(),
    {
        self.depth
    }

    pub fn count(&self) -> (r: u64)
        ensures
            r == self.spec_count(),
    {
        self.count
    }

    pub fn event_id(&self) -> (r: &str)
        ensures
            r@ == self.spec_event_id(),
    {
        self.event_id.as_str()
    }
}

/// Whether a relation passes the type filters: the event type and the
/// relation type, each when asked for.
pub open spec fn passes(r: Relation, event_type: Option<Seq<char>>, rel_type: Option<Seq<char>>) -> bool {
    (match event_type {
        Some(t) => r.spec_kind() == t,
        None => true,
    }) && (match rel_type {
        Some(t) => r.spec_rel_type() == Some(t),
        None => true,
    })
}

/// The relations of a page: those before the `to` token, that pass the
/// filters and that the user may see; at most `limit`.
pub open spec fn spec_page(
    items: Seq<Relation>,
    to: Option<u64>,
    event_type: Option<Seq<char>>,
    rel_type: Option<Seq<char>>,
    limit: nat,
) -> Seq<Relation>
    decreases items.len(),
{
    if items.len() == 0 {
        Seq::empty()
    } else if to == Some(items[0].spec_count()) {
        Seq::empty()
    } else if passes(items[0], event_type, rel_type) && items[0].spec_visible() {
        if limit == 0 {
            Seq::empty()
        } else {
            seq![items[0]] + spec_page(items.drop_first(), to, event_type, rel_type, (limit - 1) as nat)
        }
    } else {
        spec_page(items.drop_first(), to, event_type, rel_type, limit)
    }
}

pub open spec fn opt_view(o: Option<&str>) -> Option<Seq<char>> {
    match o {
        Some(s) => Some(s@),
        None => None,
    }
}

fn passes_filters(r: &Relation, event_type: Option<&str>, rel_type: Option<&str>) -> (b: bool)
    ensures
        b == passes(*r, opt_view(event_type), opt_view(rel_type)),
{
    let type_ok = match event_type {
        Some(t) => str_eq(r.kind.as_str(), t),
        None => true,
    };
    let rel_ok = match rel_type {
        Some(t) => match &r.rel_type {
            Some(rt) => str_eq(rt.as_str(), t),
            None => false,
        },
        None => true,
    };
    type_ok && rel_ok
}

/// Takes the relations of a page from the relations found, in order.
pub fn page(
    items: Vec<Relation>,
    to: Option<u64>,
    event_type: Option<&str>,
    rel_type: Option<&str>,
    limit: usize,
) -> (r: Vec<Relation>)
    ensures
        r@ == spec_page(items@, to, opt_view(event_type), opt_view(rel_type), limit as nat),
        r@.len() <= limit,
{
    let ghost all = items@;
    let ghost et = opt_view(event_type);
    let ghost rt = opt_view(rel_type);
    let mut rest = items;
    let mut out: Vec<Relation> = Vec::new();
    let n = rest.len();
    let mut i: usize = 0;
    while i < n
        invariant
            n == all.len(),
            all == items@,
            i <= n,
            rest@ == all.skip(i as int),
            out@.len() <= limit,
            et == opt_view(event_type),
            rt == opt_view(rel_type),
            out@ + spec_page(all.skip(i as int), to, et, rt, (limit - out@.len()) as nat) == spec_page(
                all,
                to,
                et,
                rt,
                limit as nat,
            ),
        decreases n - i,
    {
        let item = rest.remove(0);
        proof {
            assert(item == all[i as int]);
            assert(rest@ =~= all.skip(i + 1));
            assert(all.skip(i as int).drop_first() =~= all.skip(i + 1));
            assert(all.skip(i as int)[0] == item);
        }
        if to == Some(item.count) {
            proof {
                assert(spec_page(all.skip(i as int), to, et, rt, (limit - out@.len()) as nat) == Seq::<
                    Relation,
                >::empty());
                assert(out@ + Seq::<Relation>::empty() =~= out@);
            }
            return out;
        }
        if passes_filters(&item, event_type, rel_type) && item.visible {
            if out.len() == limit {
                proof {
                    assert(passes(item, et, rt));
                    assert(spec_page(all.skip(i as int), to, et, rt, (limit - out@.len()) as nat) == Seq::<
                        Relation,
                    >::empty());
                    assert(out@ + Seq::<Relation>::empty() =~= out@);
                }
                return out;
            }
            let ghost before = out@;
            out.push(item);
            proof {
                assert(before + (seq![item] + spec_page(all.skip(i + 1), to, et, rt, (limit - before.len() - 1) as nat))
                    =~= out@ + spec_page(all.skip(i + 1), to, et, rt, (limit - out@.len()) as nat));
            }
        }
        i = i + 1;
    }
    proof {
        assert(all.skip(n as int) =~= Seq::<Relation>::empty());
        assert(out@ + Seq::<Relation>::empty() =~= out@);
    }
    out
}

/// The deepest level among the page, when relations were followed.
pub open spec fn spec_recursion_depth(events: Seq<Relation>, max_depth: usize) -> Option<usize>
    decreases events.len(),
{
    if max_depth == 0 || events.len() == 0 {
        None
    } else {
        let d = events.last().spec_depth();
        match spec_recursion_depth(events.drop_last(), max_depth) {
            Some(m) => if d > m {
                Some(d)
            } else {
                Some(m)
            },
            None => Some(d),
        }
    }
}

/// The deepest level is one of the levels of the page, so no deeper than
/// a bound that all of them keep.
proof fn lemma_recursion_depth_at_most(events: Seq<Relation>, max_depth: usize, bound: int)
    requires
        forall|i: int| 0 <= i < events.len() ==> #[trigger] events[i].spec_depth() <= bound,
    ensures
        spec_recursion_depth(events, max_depth) matches Some(d) ==> d <= bound,
    decreases events.len(),
{
    if events.len() > 0 {
        lemma_recursion_depth_at_most(events.drop_last(), max_depth, bound);
        assert(events.last() == events[events.len() - 1]);
    }
}

/// The tokens and depth of a page.
pub struct PageInfo {
    pub recursion_depth: Option<usize>,
    /// The count of the last relation.
    pub next_batch: Option<u64>,
    /// The count of the first relation, else the `from` token.
    pub prev_batch: Option<u64>,
}

/// Describes a page: its deepest level when relations were followed, the
/// count of its last relation, and the count of its first (else `from`).
pub fn page_info(events: &Vec<Relation>, max_depth: usize, from: Option<u64>) -> (r: PageInfo)
    ensures
        r.recursion_depth == spec_recursion_depth(events@, max_depth),
        forall|i: int|
            0 <= i < events@.len() ==> #[trigger] events@[i].spec_depth() <= events@[i].spec_max_depth() <= 3,
        r.recursion_depth matches Some(d) ==> d <= 3,
        (forall|i: int| 0 <= i < events@.len() ==> #[trigger] events@[i].spec_max_depth() == max_depth)
            ==> (r.recursion_depth matches Some(d) ==> d <= max_depth),
        r.next_batch == if events@.len() > 0 {
            Some(events@.last().spec_count())
        } else {
            None
        },
        r.prev_batch == if events@.len() > 0 {
            Some(events@[0].spec_count())
        } else {
            from
        },
{
    let mut k: usize = 0;
    while k < events.len()
        invariant
            k <= events@.len(),
            forall|j: int| 0 <= j < k ==> #[trigger] events@[j].spec_depth() <= events@[j].spec_max_depth() <= 3,
        decreases events.len() - k,
    {
        let item = &events[k];
        proof {
            use_type_invariant(item);
        }
        k = k + 1;
    }
    proof {
        lemma_recursion_depth_at_most(events@, max_depth, 3);
        if forall|i: int| 0 <= i < events@.len() ==> #[trigger] events@[i].spec_max_depth() == max_depth {
            lemma_recursion_depth_at_most(events@, max_depth, max_depth as int);
        }
    }
    let mut depth: Option<usize> = None;
    if max_depth > 0 {
        let mut i: usize = 0;
        while i < events.len()
            invariant
                max_depth > 0,
                i <= events@.len(),
                depth == spec_recursion_depth(events@.take(i as int), max_depth),
            decreases events.len() - i,
        {
            proof {
                assert(events@.take(i + 1).drop_last() =~= events@.take(i as int));
            }
            let d = events[i].depth;
            depth = match depth {
                Some(m) => if d > m {
                    Some(d)
                } else {
                    Some(m)
                },
                None => Some(d),
            };
            i = i + 1;
        }
        proof {
            assert(events@.take(i as int) =~= events@);
        }
    }
    let n = events.len();
    PageInfo {
        recursion_depth: depth,
        next_batch: if n > 0 {
            Some(events[n - 1].count)
        } else {
            None
        },
        prev_batch: if n > 0 {
            Some(events[0].count)
        } else {
            from
        },
    }
}

} // verus!
