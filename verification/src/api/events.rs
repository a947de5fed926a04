use vstd::prelude::*;
use crate::matrix::event::Event;

verus! {

/// At most fifty events are returned at once.
pub open spec fn event_limit() -> nat {
    50
}

/// Why events cannot be listened to.
#[derive(Debug, Clone, Copy, PartialEq, Eq, Structural)]
pub enum EventsError {
    /// No room was given.
    MissingRoomId,
    /// The user cannot preview the room.
    Forbidden,
}

/// Listening needs a room that the user can preview.
pub fn events_check(has_room: bool, visible: bool) -> (r: Result<(), EventsError>)
    ensures
        !has_room ==> r == Err::<(), EventsError>(EventsError::MissingRoomId),
        has_room && !visible ==> r == Err::<(), EventsError>(EventsError::Forbidden),
        has_room && visible ==> r is Ok,
{
    if !has_room {
        Err(EventsError::MissingRoomId)
    } else if !visible {
        Err(EventsError::Forbidden)
    } else {
        Ok(())
    }
}

/// The events up to `next_batch`, from the start, at most fifty.
pub open spec fn spec_batch(events: Seq<(u64, Event)>, next_batch: u64) -> Seq<(u64, Event)>
    decreases events.len(),
{
    if events.len() == 0 || events[0].0 > next_batch {
        Seq::empty()
    } else {
        let rest = spec_batch(events.drop_first(), next_batch);
        if rest.len() < event_limit() {
            seq![events[0]] + rest
        } else {
            seq![events[0]] + rest.drop_last()
        }
    }
}

/// The events of a batch: the leading ones whose count does not pass
/// `next_batch`, at most fifty.
pub open spec fn leading(events: Seq<(u64, Event)>, next_batch: u64) -> nat
    decreases events.len(),
{
    if events.len() == 0 || events[0].0 > next_batch {
        0
    } else {
        1 + leading(events.drop_first(), next_batch)
    }
}

proof fn lemma_leading(events: Seq<(u64, Event)>, next_batch: u64, k: int)
    requires
        0 <= k <= events.len(),
        forall|j: int| 0 <= j < k ==> events[j].0 <= next_batch,
        k == events.len() || events[k].0 > next_batch,
    ensures
        leading(events, next_batch) == k,
    decreases k,
{
    if k > 0 {
        lemma_leading(events.drop_first(), next_batch, k - 1);
    }
}

/// Takes the events of one poll: those up to `next_batch`, stopping at
/// the first past it, at most fifty.
pub fn take_batch(events: Vec<(u64, Event)>, next_batch: u64) -> (r: Vec<(u64, Event)>)
    ensures
        ({
            let k = leading(events@, next_batch);
            r@ == events@.take(if k < event_limit() {
                k as int
            } else {
                event_limit() as int
            })
        }),
{
    let ghost all = events@;
    let mut rest = events;
    let mut out: Vec<(u64, Event)> = Vec::new();
    let n = rest.len();
    let mut i: usize = 0;
    while i < n && out.len() < 50
        invariant
            n == all.len(),
            all == events@,
            i <= n,
            out@.len() == i,
            i <= 50,
            rest@ == all.skip(i as int),
            out@ == all.take(i as int),
            forall|j: int| 0 <= j < i ==> all[j].0 <= next_batch,
        decreases n - i,
    {
        let e = rest.remove(0);
        proof {
            assert(e == all[i as int]);
            assert(rest@ =~= all.skip(i + 1));
        }
        if e.0 > next_batch {
            proof {
                lemma_leading(all, next_batch, i as int);
            }
            return out;
        }
        out.push(e);
        proof {
            assert(out@ =~= all.take(i + 1));
        }
        i = i + 1;
    }
    proof {
        if i == n {
            lemma_leading(all, next_batch, i as int);
        } else {
            assert(leading(all, next_batch) >= 50) by {
                lemma_leading_at_least(all, next_batch, 50);
            }
        }
    }
    out
}

proof fn lemma_leading_at_least(events: Seq<(u64, Event)>, next_batch: u64, k: int)
    requires
        0 <= k <= events.len(),
        forall|j: int| 0 <= j < k ==> events[j].0 <= next_batch,
    ensures
        leading(events, next_batch) >= k,
    decreases k,
{
    if k > 0 {
        lemma_leading_at_least(events.drop_first(), next_batch, k - 1);
    }
}

/// An answer to a listening client.
pub struct EventsResponse {
    pub chunk: Vec<(u64, Event)>,
    /// The count of the first event, else the `from` token.
    pub start: Option<String>,
    /// The count of the last event, else the batch waited for.
    pub end: Option<u64>,
}

/// Events found answer at once, from the first count to the last.
pub fn events_found(batch: Vec<(u64, Event)>) -> (r: Option<EventsResponse>)
    ensures
        batch@.len() == 0 ==> r is None,
        batch@.len() > 0 ==> (r matches Some(resp) && resp.chunk@ == batch@ && resp.end == Some(batch@.last().0)
            && (resp.start matches Some(st) && st@ == crate::utils::string::decimal(batch@[0].0 as nat))),
{
    let n = batch.len();
    if n == 0 {
        return None;
    }
    let first = batch[0].0;
    let last = batch[n - 1].0;
    Some(EventsResponse { chunk: batch, start: Some(crate::utils::string::to_small_string(first)), end: Some(last) })
}

/// With no events, the client is answered once the wait times out or the
/// server stops: with no events, its own `from` token, and the batch
/// waited for unless the server stops. Otherwise it keeps waiting.
pub fn events_waited(timed_out: bool, stopping: bool, from: Option<String>, next_batch: u64) -> (r: Option<EventsResponse>)
    ensures
        !timed_out && !stopping ==> r is None,
        timed_out || stopping ==> (r matches Some(resp) && resp.chunk@.len() == 0 && resp.start == from && resp.end == if stopping {
            None
        } else {
            Some(next_batch)
        }),
{
    if !timed_out && !stopping {
        return None;
    }
    Some(EventsResponse { chunk: Vec::new(), start: from, end: if stopping { None } else { Some(next_batch) } })
}

/// Why a single event cannot be had.
#[derive(Debug, Clone, Copy, PartialEq, Eq, Structural)]
pub enum RoomEventError {
    NotFound,
    /// The original of a redacted event was asked for by someone who may
    /// not see it.
    NotAllowedUnredacted,
    /// The user may not see the event.
    Forbidden,
}

/// Whether the original of a redacted event may be seen: by server admins,
/// and by room admins whose power reaches that of redaction when the
/// configuration allows it.
pub fn may_see_unredacted(is_admin: bool, allow_room_admins: bool, power: Option<(i64, i64)>) -> (r: bool)
    ensures
        r == (is_admin || (allow_room_admins && match power {
            Some((user, redact)) => user >= redact,
            None => false,
        })),
{
    let can_redact = allow_room_admins && match power {
        Some((user, redact)) => user >= redact,
        None => false,
    };
    is_admin || can_redact
}

/// The event to return: the stored one, unless it is missing or redacted
/// and the original was asked for, in which case the original (or why it
/// cannot be had).
pub fn choose_event(event: Option<Event>, retained: Option<Result<Event, RoomEventError>>) -> (r: Result<Event, RoomEventError>)
    ensures
        (event is None || event->0.redacted) && retained is Some ==> r == retained->0,
        !((event is None || event->0.redacted) && retained is Some) ==> r == match event {
            Some(e) => Ok::<Event, RoomEventError>(e),
            None => Err(RoomEventError::NotFound),
        },
{
    let replace = match &event {
        Some(e) => e.redacted,
        None => true,
    };
    if replace {
        match retained {
            Some(r) => return r,
            None => {},
        }
    }
    match event {
        Some(e) => Ok(e),
        None => Err(RoomEventError::NotFound),
    }
}

/// The event is returned only when the user may see it and does not ignore
/// its sender.
pub fn event_visible(visible: bool, ignored: bool) -> (r: Result<(), RoomEventError>)
    ensures
        visible && !ignored ==> r is Ok,
        !(visible && !ignored) ==> r == Err::<(), RoomEventError>(RoomEventError::Forbidden),
{
    if !visible || ignored {
        Err(RoomEventError::Forbidden)
    } else {
        Ok(())
    }
}

/// The messages of an initial sync of a room: the latest fifty events, in
/// order, between the first event's count and the last's (empty without
/// events).
pub struct Messages {
    pub chunk: Vec<(u64, Event)>,
    pub start: Option<u64>,
    pub end: String,
}

/// Builds the messages from the events read newest first.
pub fn initial_messages(newest_first: Vec<(u64, Event)>) -> (r: Messages)
    ensures
        ({
            let kept = newest_first@.take(if newest_first@.len() < event_limit() {
                newest_first@.len() as int
            } else {
                event_limit() as int
            });
            &&& r.chunk@ == kept.reverse()
            &&& r.start == if kept.len() > 0 {
                Some(kept.last().0)
            } else {
                None
            }
            &&& r.end@ == if kept.len() > 0 {
                crate::utils::string::decimal(kept[0].0 as nat)
            } else {
                Seq::empty()
            }
        }),
{
    let n: usize = if newest_first.len() < 50 {
        newest_first.len()
    } else {
        50
    };
    let ghost kept = newest_first@.take(n as int);
    let mut chunk: Vec<(u64, Event)> = Vec::new();
    let mut rest = newest_first;
    rest.truncate(n);
    proof {
        assert(rest@ =~= kept);
    }
    while rest.len() > 0
        invariant
            rest@.len() + chunk@.len() == kept.len(),
            rest@ == kept.take(rest@.len() as int),
            chunk@ == kept.skip(rest@.len() as int).reverse(),
        decreases rest.len(),
    {
        let ghost before = rest@;
        let e = rest.pop().unwrap();
        chunk.push(e);
        proof {
            assert(rest@ =~= kept.take(rest@.len() as int));
            assert(e == kept[rest@.len() as int]);
            assert(chunk@ =~= kept.skip(rest@.len() as int).reverse());
        }
    }
    proof {
        assert(kept.skip(0) =~= kept);
    }
    let len = chunk.len();
    let start = if len > 0 {
        Some(chunk[0].0)
    } else {
        None
    };
    let end = if len > 0 {
        crate::utils::string::to_small_string(chunk[len - 1].0)
    } else {
        String::new()
    };
    proof {
        if len > 0 {
            assert(chunk@[0] == kept.last());
            assert(chunk@[len - 1] == kept[0]);
        }
    }
    Messages { chunk, start, end }
}

} // verus!
