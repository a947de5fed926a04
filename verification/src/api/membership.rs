use vstd::prelude::*;
use crate::api::sync_v3::{parse_u64, spec_parse_u64};
use crate::utils::result::IsErrOr;
use crate::utils::string::{push_text, str_eq};

verus! {

/// What a join does after an attempt.
#[derive(Debug, Clone, Copy, PartialEq, Eq, Structural)]
pub enum JoinStep {
    /// The join went through.
    Joined,
    /// Try again, with this many failures so far.
    Retry(usize),
    /// Give up with the last error.
    GiveUp,
}

/// Counts a failed attempt and gives up once the failures reach the
/// configured number of attempts.
pub fn join_step(failures: usize, failed: bool, max_attempts: usize) -> (r: JoinStep)
    ensures
        !failed ==> r == JoinStep::Joined,
        failed && (if failures == usize::MAX {
            failures
        } else {
            (failures + 1) as usize
        }) >= max_attempts ==> r == JoinStep::GiveUp,
        failed && (if failures == usize::MAX {
            failures
        } else {
            (failures + 1) as usize
        }) < max_attempts ==> r == JoinStep::Retry(
            if failures == usize::MAX {
                failures
            } else {
                (failures + 1) as usize
            },
        ),
{
    if !failed {
        return JoinStep::Joined;
    }
    let errors = failures.saturating_add(1);
    if errors >= max_attempts {
        JoinStep::GiveUp
    } else {
        JoinStep::Retry(errors)
    }
}

/// Whether a room is refused to a user: never to admins; otherwise when
/// the room is banned, or the server of its ID or of the alias used is
/// forbidden.
pub fn room_refused(is_admin: bool, room_banned: bool, room_server_forbidden: bool, alias_server_forbidden: bool) -> (r:
    bool)
    ensures
        r == (!is_admin && (room_banned || room_server_forbidden || alias_server_forbidden)),
{
    if is_admin {
        return false;
    }
    room_banned || room_server_forbidden || alias_server_forbidden
}

/// The notice of a user deactivated for trying a banned room.
pub open spec fn spec_deactivation_notice(user_id: Seq<char>, client_ip: Seq<char>) -> Seq<char> {
    "Automatically deactivating user "@ + user_id + " due to attempted banned room join from IP "@ + client_ip
}

/// Writes the notice of a user deactivated for trying a banned room.
pub fn deactivation_notice(user_id: &str, client_ip: &str) -> (r: String)
    ensures
        r@ == spec_deactivation_notice(user_id@, client_ip@),
{
    proof {
        reveal_strlit("Automatically deactivating user ");
        reveal_strlit(" due to attempted banned room join from IP ");
    }
    let mut s = String::new();
    push_text(&mut s, "Automatically deactivating user ");
    push_text(&mut s, user_id);
    push_text(&mut s, " due to attempted banned room join from IP ");
    push_text(&mut s, client_ip);
    proof {
        assert(s@ =~= spec_deactivation_notice(user_id@, client_ip@));
    }
    s
}

/// Local redactions are refused to non-admins when they are disabled.
pub fn redaction_allowed(disable_local_redactions: bool, is_admin: bool) -> (r: bool)
    ensures
        r == (!disable_local_redactions || is_admin),
{
    !(disable_local_redactions && !is_admin)
}

/// Why the events of a dehydrated device cannot be had.
#[derive(Debug, Clone, Copy, PartialEq, Eq, Structural)]
pub enum DehydratedError {
    /// The device is not the user's dehydrated device.
    Forbidden,
    /// The `next_batch` token is no number.
    InvalidToken,
}

/// Checks a request for the events of a dehydrated device: it must name
/// the user's dehydrated device; the token, when given, must be a number,
/// which the events start after.
pub fn dehydrated_since(existing: Result<String, ()>, device_id: &str, token: Option<&str>) -> (r: Result<
    Option<u64>,
    DehydratedError,
>)
    ensures
        !(existing matches Ok(e) && e@ == device_id@) ==> r == Err::<Option<u64>, DehydratedError>(
            DehydratedError::Forbidden,
        ),
        existing matches Ok(e) && e@ == device_id@ ==> r == match token {
            Some(t) => match spec_parse_u64(t@) {
                Some(n) => Ok::<Option<u64>, DehydratedError>(Some(n)),
                None => Err(DehydratedError::InvalidToken),
            },
            None => Ok(None),
        },
{
    let wrong = existing.is_err_or(|e: String| -> (b: bool)
        ensures
            b == (e@ != device_id@),
        { !str_eq(e.as_str(), device_id) });
    if wrong {
        return Err(DehydratedError::Forbidden);
    }
    match token {
        Some(t) => match parse_u64(t) {
            Some(n) => Ok(Some(n)),
            None => Err(DehydratedError::InvalidToken),
        },
        None => Ok(None),
    }
}

/// A page of to-device events of a dehydrated device: at most fifty, with
/// the count of the last as the next token.
pub fn dehydrated_page(events: Vec<(u64, String)>) -> (r: (Vec<String>, Option<u64>))
    ensures
        ({
            let k = if events@.len() < 50 {
                events@.len() as int
            } else {
                50
            };
            &&& r.0@ == events@.take(k).map_values(|e: (u64, String)| e.1)
            &&& r.1 == if k > 0 {
                Some(events@[k - 1].0)
            } else {
                None
            }
        }),
{
    let ghost all = events@;
    let mut rest = events;
    let mut out: Vec<String> = Vec::new();
    let mut next: Option<u64> = None;
    let n: usize = if rest.len() < 50 {
        rest.len()
    } else {
        50
    };
    let mut i: usize = 0;
    while i < n
        invariant
            n <= all.len(),
            i <= n,
            rest@ == all.skip(i as int),
            out@ == all.take(i as int).map_values(|e: (u64, String)| e.1),
            next == if i > 0 {
                Some(all[i - 1].0)
            } else {
                None::<u64>
            },
        decreases n - i,
    {
        let (count, e) = rest.remove(0);
        proof {
            assert((count, e) == all[i as int]);
            assert(rest@ =~= all.skip(i + 1));
        }
        out.push(e);
        next = Some(count);
        proof {
            assert(out@ =~= all.take(i + 1).map_values(|e: (u64, String)| e.1));
        }
        i = i + 1;
    }
    (out, next)
}

} // verus!
