use vstd::prelude::*;
use crate::matrix::ids::{parse_user_id, ruma_user_id_valid};
use crate::utils::string::{push_char, push_text};

verus! {

/// A session ID or a user ID, as an admin command names one.
pub enum SessionOrUser {
    Session(String),
    User(String),
}

/// Reads a user ID when the text is one, else takes the text as a session
/// ID.
pub fn session_or_user_id(input: &str) -> (r: SessionOrUser)
    ensures
        ruma_user_id_valid(input@) ==> (r matches SessionOrUser::User(u) && u@ == input@),
        !ruma_user_id_valid(input@) ==> (r matches SessionOrUser::Session(s) && s@ == input@),
{
    match parse_user_id(input) {
        Some(u) => SessionOrUser::User(u),
        None => SessionOrUser::Session(input.to_string()),
    }
}

/// Why a claim given to an association is refused.
pub enum ClaimError {
    /// The claim has no `=`; it is given back.
    MissingEquals(String),
    /// The key or the value is empty.
    MissingKeyOrValue,
}

/// The index of the first `=` in `s`, if any.
pub open spec fn equals_index(s: Seq<char>) -> Option<int> {
    if exists|i: int| 0 <= i < s.len() && s[i] == '=' {
        Some(choose|i: int| 0 <= i < s.len() && s[i] == '=' && forall|j: int| 0 <= j < i ==> s[j] != '=')
    } else {
        None
    }
}

/// A claim `key=value`, split at its first `=`; both sides must be
/// non-empty.
pub open spec fn spec_claim(s: Seq<char>) -> Result<(Seq<char>, Seq<char>), Option<Seq<char>>> {
    match equals_index(s) {
        None => Err(Some(s)),
        Some(i) => if i > 0 && i + 1 < s.len() {
            Ok((s.take(i), s.skip(i + 1)))
        } else {
            Err(None)
        },
    }
}

pub open spec fn claim_view(r: Result<(String, String), ClaimError>) -> Result<(Seq<char>, Seq<char>), Option<Seq<char>>> {
    match r {
        Ok((k, v)) => Ok((k@, v@)),
        Err(ClaimError::MissingEquals(s)) => Err(Some(s@)),
        Err(ClaimError::MissingKeyOrValue) => Err(None),
    }
}

/// Splits one claim.
pub fn parse_claim(kv: &str) -> (r: Result<(String, String), ClaimError>)
    ensures
        claim_view(r) == spec_claim(kv@),
{
    let n = kv.unicode_len();
    let mut i: usize = 0;
    while i < n
        invariant
            n == kv@.len(),
            i <= n,
            forall|j: int| 0 <= j < i ==> kv@[j] != '=',
        decreases n - i,
    {
        if kv.get_char(i) == '=' {
            proof {
                let c = choose|c: int| 0 <= c < kv@.len() && kv@[c] == '=' && forall|j: int| 0 <= j < c ==> kv@[j] != '=';
                if c < i {
                    assert(kv@[c] != '=');
                } else if c > i {
                    assert(kv@[i as int] == '=');
                }
            }
            if i > 0 && i + 1 < n {
                let key = kv.substring_char(0, i);
                let val = kv.substring_char(i + 1, n);
                proof {
                    assert(key@ =~= kv@.take(i as int));
                    assert(val@ =~= kv@.skip(i + 1));
                }
                return Ok((key.to_string(), val.to_string()));
            }
            return Err(ClaimError::MissingKeyOrValue);
        }
        i = i + 1;
    }
    Err(ClaimError::MissingEquals(kv.to_string()))
}

/// Splits every claim; the first refused one refuses them all.
pub fn parse_claims(claims: &Vec<String>) -> (r: Result<Vec<(String, String)>, ClaimError>)
    ensures
        match r {
            Ok(v) => v@.len() == claims@.len() && forall|i: int|
                0 <= i < claims@.len() ==> spec_claim(#[trigger] claims@[i]@) == Ok::<(Seq<char>, Seq<char>), Option<Seq<char>>>((v@[i].0@, v@[i].1@)),
            Err(e) => exists|i: int|
                0 <= i < claims@.len() && claim_view(Err(e)) == spec_claim(#[trigger] claims@[i]@) && forall|j: int|
                    0 <= j < i ==> spec_claim(#[trigger] claims@[j]@) is Ok,
        },
{
    let mut out: Vec<(String, String)> = Vec::new();
    let mut i: usize = 0;
    while i < claims.len()
        invariant
            i <= claims@.len(),
            out@.len() == i,
            forall|k: int| 0 <= k < i ==> spec_claim(#[trigger] claims@[k]@) == Ok::<(Seq<char>, Seq<char>), Option<Seq<char>>>((out@[k].0@, out@[k].1@)),
        decreases claims.len() - i,
    {
        match parse_claim(claims[i].as_str()) {
            Ok(p) => {
                out.push(p);
            },
            Err(e) => {
                proof {
                    assert(claim_view(Err(e)) == spec_claim(claims@[i as int]@));
                }
                return Err(e);
            },
        }
        i = i + 1;
    }
    Ok(out)
}

/// Why an association is refused.
#[derive(Debug, Clone, Copy, PartialEq, Eq, Structural)]
pub enum AssociateError {
    /// The user is not one of this server.
    NotLocal,
    /// The user is not registered.
    NotRegistered,
}

/// A user is associated only when local and registered.
pub fn associate_check(is_local: bool, exists: bool) -> (r: Result<(), AssociateError>)
    ensures
        !is_local ==> r == Err::<(), AssociateError>(AssociateError::NotLocal),
        is_local && !exists ==> r == Err::<(), AssociateError>(AssociateError::NotRegistered),
        is_local && exists ==> r is Ok,
{
    if !is_local {
        Err(AssociateError::NotLocal)
    } else if !exists {
        Err(AssociateError::NotRegistered)
    } else {
        Ok(())
    }
}

/// One line of a listing: the item and a newline.
pub fn listing_line(item: &str) -> (r: String)
    ensures
        r@ == item@.push('\n'),
{
    let mut s = String::new();
    push_text(&mut s, item);
    push_char(&mut s, '\n');
    proof {
        assert(s@ =~= item@.push('\n'));
    }
    s
}

/// Deleting OAuth state needs `--force`; the answer once done.
pub fn delete_answer(force: bool) -> (r: Result<&'static str, &'static str>)
    ensures
        !force ==> (r matches Err(m) && m@ == "Deleting these records can cause registration conflicts. Use --force to be sure."@),
        force ==> (r matches Ok(m) && m@ == "deleted any oauth state for {id}"@),
{
    proof {
        reveal_strlit("Deleting these records can cause registration conflicts. Use --force to be sure.");
        reveal_strlit("deleted any oauth state for {id}");
    }
    if !force {
        Err("Deleting these records can cause registration conflicts. Use --force to be sure.")
    } else {
        Ok("deleted any oauth state for {id}")
    }
}

/// The answer to removing a pusher: whether it existed.
pub fn remove_pusher_message(existed: bool) -> (r: &'static str)
    ensures
        existed ==> r@ == "Pusher deleted."@,
        !existed ==> r@ == "Pusher was not found but deletion was still attempted."@,
{
    proof {
        reveal_strlit("Pusher deleted.");
        reveal_strlit("Pusher was not found but deletion was still attempted.");
    }
    if existed {
        "Pusher deleted."
    } else {
        "Pusher was not found but deletion was still attempted."
    }
}

} // verus!
