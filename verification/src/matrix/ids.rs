use vstd::prelude::*;
use vstd::utf8::encode_utf8;

verus! {

/// Whether `s` holds a colon.
pub open spec fn has_colon(s: Seq<char>) -> bool {
    exists|i: int| 0 <= i < s.len() && s[i] == ':'
}

/// The index of the first colon in `s`, or its length when it has none.
pub open spec fn colon_index(s: Seq<char>) -> int
    decreases s.len(),
{
    if s.len() == 0 {
        0
    } else if s[0] == ':' {
        0
    } else {
        1 + colon_index(s.drop_first())
    }
}

proof fn lemma_colon_index(s: Seq<char>, i: int)
    requires
        0 <= i <= s.len(),
        forall|j: int| 0 <= j < i ==> s[j] != ':',
        i == s.len() || s[i] == ':',
    ensures
        colon_index(s) == i,
    decreases i,
{
    if i > 0 {
        lemma_colon_index(s.drop_first(), i - 1);
    }
}

/// The server name of an identifier: what follows its first colon.
pub open spec fn spec_server_of(s: Seq<char>) -> Option<Seq<char>> {
    if has_colon(s) {
        Some(s.skip(colon_index(s) + 1))
    } else {
        None
    }
}

/// The localpart of a user ID: what lies between the sigil and the first
/// colon.
pub open spec fn localpart_of(s: Seq<char>) -> Seq<char> {
    if colon_index(s) >= 1 {
        s.subrange(1, colon_index(s))
    } else {
        Seq::empty()
    }
}

/// The server name of a user or room ID: what follows the first colon, if
/// there is one.
pub fn server_of(id: &str) -> (r: Option<String>)
    ensures
        match spec_server_of(id@) {
            Some(s) => r matches Some(v) && v@ == s,
            None => r is None,
        },
{
    let n = id.unicode_len();
    let mut i: usize = 0;
    while i < n
        invariant
            n == id@.len(),
            i <= n,
            forall|j: int| 0 <= j < i ==> id@[j] != ':',
        decreases n - i,
    {
        if id.get_char(i) == ':' {
            proof {
                lemma_colon_index(id@, i as int);
            }
            let rest = id.substring_char(i + 1, n);
            proof {
                assert(rest@ =~= id@.skip(i + 1));
            }
            return Some(rest.to_string());
        }
        i = i + 1;
    }
    None
}

/// Whether `s` is a user ID by ruma's grammar: `@`, a localpart without
/// colon or NUL, a colon and a valid server name, at most 255 bytes.
pub uninterp spec fn ruma_user_id_valid(s: Seq<char>) -> bool;

/// Whether `s` is a server name by ruma's grammar: a hostname (DNS name,
/// IPv4, or bracketed IPv6) and an optional port.
pub uninterp spec fn ruma_server_name_valid(s: Seq<char>) -> bool;

/// Whether `s` is a room ID by ruma's grammar: `!`, no NUL byte, at most
/// 255 bytes.
pub uninterp spec fn ruma_room_id_valid(s: Seq<char>) -> bool;

/// `ruma::UserId::parse`: the user ID when `s` is one. A valid one starts
/// with `@` and holds a colon.
#[verifier::external_body]
pub(crate) fn parse_user_id(s: &str) -> (r: Option<String>)
    ensures
        r is Some == ruma_user_id_valid(s@),
        r matches Some(u) ==> u@ == s@ && s@.len() > 0 && s@[0] == '@' && has_colon(s@),
{
    ruma::UserId::parse(s).ok().map(|u| u.as_str().to_owned())
}

/// `ruma::ServerName::parse`: whether `s` is a server name.
#[verifier::external_body]
pub(crate) fn parse_server_name(s: &str) -> (r: bool)
    ensures
        r == ruma_server_name_valid(s@),
{
    ruma::ServerName::parse(s).is_ok()
}

/// `ruma::RoomId::parse`: the room ID when `s` is one. A valid one starts
/// with `!`.
#[verifier::external_body]
pub(crate) fn parse_room_id(s: &str) -> (r: Option<String>)
    ensures
        r is Some == ruma_room_id_valid(s@),
        r matches Some(u) ==> u@ == s@ && s@.len() > 0 && s@[0] == '!',
{
    ruma::RoomId::parse(s).ok().map(|u| u.as_str().to_owned())
}

/// Whether `s` holds a colon or a NUL character.
pub open spec fn has_colon_or_nul(s: Seq<char>) -> bool {
    exists|i: int| 0 <= i < s.len() && (s[i] == ':' || s[i] == '\0')
}

/// What `ruma::UserId::parse_with_server_name` gives: a full user ID as it
/// is when valid; a localpart without colon or NUL completed with `@`, a
/// colon and `server`.
pub open spec fn spec_user_id_with_server(id: Seq<char>, server: Seq<char>) -> Option<Seq<char>> {
    if id.len() > 0 && id[0] == '@' {
        if ruma_user_id_valid(id) {
            Some(id)
        } else {
            None
        }
    } else if has_colon_or_nul(id) {
        None
    } else {
        Some(seq!['@'] + id + seq![':'] + server)
    }
}

/// `ruma::UserId::parse_with_server_name`: a full user ID is parsed as it
/// is; a localpart without colon or NUL is completed with `@`, a colon and
/// `server`.
#[verifier::external_body]
pub(crate) fn user_id_with_server(id: &str, server: &str) -> (r: Option<String>)
    requires
        ruma_server_name_valid(server@),
    ensures
        id@.len() > 0 && id@[0] == '@' ==> r is Some == ruma_user_id_valid(id@) && (r matches Some(u)
            ==> u@ == id@),
        !(id@.len() > 0 && id@[0] == '@') ==> r is Some == !has_colon_or_nul(id@) && (r matches Some(u)
            ==> u@ == seq!['@'] + id@ + seq![':'] + server@),
{
    let server = ruma::ServerName::parse(server).expect("checked by the caller");
    ruma::UserId::parse_with_server_name(id, &server).ok().map(|u| u.as_str().to_owned())
}

/// A character of the strict localpart grammar: lowercase letters, digits
/// and `-._=/+`.
pub open spec fn strict_localpart_char(c: char) -> bool {
    ('0' <= c <= '9') || ('a' <= c <= 'z') || c == '-' || c == '.' || c == '=' || c == '_' || c == '/'
        || c == '+'
}

/// Whether a user ID meets the strict grammar, as
/// `ruma::UserId::validate_strict` decides it: at most 255 bytes, and a
/// non-empty localpart of lowercase letters, digits and `-._=/+`.
pub open spec fn spec_strict_user_id(s: Seq<char>) -> bool {
    encode_utf8(s).len() <= 255 && localpart_of(s).len() > 0 && forall|i: int|
        0 <= i < localpart_of(s).len() ==> strict_localpart_char(#[trigger] localpart_of(s)[i])
}

/// Checks a user ID against the strict grammar.
pub fn is_strict_user_id(user_id: &str) -> (r: bool)
    ensures
        r == spec_strict_user_id(user_id@),
{
    if !crate::utils::debug::utf8_len_at_most(user_id, 255) {
        return false;
    }
    let n = user_id.unicode_len();
    let mut i: usize = 1;
    let mut ok = true;
    while i < n && user_id.get_char(i) != ':'
        invariant
            n == user_id@.len(),
            1 <= i <= n || n == 0,
            forall|j: int| 1 <= j < i ==> user_id@[j] != ':',
            ok == forall|j: int| 1 <= j < i ==> strict_localpart_char(#[trigger] user_id@[j]),
        decreases n - i,
    {
        let c = user_id.get_char(i);
        if !(('0' <= c && c <= '9') || ('a' <= c && c <= 'z') || c == '-' || c == '.' || c == '=' || c == '_'
            || c == '/' || c == '+') {
            ok = false;
        }
        i = i + 1;
    }
    if n == 0 {
        return false;
    }
    if user_id.get_char(0) == ':' {
        proof {
            lemma_colon_index(user_id@, 0);
        }
        return false;
    }
    proof {
        lemma_colon_index_from(user_id@, i as int);
    }
    let local_len = i - 1;
    proof {
        assert(localpart_of(user_id@).len() == local_len);
        assert forall|j: int| 0 <= j < local_len implies localpart_of(user_id@)[j] == user_id@[j + 1] by {}
        if ok {
            assert forall|j: int| 0 <= j < localpart_of(user_id@).len() implies strict_localpart_char(
                #[trigger] localpart_of(user_id@)[j],
            ) by {
                assert(localpart_of(user_id@)[j] == user_id@[j + 1]);
            }
        } else {
            let k = choose|k: int| 1 <= k < i && !strict_localpart_char(#[trigger] user_id@[k]);
            assert(localpart_of(user_id@)[k - 1] == user_id@[k]);
        }
    }
    ok && local_len > 0
}

proof fn lemma_colon_index_from(s: Seq<char>, i: int)
    requires
        1 <= i <= s.len(),
        s[0] != ':',
        forall|j: int| 1 <= j < i ==> s[j] != ':',
        i == s.len() || s[i] == ':',
    ensures
        colon_index(s) == i,
{
    lemma_colon_index(s, i);
}

} // verus!
