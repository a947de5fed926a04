use vstd::prelude::*;
use rand::seq::SliceRandom;
use crate::api::sync_v3::{distinct_users, holds_user};
use crate::utils::math::UInt;
use crate::utils::string::{spec_contains, str_contains, str_eq, to_lowercase, unicode_lowercase};

verus! {

/// How many users a directory search returns: the limit asked for, ten
/// when it does not fit, at most five hundred.
pub fn search_limit(limit: UInt) -> (r: usize)
    ensures
        r == if limit.spec_value() <= usize::MAX {
            if limit.spec_value() < 500 {
                limit.spec_value() as usize
            } else {
                500usize
            }
        } else {
            10usize
        },
{
    let v = limit.get();
    let l: usize = if v <= usize::MAX as u64 {
        v as usize
    } else {
        10
    };
    if l < 500 {
        l
    } else {
        500
    }
}

/// Whether a user matches a (lowercased) search term: by user ID or by
/// display name, both lowercased.
pub open spec fn spec_name_matches(user_id: Seq<char>, display_name: Option<Seq<char>>, term: Seq<char>) -> bool {
    spec_contains(unicode_lowercase(user_id), term) || match display_name {
        Some(d) => spec_contains(unicode_lowercase(d), term),
        None => false,
    }
}

/// Whether the search term occurs in the lowercased user ID or display name.
pub fn name_matches(user_id: &str, display_name: Option<&str>, term: &str) -> (r: bool)
    ensures
        r == spec_name_matches(
            user_id@,
            match display_name {
                Some(d) => Some(d@),
                None => None,
            },
            term@,
        ),
        spec_contains(unicode_lowercase(user_id@), term@) ==> r,
        (display_name matches Some(d) && spec_contains(unicode_lowercase(d@), term@)) ==> r,
        r ==> spec_contains(unicode_lowercase(user_id@), term@) || (display_name matches Some(d) && spec_contains(
            unicode_lowercase(d@),
            term@,
        )),
{
    let id = to_lowercase(user_id);
    if str_contains(id.as_str(), term) {
        return true;
    }
    match display_name {
        Some(d) => {
            let dl = to_lowercase(d);
            str_contains(dl.as_str(), term)
        },
        None => false,
    }
}

/// A user matches exactly when the term occurs in the lowercased user ID,
/// whatever the display name, or in the lowercased display name, if any.
pub proof fn lemma_name_matches(user_id: Seq<char>, display_name: Option<Seq<char>>, term: Seq<char>)
    ensures
        spec_contains(unicode_lowercase(user_id), term) ==> spec_name_matches(user_id, display_name, term),
        (display_name matches Some(d) && spec_contains(unicode_lowercase(d), term)) ==> spec_name_matches(
            user_id,
            display_name,
            term,
        ),
        spec_name_matches(user_id, display_name, term) ==> spec_contains(unicode_lowercase(user_id), term) || (
        display_name matches Some(d) && spec_contains(unicode_lowercase(d), term)),
{
}

/// A matching user is shown when the server shows all its users, or when
/// the user is in a public room or shares a room with the searcher.
pub fn should_show_user(name_matches: bool, show_all: bool, in_public_room: bool, shares_room: bool) -> (r: bool)
    ensures
        r == (name_matches && (show_all || in_public_room || shares_room)),
{
    if !name_matches {
        return false;
    }
    if show_all {
        return true;
    }
    in_public_room || shares_room
}

/// The first `limit` users shown, and whether more would have been.
pub open spec fn shown(candidates: Seq<Option<String>>) -> Seq<String>
    decreases candidates.len(),
{
    if candidates.len() == 0 {
        Seq::empty()
    } else {
        let rest = shown(candidates.drop_last());
        match candidates.last() {
            Some(u) => rest.push(u),
            None => rest,
        }
    }
}

/// Takes the first `limit` users shown; the result is limited when more
/// are shown.
pub fn search_page(candidates: Vec<Option<String>>, limit: usize) -> (r: (Vec<String>, bool))
    ensures
        r.0@ == shown(candidates@).take(if shown(candidates@).len() < limit {
            shown(candidates@).len() as int
        } else {
            limit as int
        }),
        r.1 == (shown(candidates@).len() > limit),
{
    let ghost all = candidates@;
    let mut rest = candidates;
    let mut out: Vec<String> = Vec::new();
    let mut more = false;
    let n = rest.len();
    let mut i: usize = 0;
    while i < n
        invariant
            n == all.len(),
            i <= n,
            rest@ == all.skip(i as int),
            out@ == shown(all.take(i as int)).take(if shown(all.take(i as int)).len() < limit {
                shown(all.take(i as int)).len() as int
            } else {
                limit as int
            }),
            more == (shown(all.take(i as int)).len() > limit),
        decreases n - i,
    {
        let c = rest.remove(0);
        proof {
            assert(c == all[i as int]);
            assert(rest@ =~= all.skip(i + 1));
            assert(all.take(i + 1).drop_last() =~= all.take(i as int));
        }
        let ghost prev = shown(all.take(i as int));
        match c {
            Some(u) => {
                if out.len() < limit {
                    out.push(u);
                    proof {
                        assert(out@ =~= prev.push(u).take(prev.len() + 1int));
                    }
                } else {
                    more = true;
                    proof {
                        assert(out@ =~= prev.push(u).take(limit as int));
                    }
                }
            },
            None => {},
        }
        i = i + 1;
    }
    proof {
        assert(all.take(n as int) =~= all);
    }
    (out, more)
}

/// The characters of each string.
pub open spec fn string_views(v: Seq<String>) -> Seq<Seq<char>> {
    v.map_values(|s: String| s@)
}

/// `SliceRandom::shuffle` with the thread's generator: some permutation.
#[verifier::external_body]
fn shuffle(v: &mut Vec<String>)
    ensures
        string_views(final(v)@).to_multiset() == string_views(old(v)@).to_multiset(),
{
    v.shuffle(&mut rand::thread_rng());
}

/// The servers to join a room through: each once, in random order, with
/// this server first when it is among them.
pub fn room_servers(servers: Vec<String>, ours: &str) -> (r: Vec<String>)
    ensures
        distinct_users(r@),
        forall|s: Seq<char>| holds_user(r@, s) == holds_user(servers@, s),
        holds_user(servers@, ours@) ==> r@[0]@ == ours@,
{
    let mut unique: Vec<String> = Vec::new();
    let mut i: usize = 0;
    while i < servers.len()
        invariant
            i <= servers@.len(),
            distinct_users(unique@),
            forall|s: Seq<char>| holds_user(unique@, s) == holds_user(servers@.take(i as int), s),
        decreases servers.len() - i,
    {
        let ghost before = unique@;
        let s = servers[i].clone();
        let ghost sv = s;
        crate::api::sync_v3::insert_user(&mut unique, s);
        proof {
            assert forall|x: Seq<char>| holds_user(unique@, x) == holds_user(servers@.take(i + 1), x) by {
                lemma_holds_step(servers@, i as int, x);
                lemma_holds_inserted(before, sv, x);
            }
        }
        i = i + 1;
    }
    proof {
        assert(servers@.take(servers@.len() as int) =~= servers@);
    }
    let ghost deduped = unique@;
    shuffle(&mut unique);
    proof {
        lemma_permutation_keeps(deduped, unique@);
    }
    match position(&unique, ours) {
        Some(pos) => {
            let ghost shuffled = unique@;
            let taken = unique.swap_remove(pos);
            unique.insert(0, taken);
            proof {
                assert(unique@ == shuffled.update(pos as int, shuffled.last()).drop_last().insert(0, taken));
                lemma_move_to_front(shuffled, pos as int);
            }
        },
        None => {},
    }
    unique
}

fn position(v: &Vec<String>, s: &str) -> (r: Option<usize>)
    ensures
        match r {
            Some(k) => k < v@.len() && v@[k as int]@ == s@,
            None => !holds_user(v@, s@),
        },
{
    let mut k: usize = 0;
    while k < v.len()
        invariant
            k <= v@.len(),
            forall|j: int| 0 <= j < k ==> (#[trigger] v@[j])@ != s@,
        decreases v.len() - k,
    {
        if str_eq(v[k].as_str(), s) {
            return Some(k);
        }
        k = k + 1;
    }
    None
}

/// A permutation keeps the elements and their distinctness.
proof fn lemma_permutation_keeps(a: Seq<String>, b: Seq<String>)
    requires
        string_views(a).to_multiset() == string_views(b).to_multiset(),
        distinct_users(a),
    ensures
        distinct_users(b),
        forall|s: Seq<char>| holds_user(b, s) == holds_user(a, s),
{
    let va = string_views(a);
    let vb = string_views(b);
    va.to_multiset_ensures();
    vb.to_multiset_ensures();
    assert forall|s: Seq<char>| holds_user(b, s) == holds_user(a, s) by {
        if holds_user(b, s) {
            let k = choose|k: int| 0 <= k < b.len() && (#[trigger] b[k])@ == s;
            assert(vb[k] == s);
            assert(vb.contains(s));
            assert(vb.to_multiset().count(s) > 0);
            assert(va.to_multiset().count(s) > 0);
            assert(va.contains(s));
            let m = choose|m: int| 0 <= m < va.len() && va[m] == s;
            assert(a[m]@ == s);
        }
        if holds_user(a, s) {
            let k = choose|k: int| 0 <= k < a.len() && (#[trigger] a[k])@ == s;
            assert(va[k] == s);
            assert(va.contains(s));
            assert(va.to_multiset().count(s) > 0);
            assert(vb.to_multiset().count(s) > 0);
            assert(vb.contains(s));
            let m = choose|m: int| 0 <= m < vb.len() && vb[m] == s;
            assert(b[m]@ == s);
        }
    }
    assert forall|i: int, j: int| 0 <= i < j < b.len() implies (#[trigger] b[i])@ != (#[trigger] b[j])@ by {
        if b[i]@ == b[j]@ {
            let x = b[i]@;
            assert(vb[i] == x && vb[j] == x);
            lemma_two_occurrences(vb, i, j);
            assert(va.contains(x)) by {
                assert(va.to_multiset().count(x) > 0);
            }
            let k = choose|k: int| 0 <= k < va.len() && va[k] == x;
            lemma_count_at_most_one(a, k);
        }
    }
}

proof fn lemma_count_at_most_one(a: Seq<String>, k: int)
    requires
        distinct_users(a),
        0 <= k < a.len(),
    ensures
        string_views(a).to_multiset().count(a[k]@) == 1,
{
    let va = string_views(a);
    va.to_multiset_ensures();
    let x = a[k]@;
    let r = va.remove(k);
    r.to_multiset_ensures();
    assert(!r.contains(x)) by {
        if r.contains(x) {
            let m = choose|m: int| 0 <= m < r.len() && r[m] == x;
            if m < k {
                assert(va[m] == x);
                assert(a[m]@ == a[k]@);
            } else {
                assert(va[m + 1] == x);
                assert(a[m + 1]@ == a[k]@);
            }
        }
    }
    assert(va[k] == x);
    assert(r.to_multiset() == va.to_multiset().remove(x));
    assert(va.contains(x));
    assert(va.to_multiset().count(x) > 0);
    assert(r.to_multiset().count(x) == 0);
    assert(va.to_multiset().remove(x).count(x) == va.to_multiset().count(x) - 1);
}

proof fn lemma_two_occurrences(b: Seq<Seq<char>>, i: int, j: int)
    requires
        0 <= i < j < b.len(),
        b[i] == b[j],
    ensures
        b.to_multiset().count(b[i]) >= 2,
{
    b.to_multiset_ensures();
    let r = b.remove(j);
    r.to_multiset_ensures();
    assert(r[i] == b[i]);
    assert(r.contains(b[i]));
    assert(r.to_multiset() == b.to_multiset().remove(b[j]));
    assert(r.to_multiset().count(b[i]) > 0);
    assert(b.contains(b[i]));
    assert(b.to_multiset().count(b[i]) > 0);
    assert(b.to_multiset().remove(b[i]).count(b[i]) == b.to_multiset().count(b[i]) - 1);
}

proof fn lemma_holds_step(v: Seq<String>, i: int, x: Seq<char>)
    requires
        0 <= i < v.len(),
    ensures
        holds_user(v.take(i + 1), x) == (holds_user(v.take(i), x) || x == v[i]@),
{
    if holds_user(v.take(i + 1), x) {
        let k = choose|k: int| 0 <= k < i + 1 && (#[trigger] v.take(i + 1)[k])@ == x;
        if k < i {
            assert(v.take(i)[k] == v.take(i + 1)[k]);
        }
    }
    if holds_user(v.take(i), x) {
        let k = choose|k: int| 0 <= k < i && (#[trigger] v.take(i)[k])@ == x;
        assert(v.take(i)[k] == v.take(i + 1)[k]);
    }
    if x == v[i]@ {
        assert(v.take(i + 1)[i] == v[i]);
    }
}

proof fn lemma_holds_inserted(before: Seq<String>, s: String, x: Seq<char>)
    ensures
        holds_user(crate::api::sync_v3::inserted(before, s), x) == (holds_user(before, x) || x == s@),
{
    if !holds_user(before, s@) {
        let after = before.push(s);
        if holds_user(after, x) {
            let k = choose|k: int| 0 <= k < after.len() && (#[trigger] after[k])@ == x;
            if k < before.len() {
                assert(before[k] == after[k]);
            }
        }
        if holds_user(before, x) {
            let k = choose|k: int| 0 <= k < before.len() && (#[trigger] before[k])@ == x;
            assert(after[k] == before[k]);
        }
        if x == s@ {
            assert(after[before.len() as int] == s);
        }
    }
}

/// Moving one element to the front keeps the elements and their
/// distinctness.
proof fn lemma_move_to_front(s: Seq<String>, pos: int)
    requires
        0 <= pos < s.len(),
        distinct_users(s),
    ensures
        ({
            let t = s.update(pos, s.last()).drop_last().insert(0, s[pos]);
            &&& distinct_users(t)
            &&& forall|x: Seq<char>| holds_user(t, x) == holds_user(s, x)
            &&& t[0] == s[pos]
        }),
{
    let t = s.update(pos, s.last()).drop_last().insert(0, s[pos]);
    let n = s.len();
    // t[0] = s[pos]; for 1 <= k <= n-1: t[k] = u[k-1] where u = s with pos replaced by last, minus last
    assert(t.len() == n);
    assert forall|k: int| 1 <= k < n implies #[trigger] t[k] == (if k - 1 == pos {
        s[n - 1]
    } else {
        s[k - 1]
    }) by {}
    assert forall|x: Seq<char>| holds_user(t, x) == holds_user(s, x) by {
        if holds_user(s, x) {
            let k = choose|k: int| 0 <= k < n && (#[trigger] s[k])@ == x;
            if k == pos {
                assert(t[0] == s[k]);
            } else if k == n - 1 {
                assert(t[pos + 1] == s[k]);
            } else {
                assert(t[k + 1] == s[k]);
            }
        }
        if holds_user(t, x) {
            let k = choose|k: int| 0 <= k < n && (#[trigger] t[k])@ == x;
            if k == 0 {
                assert(s[pos]@ == x);
            } else if k - 1 == pos {
                assert(s[n - 1]@ == x);
            } else {
                assert(s[k - 1]@ == x);
            }
        }
    }
    // index map: t[k] = s[f(k)] with f injective
    assert forall|a: int, b: int| 0 <= a < b < n implies (#[trigger] t[a])@ != (#[trigger] t[b])@ by {
        let fa = if a == 0 {
            pos
        } else if a - 1 == pos {
            n - 1
        } else {
            a - 1
        };
        let fb = if b - 1 == pos {
            n - 1
        } else {
            b - 1
        };
        assert(t[a] == s[fa]);
        assert(t[b] == s[fb]);
        assert(fa != fb);
        if fa < fb {
            assert(s[fa]@ != s[fb]@);
        } else {
            assert(s[fb]@ != s[fa]@);
        }
    }
}

/// Why a profile cannot be looked up over federation.
#[derive(Debug, Clone, Copy, PartialEq, Eq, Structural)]
pub enum ProfileError {
    /// Profile lookups over federation are off.
    Forbidden,
    /// The user is not one of this server.
    InvalidParam,
}

/// What a profile lookup asks for.
pub enum ProfileQuery {
    /// The avatar and the display name.
    Basic,
    /// One custom field.
    Custom(String),
    /// The whole profile.
    All,
}

/// Decides a profile lookup: refused when lookups are off or the user is
/// not local; `avatar_url` and `displayname` get both basic fields, another
/// field only itself, no field the whole profile.
pub fn profile_query(allowed: bool, user_is_ours: bool, field: Option<String>) -> (r: Result<ProfileQuery, ProfileError>)
    ensures
        !allowed ==> (r matches Err(e) && e == ProfileError::Forbidden),
        allowed && !user_is_ours ==> (r matches Err(e) && e == ProfileError::InvalidParam),
        allowed && user_is_ours ==> match field {
            Some(f) => if f@ == "avatar_url"@ || f@ == "displayname"@ {
                (r matches Ok(q) && q is Basic)
            } else {
                (r matches Ok(q) && q == ProfileQuery::Custom(f))
            },
            None => (r matches Ok(q) && q is All),
        },
{
    proof {
        reveal_strlit("avatar_url");
        reveal_strlit("displayname");
    }
    if !allowed {
        return Err(ProfileError::Forbidden);
    }
    if !user_is_ours {
        return Err(ProfileError::InvalidParam);
    }
    match field {
        Some(f) => if str_eq(f.as_str(), "avatar_url") || str_eq(f.as_str(), "displayname") {
            Ok(ProfileQuery::Basic)
        } else {
            Ok(ProfileQuery::Custom(f))
        },
        None => Ok(ProfileQuery::All),
    }
}

/// The name a device shows over federation: its display name when the
/// server allows that and it has one, else its ID.
pub fn federated_device_name(allow: bool, display_name: Option<String>, device_id: String) -> (r: String)
    ensures
        r == if allow && display_name is Some {
            display_name->0
        } else {
            device_id
        },
{
    if allow {
        match display_name {
            Some(d) => return d,
            None => {},
        }
    }
    device_id
}

/// Whether every user of a federation request is local.
pub fn all_local(user_servers: &Vec<String>, ours: &str) -> (r: bool)
    ensures
        r == forall|i: int| 0 <= i < user_servers@.len() ==> (#[trigger] user_servers@[i])@ == ours@,
{
    let mut i: usize = 0;
    while i < user_servers.len()
        invariant
            i <= user_servers@.len(),
            forall|k: int| 0 <= k < i ==> (#[trigger] user_servers@[k])@ == ours@,
        decreases user_servers.len() - i,
    {
        if !str_eq(user_servers[i].as_str(), ours) {
            return false;
        }
        i = i + 1;
    }
    true
}

} // verus!
