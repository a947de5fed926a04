use vstd::prelude::*;
use vstd::string::*;
use vstd::utf8::*;
use crate::error::Error;

verus! {

/// Length of the longest common prefix of two character sequences.
pub open spec fn common_prefix_len(a: Seq<char>, b: Seq<char>) -> nat
    decreases a.len(),
{
    if a.len() == 0 || b.len() == 0 || a[0] != b[0] {
        0
    } else {
        1 + common_prefix_len(a.drop_first(), b.drop_first())
    }
}

/// The common prefix of the first `k` strings of `choices`, folded from the
/// first string onwards.
pub open spec fn fold_common_prefix(choices: Seq<Seq<char>>, k: int) -> Seq<char>
    recommends
        1 <= k <= choices.len(),
    decreases k,
{
    if k <= 1 {
        choices[0]
    } else {
        let best = fold_common_prefix(choices, k - 1);
        best.take(common_prefix_len(choices[k - 1], best) as int)
    }
}

/// The common prefix of all of `choices`; empty when there are none.
pub open spec fn spec_common_prefix(choices: Seq<Seq<char>>) -> Seq<char> {
    if choices.len() == 0 {
        Seq::empty()
    } else {
        fold_common_prefix(choices, choices.len() as int)
    }
}

pub proof fn lemma_common_prefix_len(a: Seq<char>, b: Seq<char>)
    ensures
        common_prefix_len(a, b) <= a.len(),
        common_prefix_len(a, b) <= b.len(),
        forall|i: int| 0 <= i < common_prefix_len(a, b) ==> a[i] == b[i],
        common_prefix_len(a, b) < a.len() && common_prefix_len(a, b) < b.len()
            ==> a[common_prefix_len(a, b) as int] != b[common_prefix_len(a, b) as int],
    decreases a.len(),
{
    if a.len() == 0 || b.len() == 0 || a[0] != b[0] {
    } else {
        lemma_common_prefix_len(a.drop_first(), b.drop_first());
        let n = common_prefix_len(a, b);
        assert forall|i: int| 0 <= i < n implies a[i] == b[i] by {
            if i > 0 {
                assert(a.drop_first()[i - 1] == b.drop_first()[i - 1]);
            }
        }
    }
}

/// Counts the leading characters that `a` and `b` share.
fn count_common(a: &str, b: &str) -> (n: usize)
    ensures
        n == common_prefix_len(a@, b@),
{
    let la = a.unicode_len();
    let lb = b.unicode_len();
    let mut i: usize = 0;
    proof {
        lemma_common_prefix_len(a@, b@);
    }
    while i < la && i < lb && a.get_char(i) == b.get_char(i)
        invariant
            la == a@.len(),
            lb == b@.len(),
            i <= la,
            i <= lb,
            i <= common_prefix_len(a@, b@),
            forall|j: int| 0 <= j < i ==> a@[j] == b@[j],
            common_prefix_len(a@, b@) <= a@.len(),
            common_prefix_len(a@, b@) <= b@.len(),
            forall|j: int| 0 <= j < common_prefix_len(a@, b@) ==> a@[j] == b@[j],
            common_prefix_len(a@, b@) < a@.len() && common_prefix_len(a@, b@) < b@.len()
                ==> a@[common_prefix_len(a@, b@) as int] != b@[common_prefix_len(a@, b@) as int],
        decreases la - i,
    {
        i = i + 1;
    }
    i
}


/// Finds the longest prefix that all of `choice` share, as a slice of the
/// first string; the empty string when `choice` is empty.
///
/// `common_prefix(&["conduwuit", "conduit", "construct"])` is `"con"`.
pub fn common_prefix<'a>(choice: &[&'a str]) -> (r: &'a str)
    ensures
        r@ == spec_common_prefix(choice@.map_values(|s: &str| s@)),
{
    let ghost views = choice@.map_values(|s: &str| s@);
    if choice.len() == 0 {
        proof {
            reveal_strlit("");
        }
        return "";
    }
    let best: &'a str = choice[0];
    let mut best_len: usize = best.unicode_len();
    let mut i: usize = 1;
    proof {
        assert(best@.take(best_len as int) =~= best@);
    }
    while i < choice.len()
        invariant
            views == choice@.map_values(|s: &str| s@),
            1 <= i <= choice.len(),
            best == choice[0],
            best_len <= best@.len(),
            best@.take(best_len as int) == fold_common_prefix(views, i as int),
        decreases choice.len() - i,
    {
        let n = count_common(choice[i], best.substring_char(0, best_len));
        proof {
            lemma_common_prefix_len(choice[i as int]@, best@.take(best_len as int));
            assert(best@.take(best_len as int).take(n as int) =~= best@.take(n as int));
        }
        best_len = n;
        i = i + 1;
    }
    best.substring_char(0, best_len)
}

/// The common prefix is a prefix of every string, and every string that is a
/// prefix of all of them is no longer than it.
pub proof fn lemma_common_prefix_is_longest(choices: Seq<Seq<char>>, p: Seq<char>)
    requires
        choices.len() > 0,
        forall|i: int| 0 <= i < choices.len() ==> p.len() <= (#[trigger] choices[i]).len()
            && choices[i].take(p.len() as int) =~= p,
    ensures
        forall|i: int| 0 <= i < choices.len() ==>
            (#[trigger] choices[i]).take(spec_common_prefix(choices).len() as int)
                =~= spec_common_prefix(choices),
        p.len() <= spec_common_prefix(choices).len(),
        spec_common_prefix(choices).len() <= choices[0].len(),
{
    lemma_fold_common_prefix(choices, choices.len() as int, p);
}

proof fn lemma_fold_common_prefix(choices: Seq<Seq<char>>, k: int, p: Seq<char>)
    requires
        1 <= k <= choices.len(),
        forall|i: int| 0 <= i < choices.len() ==> p.len() <= (#[trigger] choices[i]).len()
            && choices[i].take(p.len() as int) =~= p,
    ensures
        forall|i: int| 0 <= i < k ==>
            fold_common_prefix(choices, k).len() <= (#[trigger] choices[i]).len()
            && choices[i].take(fold_common_prefix(choices, k).len() as int)
                =~= fold_common_prefix(choices, k),
        p.len() <= fold_common_prefix(choices, k).len(),
        fold_common_prefix(choices, k).len() <= choices[0].len(),
        choices[0].take(fold_common_prefix(choices, k).len() as int) =~= fold_common_prefix(choices, k),
    decreases k,
{
    if k <= 1 {
        assert(choices[0].take(choices[0].len() as int) =~= choices[0]);
    } else {
        lemma_fold_common_prefix(choices, k - 1, p);
        let best = fold_common_prefix(choices, k - 1);
        let c = choices[k - 1];
        lemma_common_prefix_len(c, best);
        let n = common_prefix_len(c, best);
        let r = best.take(n as int);
        assert(r == fold_common_prefix(choices, k));
        assert forall|i: int| 0 <= i < k implies r.len() <= (#[trigger] choices[i]).len() && choices[i].take(r.len() as int) =~= r by {
            if i < k - 1 {
                assert(choices[i].take(best.len() as int) =~= best);
                assert forall|j: int| 0 <= j < r.len() implies choices[i].take(r.len() as int)[j] == r[j] by {
                    assert(choices[i].take(best.len() as int)[j] == best[j]);
                }
            } else {
                assert forall|j: int| 0 <= j < r.len() implies c.take(r.len() as int)[j] == r[j] by {
                    assert(c[j] == best[j]);
                }
            }
        }
        // p is a prefix of both c and best, so it is no longer than their common prefix
        if p.len() > n {
            assert(n < c.len() && n < best.len());
            assert(c.take(p.len() as int)[n as int] == p[n as int]);
            assert(best == choices[0].take(best.len() as int));
            assert(choices[0].take(p.len() as int)[n as int] == p[n as int]);
            assert(false);
        }
        assert forall|j: int| 0 <= j < r.len() implies choices[0].take(r.len() as int)[j] == r[j] by {
            assert(choices[0].take(best.len() as int)[j] == best[j]);
        }
    }
}


/// Appends one character to `s` (`String::push`).
#[verifier::external_body]
pub(crate) fn push_char(s: &mut String, c: char)
    ensures
        final(s)@ == old(s)@.push(c),
{
    s.push(c);
}

/// Appends the characters of `t` to `s`.
pub fn push_text(s: &mut String, t: &str)
    ensures
        final(s)@ == old(s)@ + t@,
{
    let n = t.unicode_len();
    let mut i: usize = 0;
    while i < n
        invariant
            n == t@.len(),
            i <= n,
            s@ == old(s)@ + t@.take(i as int),
        decreases n - i,
    {
        push_char(s, t.get_char(i));
        proof {
            assert(t@.take(i + 1) =~= t@.take(i as int).push(t@[i as int]));
        }
        i = i + 1;
    }
    proof {
        assert(t@.take(n as int) =~= t@);
    }
}

pub open spec fn is_ascii_upper(c: char) -> bool {
    'A' <= c <= 'Z'
}

pub open spec fn ascii_lower(c: char) -> char {
    if is_ascii_upper(c) {
        ((c as u32) + 32) as char
    } else {
        c
    }
}

/// The Latin-1 reading of a byte, as `char::from(u8)` gives it.
pub open spec fn byte_char(b: u8) -> char {
    b as char
}

/// The characters that the byte at `k` contributes to the snake-case form:
/// an underscore first when an uppercase letter follows a character that is
/// not one, then the lowercased character.
pub open spec fn snake_piece(bytes: Seq<u8>, k: int) -> Seq<char> {
    let c = byte_char(bytes[k]);
    if is_ascii_upper(c) && k > 0 && !is_ascii_upper(byte_char(bytes[k - 1])) {
        seq!['_', ascii_lower(c)]
    } else {
        seq![ascii_lower(c)]
    }
}

/// The snake-case form of the first `n` bytes.
pub open spec fn snake_prefix(bytes: Seq<u8>, n: int) -> Seq<char>
    decreases n,
{
    if n <= 0 {
        Seq::empty()
    } else {
        snake_prefix(bytes, n - 1) + snake_piece(bytes, n - 1)
    }
}

/// The snake-case form of `bytes`, each byte read as a Latin-1 character.
pub open spec fn spec_camel_to_snake(bytes: Seq<u8>) -> Seq<char> {
    snake_prefix(bytes, bytes.len() as int)
}

fn to_ascii_lower(c: char) -> (r: char)
    ensures
        r == ascii_lower(c),
{
    if 'A' <= c && c <= 'Z' {
        let u: u32 = c as u32 + 32;
        proof {
            assert(65 <= u <= 122);
        }
        char_from_ascii(u)
    } else {
        c
    }
}

fn char_from_ascii(u: u32) -> (c: char)
    requires
        u < 128,
    ensures
        c == u as char,
{
    let b: u8 = u as u8;
    b as char
}

/// Writes the snake-case form of `input` to `output`: every byte, read as a
/// Latin-1 character, is lowercased, and an underscore goes before each
/// uppercase ASCII letter that follows a character that is not one.
pub fn camel_to_snake_case(output: &mut String, input: &[u8])
    ensures
        final(output)@ == old(output)@ + spec_camel_to_snake(input@),
{
    let ghost start = output@;
    let mut state = false;
    let mut i: usize = 0;
    while i < input.len()
        invariant
            i <= input.len(),
            output@ == start + snake_prefix(input@, i as int),
            state == (i > 0 && !is_ascii_upper(byte_char(input@[i - 1]))),
        decreases input.len() - i,
    {
        let ch: char = input[i] as char;
        let m = 'A' <= ch && ch <= 'Z';
        let s = state;
        state = !m;
        if m && s {
            push_char(output, '_');
        }
        push_char(output, to_ascii_lower(ch));
        proof {
            assert(snake_prefix(input@, i + 1) == snake_prefix(input@, i as int) + snake_piece(input@, i as int));
        }
        i = i + 1;
    }
}

/// Converts a camel-case string to snake case, reading each byte of its
/// UTF-8 form as a Latin-1 character.
pub fn camel_to_snake_string(s: &str) -> (r: String)
    ensures
        r@ == spec_camel_to_snake(s.spec_bytes()),
{
    let mut ret = String::new();
    camel_to_snake_case(&mut ret, s.as_bytes());
    ret
}


/// Every character is ASCII and no uppercase letter.
pub open spec fn lower_ascii(cs: Seq<char>) -> bool {
    forall|i: int| 0 <= i < cs.len() ==> (#[trigger] cs[i] as u32) < 128 && !is_ascii_upper(cs[i])
}

proof fn lemma_snake_prefix_lower(bytes: Seq<u8>, n: int)
    requires
        0 <= n <= bytes.len(),
        forall|i: int| 0 <= i < bytes.len() ==> #[trigger] bytes[i] < 128,
    ensures
        lower_ascii(snake_prefix(bytes, n)),
    decreases n,
{
    if n > 0 {
        lemma_snake_prefix_lower(bytes, n - 1);
        let c = byte_char(bytes[n - 1]);
        assert(bytes[n - 1] < 128);
        assert((c as u32) < 128);
        let p = snake_prefix(bytes, n - 1);
        let q = snake_piece(bytes, n - 1);
        assert(lower_ascii(q));
        assert forall|i: int| 0 <= i < (p + q).len() implies (#[trigger] (p + q)[i] as u32) < 128
            && !is_ascii_upper((p + q)[i]) by {
            if i < p.len() {
                assert((p + q)[i] == p[i]);
            } else {
                assert((p + q)[i] == q[i - p.len()]);
            }
        }
    }
}

proof fn lemma_char_u32_eq(a: char, b: char)
    requires
        a as u32 == b as u32,
    ensures
        a == b,
{
}

/// The UTF-8 form of ASCII characters is one byte each, the character's
/// code.
proof fn lemma_encode_ascii(cs: Seq<char>)
    requires
        forall|i: int| 0 <= i < cs.len() ==> (#[trigger] cs[i] as u32) < 128,
    ensures
        encode_utf8(cs).len() == cs.len(),
        forall|i: int| 0 <= i < cs.len() ==> byte_char(#[trigger] encode_utf8(cs)[i]) == cs[i],
    decreases cs.len(),
{
    if cs.len() > 0 {
        let rest = cs.drop_first();
        assert forall|i: int| 0 <= i < rest.len() implies (#[trigger] rest[i] as u32) < 128 by {
            assert(rest[i] == cs[i + 1]);
        }
        lemma_encode_ascii(rest);
        let v = cs[0] as u32;
        assert(v < 128);
        assert((v & 0x7F) == v) by (bit_vector)
            requires
                v < 128,
        ;
        let e = encode_utf8(cs);
        assert(e == encode_scalar(v) + encode_utf8(rest));
        assert(encode_scalar(v) == seq![leading_byte_width_1(v)]);
        assert forall|i: int| 0 <= i < cs.len() implies byte_char(#[trigger] e[i]) == cs[i] by {
            if i == 0 {
                assert(e[0] == leading_byte_width_1(v));
                assert(leading_byte_width_1(v) == v as u8);
                assert((v as u8) as u32 == v);
                assert(byte_char(v as u8) as u32 == v);
                assert(byte_char(e[0]) as u32 == cs[0] as u32);
                lemma_char_u32_eq(byte_char(e[0]), cs[0]);
            } else {
                assert(e[i] == encode_utf8(rest)[i - 1]);
                assert(rest[i - 1] == cs[i]);
                assert(byte_char(encode_utf8(rest)[i - 1]) == rest[i - 1]);
            }
        }
    }
}

/// Bytes with no uppercase letter keep their characters.
proof fn lemma_snake_prefix_unchanged(bytes: Seq<u8>, n: int)
    requires
        0 <= n <= bytes.len(),
        forall|i: int| 0 <= i < bytes.len() ==> !is_ascii_upper(#[trigger] byte_char(bytes[i])),
    ensures
        snake_prefix(bytes, n).len() == n,
        forall|i: int| 0 <= i < n ==> #[trigger] snake_prefix(bytes, n)[i] == byte_char(bytes[i]),
    decreases n,
{
    if n > 0 {
        lemma_snake_prefix_unchanged(bytes, n - 1);
        assert(!is_ascii_upper(byte_char(bytes[n - 1])));
        assert(snake_piece(bytes, n - 1) == seq![byte_char(bytes[n - 1])]);
        let p = snake_prefix(bytes, n - 1);
        assert forall|i: int| 0 <= i < n implies #[trigger] snake_prefix(bytes, n)[i] == byte_char(bytes[i]) by {
            if i < n - 1 {
                assert(snake_prefix(bytes, n)[i] == p[i]);
            }
        }
    }
}

/// Snake case is settled on ASCII text: the snake-case form of ASCII bytes
/// holds lowercase ASCII only (no uppercase letter is left), and converting
/// its own UTF-8 form again gives it back unchanged.
pub proof fn lemma_camel_to_snake_idempotent(bytes: Seq<u8>)
    requires
        forall|i: int| 0 <= i < bytes.len() ==> #[trigger] bytes[i] < 128,
    ensures
        lower_ascii(spec_camel_to_snake(bytes)),
        spec_camel_to_snake(encode_utf8(spec_camel_to_snake(bytes))) == spec_camel_to_snake(bytes),
{
    let r = spec_camel_to_snake(bytes);
    lemma_snake_prefix_lower(bytes, bytes.len() as int);
    assert forall|i: int| 0 <= i < r.len() implies (#[trigger] r[i] as u32) < 128 by {
        assert(lower_ascii(r));
    }
    lemma_encode_ascii(r);
    let e = encode_utf8(r);
    assert forall|i: int| 0 <= i < e.len() implies !is_ascii_upper(#[trigger] byte_char(e[i])) by {
        assert(byte_char(e[i]) == r[i]);
        assert(lower_ascii(r));
    }
    lemma_snake_prefix_unchanged(e, e.len() as int);
    assert(spec_camel_to_snake(e) =~= r);
}

/// Sum of all bytes, unbounded.
pub open spec fn byte_sum(s: Seq<u8>) -> int
    decreases s.len(),
{
    if s.len() == 0 {
        0
    } else {
        byte_sum(s.drop_last()) + s.last()
    }
}

/// The number of characters that `truncate_deterministic` keeps: the byte
/// sum of the string, wrapping at the width of `usize`, modulo its byte
/// length (at least one), clamped into `[start, end]`.
pub open spec fn truncate_len(bytes: Seq<u8>, start: int, end: int) -> int {
    let wrapped = byte_sum(bytes) % (usize::MAX as int + 1);
    let m = if bytes.len() == 0 { 1 } else { bytes.len() as int };
    let x = wrapped % m;
    if x < start {
        start
    } else if x > end {
        end
    } else {
        x
    }
}

/// Truncates `s` to a number of characters that depends only on its bytes,
/// kept inside `range` (by default `0..s.len()`, the byte length).
pub fn truncate_deterministic(s: &str, range: Option<core::ops::Range<usize>>) -> (r: &str)
    requires
        range matches Some(rg) ==> rg.start <= rg.end,
    ensures
        ({
            let (start, end) = match range {
                Some(rg) => (rg.start as int, rg.end as int),
                None => (0int, s.spec_bytes().len() as int),
            };
            let n = truncate_len(s.spec_bytes(), start, end);
            r@ == s@.take(if n < s@.len() { n } else { s@.len() as int })
        }),
{
    let bytes = s.as_bytes();
    let (start, end) = match range {
        Some(rg) => (rg.start, rg.end),
        None => (0, bytes.len()),
    };
    let ghost m: int = usize::MAX as int + 1;
    let mut acc: usize = 0;
    let mut i: usize = 0;
    while i < bytes.len()
        invariant
            i <= bytes@.len(),
            m == usize::MAX as int + 1,
            acc as int == byte_sum(bytes@.take(i as int)) % m,
        decreases bytes.len() - i,
    {
        let b = bytes[i];
        proof {
            let t = bytes@.take(i as int + 1);
            assert(t.drop_last() =~= bytes@.take(i as int));
            assert(byte_sum(t) == byte_sum(bytes@.take(i as int)) + b);
            vstd::arithmetic::div_mod::lemma_add_mod_noop(byte_sum(bytes@.take(i as int)), b as int, m);
            vstd::arithmetic::div_mod::lemma_small_mod(b as nat, m as nat);
            vstd::arithmetic::div_mod::lemma_mod_twice(byte_sum(bytes@.take(i as int)), m);
            vstd::arithmetic::div_mod::lemma_mod_self_0(m);
            if acc + b < m {
                vstd::arithmetic::div_mod::lemma_small_mod((acc + b) as nat, m as nat);
            } else {
                vstd::arithmetic::div_mod::lemma_mod_sub_multiples_vanish((acc + b) as int, m);
                vstd::arithmetic::div_mod::lemma_small_mod((acc + b - m) as nat, m as nat);
            }
        }
        acc = acc.wrapping_add(b as usize);
        i = i + 1;
    }
    proof {
        assert(bytes@.take(bytes@.len() as int) =~= bytes@);
    }
    let modulus: usize = if bytes.len() == 0 { 1 } else { bytes.len() };
    let x = acc % modulus;
    let len = if x < start {
        start
    } else if x > end {
        end
    } else {
        x
    };
    let count = s.unicode_len();
    if len < count {
        s.substring_char(0, len)
    } else {
        proof {
            assert(s@.take(s@.len() as int) =~= s@);
        }
        s
    }
}


/// The longest prefix of `bytes` that is valid UTF-8 is `k` bytes long.
pub open spec fn valid_prefix_len(bytes: Seq<u8>, k: int) -> bool {
    &&& 0 <= k <= bytes.len()
    &&& valid_utf8(bytes.take(k))
    &&& forall|m: int| k < m <= bytes.len() ==> !valid_utf8(#[trigger] bytes.take(m))
}

/// `std::str::from_utf8`: succeeds exactly on valid UTF-8, and the string
/// it gives back has exactly these bytes. On failure, the error's
/// `valid_up_to` (the longest valid prefix, as std documents it) and its
/// message; the wording of the message is std's and not stated.
#[verifier::external_body]
fn std_str_from_utf8(bytes: &[u8]) -> (r: Result<&str, (usize, String)>)
    ensures
        r is Ok <==> valid_utf8(bytes@),
        r matches Ok(s) ==> s.spec_bytes() == bytes@,
        r matches Err((k, _)) ==> valid_prefix_len(bytes@, k as int),
{
    core::str::from_utf8(bytes).map_err(|e| (e.valid_up_to(), e.to_string()))
}

/// Parses the bytes into a string slice.
pub fn str_from_bytes(bytes: &[u8]) -> (r: Result<&str, Error>)
    ensures
        r is Ok <==> valid_utf8(bytes@),
        r matches Ok(s) ==> s.spec_bytes() == bytes@ && s@ == decode_utf8(bytes@),
        r matches Err(e) ==> (e matches Error::Utf8 { valid_up_to, .. } && valid_prefix_len(
            bytes@,
            valid_up_to as int,
        )),
{
    match std_str_from_utf8(bytes) {
        Ok(s) => {
            proof {
                decode_utf8_encode_utf8(bytes@);
                encode_utf8_decode_utf8(s@);
            }
            Ok(s)
        },
        Err((valid_up_to, message)) => Err(Error::Utf8 { valid_up_to, message }),
    }
}

/// Parses the bytes into an owned string.
pub fn string_from_bytes(bytes: &[u8]) -> (r: Result<String, Error>)
    ensures
        r is Ok <==> valid_utf8(bytes@),
        r matches Ok(s) ==> s@ == decode_utf8(bytes@),
        r matches Err(e) ==> (e matches Error::Utf8 { valid_up_to, .. } && valid_prefix_len(
            bytes@,
            valid_up_to as int,
        )),
{
    match str_from_bytes(bytes) {
        Ok(s) => Ok(s.to_owned()),
        Err(e) => Err(e),
    }
}

/// The decimal digit for `d < 10`.
pub open spec fn digit_char(d: nat) -> char {
    (48 + d) as char
}

/// The decimal representation of `n`, without sign or leading zeros.
pub open spec fn decimal(n: nat) -> Seq<char>
    decreases n,
{
    if n < 10 {
        seq![digit_char(n)]
    } else {
        decimal(n / 10).push(digit_char(n % 10))
    }
}

/// Formats a count in decimal.
pub fn to_small_string(n: u64) -> (r: String)
    ensures
        r@ == decimal(n as nat),
    decreases n,
{
    if n < 10 {
        let mut s = String::new();
        push_char(&mut s, char_from_ascii(48 + n as u32));
        s
    } else {
        let mut s = to_small_string(n / 10);
        push_char(&mut s, char_from_ascii(48 + (n % 10) as u32));
        s
    }
}

/// Runs `func` on a new string and hands the string back when `func`
/// succeeds, or its error when it fails: the result is that of one call of
/// `func` on a reference to an empty string, with the text `func` left there.
pub fn collect_stream<E, F>(func: F) -> (r: Result<String, E>)
    where
        F: FnOnce(&mut String) -> Result<(), E>,
    requires
        forall|s: &mut String| #[trigger] call_requires(func, (s,)),
    ensures
        exists|s: &mut String, res: Result<(), E>|
            (*s)@ == Seq::<char>::empty() && #[trigger] call_ensures(func, (s,), res) && match res {
                Ok(_) => r matches Ok(v) && v@ == (*final(s))@,
                Err(e) => r == Err::<String, E>(e),
            },
{
    let mut out = String::new();
    let res = func(&mut out);
    match res {
        Ok(()) => Ok(out),
        Err(e) => Err(e),
    }
}


/// Whether two strings hold the same characters.
pub fn str_eq(a: &str, b: &str) -> (r: bool)
    ensures
        r == (a@ == b@),
{
    let la = a.unicode_len();
    let lb = b.unicode_len();
    if la != lb {
        return false;
    }
    let mut i: usize = 0;
    while i < la
        invariant
            la == a@.len(),
            lb == b@.len(),
            la == lb,
            i <= la,
            forall|j: int| 0 <= j < i ==> a@[j] == b@[j],
        decreases la - i,
    {
        if a.get_char(i) != b.get_char(i) {
            return false;
        }
        i = i + 1;
    }
    proof {
        assert(a@ =~= b@);
    }
    true
}

/// Whether `list` holds a string equal to `s`.
pub fn list_contains(list: &[String], s: &str) -> (r: bool)
    ensures
        r == exists|i: int| 0 <= i < list@.len() && (#[trigger] list@[i])@ == s@,
{
    let mut i: usize = 0;
    while i < list.len()
        invariant
            i <= list@.len(),
            forall|j: int| 0 <= j < i ==> (#[trigger] list@[j])@ != s@,
        decreases list.len() - i,
    {
        if str_eq(list[i].as_str(), s) {
            return true;
        }
        i = i + 1;
    }
    false
}

/// Whether `needle` occurs in `hay` starting at character `at`.
pub open spec fn occurs_at(hay: Seq<char>, needle: Seq<char>, at: int) -> bool {
    0 <= at && at + needle.len() <= hay.len() && hay.subrange(at, at + needle.len()) == needle
}

/// Whether `needle` occurs anywhere in `hay`.
pub open spec fn spec_contains(hay: Seq<char>, needle: Seq<char>) -> bool {
    exists|at: int| #[trigger] occurs_at(hay, needle, at)
}

/// Substring search: whether `needle` occurs in `hay`.
pub fn str_contains(hay: &str, needle: &str) -> (r: bool)
    ensures
        r == spec_contains(hay@, needle@),
{
    let lh = hay.unicode_len();
    let ln = needle.unicode_len();
    if ln > lh {
        proof {
            assert forall|at: int| !occurs_at(hay@, needle@, at) by {}
        }
        return false;
    }
    let mut at: usize = 0;
    while at <= lh - ln
        invariant
            lh == hay@.len(),
            ln == needle@.len(),
            ln <= lh,
            at <= lh - ln + 1,
            forall|k: int| 0 <= k < at ==> !occurs_at(hay@, needle@, k),
        decreases lh - ln + 1 - at,
    {
        let mut j: usize = 0;
        let mut same = true;
        while j < ln
            invariant
                lh == hay@.len(),
                ln == needle@.len(),
                at + ln <= lh,
                j <= ln,
                same == forall|m: int| 0 <= m < j ==> hay@[at + m] == needle@[m],
            decreases ln - j,
        {
            if hay.get_char(at + j) != needle.get_char(j) {
                same = false;
            }
            j = j + 1;
        }
        if same {
            proof {
                assert(hay@.subrange(at as int, at + ln) =~= needle@);
                assert(occurs_at(hay@, needle@, at as int));
            }
            return true;
        }
        proof {
            if hay@.subrange(at as int, at + ln) == needle@ {
                assert forall|m: int| 0 <= m < ln implies hay@[at + m] == needle@[m] by {
                    assert(hay@.subrange(at as int, at + ln)[m] == hay@[at + m]);
                }
            }
        }
        at = at + 1;
    }
    proof {
        assert forall|k: int| !occurs_at(hay@, needle@, k) by {
            if 0 <= k && k + ln <= lh {
                assert(k < at);
            }
        }
    }
    false
}

/// What `str::to_lowercase` gives: the Unicode lowercase of each
/// character, by the Unicode tables.
pub uninterp spec fn unicode_lowercase(s: Seq<char>) -> Seq<char>;

/// `str::to_lowercase`: the Unicode lowercase mapping of `s`.
#[verifier::external_body]
pub(crate) fn to_lowercase(s: &str) -> (r: String)
    ensures
        r@ == unicode_lowercase(s@),
{
    s.to_lowercase()
}

} // verus!
