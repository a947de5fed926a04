use vstd::prelude::*;
use vstd::slice::*;
use vstd::string::*;
use vstd::utf8::*;

verus! {

/// Debug-formats the given slice, but only up to the first `max_len`
/// elements; further elements are replaced by an ellipsis.
pub struct TruncatedSlice<'a, T> {
    pub inner: &'a [T],
    pub max_len: usize,
}

/// Debug-formats the given str, but only up to the first `max_len` bytes
/// (rounded up to a character boundary); the rest is replaced by an
/// ellipsis.
pub struct TruncatedStr<'a> {
    pub inner: &'a str,
    pub max_len: usize,
}

/// See [`TruncatedSlice`].
pub fn slice_truncated<'a, T>(slice: &'a [T], max_len: usize) -> (r: TruncatedSlice<'a, T>)
    ensures
        r.inner == slice,
        r.max_len == max_len,
{
    TruncatedSlice { inner: slice, max_len }
}

/// See [`TruncatedStr`].
pub fn str_truncated<'a>(s: &'a str, max_len: usize) -> (r: TruncatedStr<'a>)
    ensures
        r.inner == s,
        r.max_len == max_len,
{
    TruncatedStr { inner: s, max_len }
}

impl<'a, T> TruncatedSlice<'a, T> {
    pub open spec fn spec_is_truncated(&self) -> bool {
        self.inner@.len() > self.max_len
    }

    /// Whether elements are left out.
    pub fn is_truncated(&self) -> (r: bool)
        ensures
            r == self.spec_is_truncated(),
    {
        self.inner.len() > self.max_len
    }

    /// The elements that are shown: all of them, or the first `max_len`.
    pub fn shown(&self) -> (r: &'a [T])
        ensures
            r@ == if self.spec_is_truncated() {
                self.inner@.take(self.max_len as int)
            } else {
                self.inner@
            },
    {
        if self.inner.len() <= self.max_len {
            self.inner
        } else {
            slice_subrange(self.inner, 0, self.max_len)
        }
    }
}

/// The number of bytes in the UTF-8 encoding of one character.
pub open spec fn char_width(c: char) -> nat {
    encode_scalar(c as u32).len()
}

/// The byte offset at which the `k`-th character of `s` starts.
pub open spec fn char_start(s: Seq<char>, k: int) -> nat {
    encode_utf8(s.take(k)).len()
}

pub proof fn lemma_encode_utf8_concat(a: Seq<char>, b: Seq<char>)
    ensures
        encode_utf8(a + b) == encode_utf8(a) + encode_utf8(b),
    decreases a.len(),
{
    if a.len() == 0 {
        assert(a + b =~= b);
        assert(encode_utf8(a) =~= Seq::<u8>::empty());
        assert(encode_utf8(a) + encode_utf8(b) =~= encode_utf8(b));
    } else {
        assert((a + b).drop_first() =~= a.drop_first() + b);
        assert((a + b)[0] == a[0]);
        lemma_encode_utf8_concat(a.drop_first(), b);
        assert(encode_utf8(a + b) =~= encode_utf8(a) + encode_utf8(b));
    }
}

/// Starting one character later moves the offset by that character's width.
pub proof fn lemma_char_start_step(s: Seq<char>, k: int)
    requires
        0 <= k < s.len(),
    ensures
        char_start(s, k + 1) == char_start(s, k) + char_width(s[k]),
{
    assert(s.take(k + 1) =~= s.take(k) + seq![s[k]]);
    lemma_encode_utf8_concat(s.take(k), seq![s[k]]);
    assert(seq![s[k]].drop_first() =~= Seq::<char>::empty());
    assert(encode_utf8(seq![s[k]]) =~= encode_scalar(s[k] as u32) + encode_utf8(Seq::<char>::empty()));
}

proof fn lemma_char_start_mono(s: Seq<char>, j: int, k: int)
    requires
        0 <= j <= k <= s.len(),
    ensures
        char_start(s, j) <= char_start(s, k),
    decreases k - j,
{
    if j < k {
        lemma_char_start_mono(s, j, k - 1);
        lemma_char_start_step(s, k - 1);
    }
}

fn width_of(c: char) -> (w: usize)
    ensures
        w == char_width(c),
        1 <= w <= 4,
{
    proof {
        char_is_scalar(c);
    }
    let u = c as u32;
    if u <= 0x7F {
        1
    } else if u <= 0x7FF {
        2
    } else if u <= 0xFFFF {
        3
    } else {
        4
    }
}

/// Formats a string the way `{:?}` does: quoted, with escapes.
pub uninterp spec fn debug_str(s: Seq<char>) -> Seq<char>;

/// `format!("{:?}", s)`: the debug form of a string slice.
#[verifier::external_body]
fn format_debug_str(s: &str) -> (r: String)
    ensures
        r@ == debug_str(s@),
{
    format!("{:?}", s)
}

impl<'a> TruncatedStr<'a> {
    /// Whether the string is longer than `max_len` bytes.
    pub open spec fn spec_is_truncated(&self) -> bool {
        self.inner.spec_bytes().len() > self.max_len
    }

    /// The number of characters kept when truncating: those that start
    /// before byte `max_len`, so that the cut is rounded up to the next
    /// character boundary (possibly the end of the string).
    pub open spec fn spec_kept(&self) -> int {
        choose|k: int|
            0 <= k <= self.inner@.len() && char_start(self.inner@, k) >= self.max_len && forall|j: int|
                0 <= j < k ==> char_start(self.inner@, j) < self.max_len
    }

    /// The text that `{:?}` shows: the quoted string when it is at most
    /// `max_len` bytes long, otherwise the quoted characters that start
    /// before byte `max_len`, followed by `...`.
    pub fn render(&self) -> (r: String)
        ensures
            !self.spec_is_truncated() ==> r@ == debug_str(self.inner@),
            self.spec_is_truncated() ==> r@ == debug_str(self.inner@.take(self.spec_kept()))
                + "..."@,
    {
        let s = self.inner;
        if s.as_bytes().len() <= self.max_len {
            return format_debug_str(s);
        }
        let k = kept_chars(s, self.max_len);
        proof {
            let kk = k as int;
            let c = self.spec_kept();
            assert(0 <= kk <= s@.len() && char_start(s@, kk) >= self.max_len && forall|j: int|
                0 <= j < kk ==> char_start(s@, j) < self.max_len);
            if c != kk {
                if c < kk {
                    assert(char_start(s@, c) < self.max_len);
                } else {
                    assert(char_start(s@, kk) < self.max_len);
                }
            }
        }
        let mut out = format_debug_str(s.substring_char(0, k));
        out.append("...");
        proof {
            reveal_strlit("...");
        }
        out
    }
}

/// The first character that starts at or after byte `max_len`, or the
/// number of characters when none does.
fn kept_chars(s: &str, max_len: usize) -> (k: usize)
    requires
        s.spec_bytes().len() > max_len,
    ensures
        k <= s@.len(),
        char_start(s@, k as int) >= max_len,
        forall|j: int| 0 <= j < k ==> char_start(s@, j) < max_len,
{
    let n = s.unicode_len();
    let blen = s.as_bytes().len();
    let mut k: usize = 0;
    let mut start: usize = 0;
    proof {
        assert(s@.take(0) =~= Seq::<char>::empty());
        assert(encode_utf8(Seq::<char>::empty()) =~= Seq::<u8>::empty());
        assert(s@.take(n as int) =~= s@);
    }
    while start < max_len
        invariant
            n == s@.len(),
            char_start(s@, n as int) == s.spec_bytes().len(),
            blen == s.spec_bytes().len(),
            s.spec_bytes().len() > max_len,
            k <= n,
            start == char_start(s@, k as int),
            forall|j: int| 0 <= j < k ==> char_start(s@, j) < max_len,
        decreases n - k,
    {
        proof {
            lemma_char_start_step(s@, k as int);
            lemma_char_start_mono(s@, k + 1, n as int);
        }
        let w = width_of(s.get_char(k));
        start = start + w;
        k = k + 1;
    }
    k
}

/// Whether the UTF-8 form of `s` takes at most `limit` bytes.
pub fn utf8_len_at_most(s: &str, limit: usize) -> (r: bool)
    ensures
        r == (encode_utf8(s@).len() <= limit),
{
    let n = s.unicode_len();
    let mut acc: usize = 0;
    let mut k: usize = 0;
    while k < n
        invariant
            n == s@.len(),
            k <= n,
            acc == char_start(s@, k as int),
            acc <= limit,
        decreases n - k,
    {
        proof {
            lemma_char_start_step(s@, k as int);
        }
        let w = width_of(s.get_char(k));
        if w > limit - acc {
            proof {
                lemma_char_start_mono(s@, k + 1, n as int);
                assert(s@.take(n as int) =~= s@);
            }
            return false;
        }
        acc = acc + w;
        k = k + 1;
    }
    proof {
        assert(s@.take(n as int) =~= s@);
    }
    true
}

} // verus!
