use vstd::prelude::*;
use vstd::std_specs::convert::TryFromSpec;
use crate::error::Error;
use crate::utils::string::push_text;

verus! {

/// The largest integer that a JSON number holds exactly, `2^53 - 1`.
pub const MAX_SAFE_INT: u64 = 9007199254740991;

/// An unsigned integer that a JSON number can carry without loss: at most
/// [`MAX_SAFE_INT`].
#[derive(Debug, Clone, Copy, PartialEq, Eq, Structural)]
pub struct UInt {
    value: u64,
}

impl UInt {
    #[verifier::type_invariant]
    spec fn inv(self) -> bool {
        self.value <= MAX_SAFE_INT
    }

    pub closed spec fn spec_value(self) -> u64 {
        self.value
    }

    /// Makes a `UInt` when `value` is in range.
    pub fn new(value: u64) -> (r: Option<UInt>)
        ensures
            r is Some <==> value <= MAX_SAFE_INT,
            r matches Some(u) ==> u.spec_value() == value,
    {
        if value <= MAX_SAFE_INT {
            Some(UInt { value })
        } else {
            None
        }
    }

    /// The value held.
    pub fn get(&self) -> (r: u64)
        ensures
            r == self.spec_value(),
            r <= MAX_SAFE_INT,
    {
        proof {
            use_type_invariant(self);
        }
        self.value
    }
}

/// Converts a JSON-safe integer to `usize`; it must fit.
pub fn usize_from_ruma(val: UInt) -> (r: usize)
    requires
        val.spec_value() <= usize::MAX,
    ensures
        r == val.spec_value(),
{
    let v = val.get();
    v as usize
}

/// Converts a `u64` to a JSON-safe integer; it must be at most
/// [`MAX_SAFE_INT`].
pub fn ruma_from_u64(val: u64) -> (r: UInt)
    requires
        val <= MAX_SAFE_INT,
    ensures
        r.spec_value() == val,
{
    UInt { value: val }
}

/// Converts a `usize` to a JSON-safe integer; it must be at most
/// [`MAX_SAFE_INT`].
pub fn ruma_from_usize(val: usize) -> (r: UInt)
    requires
        val <= MAX_SAFE_INT,
    ensures
        r.spec_value() == val,
{
    UInt { value: val as u64 }
}

/// Truncates a `u64` to the width of `usize`.
pub fn usize_from_u64_truncated(val: u64) -> (r: usize)
    ensures
        r == val as usize,
        val <= usize::MAX ==> r == val,
{
    val as usize
}

/// The name of an integer type, as Rust writes it.
pub trait TypeLabel {
    spec fn spec_label() -> Seq<char>;

    fn label() -> (r: &'static str)
        ensures
            r@ == Self::spec_label(),
    ;
}

impl TypeLabel for u8 {
    open spec fn spec_label() -> Seq<char> {
        "u8"@
    }

    fn label() -> (r: &'static str) {
        proof {
            reveal_strlit("u8");
        }
        "u8"
    }
}

impl TypeLabel for u16 {
    open spec fn spec_label() -> Seq<char> {
        "u16"@
    }

    fn label() -> (r: &'static str) {
        proof {
            reveal_strlit("u16");
        }
        "u16"
    }
}

impl TypeLabel for u32 {
    open spec fn spec_label() -> Seq<char> {
        "u32"@
    }

    fn label() -> (r: &'static str) {
        proof {
            reveal_strlit("u32");
        }
        "u32"
    }
}

impl TypeLabel for u64 {
    open spec fn spec_label() -> Seq<char> {
        "u64"@
    }

    fn label() -> (r: &'static str) {
        proof {
            reveal_strlit("u64");
        }
        "u64"
    }
}

impl TypeLabel for u128 {
    open spec fn spec_label() -> Seq<char> {
        "u128"@
    }

    fn label() -> (r: &'static str) {
        proof {
            reveal_strlit("u128");
        }
        "u128"
    }
}

impl TypeLabel for usize {
    open spec fn spec_label() -> Seq<char> {
        "usize"@
    }

    fn label() -> (r: &'static str) {
        proof {
            reveal_strlit("usize");
        }
        "usize"
    }
}

impl TypeLabel for i8 {
    open spec fn spec_label() -> Seq<char> {
        "i8"@
    }

    fn label() -> (r: &'static str) {
        proof {
            reveal_strlit("i8");
        }
        "i8"
    }
}

impl TypeLabel for i16 {
    open spec fn spec_label() -> Seq<char> {
        "i16"@
    }

    fn label() -> (r: &'static str) {
        proof {
            reveal_strlit("i16");
        }
        "i16"
    }
}

impl TypeLabel for i32 {
    open spec fn spec_label() -> Seq<char> {
        "i32"@
    }

    fn label() -> (r: &'static str) {
        proof {
            reveal_strlit("i32");
        }
        "i32"
    }
}

impl TypeLabel for i64 {
    open spec fn spec_label() -> Seq<char> {
        "i64"@
    }

    fn label() -> (r: &'static str) {
        proof {
            reveal_strlit("i64");
        }
        "i64"
    }
}

impl TypeLabel for i128 {
    open spec fn spec_label() -> Seq<char> {
        "i128"@
    }

    fn label() -> (r: &'static str) {
        proof {
            reveal_strlit("i128");
        }
        "i128"
    }
}

impl TypeLabel for isize {
    open spec fn spec_label() -> Seq<char> {
        "isize"@
    }

    fn label() -> (r: &'static str) {
        proof {
            reveal_strlit("isize");
        }
        "isize"
    }
}

/// The message of a failed conversion between two types, by their names.
pub open spec fn conversion_message(from: Seq<char>, to: Seq<char>) -> Seq<char> {
    "failed to convert from "@ + from + " to "@ + to
}

fn conversion_failed(from: &str, to: &str) -> (r: String)
    ensures
        r@ == conversion_message(from@, to@),
{
    proof {
        reveal_strlit("failed to convert from ");
        reveal_strlit(" to ");
    }
    let mut m = String::new();
    push_text(&mut m, "failed to convert from ");
    push_text(&mut m, from);
    push_text(&mut m, " to ");
    push_text(&mut m, to);
    m
}

/// Converts between integer types, failing with an arithmetic error that
/// names both types when the value does not fit.
pub fn try_into<Dst: TryFrom<Src> + TypeLabel, Src: TypeLabel>(src: Src) -> (r: Result<Dst, Error>)
    ensures
        Dst::obeys_try_from_spec() ==> (r is Ok <==> Dst::try_from_spec(src) is Ok),
        Dst::obeys_try_from_spec() ==> (r matches Ok(v) ==> Dst::try_from_spec(src) == Ok::<
            Dst,
            <Dst as TryFrom<Src>>::Error,
        >(v)),
        r matches Err(e) ==> (e matches Error::Arithmetic(m) && m@ == conversion_message(
            Src::spec_label(),
            Dst::spec_label(),
        )),
{
    match Dst::try_from(src) {
        Ok(v) => Ok(v),
        Err(_) => Err(Error::Arithmetic(conversion_failed(Src::label(), Dst::label()))),
    }
}

} // verus!
