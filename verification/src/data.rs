use vstd::prelude::*;
use vstd::string::*;
use vstd::utf8::encode_utf8;

verus! {

/// One element of a request: a number or a text.
pub enum Element {
    Num(i32),
    Text(String),
}

/// A list of mixed numbers and texts.
pub struct DataRequest {
    pub data: Vec<Element>,
}

/// The total byte length of the texts and the sum of the numbers.
pub struct DataResponse {
    pub string_len: usize,
    pub int_sum: i32,
}

/// The sum of the numbers among the elements.
pub open spec fn int_sum(data: Seq<Element>) -> int
    decreases data.len(),
{
    if data.len() == 0 {
        0
    } else {
        int_sum(data.drop_last()) + match data.last() {
            Element::Num(n) => n as int,
            Element::Text(_) => 0,
        }
    }
}

/// The byte length of a string's UTF-8 form.
pub open spec fn utf8_len(s: String) -> int {
    encode_utf8(s@).len() as int
}

/// The total byte length of the texts among the elements.
pub open spec fn byte_len(data: Seq<Element>) -> int
    decreases data.len(),
{
    if data.len() == 0 {
        0
    } else {
        byte_len(data.drop_last()) + match data.last() {
            Element::Num(_) => 0,
            Element::Text(t) => utf8_len(t),
        }
    }
}

proof fn lemma_byte_len_mono(data: Seq<Element>, k: int)
    requires
        0 <= k <= data.len(),
    ensures
        0 <= byte_len(data.take(k)) <= byte_len(data),
    decreases data.len() - k,
{
    if k < data.len() {
        lemma_byte_len_mono(data, k + 1);
        assert(data.take(k + 1).drop_last() =~= data.take(k));
    } else {
        assert(data.take(k) =~= data);
    }
    lemma_byte_len_nonneg(data.take(k));
}

proof fn lemma_byte_len_nonneg(data: Seq<Element>)
    ensures
        byte_len(data) >= 0,
    decreases data.len(),
{
    if data.len() > 0 {
        lemma_byte_len_nonneg(data.drop_last());
    }
}

/// Sums the numbers and the text lengths of a request. Every partial sum of
/// the numbers must fit in an `i32`, as the running total overflows
/// otherwise.
pub fn process_data(request: &DataRequest) -> (r: DataResponse)
    requires
        forall|k: int| 0 <= k <= request.data@.len() ==> i32::MIN <= #[trigger] int_sum(request.data@.take(k)) <= i32::MAX,
        byte_len(request.data@) <= usize::MAX,
    ensures
        r.int_sum == int_sum(request.data@),
        r.string_len == byte_len(request.data@),
{
    let mut string_len: usize = 0;
    let mut int_sum_acc: i32 = 0;
    let mut i: usize = 0;
    while i < request.data.len()
        invariant
            i <= request.data@.len(),
            forall|k: int| 0 <= k <= request.data@.len() ==> i32::MIN <= #[trigger] int_sum(request.data@.take(k)) <= i32::MAX,
            byte_len(request.data@) <= usize::MAX,
            int_sum_acc == int_sum(request.data@.take(i as int)),
            string_len == byte_len(request.data@.take(i as int)),
        decreases request.data.len() - i,
    {
        proof {
            let t = request.data@.take(i + 1);
            assert(t.drop_last() =~= request.data@.take(i as int));
            assert(t.last() == request.data@[i as int]);
            assert(i32::MIN <= int_sum(request.data@.take(i + 1)) <= i32::MAX);
            lemma_byte_len_mono(request.data@, i + 1);
        }
        match &request.data[i] {
            Element::Num(num) => {
                int_sum_acc = int_sum_acc + *num;
            },
            Element::Text(text) => {
                string_len = string_len + text.as_str().len();
            },
        }
        i = i + 1;
    }
    proof {
        assert(request.data@.take(request.data@.len() as int) =~= request.data@);
    }
    DataResponse { string_len, int_sum: int_sum_acc }
}

} // verus!
