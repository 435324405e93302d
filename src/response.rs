//! arrayvec's fixed-capacity containers: the buffer that holds a reply's
//! parameter list, and the list of a status reply's fields.

use vstd::prelude::*;
use vstd::string::StringSliceAdditionalSpecFns;

verus! {

/// Capacity in bytes of the buffer that collects a reply's parameter list.
pub const RESPONSE_CAPACITY: usize = 1024;

/// The fixed-capacity string that holds a reply's parameter list.
pub type Response = arrayvec::ArrayString<RESPONSE_CAPACITY>;

/// arrayvec::ArrayString, a string in an inline buffer of `CAP` bytes; opaque here.
#[verifier::external_type_specification]
#[verifier::external_body]
pub struct ExArrayString<const CAP: usize>(arrayvec::ArrayString<CAP>);

/// The bytes held by a response buffer, in order.
pub uninterp spec fn held_bytes(s: arrayvec::ArrayString<1024>) -> Seq<u8>;

/// Relies on arrayvec::ArrayString::new: the new string is empty.
#[verifier::external_body]
pub(crate) fn empty_response() -> (r: Response)
    ensures
        held_bytes(r) == Seq::<u8>::empty(),
{
    arrayvec::ArrayString::new()
}

/// Relies on arrayvec::ArrayString::try_push: an ASCII character takes one byte,
/// and is appended exactly when that byte still fits in the capacity; otherwise
/// the string is left as it was.
#[verifier::external_body]
pub(crate) fn push_ascii(s: &mut Response, b: u8) -> (pushed: bool)
    requires
        b < 128,
    ensures
        pushed == (held_bytes(*old(s)).len() < RESPONSE_CAPACITY),
        pushed ==> held_bytes(*final(s)) == held_bytes(*old(s)).push(b),
        !pushed ==> held_bytes(*final(s)) == held_bytes(*old(s)),
{
    s.try_push(b as char).is_ok()
}

/// Relies on arrayvec::ArrayString::as_str: the string slice over the held bytes.
#[verifier::external_body]
pub(crate) fn response_text(s: &Response) -> (r: &str)
    ensures
        r.spec_bytes() == held_bytes(*s),
{
    s.as_str()
}

/// How many fields of a status reply are kept apart at most.
pub const FIELD_CAPACITY: usize = 20;

/// Where the fields of a reply start and end.
pub type FieldSpans = arrayvec::ArrayVec<(usize, usize), FIELD_CAPACITY>;

/// arrayvec::ArrayVec, a vector in an inline buffer of `CAP` items; opaque here.
#[verifier::external_type_specification]
#[verifier::external_body]
#[verifier::reject_recursive_types(T)]
pub struct ExArrayVec<T, const CAP: usize>(arrayvec::ArrayVec<T, CAP>);

/// The spans held by a list of field spans, in order.
pub uninterp spec fn held_spans(v: arrayvec::ArrayVec<(usize, usize), 20>) -> Seq<(usize, usize)>;

/// Relies on arrayvec::ArrayVec::new: the new vector is empty.
#[verifier::external_body]
pub(crate) fn empty_spans() -> (r: FieldSpans)
    ensures
        held_spans(r) == Seq::<(usize, usize)>::empty(),
{
    arrayvec::ArrayVec::new()
}

/// Relies on arrayvec::ArrayVec::try_push: the item is appended exactly when
/// the vector is not full; otherwise the vector is left as it was.
#[verifier::external_body]
pub(crate) fn push_span(v: &mut FieldSpans, span: (usize, usize)) -> (pushed: bool)
    ensures
        pushed == (held_spans(*old(v)).len() < FIELD_CAPACITY),
        pushed ==> held_spans(*final(v)) == held_spans(*old(v)).push(span),
        !pushed ==> held_spans(*final(v)) == held_spans(*old(v)),
{
    v.try_push(span).is_ok()
}

/// Relies on arrayvec::ArrayVec::len: the number of items held.
#[verifier::external_body]
pub(crate) fn span_count(v: &FieldSpans) -> (n: usize)
    ensures
        n == held_spans(*v).len(),
{
    v.len()
}

/// Relies on indexing an arrayvec::ArrayVec, through its slice: the `k`-th item.
#[verifier::external_body]
pub(crate) fn span_at(v: &FieldSpans, k: usize) -> (s: (usize, usize))
    requires
        k < held_spans(*v).len(),
    ensures
        s == held_spans(*v)[k as int],
{
    v[k]
}

} // verus!
