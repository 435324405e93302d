//! Decimal numbers, comma-separated fields and byte comparison.

use vstd::prelude::*;

use crate::protocol::{MINUS, PARAMETER_DELIMITER, PLUS};
use crate::response::{empty_spans, held_spans, push_span, span_at, FieldSpans, FIELD_CAPACITY};

verus! {

pub open spec fn is_digit(b: u8) -> bool {
    48 <= b <= 57
}

/// The decimal digits of `n`, most significant first, without leading zeros.
pub open spec fn digits(n: nat) -> Seq<u8>
    decreases n,
{
    if n < 10 {
        seq![(48 + n) as u8]
    } else {
        digits(n / 10).push((48 + n % 10) as u8)
    }
}

/// The decimal text of `v`, with a leading `-` when it is negative.
pub open spec fn decimal(v: int) -> Seq<u8> {
    if v < 0 {
        seq![MINUS] + digits((-v) as nat)
    } else {
        digits(v as nat)
    }
}

/// The value of a run of decimal digits.
pub open spec fn digits_value(d: Seq<u8>) -> nat
    decreases d.len(),
{
    if d.len() == 0 {
        0
    } else {
        digits_value(d.drop_last()) * 10 + (d.last() - 48) as nat
    }
}

pub open spec fn all_digits(d: Seq<u8>) -> bool {
    d.len() > 0 && forall|i: int| 0 <= i < d.len() ==> is_digit(#[trigger] d[i])
}

/// The integer written by `b`: an optional sign, when `signed`, or an optional
/// `+` otherwise, then one or more decimal digits.
pub open spec fn integer_text(b: Seq<u8>, signed: bool) -> Option<int> {
    if b.len() > 0 && b[0] == MINUS && signed && all_digits(b.drop_first()) {
        Some(-digits_value(b.drop_first()))
    } else if b.len() > 0 && b[0] == PLUS && all_digits(b.drop_first()) {
        Some(digits_value(b.drop_first()) as int)
    } else if all_digits(b) {
        Some(digits_value(b) as int)
    } else {
        None
    }
}

/// The integer in `lo..=hi` that `b` writes, if any.
pub open spec fn bounded_text(b: Seq<u8>, signed: bool, lo: int, hi: int) -> Option<int> {
    match integer_text(b, signed) {
        Some(v) => if lo <= v <= hi {
            Some(v)
        } else {
            None
        },
        None => None,
    }
}

/// Reads the decimal digits `b[start..]` as a number, when there is at least one
/// digit, all are digits and the value is at most `limit`.
fn read_digits(b: &[u8], start: usize, limit: u32) -> (r: Option<u32>)
    requires
        start <= b@.len(),
        limit <= 1000,
    ensures
        match r {
            Some(v) => all_digits(b@.subrange(start as int, b@.len() as int)) && v == digits_value(
                b@.subrange(start as int, b@.len() as int),
            ) && v <= limit,
            None => !all_digits(b@.subrange(start as int, b@.len() as int)) || digits_value(
                b@.subrange(start as int, b@.len() as int),
            ) > limit,
        },
{
    let ghost d = b@.subrange(start as int, b@.len() as int);
    if start == b.len() {
        return None;
    }
    let mut value: u32 = 0;
    let mut too_big = false;
    let mut i = start;
    while i < b.len()
        invariant
            start <= i <= b@.len(),
            d == b@.subrange(start as int, b@.len() as int),
            limit <= 1000,
            forall|j: int| start <= j < i ==> is_digit(#[trigger] b@[j]),
            !too_big ==> value == digits_value(b@.subrange(start as int, i as int)) && value <= limit,
            too_big ==> digits_value(b@.subrange(start as int, i as int)) > limit,
        decreases b@.len() - i,
    {
        let c = b[i];
        if c < 48 || c > 57 {
            assert(!is_digit(d[i - start]));
            return None;
        }
        let ghost before = b@.subrange(start as int, i as int);
        assert(b@.subrange(start as int, i + 1) =~= before.push(c));
        assert(b@.subrange(start as int, i + 1).drop_last() =~= before);
        if !too_big {
            let next = value * 10 + (c - 48) as u32;
            if next > limit {
                too_big = true;
            } else {
                value = next;
            }
        }
        i = i + 1;
    }
    assert(b@.subrange(start as int, i as int) =~= d);
    assert(all_digits(d)) by {
        assert forall|j: int| 0 <= j < d.len() implies is_digit(#[trigger] d[j]) by {
            assert(d[j] == b@[start + j]);
        }
    }
    if too_big {
        None
    } else {
        Some(value)
    }
}

/// Reads an integer in `lo..=hi` written as `integer_text` describes.
pub fn parse_bounded(b: &[u8], signed: bool, lo: i16, hi: i16) -> (r: Option<i16>)
    requires
        -1000 <= lo <= hi <= 1000,
    ensures
        match r {
            Some(v) => bounded_text(b@, signed, lo as int, hi as int) == Some(v as int),
            None => bounded_text(b@, signed, lo as int, hi as int) is None,
        },
{
    let negative = b.len() > 0 && b[0] == MINUS && signed;
    let has_sign = b.len() > 0 && (b[0] == PLUS || negative);
    let start: usize = if has_sign { 1 } else { 0 };
    let bound: i16 = if negative { 0 - lo } else { hi };
    let limit: u32 = if bound < 0 { 0 } else { bound as u32 };
    if b.len() > 0 {
        assert(b@.subrange(1, b@.len() as int) =~= b@.drop_first());
        assert(b@.subrange(0, b@.len() as int) =~= b@);
    }
    if has_sign && b.len() > 0 {
        assert(!all_digits(b@)) by {
            assert(!is_digit(b@[0]));
        }
    }
    if !has_sign && b.len() > 0 {
        assert(b@[0] != MINUS || !signed);
        assert(b@[0] != PLUS);
    }
    match read_digits(b, start, limit) {
        None => None,
        Some(m) => {
            let v: i16 = if negative { 0 - (m as i16) } else { m as i16 };
            if lo <= v && v <= hi {
                Some(v)
            } else {
                None
            }
        },
    }
}

/// The fields of `b` between the commas; no comma gives one field.
pub open spec fn split_commas(b: Seq<u8>) -> Seq<Seq<u8>>
    decreases b.len(),
{
    if b.len() == 0 {
        seq![Seq::empty()]
    } else {
        let prev = split_commas(b.drop_last());
        if b.last() == PARAMETER_DELIMITER {
            prev.push(Seq::empty())
        } else {
            prev.update(prev.len() - 1, prev.last().push(b.last()))
        }
    }
}

proof fn lemma_split_nonempty(b: Seq<u8>)
    ensures
        split_commas(b).len() >= 1,
    decreases b.len(),
{
    if b.len() > 0 {
        lemma_split_nonempty(b.drop_last());
    }
}

/// Where each comma-separated field of `b` starts and ends; `None` when there
/// are more fields than the list holds.
pub fn field_spans(b: &[u8]) -> (r: Option<FieldSpans>)
    ensures
        r is None <==> split_commas(b@).len() > FIELD_CAPACITY,
        r matches Some(v) ==> held_spans(v).len() == split_commas(b@).len() && forall|k: int|
            0 <= k < held_spans(v).len() ==> (#[trigger] held_spans(v)[k]).0 <= held_spans(v)[k].1
                <= b@.len() && b@.subrange(held_spans(v)[k].0 as int, held_spans(v)[k].1 as int)
                == split_commas(b@)[k],
{
    let mut spans = empty_spans();
    let mut start: usize = 0;
    let mut i: usize = 0;
    proof {
        assert(b@.subrange(0, 0) =~= Seq::<u8>::empty());
    }
    while i < b.len()
        invariant
            start <= i <= b@.len(),
            held_spans(spans).len() <= FIELD_CAPACITY,
            split_commas(b@.subrange(0, i as int)).len() == held_spans(spans).len() + 1,
            forall|k: int|
                0 <= k < held_spans(spans).len() ==> (#[trigger] held_spans(spans)[k]).0 <= held_spans(spans)[k].1 <= i
                    && b@.subrange(held_spans(spans)[k].0 as int, held_spans(spans)[k].1 as int)
                    == split_commas(b@.subrange(0, i as int))[k],
            split_commas(b@.subrange(0, i as int)).last() == b@.subrange(start as int, i as int),
        decreases b@.len() - i,
    {
        let ghost pre = b@.subrange(0, i as int);
        let ghost now = b@.subrange(0, i + 1);
        proof {
            assert(now.drop_last() =~= pre);
            assert(now.last() == b@[i as int]);
            lemma_split_nonempty(pre);
        }
        if b[i] == PARAMETER_DELIMITER {
            if !push_span(&mut spans, (start, i)) {
                proof {
                    lemma_split_grows(b@, i as int + 1);
                }
                return None;
            }
            start = i + 1;
            proof {
                assert(b@.subrange(start as int, i + 1) =~= Seq::<u8>::empty());
            }
        } else {
            proof {
                assert(b@.subrange(start as int, i + 1) =~= b@.subrange(start as int, i as int).push(b@[i as int]));
            }
        }
        i = i + 1;
    }
    proof {
        assert(b@.subrange(0, i as int) =~= b@);
    }
    if !push_span(&mut spans, (start, i)) {
        return None;
    }
    Some(spans)
}

/// A longer text has at least as many fields.
proof fn lemma_split_grows(b: Seq<u8>, k: int)
    requires
        0 <= k <= b.len(),
    ensures
        split_commas(b.subrange(0, k)).len() <= split_commas(b).len(),
    decreases b.len() - k,
{
    if k == b.len() {
        assert(b.subrange(0, k) =~= b);
    } else {
        assert(b.drop_last().subrange(0, k) =~= b.subrange(0, k));
        lemma_split_grows(b.drop_last(), k);
        lemma_split_nonempty(b.drop_last());
    }
}

/// The `k`-th field of `b`, for a list of its fields' spans.
pub fn field<'a>(b: &'a [u8], spans: &FieldSpans, k: usize) -> (r: &'a [u8])
    requires
        k < held_spans(*spans).len(),
        forall|j: int|
            0 <= j < held_spans(*spans).len() ==> (#[trigger] held_spans(*spans)[j]).0 <= held_spans(*spans)[j].1
                <= b@.len(),
    ensures
        r@ == b@.subrange(held_spans(*spans)[k as int].0 as int, held_spans(*spans)[k as int].1 as int),
{
    let (s, e) = span_at(spans, k);
    vstd::slice::slice_subrange(b, s, e)
}

/// `new` is `old` with `front` written over its first bytes.
pub open spec fn written_front(old: Seq<u8>, new: Seq<u8>, front: Seq<u8>) -> bool {
    &&& new.len() == old.len()
    &&& front.len() <= new.len()
    &&& new.subrange(0, front.len() as int) == front
    &&& new.subrange(front.len() as int, new.len() as int) == old.subrange(front.len() as int, old.len() as int)
}

/// Writes `src` to the front of `buf` and returns that part of it.
pub fn copy_into<'a>(src: &[u8], buf: &'a mut [u8]) -> (r: &'a [u8])
    requires
        src@.len() <= old(buf)@.len(),
    ensures
        r@ == src@,
        written_front(old(buf)@, final(buf)@, r@),
{
    let mut i: usize = 0;
    while i < src.len()
        invariant
            i <= src@.len(),
            src@.len() <= buf@.len(),
            buf@.len() == old(buf)@.len(),
            forall|j: int| 0 <= j < i ==> buf@[j] == src@[j],
            forall|j: int| i <= j < buf@.len() ==> buf@[j] == old(buf)@[j],
        decreases src@.len() - i,
    {
        buf[i] = src[i];
        i = i + 1;
    }
    assert(buf@.subrange(0, i as int) =~= src@);
    assert(buf@.subrange(i as int, buf@.len() as int) =~= old(buf)@.subrange(i as int, buf@.len() as int));
    let out: &'a [u8] = buf;
    let r = vstd::slice::slice_subrange(out, 0, i);
    assert(r@ =~= src@);
    r
}

/// Writes the decimal text of `value` to the front of `buf` and returns it.
pub fn encode_decimal<'a>(value: i8, buf: &'a mut [u8]) -> (r: &'a [u8])
    requires
        decimal(value as int).len() <= old(buf)@.len(),
    ensures
        r@ == decimal(value as int),
        written_front(old(buf)@, final(buf)@, r@),
{
    let mag: u8 = if value < 0 { (0 - (value as i16)) as u8 } else { value as u8 };
    let ghost m = mag as nat;
    proof {
        assert(m < 10 ==> digits(m) == seq![(48 + m) as u8]);
        assert(10 <= m < 100 ==> digits(m) == seq![(48 + m / 10) as u8, (48 + m % 10) as u8]) by {
            if 10 <= m < 100 {
                assert(digits(m / 10) == seq![(48 + m / 10) as u8]);
                assert(digits(m) =~= seq![(48 + m / 10) as u8, (48 + m % 10) as u8]);
            }
        }
        assert(100 <= m ==> digits(m) == seq![(48 + m / 100) as u8, (48 + (m / 10) % 10) as u8, (48 + m % 10) as u8]) by {
            if 100 <= m {
                assert(m / 10 / 10 == m / 100);
                assert(digits(m / 100) == seq![(48 + m / 100) as u8]);
                assert(digits(m / 10) =~= seq![(48 + m / 100) as u8, (48 + (m / 10) % 10) as u8]);
                assert(digits(m) =~= seq![(48 + m / 100) as u8, (48 + (m / 10) % 10) as u8, (48 + m % 10) as u8]);
            }
        }
    }
    let ghost text = decimal(value as int);
    let mut i: usize = 0;
    if value < 0 {
        buf[0] = MINUS;
        i = 1;
    }
    if mag >= 100 {
        buf[i] = 48 + mag / 100;
        i = i + 1;
    }
    if mag >= 10 {
        buf[i] = 48 + (mag / 10) % 10;
        i = i + 1;
    }
    buf[i] = 48 + mag % 10;
    i = i + 1;
    assert(buf@.subrange(0, i as int) =~= text);
    assert(buf@.subrange(i as int, buf@.len() as int) =~= old(buf)@.subrange(i as int, buf@.len() as int));
    let out: &'a [u8] = buf;
    let r = vstd::slice::slice_subrange(out, 0, i);
    assert(r@ =~= text);
    r
}

/// Whether `a` and `b` hold the same bytes.
pub fn same_bytes(a: &[u8], b: &[u8]) -> (r: bool)
    ensures
        r == (a@ == b@),
{
    if a.len() != b.len() {
        return false;
    }
    let mut i: usize = 0;
    while i < a.len()
        invariant
            i <= a@.len(),
            a@.len() == b@.len(),
            forall|j: int| 0 <= j < i ==> a@[j] == b@[j],
        decreases a@.len() - i,
    {
        if a[i] != b[i] {
            return false;
        }
        i = i + 1;
    }
    assert(a@ =~= b@);
    true
}

/// The decimal text of an `i8` takes at most four bytes.
pub proof fn decimal_fits(v: i8)
    ensures
        decimal(v as int).len() <= 4,
{
    let m: nat = if v < 0 { (-v) as nat } else { v as nat };
    if m >= 10 {
        assert(digits(m / 10 / 10).len() == 1);
        if m >= 100 {
            assert(digits(m / 10).len() == 2);
        } else {
            assert(digits(m / 10).len() == 1);
        }
    }
}

} // verus!
