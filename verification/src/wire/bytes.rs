//! Little-endian integers and how they lie in a buffer.

use crate::scalar::Scalar;
use vstd::prelude::*;

verus! {

/// A value read at some position, with the position behind it; nothing where
/// the buffer ends before the value does.
pub type Parsed<T> = Option<(T, int)>;

/// The bytes `w` lie in `b` at `p`.
pub open spec fn holds(b: Seq<u8>, p: int, w: Seq<u8>) -> bool {
    0 <= p && p + w.len() <= b.len() && b.subrange(p, p + w.len()) == w
}

pub open spec fn put_u8(v: u8) -> Seq<u8> {
    seq![v]
}

pub open spec fn put_u16(v: u16) -> Seq<u8> {
    seq![(v % 256) as u8, (v / 256) as u8]
}

pub open spec fn put_u32(v: u32) -> Seq<u8> {
    seq![
        (v % 256) as u8,
        (v / 256 % 256) as u8,
        (v / 0x1_0000 % 256) as u8,
        (v / 0x100_0000) as u8,
    ]
}

pub open spec fn put_u64(v: u64) -> Seq<u8> {
    put_u32((v % 0x1_0000_0000) as u32) + put_u32((v / 0x1_0000_0000) as u32)
}

pub open spec fn put_bool(v: bool) -> Seq<u8> {
    seq![
        if v {
            1u8
        } else {
            0u8
        },
    ]
}

pub open spec fn get_u8(b: Seq<u8>, p: int) -> Parsed<u8> {
    if p + 1 > b.len() {
        None
    } else {
        Some((b[p], p + 1))
    }
}

pub open spec fn get_u16(b: Seq<u8>, p: int) -> Parsed<u16> {
    if p + 2 > b.len() {
        None
    } else {
        Some(((b[p] + 256 * b[p + 1]) as u16, p + 2))
    }
}

pub open spec fn get_u32(b: Seq<u8>, p: int) -> Parsed<u32> {
    if p + 4 > b.len() {
        None
    } else {
        Some(
            (
                (b[p] + 256 * b[p + 1] + 0x1_0000 * b[p + 2] + 0x100_0000 * b[p + 3]) as u32,
                p + 4,
            ),
        )
    }
}

pub open spec fn get_u64(b: Seq<u8>, p: int) -> Parsed<u64> {
    match get_u32(b, p) {
        None => None,
        Some((lo, p1)) => match get_u32(b, p1) {
            None => None,
            Some((hi, p2)) => Some(((lo + 0x1_0000_0000 * hi) as u64, p2)),
        },
    }
}

pub open spec fn get_scalar(b: Seq<u8>, p: int) -> Parsed<Scalar> {
    match get_u32(b, p) {
        None => None,
        Some((v, p1)) => Some((Scalar(v), p1)),
    }
}

/// Any byte but 0 reads as true.
pub open spec fn get_bool(b: Seq<u8>, p: int) -> Parsed<bool> {
    match get_u8(b, p) {
        None => None,
        Some((v, p1)) => Some((v != 0, p1)),
    }
}

pub proof fn lemma_holds_split(b: Seq<u8>, p: int, x: Seq<u8>, y: Seq<u8>)
    requires
        holds(b, p, x + y),
    ensures
        holds(b, p, x),
        holds(b, p + x.len(), y),
{
    let w = x + y;
    assert(b.subrange(p, p + x.len()) =~= x) by {
        assert forall|i: int| 0 <= i < x.len() implies b[p + i] == x[i] by {
            assert(b.subrange(p, p + w.len())[i] == w[i]);
        }
    }
    assert(b.subrange(p + x.len(), p + x.len() + y.len()) =~= y) by {
        assert forall|i: int| 0 <= i < y.len() implies b[p + x.len() + i] == y[i] by {
            assert(b.subrange(p, p + w.len())[x.len() + i] == w[x.len() + i]);
        }
    }
}

pub proof fn lemma_holds_at(b: Seq<u8>, p: int, w: Seq<u8>, i: int)
    requires
        holds(b, p, w),
        0 <= i < w.len(),
    ensures
        b[p + i] == w[i],
{
    assert(b.subrange(p, p + w.len())[i] == w[i]);
}

pub proof fn lemma_u8(b: Seq<u8>, p: int, v: u8)
    requires
        holds(b, p, put_u8(v)),
    ensures
        get_u8(b, p) == Some((v, p + 1)),
{
    lemma_holds_at(b, p, put_u8(v), 0);
}

pub proof fn lemma_bool(b: Seq<u8>, p: int, v: bool)
    requires
        holds(b, p, put_bool(v)),
    ensures
        get_bool(b, p) == Some((v, p + 1)),
{
    lemma_holds_at(b, p, put_bool(v), 0);
}

pub proof fn lemma_u16(b: Seq<u8>, p: int, v: u16)
    requires
        holds(b, p, put_u16(v)),
    ensures
        get_u16(b, p) == Some((v, p + 2)),
{
    let w = put_u16(v);
    lemma_holds_at(b, p, w, 0);
    lemma_holds_at(b, p, w, 1);
}

pub proof fn lemma_u32(b: Seq<u8>, p: int, v: u32)
    requires
        holds(b, p, put_u32(v)),
    ensures
        get_u32(b, p) == Some((v, p + 4)),
{
    let w = put_u32(v);
    lemma_holds_at(b, p, w, 0);
    lemma_holds_at(b, p, w, 1);
    lemma_holds_at(b, p, w, 2);
    lemma_holds_at(b, p, w, 3);
}

pub proof fn lemma_scalar(b: Seq<u8>, p: int, v: Scalar)
    requires
        holds(b, p, put_u32(v.0)),
    ensures
        get_scalar(b, p) == Some((v, p + 4)),
{
    lemma_u32(b, p, v.0);
}

pub proof fn lemma_u64(b: Seq<u8>, p: int, v: u64)
    requires
        holds(b, p, put_u64(v)),
    ensures
        get_u64(b, p) == Some((v, p + 8)),
{
    let lo = (v % 0x1_0000_0000) as u32;
    let hi = (v / 0x1_0000_0000) as u32;
    lemma_holds_split(b, p, put_u32(lo), put_u32(hi));
    lemma_u32(b, p, lo);
    lemma_u32(b, p + 4, hi);
}

/// A half word in front of something else.
pub proof fn lemma_u16_first(b: Seq<u8>, p: int, v: u16, rest: Seq<u8>)
    requires
        holds(b, p, put_u16(v) + rest),
    ensures
        get_u16(b, p) == Some((v, p + 2)),
        holds(b, p + 2, rest),
        (put_u16(v) + rest).len() == 2 + rest.len(),
{
    lemma_holds_split(b, p, put_u16(v), rest);
    lemma_u16(b, p, v);
}

/// A word in front of something else.
pub proof fn lemma_u32_first(b: Seq<u8>, p: int, v: u32, rest: Seq<u8>)
    requires
        holds(b, p, put_u32(v) + rest),
    ensures
        get_u32(b, p) == Some((v, p + 4)),
        holds(b, p + 4, rest),
        (put_u32(v) + rest).len() == 4 + rest.len(),
{
    lemma_holds_split(b, p, put_u32(v), rest);
    lemma_u32(b, p, v);
}

/// A double word in front of something else.
pub proof fn lemma_u64_first(b: Seq<u8>, p: int, v: u64, rest: Seq<u8>)
    requires
        holds(b, p, put_u64(v) + rest),
    ensures
        get_u64(b, p) == Some((v, p + 8)),
        holds(b, p + 8, rest),
        (put_u64(v) + rest).len() == 8 + rest.len(),
{
    lemma_holds_split(b, p, put_u64(v), rest);
    lemma_u64(b, p, v);
}

pub(crate) fn push_u8(out: &mut Vec<u8>, v: u8)
    ensures
        final(out)@ == old(out)@ + put_u8(v),
{
    let ghost start = out@;
    out.push(v);
    proof {
        assert(out@ =~= start + put_u8(v));
    }
}

pub(crate) fn push_bool(out: &mut Vec<u8>, v: bool)
    ensures
        final(out)@ == old(out)@ + put_bool(v),
{
    let ghost start = out@;
    out.push(if v {
        1u8
    } else {
        0u8
    });
    proof {
        assert(out@ =~= start + put_bool(v));
    }
}

pub(crate) fn push_u16(out: &mut Vec<u8>, v: u16)
    ensures
        final(out)@ == old(out)@ + put_u16(v),
{
    let ghost start = out@;
    out.push((v % 256) as u8);
    out.push((v / 256) as u8);
    proof {
        assert(out@ =~= start + put_u16(v));
    }
}

pub(crate) fn push_u32(out: &mut Vec<u8>, v: u32)
    ensures
        final(out)@ == old(out)@ + put_u32(v),
{
    let ghost start = out@;
    out.push((v % 256) as u8);
    out.push((v / 256 % 256) as u8);
    out.push((v / 0x1_0000 % 256) as u8);
    out.push((v / 0x100_0000) as u8);
    proof {
        assert(out@ =~= start + put_u32(v));
    }
}

pub(crate) fn push_u64(out: &mut Vec<u8>, v: u64)
    ensures
        final(out)@ == old(out)@ + put_u64(v),
{
    let ghost start = out@;
    push_u32(out, (v % 0x1_0000_0000) as u32);
    push_u32(out, (v / 0x1_0000_0000) as u32);
    proof {
        assert(out@ =~= start + put_u64(v));
    }
}

/// Appends a slice of bytes.
pub(crate) fn push_bytes(out: &mut Vec<u8>, bytes: &[u8])
    ensures
        final(out)@ == old(out)@ + bytes@,
{
    let ghost start = out@;
    let mut i: usize = 0;
    while i < bytes.len()
        invariant
            i <= bytes@.len(),
            out@ == start + bytes@.subrange(0, i as int),
        decreases bytes@.len() - i,
    {
        out.push(bytes[i]);
        proof {
            assert(bytes@.subrange(0, i + 1) =~= bytes@.subrange(0, i as int).push(
                bytes@[i as int],
            ));
            assert(out@ =~= start + bytes@.subrange(0, i + 1));
        }
        i = i + 1;
    }
    proof {
        assert(bytes@.subrange(0, bytes@.len() as int) =~= bytes@);
    }
}

/// A buffer and the position of the next unread byte.
pub struct Reader<'a> {
    pub buf: &'a [u8],
    pub pos: usize,
}

/// How a reading function moves the reader: past the value on success, and
/// nowhere outside the buffer in any case.
pub open spec fn advanced<'a, T>(
    before: Reader<'a>,
    after: Reader<'a>,
    got: Option<T>,
    spec: Parsed<T>,
) -> bool {
    &&& after.buf == before.buf
    &&& after.pos <= after.buf@.len()
    &&& match spec {
        Some((v, p)) => got == Some(v) && after.pos == p,
        None => got is None,
    }
}

impl<'a> Reader<'a> {
    pub open spec fn wf(self) -> bool {
        self.pos <= self.buf@.len()
    }

    pub(crate) fn u8(&mut self) -> (r: Option<u8>)
        requires
            old(self).wf(),
        ensures
            advanced(*old(self), *final(self), r, get_u8(old(self).buf@, old(self).pos as int)),
    {
        if self.buf.len() - self.pos < 1 {
            return None;
        }
        let v: u8 = self.buf[self.pos];
        self.pos = self.pos + 1;
        Some(v)
    }

    pub(crate) fn boolean(&mut self) -> (r: Option<bool>)
        requires
            old(self).wf(),
        ensures
            advanced(*old(self), *final(self), r, get_bool(old(self).buf@, old(self).pos as int)),
    {
        match self.u8() {
            Some(v) => Some(v != 0),
            None => None,
        }
    }

    pub(crate) fn u16(&mut self) -> (r: Option<u16>)
        requires
            old(self).wf(),
        ensures
            advanced(*old(self), *final(self), r, get_u16(old(self).buf@, old(self).pos as int)),
    {
        if self.buf.len() - self.pos < 2 {
            return None;
        }
        let v: u16 = self.buf[self.pos] as u16 + 256 * self.buf[self.pos + 1] as u16;
        self.pos = self.pos + 2;
        Some(v)
    }

    pub(crate) fn u32(&mut self) -> (r: Option<u32>)
        requires
            old(self).wf(),
        ensures
            advanced(*old(self), *final(self), r, get_u32(old(self).buf@, old(self).pos as int)),
    {
        if self.buf.len() - self.pos < 4 {
            return None;
        }
        let v: u32 = self.buf[self.pos] as u32 + 256 * self.buf[self.pos + 1] as u32 + 0x1_0000
            * self.buf[self.pos + 2] as u32 + 0x100_0000 * self.buf[self.pos + 3] as u32;
        self.pos = self.pos + 4;
        Some(v)
    }

    pub(crate) fn scalar(&mut self) -> (r: Option<Scalar>)
        requires
            old(self).wf(),
        ensures
            advanced(
                *old(self),
                *final(self),
                r,
                get_scalar(old(self).buf@, old(self).pos as int),
            ),
    {
        match self.u32() {
            Some(v) => Some(Scalar(v)),
            None => None,
        }
    }

    pub(crate) fn u64(&mut self) -> (r: Option<u64>)
        requires
            old(self).wf(),
        ensures
            advanced(*old(self), *final(self), r, get_u64(old(self).buf@, old(self).pos as int)),
    {
        match self.u32() {
            None => None,
            Some(lo) => match self.u32() {
                None => None,
                Some(hi) => Some(lo as u64 + 0x1_0000_0000 * hi as u64),
            },
        }
    }
}

/// Words lie with their low byte first: byte `i` of a word, times 256 to the
/// `i`, summed, is the word.
pub proof fn law_low_byte_first(h: u16, v: u32, d: u64, on: bool)
    ensures
        put_u8(h as u8).len() == 1 && put_u8(h as u8)[0] == h as u8,
        put_u16(h).len() == 2 && h == put_u16(h)[0] + 0x100 * put_u16(h)[1],
        put_u32(v).len() == 4 && v == put_u32(v)[0] + 0x100 * put_u32(v)[1] + 0x1_0000 * put_u32(
            v,
        )[2] + 0x100_0000 * put_u32(v)[3],
        put_u64(d).len() == 8,
        put_u64(d).take(4) == put_u32((d % 0x1_0000_0000) as u32),
        put_u64(d).skip(4) == put_u32((d / 0x1_0000_0000) as u32),
        put_bool(on) == seq![if on {
            1u8
        } else {
            0u8
        }],
{
    let lo = put_u32((d % 0x1_0000_0000) as u32);
    let hi = put_u32((d / 0x1_0000_0000) as u32);
    assert(put_u64(d).take(4) =~= lo);
    assert(put_u64(d).skip(4) =~= hi);
}

/// Reading goes past what was read, reads what was written, and fails exactly
/// where the buffer ends too soon.
pub proof fn law_reads_stay_inside(b: Seq<u8>, p: int)
    requires
        0 <= p,
    ensures
        get_u8(b, p) is None <==> p + 1 > b.len(),
        get_bool(b, p) is None <==> p + 1 > b.len(),
        get_u16(b, p) is None <==> p + 2 > b.len(),
        get_u32(b, p) is None <==> p + 4 > b.len(),
        get_scalar(b, p) is None <==> p + 4 > b.len(),
        get_u64(b, p) is None <==> p + 8 > b.len(),
        p + 1 <= b.len() ==> get_u8(b, p) == Some((b[p], p + 1)) && get_bool(b, p) == Some(
            (b[p] != 0, p + 1),
        ),
        get_u16(b, p) matches Some((v, q)) ==> q == p + 2 && b.subrange(p, q) == put_u16(v),
        get_u32(b, p) matches Some((v, q)) ==> q == p + 4 && b.subrange(p, q) == put_u32(v),
        get_scalar(b, p) matches Some((v, q)) ==> q == p + 4 && b.subrange(p, q) == put_u32(v.0),
        get_u64(b, p) matches Some((v, q)) ==> q == p + 8 && b.subrange(p, q) == put_u64(v),
{
    if p + 2 <= b.len() {
        lemma_read_u16(b, p);
    }
    if p + 4 <= b.len() {
        lemma_read_u32(b, p);
    }
    if p + 8 <= b.len() {
        lemma_read_u64(b, p);
    }
}

proof fn lemma_read_u16(b: Seq<u8>, p: int)
    requires
        0 <= p && p + 2 <= b.len(),
    ensures
        b.subrange(p, p + 2) == put_u16(get_u16(b, p).unwrap().0),
{
    let v = get_u16(b, p).unwrap().0;
    assert(v == b[p] + 256 * b[p + 1]);
    assert(b.subrange(p, p + 2) =~= put_u16(v));
}

proof fn lemma_read_u32(b: Seq<u8>, p: int)
    requires
        0 <= p && p + 4 <= b.len(),
    ensures
        b.subrange(p, p + 4) == put_u32(get_u32(b, p).unwrap().0),
{
    let v = get_u32(b, p).unwrap().0;
    lemma_digits(b[p], b[p + 1], b[p + 2], b[p + 3], v);
    assert(b.subrange(p, p + 4) =~= put_u32(v));
}

proof fn lemma_digits(a: u8, b: u8, c: u8, d: u8, v: u32)
    requires
        v == a + 256 * b + 0x1_0000 * c + 0x100_0000 * d,
    ensures
        v % 256 == a,
        v / 256 % 256 == b,
        v / 0x1_0000 % 256 == c,
        v / 0x100_0000 == d,
{
    assert(v / 256 == b + 256 * c + 0x1_0000 * d);
    assert(v / 0x1_0000 == c + 256 * d);
}

proof fn lemma_read_u64(b: Seq<u8>, p: int)
    requires
        0 <= p && p + 8 <= b.len(),
    ensures
        b.subrange(p, p + 8) == put_u64(get_u64(b, p).unwrap().0),
{
    let v = get_u64(b, p).unwrap().0;
    let lo = get_u32(b, p).unwrap().0;
    let hi = get_u32(b, p + 4).unwrap().0;
    assert(v == lo + 0x1_0000_0000 * hi);
    assert(v % 0x1_0000_0000 == lo && v / 0x1_0000_0000 == hi);
    lemma_read_u32(b, p);
    lemma_read_u32(b, p + 4);
    lemma_seam(b, p, p + 4, p + 8);
}

proof fn lemma_seam(b: Seq<u8>, p: int, q: int, r: int)
    requires
        0 <= p <= q <= r <= b.len(),
    ensures
        b.subrange(p, r) == b.subrange(p, q) + b.subrange(q, r),
{
    assert(b.subrange(p, r) =~= b.subrange(p, q) + b.subrange(q, r));
}

} // verus!
