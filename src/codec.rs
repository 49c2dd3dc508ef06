//! The binary schema of an operation chain and its URL-safe token.
//!
//! The schema is a strict subset of the protocol-buffers wire format:
//!
//! * a chain is a header, the number of operations as a fixed32 field
//!   (`0x0D` and four bytes), followed by exactly that many records
//!   `0x12 len op`, one per operation, and nothing else;
//! * an operation is `key len payload`, where `key = tag * 8 + 2` and the tag
//!   (1 to 7) names the kind: resize, crop, flipv, fliph, contrast, filter,
//!   watermark;
//! * a payload lists every field of its kind in field order: a `u32` or the
//!   contrast amount as a fixed32 field (`field * 8 + 5`, then four bytes,
//!   little end first), an enumeration as a one-byte varint field
//!   (`field * 8`, then its code).
//!
//! All lengths stay below 128, so each takes a single byte.
use vstd::prelude::*;
use base64::Engine;
use crate::ops::{Contrast, Crop, Filter, ImageSpec, Resize, ResizeType, SampleFilter, Spec, Watermark};

verus! {

/// Why a token or a byte string is not a valid operation chain.
#[derive(Clone, Copy, Debug, PartialEq, Eq, Structural)]
pub enum CodecError {
    /// The token is not URL-safe base64 without padding.
    InvalidBase64,
    /// The chain header is incomplete, fewer records follow than it
    /// announces, or a record's length runs past the end.
    Truncated,
    /// The chain header or a record does not start with its field key.
    UnexpectedField,
    /// Bytes follow the announced number of records.
    TrailingBytes,
    /// An operation key names no known operation kind.
    UnknownTag,
    /// A payload does not hold the fields of its kind, or has bytes left over.
    FieldMismatch,
}

/// Key of the header field that holds the number of operations.
pub const COUNT_KEY: u8 = 0x0D;

/// Key of each operation record.
pub const RECORD_KEY: u8 = 0x12;

/// Length of the chain header.
pub const HEADER_LEN: usize = 5;

pub open spec fn le32(v: u32) -> Seq<u8> {
    seq![
        (v % 256) as u8,
        ((v / 256) % 256) as u8,
        ((v / 65536) % 256) as u8,
        (v / 16777216) as u8,
    ]
}

/// The number that four bytes hold, little end first.
pub open spec fn le32_value(s: Seq<u8>) -> u32 {
    (s[0] as int + 256 * s[1] + 65536 * s[2] + 16777216 * s[3]) as u32
}

pub open spec fn fixed_field(field: u8, v: u32) -> Seq<u8> {
    seq![(field * 8 + 5) as u8] + le32(v)
}

pub open spec fn sample_code(f: SampleFilter) -> u8 {
    match f {
        SampleFilter::Undefined => 0,
        SampleFilter::Nearest => 1,
        SampleFilter::Triangle => 2,
        SampleFilter::CatmullRom => 3,
        SampleFilter::Gaussian => 4,
        SampleFilter::Lanczos3 => 5,
    }
}

pub open spec fn sample_of(c: u8) -> Option<SampleFilter> {
    if c == 0 {
        Some(SampleFilter::Undefined)
    } else if c == 1 {
        Some(SampleFilter::Nearest)
    } else if c == 2 {
        Some(SampleFilter::Triangle)
    } else if c == 3 {
        Some(SampleFilter::CatmullRom)
    } else if c == 4 {
        Some(SampleFilter::Gaussian)
    } else if c == 5 {
        Some(SampleFilter::Lanczos3)
    } else {
        None
    }
}

pub open spec fn rtype_code(t: ResizeType) -> u8 {
    match t {
        ResizeType::Normal => 0,
        ResizeType::SeamCarve => 1,
    }
}

pub open spec fn rtype_of(c: u8) -> Option<ResizeType> {
    if c == 0 {
        Some(ResizeType::Normal)
    } else if c == 1 {
        Some(ResizeType::SeamCarve)
    } else {
        None
    }
}

pub open spec fn filter_code(f: Filter) -> u8 {
    match f {
        Filter::Unspecified => 0,
        Filter::Oceanic => 1,
        Filter::Islands => 2,
        Filter::Marine => 3,
    }
}

pub open spec fn filter_of(c: u8) -> Option<Filter> {
    if c == 0 {
        Some(Filter::Unspecified)
    } else if c == 1 {
        Some(Filter::Oceanic)
    } else if c == 2 {
        Some(Filter::Islands)
    } else if c == 3 {
        Some(Filter::Marine)
    } else {
        None
    }
}

pub open spec fn op_tag(op: Spec) -> u8 {
    match op {
        Spec::Resize(_) => 1,
        Spec::Crop(_) => 2,
        Spec::Flipv => 3,
        Spec::Fliph => 4,
        Spec::Contrast(_) => 5,
        Spec::Filter(_) => 6,
        Spec::Watermark(_) => 7,
    }
}

/// The fields of an operation, in field order.
pub open spec fn payload(op: Spec) -> Seq<u8> {
    match op {
        Spec::Resize(r) => fixed_field(1, r.width) + fixed_field(2, r.height) + seq![
            0x18u8,
            rtype_code(r.rtype),
            0x20u8,
            sample_code(r.filter),
        ],
        Spec::Crop(c) => fixed_field(1, c.x1) + fixed_field(2, c.y1) + fixed_field(3, c.x2)
            + fixed_field(4, c.y2),
        Spec::Flipv => seq![],
        Spec::Fliph => seq![],
        Spec::Contrast(c) => fixed_field(1, c.bits),
        Spec::Filter(f) => seq![0x08u8, filter_code(f)],
        Spec::Watermark(w) => fixed_field(1, w.x) + fixed_field(2, w.y),
    }
}

/// One operation: its key, the payload length and the payload.
pub open spec fn encode_op(op: Spec) -> Seq<u8> {
    seq![(op_tag(op) * 8 + 2) as u8, payload(op).len() as u8] + payload(op)
}

/// The records of a chain, one per operation.
pub open spec fn encode_records(s: Seq<Spec>) -> Seq<u8>
    decreases s.len(),
{
    if s.len() == 0 {
        seq![]
    } else {
        seq![RECORD_KEY, encode_op(s[0]).len() as u8] + encode_op(s[0]) + encode_records(
            s.drop_first(),
        )
    }
}

/// The bytes of a whole chain: the header, then the records.
pub open spec fn encode_ops(s: Seq<Spec>) -> Seq<u8> {
    fixed_field(1, s.len() as u32) + encode_records(s)
}

/// The operation kind that a key names.
pub open spec fn tag_of_key(k: u8) -> Option<u8> {
    if k % 8 == 2 && 1 <= k / 8 <= 7 {
        Some((k / 8) as u8)
    } else {
        None
    }
}

/// Reads the payload `p` of an operation of kind `tag`.
pub open spec fn parse_payload(tag: u8, p: Seq<u8>) -> Result<Spec, CodecError> {
    if tag == 1 {
        if p.len() == 14 && p[0] == 0x0D && p[5] == 0x15 && p[10] == 0x18 && p[12] == 0x20
            && rtype_of(p[11]) is Some && sample_of(p[13]) is Some {
            Ok(
                Spec::Resize(
                    Resize {
                        width: le32_value(p.subrange(1, 5)),
                        height: le32_value(p.subrange(6, 10)),
                        rtype: rtype_of(p[11])->0,
                        filter: sample_of(p[13])->0,
                    },
                ),
            )
        } else {
            Err(CodecError::FieldMismatch)
        }
    } else if tag == 2 {
        if p.len() == 20 && p[0] == 0x0D && p[5] == 0x15 && p[10] == 0x1D && p[15] == 0x25 {
            Ok(
                Spec::Crop(
                    Crop {
                        x1: le32_value(p.subrange(1, 5)),
                        y1: le32_value(p.subrange(6, 10)),
                        x2: le32_value(p.subrange(11, 15)),
                        y2: le32_value(p.subrange(16, 20)),
                    },
                ),
            )
        } else {
            Err(CodecError::FieldMismatch)
        }
    } else if tag == 3 || tag == 4 {
        if p.len() == 0 {
            Ok(if tag == 3 { Spec::Flipv } else { Spec::Fliph })
        } else {
            Err(CodecError::FieldMismatch)
        }
    } else if tag == 5 {
        if p.len() == 5 && p[0] == 0x0D {
            Ok(Spec::Contrast(Contrast { bits: le32_value(p.subrange(1, 5)) }))
        } else {
            Err(CodecError::FieldMismatch)
        }
    } else if tag == 6 {
        if p.len() == 2 && p[0] == 0x08 && filter_of(p[1]) is Some {
            Ok(Spec::Filter(filter_of(p[1])->0))
        } else {
            Err(CodecError::FieldMismatch)
        }
    } else {
        if p.len() == 10 && p[0] == 0x0D && p[5] == 0x15 {
            Ok(
                Spec::Watermark(
                    Watermark { x: le32_value(p.subrange(1, 5)), y: le32_value(p.subrange(6, 10)) },
                ),
            )
        } else {
            Err(CodecError::FieldMismatch)
        }
    }
}

/// Reads one operation record body `m` (key, length, payload).
pub open spec fn parse_op(m: Seq<u8>) -> Result<Spec, CodecError> {
    if m.len() < 2 || m.len() < 2 + m[1] {
        Err(CodecError::Truncated)
    } else if m.len() > 2 + m[1] {
        Err(CodecError::FieldMismatch)
    } else if tag_of_key(m[0]) is None {
        Err(CodecError::UnknownTag)
    } else {
        parse_payload(tag_of_key(m[0])->0, m.skip(2))
    }
}

/// Reads `n` records and then the end of the input; the first malformed
/// record decides the error.
pub open spec fn parse_records(b: Seq<u8>, n: nat) -> Result<Seq<Spec>, CodecError>
    decreases n,
{
    if n == 0 {
        if b.len() == 0 {
            Ok(seq![])
        } else {
            Err(CodecError::TrailingBytes)
        }
    } else if b.len() < 2 {
        Err(CodecError::Truncated)
    } else if b[0] != RECORD_KEY {
        Err(CodecError::UnexpectedField)
    } else if b.len() < 2 + b[1] {
        Err(CodecError::Truncated)
    } else {
        match parse_op(b.subrange(2, 2 + b[1])) {
            Err(e) => Err(e),
            Ok(op) => match parse_records(b.skip(2 + b[1]), (n - 1) as nat) {
                Err(e) => Err(e),
                Ok(rest) => Ok(seq![op] + rest),
            },
        }
    }
}

/// Reads a whole chain: the header, then the records it announces.
pub open spec fn parse_ops(b: Seq<u8>) -> Result<Seq<Spec>, CodecError> {
    if b.len() < HEADER_LEN {
        Err(CodecError::Truncated)
    } else if b[0] != COUNT_KEY {
        Err(CodecError::UnexpectedField)
    } else {
        parse_records(b.skip(5), le32_value(b.subrange(1, 5)) as nat)
    }
}

pub proof fn lemma_le32(v: u32)
    ensures
        le32_value(le32(v)) == v,
        le32(v).len() == 4,
{
    let a = v % 256;
    let b = (v / 256) % 256;
    let c = (v / 65536) % 256;
    let d = v / 16777216;
    assert(a + 256 * b + 65536 * c + 16777216 * d == v) by (nonlinear_arith)
        requires
            a == v % 256,
            b == (v / 256) % 256,
            c == (v / 65536) % 256,
            d == v / 16777216,
    {
        assert(v == (v / 256) * 256 + a);
        assert(v / 256 == (v / 65536) * 256 + b);
        assert(v / 65536 == (v / 16777216) * 256 + c);
    }
}


proof fn lemma_payload_round_trip(op: Spec)
    ensures
        parse_payload(op_tag(op), payload(op)) == Ok::<Spec, CodecError>(op),
        payload(op).len() <= 20,
{
    match op {
        Spec::Resize(r) => {
            lemma_le32(r.width);
            lemma_le32(r.height);
            let p = payload(op);
            assert(p.subrange(1, 5) =~= le32(r.width));
            assert(p.subrange(6, 10) =~= le32(r.height));
        },
        Spec::Crop(c) => {
            lemma_le32(c.x1);
            lemma_le32(c.y1);
            lemma_le32(c.x2);
            lemma_le32(c.y2);
            let p = payload(op);
            assert(p.subrange(1, 5) =~= le32(c.x1));
            assert(p.subrange(6, 10) =~= le32(c.y1));
            assert(p.subrange(11, 15) =~= le32(c.x2));
            assert(p.subrange(16, 20) =~= le32(c.y2));
        },
        Spec::Contrast(c) => {
            lemma_le32(c.bits);
            assert(payload(op).subrange(1, 5) =~= le32(c.bits));
        },
        Spec::Watermark(w) => {
            lemma_le32(w.x);
            lemma_le32(w.y);
            let p = payload(op);
            assert(p.subrange(1, 5) =~= le32(w.x));
            assert(p.subrange(6, 10) =~= le32(w.y));
        },
        Spec::Filter(f) => {},
        Spec::Flipv => {},
        Spec::Fliph => {},
    }
}

proof fn lemma_op_round_trip(op: Spec)
    ensures
        parse_op(encode_op(op)) == Ok::<Spec, CodecError>(op),
        encode_op(op).len() <= 22,
{
    lemma_payload_round_trip(op);
    let m = encode_op(op);
    assert(m.skip(2) =~= payload(op));
}

proof fn lemma_records_round_trip(s: Seq<Spec>)
    ensures
        parse_records(encode_records(s), s.len()) == Ok::<Seq<Spec>, CodecError>(s),
    decreases s.len(),
{
    if s.len() > 0 {
        let b = encode_records(s);
        let m = encode_op(s[0]);
        lemma_op_round_trip(s[0]);
        lemma_records_round_trip(s.drop_first());
        assert(b[0] == RECORD_KEY);
        assert(b[1] as int == m.len());
        assert(b.len() >= 2 + m.len());
        assert(b.subrange(2, 2 + b[1]) =~= m);
        assert(b.skip(2 + b[1]) =~= encode_records(s.drop_first()));
        assert(seq![s[0]] + s.drop_first() =~= s);
    } else {
        assert(s =~= Seq::<Spec>::empty());
    }
}

/// Decoding the bytes of any chain gives back the same operations, in the
/// same order.
pub proof fn lemma_round_trip(s: Seq<Spec>)
    requires
        s.len() <= u32::MAX,
    ensures
        parse_ops(encode_ops(s)) == Ok::<Seq<Spec>, CodecError>(s),
{
    let b = encode_ops(s);
    lemma_le32(s.len() as u32);
    lemma_records_round_trip(s);
    assert(b.subrange(1, 5) =~= le32(s.len() as u32));
    assert(b.skip(5) =~= encode_records(s));
}

proof fn lemma_le32_canonical(b: Seq<u8>)
    requires
        b.len() == 4,
    ensures
        le32(le32_value(b)) == b,
{
    let (b0, b1, b2, b3) = (b[0] as u32, b[1] as u32, b[2] as u32, b[3] as u32);
    let v = le32_value(b);
    assert(v == b0 + 256 * b1 + 65536 * b2 + 16777216 * b3);
    assert(v % 256 == b0 && (v / 256) % 256 == b1 && (v / 65536) % 256 == b2 && v / 16777216 == b3)
        by (bit_vector)
        requires
            b0 < 256 && b1 < 256 && b2 < 256 && b3 < 256,
            v == b0 + 256 * b1 + 65536 * b2 + 16777216 * b3,
    ;
    assert(le32(v) =~= b);
}

proof fn lemma_payload_canonical(tag: u8, p: Seq<u8>)
    requires
        parse_payload(tag, p) is Ok,
    ensures
        payload(parse_payload(tag, p)->Ok_0) == p,
        1 <= tag <= 7 ==> op_tag(parse_payload(tag, p)->Ok_0) == tag,
{
    let op = parse_payload(tag, p)->Ok_0;
    if tag == 1 || tag == 2 || tag == 5 || !(3 <= tag <= 6) {
        lemma_le32_canonical(p.subrange(1, 5));
    }
    if tag == 1 || tag == 2 || !(3 <= tag <= 6) {
        lemma_le32_canonical(p.subrange(6, 10));
    }
    if tag == 2 {
        lemma_le32_canonical(p.subrange(11, 15));
        lemma_le32_canonical(p.subrange(16, 20));
    }
    if tag == 1 {
        assert(rtype_code(rtype_of(p[11])->0) == p[11]);
        assert(sample_code(sample_of(p[13])->0) == p[13]);
    }
    if tag == 6 {
        assert(filter_code(filter_of(p[1])->0) == p[1]);
    }
    assert(payload(op) =~= p);
}

proof fn lemma_op_canonical(m: Seq<u8>)
    requires
        parse_op(m) is Ok,
    ensures
        encode_op(parse_op(m)->Ok_0) == m,
{
    let tag = tag_of_key(m[0])->0;
    lemma_payload_canonical(tag, m.skip(2));
    assert(m[0] == tag * 8 + 2);
    assert(encode_op(parse_op(m)->Ok_0) =~= m);
}

proof fn lemma_records_canonical(b: Seq<u8>, n: nat)
    requires
        parse_records(b, n) is Ok,
    ensures
        encode_records(parse_records(b, n)->Ok_0) == b,
        parse_records(b, n)->Ok_0.len() == n,
    decreases n,
{
    if n == 0 {
        assert(b =~= Seq::<u8>::empty());
    } else {
        let m = b.subrange(2, 2 + b[1]);
        let rest = b.skip(2 + b[1]);
        lemma_op_canonical(m);
        lemma_records_canonical(rest, (n - 1) as nat);
        let s = parse_records(b, n)->Ok_0;
        let op = parse_op(m)->Ok_0;
        assert(s[0] == op);
        assert(s.drop_first() =~= parse_records(rest, (n - 1) as nat)->Ok_0);
        assert(encode_records(s) =~= b);
    }
}

/// The only bytes that decode to a chain are that chain's own encoding.
pub proof fn lemma_canonical(b: Seq<u8>)
    requires
        parse_ops(b) is Ok,
    ensures
        encode_ops(parse_ops(b)->Ok_0) == b,
{
    let n = le32_value(b.subrange(1, 5));
    lemma_records_canonical(b.skip(5), n as nat);
    lemma_le32_canonical(b.subrange(1, 5));
    let s = parse_ops(b)->Ok_0;
    assert(s.len() as u32 == n);
    assert(encode_ops(s) =~= b);
}

proof fn lemma_records_prefix(s: Seq<Spec>, k: int)
    requires
        0 <= k < encode_records(s).len(),
    ensures
        parse_records(encode_records(s).take(k), s.len()) == Err::<Seq<Spec>, CodecError>(
            CodecError::Truncated,
        ),
    decreases s.len(),
{
    let b = encode_records(s);
    let q = b.take(k);
    let m = encode_op(s[0]);
    lemma_op_round_trip(s[0]);
    assert(b[0] == RECORD_KEY);
    assert(b[1] as int == m.len());
    if k >= 2 {
        assert(q[0] == b[0] && q[1] == b[1]);
    }
    if k >= 2 + m.len() {
        let len: int = 2 + m.len() as int;
        assert(q.subrange(2, len) =~= m);
        assert(b.skip(len) =~= encode_records(s.drop_first()));
        assert(q.skip(len) =~= encode_records(s.drop_first()).take(k - len));
        lemma_records_prefix(s.drop_first(), k - len);
    }
}

/// Every proper prefix of a chain's encoding, the empty one included, is
/// refused as truncated.
pub proof fn lemma_prefix_truncated(s: Seq<Spec>, k: int)
    requires
        s.len() <= u32::MAX,
        0 <= k < encode_ops(s).len(),
    ensures
        parse_ops(encode_ops(s).take(k)) == Err::<Seq<Spec>, CodecError>(CodecError::Truncated),
{
    let b = encode_ops(s);
    let q = b.take(k);
    if k >= 5 {
        lemma_le32(s.len() as u32);
        assert(q[0] == COUNT_KEY);
        assert(q.subrange(1, 5) =~= le32(s.len() as u32));
        assert(b.skip(5) =~= encode_records(s));
        assert(q.skip(5) =~= encode_records(s).take(k - 5));
        lemma_records_prefix(s, k - 5);
    }
}

/// Decoding the encoding of two chains joined gives all operations of the
/// first, in order, followed by all of the second, in order.
pub proof fn lemma_concat_round_trip(a: Seq<Spec>, b: Seq<Spec>)
    requires
        a.len() + b.len() <= u32::MAX,
    ensures
        parse_ops(encode_ops(a + b)) == Ok::<Seq<Spec>, CodecError>(a + b),
{
    lemma_round_trip(a + b);
}

/// A chain whose first record carries a key of no known operation kind is
/// refused with `UnknownTag`, whatever its payload and whatever follows.
pub proof fn lemma_unknown_tag(key: u8, p: Seq<u8>, rest: Seq<Spec>)
    requires
        tag_of_key(key) is None,
        p.len() < 126,
        rest.len() < u32::MAX,
    ensures
        parse_ops(
            fixed_field(1, (rest.len() + 1) as u32) + seq![RECORD_KEY, (p.len() + 2) as u8, key, p.len() as u8]
                + p + encode_records(rest),
        ) == Err::<Seq<Spec>, CodecError>(CodecError::UnknownTag),
{
    let b = fixed_field(1, (rest.len() + 1) as u32) + seq![RECORD_KEY, (p.len() + 2) as u8, key, p.len() as u8]
        + p + encode_records(rest);
    lemma_le32((rest.len() + 1) as u32);
    assert(b.subrange(1, 5) =~= le32((rest.len() + 1) as u32));
    let r = b.skip(5);
    assert(r[0] == RECORD_KEY);
    assert(r[1] == (p.len() + 2) as u8);
    assert(r.subrange(2, 2 + r[1]) =~= seq![key, p.len() as u8] + p);
}

/// Pushes a fixed32 field: its key, then the value's four bytes.
fn push_fixed(out: &mut Vec<u8>, field: u8, v: u32)
    requires
        1 <= field <= 4,
    ensures
        final(out)@ == old(out)@ + fixed_field(field, v),
{
    out.push(field * 8 + 5);
    out.push((v % 256) as u8);
    out.push(((v / 256) % 256) as u8);
    out.push(((v / 65536) % 256) as u8);
    out.push((v / 16777216) as u8);
    assert(out@ =~= old(out)@ + fixed_field(field, v));
}

fn sample_byte(f: SampleFilter) -> (r: u8)
    ensures
        r == sample_code(f),
{
    match f {
        SampleFilter::Undefined => 0,
        SampleFilter::Nearest => 1,
        SampleFilter::Triangle => 2,
        SampleFilter::CatmullRom => 3,
        SampleFilter::Gaussian => 4,
        SampleFilter::Lanczos3 => 5,
    }
}

fn filter_byte(f: Filter) -> (r: u8)
    ensures
        r == filter_code(f),
{
    match f {
        Filter::Unspecified => 0,
        Filter::Oceanic => 1,
        Filter::Islands => 2,
        Filter::Marine => 3,
    }
}

/// Appends one chain record for `op`.
fn push_record(out: &mut Vec<u8>, op: Spec)
    ensures
        final(out)@ == old(out)@ + seq![RECORD_KEY, encode_op(op).len() as u8] + encode_op(op),
{
    proof {
        lemma_payload_round_trip(op);
    }
    let mut p: Vec<u8> = Vec::new();
    let tag: u8 = match op {
        Spec::Resize(r) => {
            push_fixed(&mut p, 1, r.width);
            push_fixed(&mut p, 2, r.height);
            p.push(0x18);
            p.push(match r.rtype {
                ResizeType::Normal => 0,
                ResizeType::SeamCarve => 1,
            });
            p.push(0x20);
            p.push(sample_byte(r.filter));
            1
        },
        Spec::Crop(c) => {
            push_fixed(&mut p, 1, c.x1);
            push_fixed(&mut p, 2, c.y1);
            push_fixed(&mut p, 3, c.x2);
            push_fixed(&mut p, 4, c.y2);
            2
        },
        Spec::Flipv => 3,
        Spec::Fliph => 4,
        Spec::Contrast(c) => {
            push_fixed(&mut p, 1, c.bits);
            5
        },
        Spec::Filter(f) => {
            p.push(0x08);
            p.push(filter_byte(f));
            6
        },
        Spec::Watermark(w) => {
            push_fixed(&mut p, 1, w.x);
            push_fixed(&mut p, 2, w.y);
            7
        },
    };
    assert(p@ =~= payload(op));
    let n = p.len() as u8;
    out.push(RECORD_KEY);
    out.push(n + 2);
    out.push(tag * 8 + 2);
    out.push(n);
    let mut i: usize = 0;
    while i < p.len()
        invariant
            0 <= i <= p.len(),
            p@ == payload(op),
            p.len() <= 20,
            out@ == old(out)@ + seq![RECORD_KEY, (n + 2) as u8, (tag * 8 + 2) as u8, n] + p@.take(
                i as int,
            ),
        decreases p.len() - i,
    {
        out.push(p[i]);
        i = i + 1;
        assert(p@.take(i as int) =~= p@.take(i - 1) + seq![p@[i - 1]]);
    }
    assert(p@.take(p.len() as int) =~= p@);
    assert(tag == op_tag(op));
    assert(out@ =~= old(out)@ + seq![RECORD_KEY, encode_op(op).len() as u8] + encode_op(op));
}

fn sample_from(c: u8) -> (r: Option<SampleFilter>)
    ensures
        r == sample_of(c),
{
    if c == 0 {
        Some(SampleFilter::Undefined)
    } else if c == 1 {
        Some(SampleFilter::Nearest)
    } else if c == 2 {
        Some(SampleFilter::Triangle)
    } else if c == 3 {
        Some(SampleFilter::CatmullRom)
    } else if c == 4 {
        Some(SampleFilter::Gaussian)
    } else if c == 5 {
        Some(SampleFilter::Lanczos3)
    } else {
        None
    }
}

fn rtype_from(c: u8) -> (r: Option<ResizeType>)
    ensures
        r == rtype_of(c),
{
    if c == 0 {
        Some(ResizeType::Normal)
    } else if c == 1 {
        Some(ResizeType::SeamCarve)
    } else {
        None
    }
}

fn filter_from(c: u8) -> (r: Option<Filter>)
    ensures
        r == filter_of(c),
{
    if c == 0 {
        Some(Filter::Unspecified)
    } else if c == 1 {
        Some(Filter::Oceanic)
    } else if c == 2 {
        Some(Filter::Islands)
    } else if c == 3 {
        Some(Filter::Marine)
    } else {
        None
    }
}

fn read_le32(b: &[u8], at: usize) -> (r: u32)
    requires
        at + 4 <= b@.len(),
    ensures
        r == le32_value(b@.subrange(at as int, at + 4)),
{
    b[at] as u32 + (b[at + 1] as u32) * 256 + (b[at + 2] as u32) * 65536 + (b[at + 3] as u32)
        * 16777216
}

/// Reads the payload `b[start..end]` of an operation of kind `tag`.
fn read_payload(b: &[u8], start: usize, end: usize, tag: u8) -> (r: Result<Spec, CodecError>)
    requires
        start <= end <= b@.len(),
        1 <= tag <= 7,
    ensures
        r == parse_payload(tag, b@.subrange(start as int, end as int)),
{
    let ghost p = b@.subrange(start as int, end as int);
    let len = end - start;
    if tag == 1 {
        if len == 14 && b[start] == 0x0D && b[start + 5] == 0x15 && b[start + 10] == 0x18 && b[
        start + 12] == 0x20 {
            let rtype = rtype_from(b[start + 11]);
            let filter = sample_from(b[start + 13]);
            match (rtype, filter) {
                (Some(rtype), Some(filter)) => {
                    let width = read_le32(b, start + 1);
                    let height = read_le32(b, start + 6);
                    assert(p.subrange(1, 5) =~= b@.subrange(start + 1, start + 5));
                    assert(p.subrange(6, 10) =~= b@.subrange(start + 6, start + 10));
                    Ok(Spec::Resize(Resize { width, height, rtype, filter }))
                },
                _ => Err(CodecError::FieldMismatch),
            }
        } else {
            Err(CodecError::FieldMismatch)
        }
    } else if tag == 2 {
        if len == 20 && b[start] == 0x0D && b[start + 5] == 0x15 && b[start + 10] == 0x1D && b[
        start + 15] == 0x25 {
            let x1 = read_le32(b, start + 1);
            let y1 = read_le32(b, start + 6);
            let x2 = read_le32(b, start + 11);
            let y2 = read_le32(b, start + 16);
            assert(p.subrange(1, 5) =~= b@.subrange(start + 1, start + 5));
            assert(p.subrange(6, 10) =~= b@.subrange(start + 6, start + 10));
            assert(p.subrange(11, 15) =~= b@.subrange(start + 11, start + 15));
            assert(p.subrange(16, 20) =~= b@.subrange(start + 16, start + 20));
            Ok(Spec::Crop(Crop { x1, y1, x2, y2 }))
        } else {
            Err(CodecError::FieldMismatch)
        }
    } else if tag == 3 || tag == 4 {
        if len == 0 {
            Ok(
                if tag == 3 {
                    Spec::Flipv
                } else {
                    Spec::Fliph
                },
            )
        } else {
            Err(CodecError::FieldMismatch)
        }
    } else if tag == 5 {
        if len == 5 && b[start] == 0x0D {
            let bits = read_le32(b, start + 1);
            assert(p.subrange(1, 5) =~= b@.subrange(start + 1, start + 5));
            Ok(Spec::Contrast(Contrast { bits }))
        } else {
            Err(CodecError::FieldMismatch)
        }
    } else if tag == 6 {
        if len == 2 && b[start] == 0x08 {
            match filter_from(b[start + 1]) {
                Some(f) => Ok(Spec::Filter(f)),
                None => Err(CodecError::FieldMismatch),
            }
        } else {
            Err(CodecError::FieldMismatch)
        }
    } else {
        if len == 10 && b[start] == 0x0D && b[start + 5] == 0x15 {
            let x = read_le32(b, start + 1);
            let y = read_le32(b, start + 6);
            assert(p.subrange(1, 5) =~= b@.subrange(start + 1, start + 5));
            assert(p.subrange(6, 10) =~= b@.subrange(start + 6, start + 10));
            Ok(Spec::Watermark(Watermark { x, y }))
        } else {
            Err(CodecError::FieldMismatch)
        }
    }
}

/// Reads the operation record body `b[start..end]`.
fn read_op(b: &[u8], start: usize, end: usize) -> (r: Result<Spec, CodecError>)
    requires
        start <= end <= b@.len(),
    ensures
        r == parse_op(b@.subrange(start as int, end as int)),
{
    let ghost m = b@.subrange(start as int, end as int);
    let len = end - start;
    if len < 2 || len < 2 + b[start + 1] as usize {
        Err(CodecError::Truncated)
    } else if len > 2 + b[start + 1] as usize {
        Err(CodecError::FieldMismatch)
    } else {
        let key = b[start];
        if key % 8 == 2 && 1 <= key / 8 && key / 8 <= 7 {
            assert(m.skip(2) =~= b@.subrange(start + 2, end as int));
            read_payload(b, start + 2, end, key / 8)
        } else {
            Err(CodecError::UnknownTag)
        }
    }
}

/// The chain that `r` carries, or its error.
pub open spec fn chain_of(r: Result<ImageSpec, CodecError>) -> Result<Seq<Spec>, CodecError> {
    match r {
        Ok(s) => Ok(s.specs@),
        Err(e) => Err(e),
    }
}

pub open spec fn prepend(acc: Seq<Spec>, r: Result<Seq<Spec>, CodecError>) -> Result<
    Seq<Spec>,
    CodecError,
> {
    match r {
        Ok(rest) => Ok(acc + rest),
        Err(e) => Err(e),
    }
}

/// The characters of the URL-safe base64 alphabet.
pub open spec fn is_url_safe_char(c: char) -> bool {
    ('A' <= c <= 'Z') || ('a' <= c <= 'z') || ('0' <= c <= '9') || c == '-' || c == '_'
}

/// Only alphabet characters, and a length that is not 1 mod 4: what the
/// decoder checks before it looks at the bits.
pub open spec fn is_url_safe_token_shape(t: Seq<char>) -> bool {
    &&& forall|i: int| 0 <= i < t.len() ==> is_url_safe_char(#[trigger] t[i])
    &&& t.len() % 4 != 1
}

/// What base64's URL-safe, unpadded engine writes for `b`.
pub uninterp spec fn url_safe_base64(b: Seq<u8>) -> Seq<char>;

/// Relies on base64's `URL_SAFE_NO_PAD.encode`: the result depends on the
/// bytes alone, uses only the URL-safe alphabet, and has four characters per
/// three bytes, a final group of one or two bytes giving two or three.
#[verifier::external_body]
fn base64_encode(b: &[u8]) -> (r: String)
    ensures
        r@ == url_safe_base64(b@),
        r@.len() == (4 * b@.len() + 2) / 3,
        forall|i: int| 0 <= i < r@.len() ==> is_url_safe_char(#[trigger] r@[i]),
{
    base64::engine::general_purpose::URL_SAFE_NO_PAD.encode(b)
}

/// Relies on base64's `URL_SAFE_NO_PAD.decode`: it rejects padding and
/// non-zero trailing bits, so it succeeds exactly on the tokens that `encode`
/// writes, and gives back the bytes that were encoded. A character outside
/// the alphabet, or a length of 1 mod 4, is refused.
#[verifier::external_body]
fn base64_decode(t: &str) -> (r: Option<Vec<u8>>)
    ensures
        forall|b: Seq<u8>|
            #[trigger] url_safe_base64(b) == t@ <==> (r is Some && r->0@ == b),
        !is_url_safe_token_shape(t@) ==> r is None,
{
    base64::engine::general_purpose::URL_SAFE_NO_PAD.decode(t).ok()
}

impl ImageSpec {
    /// The binary form of the chain.
    pub fn to_bytes(&self) -> (r: Vec<u8>)
        requires
            self.specs@.len() <= u32::MAX,
        ensures
            r@ == encode_ops(self.specs@),
    {
        let mut out: Vec<u8> = Vec::new();
        push_fixed(&mut out, 1, self.specs.len() as u32);
        let ghost head = out@;
        let mut i: usize = 0;
        assert(self.specs@.skip(0) =~= self.specs@);
        assert(out@ + encode_records(self.specs@) =~= encode_ops(self.specs@));
        while i < self.specs.len()
            invariant
                0 <= i <= self.specs.len(),
                encode_ops(self.specs@) == out@ + encode_records(self.specs@.skip(i as int)),
            decreases self.specs.len() - i,
        {
            let ghost rest = self.specs@.skip(i as int);
            assert(rest.drop_first() =~= self.specs@.skip(i + 1));
            push_record(&mut out, self.specs[i]);
            i = i + 1;
        }
        assert(self.specs@.skip(i as int) =~= Seq::<Spec>::empty());
        assert(out@ =~= out@ + encode_records(self.specs@.skip(i as int)));
        out
    }

    /// Reads a chain from its binary form. Exactly the encodings of chains
    /// are accepted; an empty or cut encoding is `Truncated`.
    pub fn from_bytes(b: &[u8]) -> (r: Result<ImageSpec, CodecError>)
        ensures
            chain_of(r) == parse_ops(b@),
            r matches Ok(s) ==> encode_ops(s.specs@) == b@,
            forall|s: Seq<Spec>|
                s.len() <= u32::MAX && #[trigger] encode_ops(s) == b@ ==> chain_of(r) == Ok::<
                    Seq<Spec>,
                    CodecError,
                >(s),
            forall|s: Seq<Spec>, k: int|
                s.len() <= u32::MAX && 0 <= k < encode_ops(s).len() && b@ == #[trigger] encode_ops(
                    s,
                ).take(k) ==> r == Err::<ImageSpec, CodecError>(CodecError::Truncated),
    {
        let r = ImageSpec::read_chain(b);
        proof {
            assert forall|s: Seq<Spec>, k: int|
                s.len() <= u32::MAX && 0 <= k < encode_ops(s).len() && b@ == #[trigger] encode_ops(
                    s,
                ).take(k) implies r == Err::<ImageSpec, CodecError>(CodecError::Truncated) by {
                lemma_prefix_truncated(s, k);
            }
            if parse_ops(b@) is Ok {
                lemma_canonical(b@);
            }
            assert forall|s: Seq<Spec>|
                s.len() <= u32::MAX && #[trigger] encode_ops(s) == b@ implies chain_of(r) == Ok::<
                    Seq<Spec>,
                    CodecError,
                >(s) by {
                lemma_round_trip(s);
            }
        }
        r
    }

    fn read_chain(b: &[u8]) -> (r: Result<ImageSpec, CodecError>)
        ensures
            chain_of(r) == parse_ops(b@),
    {
        if b.len() < HEADER_LEN {
            return Err(CodecError::Truncated);
        }
        if b[0] != COUNT_KEY {
            return Err(CodecError::UnexpectedField);
        }
        let n = read_le32(b, 1);
        let mut acc: Vec<Spec> = Vec::new();
        let mut pos: usize = HEADER_LEN;
        let mut left: u32 = n;
        assert(acc@ + Seq::<Spec>::empty() =~= Seq::<Spec>::empty());
        while left > 0
            invariant
                HEADER_LEN <= pos <= b@.len(),
                parse_ops(b@) == prepend(acc@, parse_records(b@.skip(pos as int), left as nat)),
            decreases left,
        {
            let ghost rest = b@.skip(pos as int);
            if b.len() - pos < 2 {
                return Err(CodecError::Truncated);
            }
            if b[pos] != RECORD_KEY {
                return Err(CodecError::UnexpectedField);
            }
            let len = b[pos + 1] as usize;
            if b.len() - pos - 2 < len {
                return Err(CodecError::Truncated);
            }
            assert(rest.subrange(2, 2 + rest[1]) =~= b@.subrange(pos + 2, pos + 2 + len));
            assert(rest.skip(2 + rest[1]) =~= b@.skip(pos + 2 + len));
            match read_op(b, pos + 2, pos + 2 + len) {
                Err(e) => {
                    return Err(e);
                },
                Ok(op) => {
                    let ghost old_acc = acc@;
                    acc.push(op);
                    pos = pos + 2 + len;
                    left = left - 1;
                    proof {
                        match parse_records(b@.skip(pos as int), left as nat) {
                            Ok(tail) => {
                                assert(old_acc + (seq![op] + tail) =~= acc@ + tail);
                            },
                            Err(_) => {},
                        }
                    }
                },
            }
        }
        if pos < b.len() {
            return Err(CodecError::TrailingBytes);
        }
        assert(b@.skip(pos as int) =~= Seq::<u8>::empty());
        assert(acc@ + Seq::<Spec>::empty() =~= acc@);
        Ok(ImageSpec { specs: acc })
    }

    /// The URL-safe token of the chain.
    pub fn encode(&self) -> (r: String)
        requires
            self.specs@.len() <= u32::MAX,
        ensures
            r@ == url_safe_base64(encode_ops(self.specs@)),
            forall|i: int| 0 <= i < r@.len() ==> is_url_safe_char(#[trigger] r@[i]),
            r@.len() % 4 != 1,
    {
        let bytes = self.to_bytes();
        let r = base64_encode(bytes.as_slice());
        proof {
            let n = bytes@.len();
            assert((4 * n + 2) / 3 % 4 != 1) by (nonlinear_arith);
        }
        r
    }

    /// Reads a chain from its token.
    pub fn try_from(token: &str) -> (r: Result<ImageSpec, CodecError>)
        ensures
            !is_url_safe_token_shape(token@) ==> r == Err::<ImageSpec, CodecError>(
                CodecError::InvalidBase64,
            ),
            forall|b: Seq<u8>| #[trigger] url_safe_base64(b) == token@ ==> chain_of(r) == parse_ops(b),
            (forall|b: Seq<u8>| #[trigger] url_safe_base64(b) != token@) ==> r == Err::<
                ImageSpec,
                CodecError,
            >(CodecError::InvalidBase64),
    {
        match base64_decode(token) {
            None => Err(CodecError::InvalidBase64),
            Some(bytes) => {
                assert(url_safe_base64(bytes@) == token@);
                ImageSpec::from_bytes(bytes.as_slice())
            },
        }
    }
}

} // verus!
