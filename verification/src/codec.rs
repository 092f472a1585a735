//! Little-endian element buffers.
//!
//! A primitive array stores its elements in one flat byte buffer, `w` bytes
//! per element, little endian. This module says what value sits at a given
//! position of such a buffer, and reads and writes elements against that
//! statement.

use vstd::bytes::*;
use vstd::prelude::*;
use vstd::slice::slice_subrange;

use crate::dtype::PType;
use crate::scalar::PValue;

verus! {

/// The bytes a single primitive value occupies, little endian. Signed values
/// are stored as their two's-complement bit pattern, floats as their IEEE 754
/// bit pattern.
pub open spec fn le_bytes_of(v: PValue) -> Seq<u8> {
    match v {
        PValue::U8(x) => seq![x],
        PValue::I8(x) => seq![x as u8],
        PValue::U16(x) => spec_u16_to_le_bytes(x),
        PValue::I16(x) => spec_u16_to_le_bytes(x as u16),
        PValue::F16(x) => spec_u16_to_le_bytes(x),
        PValue::U32(x) => spec_u32_to_le_bytes(x),
        PValue::I32(x) => spec_u32_to_le_bytes(x as u32),
        PValue::F32(x) => spec_u32_to_le_bytes(x),
        PValue::U64(x) => spec_u64_to_le_bytes(x),
        PValue::I64(x) => spec_u64_to_le_bytes(x as u64),
        PValue::F64(x) => spec_u64_to_le_bytes(x),
    }
}

/// The value of type `pt` stored at element position `i` of a flat buffer.
pub open spec fn spec_pvalue_at(pt: PType, bytes: Seq<u8>, i: int) -> PValue {
    let w = pt.spec_byte_width() as int;
    let b = bytes.subrange(i * w, (i + 1) * w);
    match pt {
        PType::U8 => PValue::U8(b[0]),
        PType::I8 => PValue::I8(b[0] as i8),
        PType::U16 => PValue::U16(spec_u16_from_le_bytes(b)),
        PType::I16 => PValue::I16(spec_u16_from_le_bytes(b) as i16),
        PType::F16 => PValue::F16(spec_u16_from_le_bytes(b)),
        PType::U32 => PValue::U32(spec_u32_from_le_bytes(b)),
        PType::I32 => PValue::I32(spec_u32_from_le_bytes(b) as i32),
        PType::F32 => PValue::F32(spec_u32_from_le_bytes(b)),
        PType::U64 => PValue::U64(spec_u64_from_le_bytes(b)),
        PType::I64 => PValue::I64(spec_u64_from_le_bytes(b) as i64),
        PType::F64 => PValue::F64(spec_u64_from_le_bytes(b)),
    }
}

/// Every value reads back from its own bytes.
pub proof fn lemma_le_bytes_roundtrip(v: PValue)
    ensures
        le_bytes_of(v).len() == v.spec_ptype().spec_byte_width(),
        spec_pvalue_at(v.spec_ptype(), le_bytes_of(v), 0) == v,
{
    lemma_auto_spec_u16_to_from_le_bytes();
    lemma_auto_spec_u32_to_from_le_bytes();
    lemma_auto_spec_u64_to_from_le_bytes();
    let pt = v.spec_ptype();
    let w = pt.spec_byte_width() as int;
    assert(le_bytes_of(v).subrange(0, w) =~= le_bytes_of(v));
    match v {
        PValue::I8(x) => {
            assert(x as u8 as i8 == x) by (bit_vector);
        },
        PValue::I16(x) => {
            assert(x as u16 as i16 == x) by (bit_vector);
        },
        PValue::I32(x) => {
            assert(x as u32 as i32 == x) by (bit_vector);
        },
        PValue::I64(x) => {
            assert(x as u64 as i64 == x) by (bit_vector);
        },
        _ => {},
    }
}

/// What one element position sees depends only on that element's bytes: two
/// buffers that agree on the element's range read the same value there.
pub proof fn lemma_pvalue_at_frame(pt: PType, b1: Seq<u8>, b2: Seq<u8>, i: int, j: int)
    requires
        0 <= i,
        0 <= j,
        (i + 1) * pt.spec_byte_width() <= b1.len(),
        (j + 1) * pt.spec_byte_width() <= b2.len(),
        b1.subrange(i * pt.spec_byte_width(), (i + 1) * pt.spec_byte_width()) == b2.subrange(
            j * pt.spec_byte_width(),
            (j + 1) * pt.spec_byte_width(),
        ),
    ensures
        spec_pvalue_at(pt, b1, i) == spec_pvalue_at(pt, b2, j),
{
}

/// Whether a buffer begins with everything an earlier buffer held: writers
/// only ever append.
pub open spec fn extends(new: Seq<u8>, old: Seq<u8>) -> bool {
    new.len() >= old.len() && new.subrange(0, old.len() as int) == old
}

/// Extension chains: what extends an extension of a base extends the base.
pub broadcast proof fn lemma_extends_trans(c: Seq<u8>, b: Seq<u8>, a: Seq<u8>)
    requires
        #[trigger] extends(c, b),
        #[trigger] extends(b, a),
    ensures
        extends(c, a),
{
    assert(c.subrange(0, a.len() as int) =~= a);
}

/// Read the element at position `i` of a flat buffer of type `pt`.
pub fn pvalue_at(pt: PType, bytes: &Vec<u8>, i: usize) -> (r: PValue)
    requires
        (i + 1) * pt.spec_byte_width() <= bytes@.len(),
    ensures
        r == spec_pvalue_at(pt, bytes@, i as int),
        r.spec_ptype() == pt,
{
    let w = pt.byte_width();
    let n = bytes.len();
    proof {
        assert((i as int) * (w as int) >= 0 && (i as int) * (w as int) + w <= n)
            by (nonlinear_arith)
            requires
                ((i as int) + 1) * (w as int) <= n,
                w >= 1,
                i >= 0,
        ;
    }
    let off: usize = i * w;
    let s = slice_subrange(bytes.as_slice(), off, off + w);
    proof {
        assert(s@ == bytes@.subrange((i as int) * (pt.spec_byte_width() as int), ((i as int) + 1)
            * (pt.spec_byte_width() as int)));
    }
    match pt {
        PType::U8 => PValue::U8(s[0]),
        PType::I8 => PValue::I8(#[verifier::truncate] (s[0] as i8)),
        PType::U16 => PValue::U16(u16_from_le_bytes(s)),
        PType::I16 => PValue::I16(#[verifier::truncate] (u16_from_le_bytes(s) as i16)),
        PType::F16 => PValue::F16(u16_from_le_bytes(s)),
        PType::U32 => PValue::U32(u32_from_le_bytes(s)),
        PType::I32 => PValue::I32(#[verifier::truncate] (u32_from_le_bytes(s) as i32)),
        PType::F32 => PValue::F32(u32_from_le_bytes(s)),
        PType::U64 => PValue::U64(u64_from_le_bytes(s)),
        PType::I64 => PValue::I64(#[verifier::truncate] (u64_from_le_bytes(s) as i64)),
        PType::F64 => PValue::F64(u64_from_le_bytes(s)),
    }
}

/// Append one element to a flat buffer.
pub fn push_pvalue(bytes: &mut Vec<u8>, v: PValue)
    ensures
        final(bytes)@ == old(bytes)@ + le_bytes_of(v),
{
    match v {
        PValue::U8(x) => {
            bytes.push(x);
            proof {
                assert(bytes@ =~= old(bytes)@ + le_bytes_of(v));
            }
        },
        PValue::I8(x) => {
            bytes.push(x as u8);
            proof {
                assert(bytes@ =~= old(bytes)@ + le_bytes_of(v));
            }
        },
        PValue::U16(x) => {
            let mut t = u16_to_le_bytes(x);
            bytes.append(&mut t);
        },
        PValue::I16(x) => {
            let mut t = u16_to_le_bytes(x as u16);
            bytes.append(&mut t);
        },
        PValue::F16(x) => {
            let mut t = u16_to_le_bytes(x);
            bytes.append(&mut t);
        },
        PValue::U32(x) => {
            let mut t = u32_to_le_bytes(x);
            bytes.append(&mut t);
        },
        PValue::I32(x) => {
            let mut t = u32_to_le_bytes(x as u32);
            bytes.append(&mut t);
        },
        PValue::F32(x) => {
            let mut t = u32_to_le_bytes(x);
            bytes.append(&mut t);
        },
        PValue::U64(x) => {
            let mut t = u64_to_le_bytes(x);
            bytes.append(&mut t);
        },
        PValue::I64(x) => {
            let mut t = u64_to_le_bytes(x as u64);
            bytes.append(&mut t);
        },
        PValue::F64(x) => {
            let mut t = u64_to_le_bytes(x);
            bytes.append(&mut t);
        },
    }
}

/// After appending the bytes of one element of type `pt` to a buffer that
/// held `n` whole elements, position `n` reads the new value and the old
/// positions read as before.
pub proof fn lemma_push_pvalue(pt: PType, b1: Seq<u8>, v: PValue, n: int)
    requires
        v.spec_ptype() == pt,
        n >= 0,
        b1.len() == n * pt.spec_byte_width(),
    ensures
        spec_pvalue_at(pt, b1 + le_bytes_of(v), n) == v,
        forall|i: int| 0 <= i < n ==> spec_pvalue_at(pt, b1 + le_bytes_of(v), i) == spec_pvalue_at(
            pt,
            b1,
            i,
        ),
        (b1 + le_bytes_of(v)).len() == (n + 1) * pt.spec_byte_width(),
{
    let w = pt.spec_byte_width() as int;
    let b2 = b1 + le_bytes_of(v);
    lemma_le_bytes_roundtrip(v);
    assert(n * w + w == (n + 1) * w) by (nonlinear_arith);
    assert(b2.subrange(n * w, (n + 1) * w) =~= le_bytes_of(v).subrange(0, w));
    lemma_pvalue_at_frame(pt, le_bytes_of(v), b2, 0, n);
    assert forall|i: int| 0 <= i < n implies spec_pvalue_at(pt, b2, i) == spec_pvalue_at(
        pt,
        b1,
        i,
    ) by {
        assert((i + 1) * w <= n * w && 0 <= i * w) by (nonlinear_arith)
            requires
                0 <= i < n,
                w >= 1,
        ;
        assert(b2.subrange(i * w, (i + 1) * w) =~= b1.subrange(i * w, (i + 1) * w));
        lemma_pvalue_at_frame(pt, b2, b1, i, i);
    }
}

/// A buffer sliced on whole-element boundaries reads, at each position, what
/// the original read at the shifted position.
pub proof fn lemma_pvalue_at_subrange(pt: PType, b: Seq<u8>, s: int, e: int, i: int)
    requires
        0 <= s <= e,
        e * pt.spec_byte_width() <= b.len(),
        0 <= i < e - s,
    ensures
        spec_pvalue_at(pt, b.subrange(s * pt.spec_byte_width(), e * pt.spec_byte_width()), i)
            == spec_pvalue_at(pt, b, s + i),
{
    let w = pt.spec_byte_width() as int;
    let sub = b.subrange(s * w, e * w);
    assert((i + 1) * w <= (e - s) * w && 0 <= i * w && (s + i + 1) * w <= e * w && i * w + s * w
        == (s + i) * w && (i + 1) * w + s * w == (s + i + 1) * w) by (nonlinear_arith)
        requires
            0 <= i < e - s,
            0 <= s <= e,
            w >= 1,
    ;
    assert(sub.subrange(i * w, (i + 1) * w) =~= b.subrange((s + i) * w, (s + i + 1) * w));
    lemma_pvalue_at_frame(pt, sub, b, i, s + i);
}

} // verus!
