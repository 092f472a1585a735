//! Writing and reading files.
//!
//! A file is: magic, then per batch and per column a length-prefixed array
//! message, then the schema, the root layout, the postscript, and the
//! eight-byte end-of-file marker. The writer canonicalizes each batch column
//! and records its byte range; the layout tree mirrors the chunking — a
//! chunked root, one columnar child per batch, one flat leaf per column.
//! Reading resolves the marker, the postscript and the layout, then decodes
//! the selected columns' ranges, assembles struct batches, and applies the
//! row filter and row indices.

use vstd::bytes::{
    spec_u16_to_le_bytes, u16_from_le_bytes, u16_to_le_bytes, u32_from_le_bytes, u32_to_le_bytes,
    u64_from_le_bytes, u64_to_le_bytes,
};
use vstd::pervasive::unreached;
use vstd::prelude::*;
use vstd::slice::{slice_subrange, slice_to_vec};
use vstd::string::{StrSliceExecFns, StringSliceAdditionalSpecFns};

use crate::array::{sdtype, wf, Array, BoolArray, NullArray, PrimitiveArray, StructArray,
    VarBinViewArray};
use crate::dtype::{DType, Nullability, PType};
use crate::error::VortexError;
use crate::footer::{
    Buffer, Layout, Postscript, CHUNKED_LAYOUT_ID, COLUMNAR_LAYOUT_ID, FLAT_LAYOUT_ID,
};
use crate::codec::{extends, lemma_extends_trans};
use crate::scalar::PValue;
use crate::validity::Validity;

verus! {

broadcast use crate::codec::lemma_extends_trans;

/// The four magic bytes at both ends of a file.
pub open spec fn spec_magic() -> Seq<u8> {
    seq![86u8, 84u8, 88u8, 70u8]
}

/// The magic bytes `VTXF`, as written.
pub fn magic_bytes() -> (r: Vec<u8>)
    ensures
        r@ == spec_magic(),
{
    let mut v: Vec<u8> = Vec::new();
    v.push(86);
    v.push(84);
    v.push(88);
    v.push(70);
    proof {
        assert(v@ =~= spec_magic());
    }
    v
}

/// The eight bytes of the end-of-file marker: version, postscript length,
/// magic.
pub open spec fn spec_eof(version: u16, footer_length: u16) -> Seq<u8> {
    spec_u16_to_le_bytes(version) + spec_u16_to_le_bytes(footer_length) + spec_magic()
}

/// Append the end-of-file marker.
pub fn write_eof(out: &mut Vec<u8>, version: u16, footer_length: u16)
    ensures
        final(out)@ == old(out)@ + spec_eof(version, footer_length),
        final(out)@.len() == old(out)@.len() + 8,
{
    let ghost base = out@;
    let mut t = u16_to_le_bytes(version);
    out.append(&mut t);
    let mut t = u16_to_le_bytes(footer_length);
    out.append(&mut t);
    let mut m = magic_bytes();
    out.append(&mut m);
    proof {
        vstd::bytes::lemma_auto_spec_u16_to_from_le_bytes();
        assert(out@ =~= base + spec_eof(version, footer_length));
    }
}

/// Decode an end-of-file marker: succeeds exactly on eight bytes carrying
/// this crate's version and the magic, and then returns the encoded version
/// and postscript length.
pub fn read_eof(tail: &Vec<u8>) -> (r: Result<(u16, u16), VortexError>)
    ensures
        forall|v: u16, fl: u16|
            tail@ == spec_eof(v, fl) && v == crate::VERSION ==> r == Ok::<(u16, u16), VortexError>(
                (v, fl),
            ),
        r matches Ok((v, fl)) ==> tail@ == spec_eof(v, fl) && v == crate::VERSION,
        !(exists|fl: u16| tail@ == spec_eof(crate::VERSION, fl)) ==> r == Err::<
            (u16, u16),
            VortexError,
        >(VortexError::InvalidSerialization),
{
    proof {
        vstd::bytes::lemma_auto_spec_u16_to_from_le_bytes();
        assert forall|v: u16, fl: u16| tail@ == spec_eof(v, fl) implies {
            &&& tail@.len() == 8
            &&& tail@.subrange(0, 2) == spec_u16_to_le_bytes(v)
            &&& tail@.subrange(2, 4) == spec_u16_to_le_bytes(fl)
            &&& tail@.subrange(4, 8) == spec_magic()
        } by {
            assert(tail@.subrange(0, 2) =~= spec_u16_to_le_bytes(v));
            assert(tail@.subrange(2, 4) =~= spec_u16_to_le_bytes(fl));
            assert(tail@.subrange(4, 8) =~= spec_magic());
        }
    }
    if tail.len() != 8 {
        return Err(VortexError::InvalidSerialization);
    }
    let version = u16_from_le_bytes(slice_subrange(tail.as_slice(), 0, 2));
    let footer_length = u16_from_le_bytes(slice_subrange(tail.as_slice(), 2, 4));
    if !(tail[4] == 86 && tail[5] == 84 && tail[6] == 88 && tail[7] == 70) {
        return Err(VortexError::InvalidSerialization);
    }
    if version != crate::VERSION {
        return Err(VortexError::InvalidSerialization);
    }
    proof {
        vstd::bytes::lemma_auto_spec_u16_to_from_le_bytes();
        assert(tail@ =~= spec_eof(version, footer_length));
    }
    Ok((version, footer_length))
}

/// The bytes a length-prefixed chunk serializes to.
pub open spec fn len_bytes_enc(bytes: Seq<u8>) -> Seq<u8> {
    vstd::bytes::spec_u32_to_le_bytes(bytes.len() as u32) + bytes
}

/// Append a 32-bit length, then the bytes.
fn push_len_bytes(out: &mut Vec<u8>, bytes: &Vec<u8>) -> (r: Result<(), VortexError>)
    ensures
        extends(final(out)@, old(out)@),
        r is Err ==> final(out)@ == old(out)@,
        bytes@.len() <= u32::MAX ==> r is Ok,
        r is Ok ==> final(out)@ == old(out)@ + len_bytes_enc(bytes@),
{
    if bytes.len() > u32::MAX as usize {
        proof {
            assert(out@.subrange(0, out@.len() as int) =~= out@);
        }
        return Err(VortexError::InvalidSerialization);
    }
    let mut t = u32_to_le_bytes(bytes.len() as u32);
    out.append(&mut t);
    let mut b = crate::dtype::clone_bytes(bytes);
    out.append(&mut b);
    proof {
        assert(out@.subrange(0, old(out)@.len() as int) =~= old(out)@);
        assert(out@ =~= old(out)@ + len_bytes_enc(bytes@));
    }
    Ok(())
}

/// Read a 32-bit length, then that many bytes. Returns the bytes and the
/// position after them; reading what `push_len_bytes` wrote at the same
/// position returns the written bytes.
fn read_len_bytes(buf: &Vec<u8>, pos: usize) -> (r: Result<(Vec<u8>, usize), VortexError>)
    ensures
        r matches Ok((_, p)) ==> pos < p <= buf@.len() || (pos + 4 <= buf@.len() && p == pos + 4),
        forall|bs: Seq<u8>|
            pos + len_bytes_enc(bs).len() <= buf@.len() && #[trigger] buf@.subrange(
                pos as int,
                pos + len_bytes_enc(bs).len(),
            ) == len_bytes_enc(bs) && bs.len() <= u32::MAX ==> (r matches Ok((out, p)) && out@
                == bs && p == pos + len_bytes_enc(bs).len()),
{
    proof {
        vstd::bytes::lemma_auto_spec_u32_to_from_le_bytes();
        assert forall|bs: Seq<u8>|
            pos + len_bytes_enc(bs).len() <= buf@.len() && #[trigger] buf@.subrange(
                pos as int,
                pos + len_bytes_enc(bs).len(),
            ) == len_bytes_enc(bs) && bs.len() <= u32::MAX implies buf@.subrange(
            pos as int,
            pos + 4,
        ) == vstd::bytes::spec_u32_to_le_bytes(bs.len() as u32) && buf@.subrange(
            pos + 4,
            pos + 4 + bs.len() as int,
        ) == bs by {
            assert(buf@.subrange(pos as int, pos + 4) =~= len_bytes_enc(bs).subrange(0, 4));
            assert(len_bytes_enc(bs).subrange(0, 4) =~= vstd::bytes::spec_u32_to_le_bytes(
                bs.len() as u32,
            ));
            assert(buf@.subrange(pos + 4, pos + 4 + bs.len() as int) =~= len_bytes_enc(
                bs,
            ).subrange(4, 4 + bs.len() as int));
            assert(len_bytes_enc(bs).subrange(4, 4 + bs.len() as int) =~= bs);
        }
    }
    let n = buf.len();
    if pos > n || n - pos < 4 {
        return Err(VortexError::InvalidSerialization);
    }
    let len = u32_from_le_bytes(slice_subrange(buf.as_slice(), pos, pos + 4)) as usize;
    if len > n - pos - 4 {
        return Err(VortexError::InvalidSerialization);
    }
    let bytes = slice_to_vec(slice_subrange(buf.as_slice(), pos + 4, pos + 4 + len));
    Ok((bytes, pos + 4 + len))
}

/// Serialize a logical type, recursively: a tag byte, then the variant's own
/// fields.
pub fn write_dtype(out: &mut Vec<u8>, d: &DType) -> (r: Result<(), VortexError>)
    ensures
        extends(final(out)@, old(out)@),
    decreases *d,
{
    proof {
        assert(out@.subrange(0, out@.len() as int) =~= out@);
    }
    match d {
        DType::Null => {
            out.push(0);
            proof {
                assert(out@.subrange(0, old(out)@.len() as int) =~= old(out)@);
            }
            Ok(())
        },
        DType::Bool(n) => {
            out.push(1);
            out.push(nullability_tag(n));
            proof {
                assert(out@.subrange(0, old(out)@.len() as int) =~= old(out)@);
            }
            Ok(())
        },
        DType::Primitive(pt, n) => {
            out.push(2);
            out.push(ptype_tag(pt));
            out.push(nullability_tag(n));
            proof {
                assert(out@.subrange(0, old(out)@.len() as int) =~= old(out)@);
            }
            Ok(())
        },
        DType::Utf8(n) => {
            out.push(3);
            out.push(nullability_tag(n));
            proof {
                assert(out@.subrange(0, old(out)@.len() as int) =~= old(out)@);
            }
            Ok(())
        },
        DType::Binary(n) => {
            out.push(4);
            out.push(nullability_tag(n));
            proof {
                assert(out@.subrange(0, old(out)@.len() as int) =~= old(out)@);
            }
            Ok(())
        },
        DType::Struct(names, children, n) => {
            out.push(5);
            out.push(nullability_tag(n));
            proof {
                assert(out@.subrange(0, old(out)@.len() as int) =~= old(out)@);
            }
            if names.len() != children.len() || names.len() > u32::MAX as usize {
                return Err(VortexError::InvalidSerialization);
            }
            let mut t = u32_to_le_bytes(names.len() as u32);
            out.append(&mut t);
            proof {
                assert(out@.subrange(0, old(out)@.len() as int) =~= old(out)@);
            }
            let mut i: usize = 0;
            #[verifier::loop_isolation(false)]
            while i < names.len()
                invariant
                    names@.len() == children@.len(),
                    extends(out@, old(out)@),
                decreases names@.len() - i,
            {
                if i < names.len() {
                    let nb = str_bytes(&names[i]);
                    let ghost pre = out@;
                    match push_len_bytes(out, &nb) {
                        Ok(_) => {},
                        Err(e) => {
                            proof {
                                lemma_extends_trans(out@, pre, old(out)@);
                            }
                            return Err(e);
                        },
                    }
                    proof {
                        lemma_extends_trans(out@, pre, old(out)@);
                    }
                    proof {
                        assert(decreases_to!(*d => *children));
                        assert(decreases_to!(*children => children@));
                        assert(decreases_to!(children@ => children@[i as int]));
                    }
                    let ghost mid = out@;
                    match write_dtype(out, &children[i]) {
                        Ok(_) => {},
                        Err(e) => {
                            proof {
                                lemma_extends_trans(out@, mid, old(out)@);
                            }
                            return Err(e);
                        },
                    }
                    proof {
                        lemma_extends_trans(out@, mid, old(out)@);
                    }
                }
                i = i + 1;
            }
            Ok(())
        },
        DType::List(elem, n) => {
            out.push(6);
            out.push(nullability_tag(n));
            proof {
                assert(out@.subrange(0, old(out)@.len() as int) =~= old(out)@);
            }
            let ghost pre = out@;
            let r = write_dtype(out, elem);
            proof {
                lemma_extends_trans(out@, pre, old(out)@);
            }
            r
        },
        DType::Extension(id, storage, meta, n) => {
            out.push(7);
            out.push(nullability_tag(n));
            proof {
                assert(out@.subrange(0, old(out)@.len() as int) =~= old(out)@);
            }
            let ib = str_bytes(id);
            let ghost pre1 = out@;
            match push_len_bytes(out, &ib) {
                Ok(_) => {},
                Err(e) => {
                    proof {
                        lemma_extends_trans(out@, pre1, old(out)@);
                    }
                    return Err(e);
                },
            }
            proof {
                lemma_extends_trans(out@, pre1, old(out)@);
            }
            let ghost pre2 = out@;
            match push_len_bytes(out, meta) {
                Ok(_) => {},
                Err(e) => {
                    proof {
                        lemma_extends_trans(out@, pre2, old(out)@);
                    }
                    return Err(e);
                },
            }
            proof {
                lemma_extends_trans(out@, pre2, old(out)@);
            }
            let ghost pre3 = out@;
            let r = write_dtype(out, storage);
            proof {
                lemma_extends_trans(out@, pre3, old(out)@);
            }
            r
        },
    }
}

/// Decode a logical type. Returns the type and the position after it.
pub fn read_dtype(buf: &Vec<u8>, pos: usize, depth: usize) -> (r: Result<
    (DType, usize),
    VortexError,
>)
    decreases depth,
{
    if depth == 0 {
        return Err(VortexError::InvalidSerialization);
    }
    let n = buf.len();
    if pos >= n {
        return Err(VortexError::InvalidSerialization);
    }
    let tag = buf[pos];
    if tag == 0 {
        return Ok((DType::Null, pos + 1));
    }
    if n - pos < 2 {
        return Err(VortexError::InvalidSerialization);
    }
    if tag == 1 {
        let nl = read_nullability(buf[pos + 1])?;
        return Ok((DType::Bool(nl), pos + 2));
    }
    if tag == 2 {
        if n - pos < 3 {
            return Err(VortexError::InvalidSerialization);
        }
        let pt = read_ptype(buf[pos + 1])?;
        let nl = read_nullability(buf[pos + 2])?;
        return Ok((DType::Primitive(pt, nl), pos + 3));
    }
    if tag == 3 {
        let nl = read_nullability(buf[pos + 1])?;
        return Ok((DType::Utf8(nl), pos + 2));
    }
    if tag == 4 {
        let nl = read_nullability(buf[pos + 1])?;
        return Ok((DType::Binary(nl), pos + 2));
    }
    if tag == 5 {
        let nl = read_nullability(buf[pos + 1])?;
        let mut p = pos + 2;
        if p > n || n - p < 4 {
            return Err(VortexError::InvalidSerialization);
        }
        let count = u32_from_le_bytes(slice_subrange(buf.as_slice(), p, p + 4)) as usize;
        p = p + 4;
        let mut names: Vec<String> = Vec::new();
        let mut children: Vec<DType> = Vec::new();
        let mut i: usize = 0;
        #[verifier::loop_isolation(false)]
        while i < count
            invariant
                depth >= 1,
            decreases count - i,
        {
            let (nb, p2) = read_len_bytes(buf, p)?;
            let name = match string_from_utf8(nb) {
                Some(s) => s,
                None => {
                    return Err(VortexError::InvalidSerialization);
                },
            };
            let (child, p3) = read_dtype(buf, p2, depth - 1)?;
            names.push(name);
            children.push(child);
            p = p3;
            i = i + 1;
        }
        return Ok((DType::Struct(names, children, nl), p));
    }
    if tag == 6 {
        let nl = read_nullability(buf[pos + 1])?;
        let (elem, p2) = read_dtype(buf, pos + 2, depth - 1)?;
        return Ok((DType::List(Box::new(elem), nl), p2));
    }
    if tag == 7 {
        let nl = read_nullability(buf[pos + 1])?;
        let (ib, p2) = read_len_bytes(buf, pos + 2)?;
        let id = match string_from_utf8(ib) {
            Some(s) => s,
            None => {
                return Err(VortexError::InvalidSerialization);
            },
        };
        let (meta, p3) = read_len_bytes(buf, p2)?;
        let (storage, p4) = read_dtype(buf, p3, depth - 1)?;
        return Ok((DType::Extension(id, Box::new(storage), meta, nl), p4));
    }
    Err(VortexError::InvalidSerialization)
}

/// The serialized tag of a nullability.
fn nullability_tag(n: &Nullability) -> (r: u8) {
    match n {
        Nullability::NonNullable => 0,
        Nullability::Nullable => 1,
    }
}

/// Decode a nullability tag.
fn read_nullability(t: u8) -> (r: Result<Nullability, VortexError>) {
    if t == 0 {
        Ok(Nullability::NonNullable)
    } else if t == 1 {
        Ok(Nullability::Nullable)
    } else {
        Err(VortexError::InvalidSerialization)
    }
}

/// The serialized tag of a primitive type.
fn ptype_tag(pt: &PType) -> (r: u8) {
    match pt {
        PType::I8 => 0,
        PType::I16 => 1,
        PType::I32 => 2,
        PType::I64 => 3,
        PType::U8 => 4,
        PType::U16 => 5,
        PType::U32 => 6,
        PType::U64 => 7,
        PType::F16 => 8,
        PType::F32 => 9,
        PType::F64 => 10,
    }
}

/// Decode a primitive type tag.
fn read_ptype(t: u8) -> (r: Result<PType, VortexError>) {
    match t {
        0 => Ok(PType::I8),
        1 => Ok(PType::I16),
        2 => Ok(PType::I32),
        3 => Ok(PType::I64),
        4 => Ok(PType::U8),
        5 => Ok(PType::U16),
        6 => Ok(PType::U32),
        7 => Ok(PType::U64),
        8 => Ok(PType::F16),
        9 => Ok(PType::F32),
        10 => Ok(PType::F64),
        _ => Err(VortexError::InvalidSerialization),
    }
}

/// The UTF-8 bytes of a string.
fn str_bytes(s: &String) -> (r: Vec<u8>)
    ensures
        r@ == vstd::utf8::encode_utf8(s@),
{
    s.as_str().as_bytes_vec()
}

/// A string from UTF-8 bytes, or nothing when the bytes are not UTF-8.
/// Relies on String::from_utf8, which succeeds exactly on valid UTF-8 and
/// then wraps the given bytes unchanged.
#[verifier::external_body]
fn string_from_utf8(bytes: Vec<u8>) -> (r: Option<String>)
    ensures
        (r is Some) == vstd::utf8::valid_utf8(bytes@),
        r matches Some(s) ==> vstd::utf8::encode_utf8(s@) == bytes@,
{
    String::from_utf8(bytes).ok()
}

/// The byte each mask entry serializes to.
pub open spec fn bool_bytes(m: Seq<bool>) -> Seq<u8> {
    Seq::new(
        m.len(),
        |i: int|
            if m[i] {
                1u8
            } else {
                0u8
            },
    )
}

/// The bytes a validity serializes to: a tag, and for a mask its
/// length-prefixed entries.
pub open spec fn validity_enc(v: &Validity) -> Seq<u8> {
    match v {
        Validity::NonNullable => seq![0u8],
        Validity::AllValid => seq![1u8],
        Validity::AllInvalid => seq![2u8],
        Validity::Array(m) => seq![3u8] + len_bytes_enc(bool_bytes(m@)),
    }
}

/// Whether two validities mean the same thing, mask for mask.
pub open spec fn validity_equiv(a: &Validity, b: &Validity) -> bool {
    match (a, b) {
        (Validity::NonNullable, Validity::NonNullable) => true,
        (Validity::AllValid, Validity::AllValid) => true,
        (Validity::AllInvalid, Validity::AllInvalid) => true,
        (Validity::Array(m1), Validity::Array(m2)) => m1@ == m2@,
        _ => false,
    }
}

/// Serialize a validity: exactly its encoding is appended; only a mask too
/// long for its 32-bit count is refused.
fn write_validity(out: &mut Vec<u8>, v: &Validity) -> (r: Result<(), VortexError>)
    ensures
        extends(final(out)@, old(out)@),
        r is Ok ==> final(out)@ == old(out)@ + validity_enc(v),
        (v matches Validity::Array(m) ==> m@.len() <= u32::MAX) ==> r is Ok,
{
    match v {
        Validity::NonNullable => {
            out.push(0);
            proof {
                assert(out@.subrange(0, old(out)@.len() as int) =~= old(out)@);
                assert(out@ =~= old(out)@ + validity_enc(v));
            }
            Ok(())
        },
        Validity::AllValid => {
            out.push(1);
            proof {
                assert(out@.subrange(0, old(out)@.len() as int) =~= old(out)@);
                assert(out@ =~= old(out)@ + validity_enc(v));
            }
            Ok(())
        },
        Validity::AllInvalid => {
            out.push(2);
            proof {
                assert(out@.subrange(0, old(out)@.len() as int) =~= old(out)@);
                assert(out@ =~= old(out)@ + validity_enc(v));
            }
            Ok(())
        },
        Validity::Array(mask) => {
            out.push(3);
            let ghost mid = out@;
            proof {
                assert(extends(out@, old(out)@)) by {
                    assert(out@.subrange(0, old(out)@.len() as int) =~= old(out)@);
                }
            }
            let mut bytes: Vec<u8> = Vec::new();
            let mut i: usize = 0;
            #[verifier::loop_isolation(false)]
            while i < mask.len()
                invariant
                    0 <= i <= mask@.len(),
                    bytes@ == bool_bytes(mask@).subrange(0, i as int),
                decreases mask@.len() - i,
            {
                bytes.push(if mask[i] {
                    1
                } else {
                    0
                });
                proof {
                    assert(bytes@ =~= bool_bytes(mask@).subrange(0, i + 1));
                }
                i = i + 1;
            }
            proof {
                assert(bytes@ =~= bool_bytes(mask@));
            }
            let r = push_len_bytes(out, &bytes);
            proof {
                if r is Ok {
                    assert(out@ =~= old(out)@ + validity_enc(v));
                }
            }
            r
        },
    }
}

/// Whether a validity's encoding is faithful: a mask must fit its 32-bit
/// count.
pub open spec fn validity_enc_ok(v: &Validity) -> bool {
    match v {
        Validity::Array(m) => m@.len() <= u32::MAX,
        _ => true,
    }
}

/// Decode a validity: reading what `write_validity` wrote at the same
/// position returns an equivalent validity and the position after it.
fn read_validity(buf: &Vec<u8>, pos: usize) -> (r: Result<(Validity, usize), VortexError>)
    ensures
        forall|v: Validity|
            validity_enc_ok(&v) && pos + validity_enc(&v).len() <= buf@.len()
                && #[trigger] buf@.subrange(pos as int, pos + validity_enc(&v).len())
                == validity_enc(&v) ==> (r matches Ok((v2, p)) && validity_equiv(&v2, &v) && p
                == pos + validity_enc(&v).len()),
{
    if pos >= buf.len() {
        return Err(VortexError::InvalidSerialization);
    }
    let ghost tagv = buf@[pos as int];
    proof {
        assert forall|v: Validity|
            validity_enc_ok(&v) && pos + validity_enc(&v).len() <= buf@.len()
                && #[trigger] buf@.subrange(pos as int, pos + validity_enc(&v).len())
                == validity_enc(&v) implies buf@[pos as int] == validity_enc(&v)[0] by {
            assert(buf@.subrange(pos as int, pos + validity_enc(&v).len())[0] == validity_enc(
                &v,
            )[0]);
        }
    }
    let tag = buf[pos];
    if tag == 0 {
        return Ok((Validity::NonNullable, pos + 1));
    }
    if tag == 1 {
        return Ok((Validity::AllValid, pos + 1));
    }
    if tag == 2 {
        return Ok((Validity::AllInvalid, pos + 1));
    }
    if tag == 3 {
        proof {
            assert forall|v: Validity|
                validity_enc_ok(&v) && pos + validity_enc(&v).len() <= buf@.len()
                    && #[trigger] buf@.subrange(pos as int, pos + validity_enc(&v).len())
                    == validity_enc(&v) implies (v matches Validity::Array(m) && buf@.subrange(
                pos + 1,
                pos + 1 + len_bytes_enc(bool_bytes(m@)).len(),
            ) == len_bytes_enc(bool_bytes(m@)) && pos + 1 + len_bytes_enc(bool_bytes(m@)).len()
                <= buf@.len()) by {
                let enc = validity_enc(&v);
                assert(buf@.subrange(pos as int, pos + enc.len())[0] == enc[0]);
                match v {
                    Validity::Array(m) => {
                        let bs = bool_bytes(m@);
                        let sub = buf@.subrange(pos as int, pos + enc.len());
                        assert(buf@.subrange(pos + 1, pos + 1 + len_bytes_enc(bs).len())
                            =~= sub.subrange(1, enc.len() as int));
                        assert(sub.subrange(1, enc.len() as int) =~= len_bytes_enc(bs));
                    },
                    _ => {
                        assert(false);
                    },
                }
            }
        }
        let (bytes, p2) = read_len_bytes(buf, pos + 1)?;
        let mut mask: Vec<bool> = Vec::new();
        let mut i: usize = 0;
        #[verifier::loop_isolation(false)]
        while i < bytes.len()
            invariant
                0 <= i <= bytes@.len(),
                mask@.len() == i,
                forall|k: int| 0 <= k < i ==> mask@[k] == (bytes@[k] != 0),
            decreases bytes@.len() - i,
        {
            mask.push(bytes[i] != 0);
            i = i + 1;
        }
        proof {
            assert forall|v: Validity|
                validity_enc_ok(&v) && pos + validity_enc(&v).len() <= buf@.len()
                    && #[trigger] buf@.subrange(pos as int, pos + validity_enc(&v).len())
                    == validity_enc(&v) implies (validity_equiv(&Validity::Array(mask), &v) && p2
                == pos + validity_enc(&v).len()) by {
                match v {
                    Validity::Array(m) => {
                        let bs = bool_bytes(m@);
                        let enc = validity_enc(&v);
                        assert(enc.len() == 1 + len_bytes_enc(bs).len());
                        assert(bytes@ == bs);
                        assert(mask@ =~= m@);
                    },
                    _ => {
                        let enc = validity_enc(&v);
                        assert(buf@.subrange(pos as int, pos + enc.len())[0] == enc[0]);
                        assert(false);
                    },
                }
            }
        }
        return Ok((Validity::Array(mask), p2));
    }
    proof {
        assert forall|v: Validity|
            validity_enc_ok(&v) && pos + validity_enc(&v).len() <= buf@.len()
                && #[trigger] buf@.subrange(pos as int, pos + validity_enc(&v).len())
                == validity_enc(&v) implies false by {
            let enc = validity_enc(&v);
            assert(buf@.subrange(pos as int, pos + enc.len())[0] == enc[0]);
        }
    }
    Err(VortexError::InvalidSerialization)
}

/// Serialize one canonical array node, recursively: its encoding code, its
/// length, and the encoding's own parts. Compressed nodes are canonicalized
/// by the writer before they reach this point. Only appends: everything
/// already in the buffer stays.
pub fn write_array_message(out: &mut Vec<u8>, a: &Array) -> (r: Result<(), VortexError>)
    requires
        wf(*a),
    ensures
        extends(final(out)@, old(out)@),
    decreases *a,
{
    proof {
        assert(out@.subrange(0, out@.len() as int) =~= out@);
    }
    let ctx = crate::encoding::SerdeContext::standard();
    match a {
        Array::Null(nu) => {
            let mut t = u16_to_le_bytes(message_code(&ctx, crate::encoding::EncodingId::Null));
            out.append(&mut t);
            let mut t = u64_to_le_bytes(nu.len as u64);
            out.append(&mut t);
            proof {
                assert(out@.subrange(0, old(out)@.len() as int) =~= old(out)@);
            }
            Ok(())
        },
        Array::Bool(b) => {
            let mut t = u16_to_le_bytes(message_code(&ctx, crate::encoding::EncodingId::Bool));
            out.append(&mut t);
            let mut t = u64_to_le_bytes(b.values.len() as u64);
            out.append(&mut t);
            proof {
                assert(extends(out@, old(out)@)) by {
                    assert(out@.subrange(0, old(out)@.len() as int) =~= old(out)@);
                }
            }
            write_validity(out, &b.validity)?;
            proof {
                assert(extends(out@, old(out)@));
            }
            let mut bytes: Vec<u8> = Vec::new();
            let mut i: usize = 0;
            #[verifier::loop_isolation(false)]
            while i < b.values.len()
                decreases b.values@.len() - i,
            {
                bytes.push(if b.values[i] {
                    1
                } else {
                    0
                });
                i = i + 1;
            }
            push_len_bytes(out, &bytes)
        },
        Array::Primitive(p) => {
            let mut t = u16_to_le_bytes(
                message_code(&ctx, crate::encoding::EncodingId::Primitive),
            );
            out.append(&mut t);
            let w = p.ptype.byte_width();
            let n = p.bytes.len() / w;
            let mut t = u64_to_le_bytes(n as u64);
            out.append(&mut t);
            out.push(ptype_tag(&p.ptype));
            proof {
                assert(extends(out@, old(out)@)) by {
                    assert(out@.subrange(0, old(out)@.len() as int) =~= old(out)@);
                }
            }
            write_validity(out, &p.validity)?;
            proof {
                assert(extends(out@, old(out)@));
            }
            push_len_bytes(out, &p.bytes)
        },
        Array::VarBinView(v) => {
            let mut t = u16_to_le_bytes(
                message_code(&ctx, crate::encoding::EncodingId::VarBinView),
            );
            out.append(&mut t);
            let vp = match &*v.views {
                Array::Primitive(p) => p,
                _ => unreached(),
            };
            let n = vp.bytes.len() / 16;
            let mut t = u64_to_le_bytes(n as u64);
            out.append(&mut t);
            out.push(
                if matches!(&v.dtype, DType::Utf8(_)) {
                    1
                } else {
                    0
                },
            );
            out.push(nullability_tag(&v.validity.nullability()));
            proof {
                assert(extends(out@, old(out)@)) by {
                    assert(out@.subrange(0, old(out)@.len() as int) =~= old(out)@);
                }
            }
            write_validity(out, &v.validity)?;
            proof {
                assert(extends(out@, old(out)@));
            }
            push_len_bytes(out, &vp.bytes)?;
            proof {
                assert(extends(out@, old(out)@));
            }
            if v.data.len() > u32::MAX as usize {
                return Err(VortexError::InvalidSerialization);
            }
            let mut t = u32_to_le_bytes(v.data.len() as u32);
            out.append(&mut t);
            proof {
                assert(extends(out@, old(out)@)) by {
                    assert(out@.subrange(0, old(out)@.len() as int) =~= old(out)@);
                }
            }
            let mut i: usize = 0;
            #[verifier::loop_isolation(false)]
            while i < v.data.len()
                invariant
                    crate::array::all_wf(v.data@),
                    extends(out@, old(out)@),
                decreases v.data@.len() - i,
            {
                proof {
                    assert(wf(v.data@[i as int]));
                }
                let db = match &v.data[i] {
                    Array::Primitive(p) => p,
                    _ => unreached(),
                };
                push_len_bytes(out, &db.bytes)?;
                proof {
                    assert(extends(out@, old(out)@));
                }
                i = i + 1;
            }
            Ok(())
        },
        Array::Struct(st) => {
            let mut t = u16_to_le_bytes(message_code(&ctx, crate::encoding::EncodingId::Struct));
            out.append(&mut t);
            let mut t = u64_to_le_bytes(st.len as u64);
            out.append(&mut t);
            proof {
                assert(extends(out@, old(out)@)) by {
                    assert(out@.subrange(0, old(out)@.len() as int) =~= old(out)@);
                }
            }
            write_validity(out, &st.validity)?;
            proof {
                assert(extends(out@, old(out)@));
            }
            if st.names.len() > u32::MAX as usize {
                return Err(VortexError::InvalidSerialization);
            }
            let mut t = u32_to_le_bytes(st.names.len() as u32);
            out.append(&mut t);
            proof {
                assert(extends(out@, old(out)@)) by {
                    assert(out@.subrange(0, old(out)@.len() as int) =~= old(out)@);
                }
            }
            let mut i: usize = 0;
            #[verifier::loop_isolation(false)]
            while i < st.names.len()
                invariant
                    crate::array::all_wf(st.fields@),
                    st.names@.len() == st.fields@.len(),
                    extends(out@, old(out)@),
                decreases st.names@.len() - i,
            {
                let nb = str_bytes(&st.names[i]);
                push_len_bytes(out, &nb)?;
                proof {
                    assert(extends(out@, old(out)@));
                }
                proof {
                    assert(decreases_to!(*a => *st));
                    assert(decreases_to!(*st => st.fields));
                    assert(decreases_to!(st.fields => st.fields@));
                    assert(decreases_to!(st.fields@ => st.fields@[i as int]));
                    assert(wf(st.fields@[i as int]));
                }
                write_array_message(out, &st.fields[i])?;
                proof {
                    assert(extends(out@, old(out)@));
                }
                i = i + 1;
            }
            Ok(())
        },
        _ => Err(VortexError::TypeMismatch),
    }
}

/// The serialized code of an encoding the standard registry always holds.
fn message_code(ctx: &crate::encoding::SerdeContext, id: crate::encoding::EncodingId) -> (r: u16)
    requires
        ctx.encodings@.contains(id),
        ctx.encodings@.len() <= 0x10000,
    ensures
        (r as int) < ctx.encodings@.len(),
        ctx.encodings@[r as int] == id,
{
    match ctx.encoding_idx(id) {
        Some(c) => c,
        None => {
            proof {
                let w = choose|w: int|
                    0 <= w < ctx.encodings@.len() && ctx.encodings@[w] == id;
                assert(false);
            }
            unreached()
        },
    }
}

/// Decode one array node. Returns a well-formed array and the position after
/// it; a code the registry does not pair with a message decoder is
/// `UnknownEncoding`, other malformed bytes are `InvalidSerialization`.
pub fn read_array_message(buf: &Vec<u8>, pos: usize, depth: usize) -> (r: Result<
    (Array, usize),
    VortexError,
>)
    ensures
        r matches Ok((a, _)) ==> wf(a),
    decreases depth,
{
    if depth == 0 {
        return Err(VortexError::InvalidSerialization);
    }
    let n = buf.len();
    if pos > n || n - pos < 10 {
        return Err(VortexError::InvalidSerialization);
    }
    let code = u16_from_le_bytes(slice_subrange(buf.as_slice(), pos, pos + 2));
    let len64 = u64_from_le_bytes(slice_subrange(buf.as_slice(), pos + 2, pos + 10));
    if len64 > usize::MAX as u64 {
        return Err(VortexError::InvalidSerialization);
    }
    let alen_ = len64 as usize;
    let p0 = pos + 10;
    let ctx = crate::encoding::SerdeContext::standard();
    let encoding = match ctx.find_encoding(code) {
        Some(e) => e,
        None => {
            // A code this build has never heard of.
            return Err(VortexError::UnknownEncoding);
        },
    };
    if matches!(encoding, crate::encoding::EncodingId::Null) {
        return Ok((Array::Null(NullArray::new(alen_)), p0));
    }
    if matches!(encoding, crate::encoding::EncodingId::Bool) {
        let (validity, p1) = read_validity(buf, p0)?;
        let (bytes, p2) = read_len_bytes(buf, p1)?;
        let mut values: Vec<bool> = Vec::new();
        let mut i: usize = 0;
        #[verifier::loop_isolation(false)]
        while i < bytes.len()
            decreases bytes@.len() - i,
        {
            values.push(bytes[i] != 0);
            i = i + 1;
        }
        let b = match BoolArray::new(values, validity) {
            Ok(b) => b,
            Err(e) => {
                return Err(e);
            },
        };
        return Ok((Array::Bool(b), p2));
    }
    if matches!(encoding, crate::encoding::EncodingId::Primitive) {
        if p0 >= n {
            return Err(VortexError::InvalidSerialization);
        }
        let pt = read_ptype(buf[p0])?;
        let (validity, p1) = read_validity(buf, p0 + 1)?;
        let (bytes, p2) = read_len_bytes(buf, p1)?;
        let w = pt.byte_width();
        let nel = bytes.len() / w;
        if bytes.len() % w != 0 {
            return Err(VortexError::InvalidSerialization);
        }
        let vok = match &validity {
            Validity::Array(mask) => mask.len() == nel,
            _ => true,
        };
        if !vok {
            return Err(VortexError::InvalidSerialization);
        }
        let p = PrimitiveArray { ptype: pt, bytes, validity };
        proof {
            assert(p.spec_len() == p.bytes@.len() / (w as nat));
            assert(p.bytes@.len() == p.spec_len() * w) by (nonlinear_arith)
                requires
                    p.bytes@.len() % (w as nat) == 0,
                    w >= 1,
                    p.spec_len() == p.bytes@.len() / (w as nat),
            ;
        }
        return Ok((Array::Primitive(p), p2));
    }
    if matches!(encoding, crate::encoding::EncodingId::VarBinView) {
        if n - p0 < 2 {
            return Err(VortexError::InvalidSerialization);
        }
        let is_utf8 = buf[p0] != 0;
        let nl = read_nullability(buf[p0 + 1])?;
        let (validity, p1) = read_validity(buf, p0 + 2)?;
        let (views_bytes, p2) = read_len_bytes(buf, p1)?;
        if p2 > n || n - p2 < 4 {
            return Err(VortexError::InvalidSerialization);
        }
        let ndata = u32_from_le_bytes(slice_subrange(buf.as_slice(), p2, p2 + 4)) as usize;
        let mut p = p2 + 4;
        let mut data: Vec<Array> = Vec::new();
        let mut i: usize = 0;
        #[verifier::loop_isolation(false)]
        while i < ndata
            invariant
                crate::array::all_wf(data@),
                forall|k: int|
                    0 <= k < data@.len() ==> crate::array::is_u8_array(#[trigger] data@[k]),
            decreases ndata - i,
        {
            let (db, p3) = read_len_bytes(buf, p)?;
            let child = crate::builder::u8_child(db);
            data.push(child);
            proof {
                assert(crate::array::all_wf(data@));
            }
            p = p3;
            i = i + 1;
        }
        let dtype = if is_utf8 {
            DType::Utf8(nl)
        } else {
            DType::Binary(nl)
        };
        let views = crate::builder::u8_child(views_bytes);
        let v = VarBinViewArray { views: Box::new(views), data, dtype, validity };
        // Re-check everything well-formedness asks of the assembled node.
        if !varbinview_checks(&v, alen_) {
            return Err(VortexError::InvalidSerialization);
        }
        return Ok((Array::VarBinView(v), p));
    }
    if matches!(encoding, crate::encoding::EncodingId::Struct) {
        let (validity, p1) = read_validity(buf, p0)?;
        if p1 > n || n - p1 < 4 {
            return Err(VortexError::InvalidSerialization);
        }
        let count = u32_from_le_bytes(slice_subrange(buf.as_slice(), p1, p1 + 4)) as usize;
        let mut p = p1 + 4;
        let mut names: Vec<String> = Vec::new();
        let mut fields: Vec<Array> = Vec::new();
        let mut i: usize = 0;
        #[verifier::loop_isolation(false)]
        while i < count
            invariant
                crate::array::all_wf(fields@),
            decreases count - i,
        {
            let (nb, p2) = read_len_bytes(buf, p)?;
            let name = match string_from_utf8(nb) {
                Some(s) => s,
                None => {
                    return Err(VortexError::InvalidSerialization);
                },
            };
            let (field, p3) = read_array_message(buf, p2, depth - 1)?;
            names.push(name);
            fields.push(field);
            proof {
                assert(crate::array::all_wf(fields@));
            }
            p = p3;
            i = i + 1;
        }
        let st = match StructArray::try_new(names, fields, alen_, validity) {
            Ok(st) => st,
            Err(e) => {
                return Err(e);
            },
        };
        return Ok((Array::Struct(st), p));
    }
    // A registered compressed encoding: the writer canonicalizes before
    // serializing, so no message decoder exists for it.
    Err(VortexError::UnknownEncoding)
}

/// Check every condition well-formedness asks of a decoded binary-view node.
fn varbinview_checks(v: &VarBinViewArray, expect_len: usize) -> (r: bool)
    requires
        crate::array::is_u8_array(*v.views),
        wf(*v.views),
        crate::array::all_wf(v.data@),
        forall|k: int| 0 <= k < v.data@.len() ==> crate::array::is_u8_array(#[trigger] v.data@[k]),
        v.dtype@ is Utf8 || v.dtype@ is Binary,
    ensures
        r ==> wf(Array::VarBinView(*v)),
{
    let vp = match &*v.views {
        Array::Primitive(p) => p,
        _ => unreached(),
    };
    let nb = vp.bytes.len();
    if nb % 16 != 0 {
        return false;
    }
    let n = nb / 16;
    proof {
        assert(u8_bytes_of(v) == vp.bytes@);
        assert(v.spec_len() == n);
        assert(vp.bytes@.len() == v.spec_len() * 16) by (nonlinear_arith)
            requires
                vp.bytes@.len() % 16 == 0,
                v.spec_len() == vp.bytes@.len() / 16,
        ;
    }
    if n != expect_len {
        return false;
    }
    if v.dtype.is_nullable() != matches!(v.validity.nullability(), Nullability::Nullable) {
        return false;
    }
    let vok = match &v.validity {
        Validity::Array(mask) => mask.len() == n,
        _ => true,
    };
    if !vok {
        return false;
    }
    // Validate every view word: bounds and prefix.
    let mut i: usize = 0;
    proof {
        crate::array::lemma_data_bytes(v.data@);
    }
    #[verifier::loop_isolation(false)]
    while i < n
        invariant
            0 <= i <= n,
            n == v.spec_len(),
            forall|k: int|
                0 <= k < i ==> crate::array::view_word_wf(
                    u8_bytes_of(v),
                    crate::array::data_bytes(v.data@),
                    k,
                ),
        decreases n - i,
    {
        proof {
            assert(16 * (i as int) + 16 <= vp.bytes@.len()) by (nonlinear_arith)
                requires
                    0 <= i < n,
                    vp.bytes@.len() == n * 16,
            ;
            assert((4 * (i as int) + 1) * 4 <= vp.bytes@.len());
            assert(vp.bytes@.subrange(4 * (i as int) * 4, (4 * (i as int) + 1) * 4)
                =~= vp.bytes@.subrange(16 * (i as int), 16 * (i as int) + 4));
        }
        let size = match crate::codec::pvalue_at(PType::U32, &vp.bytes, 4 * i) {
            PValue::U32(x) => x,
            _ => unreached(),
        };
        if size > 12 {
            proof {
                assert((4 * (i as int) + 3) * 4 <= vp.bytes@.len() && (4 * (i as int) + 4) * 4
                    <= vp.bytes@.len()) by (nonlinear_arith)
                    requires
                        0 <= i < n,
                        vp.bytes@.len() == n * 16,
                ;
                assert((4 * (i as int) + 2) * 4 == 16 * (i as int) + 8) by (nonlinear_arith);
                assert((4 * (i as int) + 3) * 4 == 16 * (i as int) + 12) by (nonlinear_arith);
                assert((4 * (i as int) + 4) * 4 == 16 * (i as int) + 16) by (nonlinear_arith);
                assert(vp.bytes@.subrange((4 * (i as int) + 2) * 4, (4 * (i as int) + 3) * 4)
                    =~= vp.bytes@.subrange(16 * (i as int) + 8, 16 * (i as int) + 12));
                assert(vp.bytes@.subrange((4 * (i as int) + 3) * 4, (4 * (i as int) + 4) * 4)
                    =~= vp.bytes@.subrange(16 * (i as int) + 12, 16 * (i as int) + 16));
            }
            let bi = match crate::codec::pvalue_at(PType::U32, &vp.bytes, 4 * i + 2) {
                PValue::U32(x) => x,
                _ => unreached(),
            };
            let off = match crate::codec::pvalue_at(PType::U32, &vp.bytes, 4 * i + 3) {
                PValue::U32(x) => x,
                _ => unreached(),
            };
            if bi as usize >= v.data.len() {
                return false;
            }
            let db = match &v.data[bi as usize] {
                Array::Primitive(p) => p,
                _ => unreached(),
            };
            let dn = db.bytes.len();
            if off as u64 > dn as u64 || size as u64 > dn as u64 - off as u64 {
                return false;
            }
            // The prefix must equal the payload's first four bytes.
            let pfx = slice_subrange(vp.bytes.as_slice(), 16 * i + 4, 16 * i + 8);
            let head = slice_subrange(db.bytes.as_slice(), off as usize, off as usize + 4);
            if !(pfx[0] == head[0] && pfx[1] == head[1] && pfx[2] == head[2] && pfx[3]
                == head[3]) {
                return false;
            }
            proof {
                assert(crate::array::data_bytes(v.data@)[bi as int] == db.bytes@);
                assert(vp.bytes@.subrange(16 * (i as int) + 4, 16 * (i as int) + 8)
                    =~= db.bytes@.subrange(off as int, off as int + 4));
                assert(crate::array::view_word_wf(
                    u8_bytes_of(v),
                    crate::array::data_bytes(v.data@),
                    i as int,
                ));
            }
        } else {
            proof {
                assert(crate::array::view_word_wf(
                    u8_bytes_of(v),
                    crate::array::data_bytes(v.data@),
                    i as int,
                ));
            }
        }
        i = i + 1;
    }
    true
}

/// The views child's byte buffer.
pub open spec fn u8_bytes_of(v: &VarBinViewArray) -> Seq<u8> {
    crate::array::u8_bytes(*v.views)
}


/// Whether a layout's parts all fit their 32-bit serialized counts, at every
/// level.
pub open spec fn layout_small(l: Layout) -> bool
    decreases l,
{
    &&& l.buffers_@.len() <= u32::MAX
    &&& l.metadata_@.len() <= u32::MAX
    &&& l.children_@.len() <= u32::MAX
    &&& forall|i: int|
        0 <= i < l.children_@.len() ==> layout_small(#[trigger] l.children_@[i])
}

/// Serialize a layout, recursively. Only appends: everything already in the
/// buffer stays; a layout whose counts all fit is always written.
pub fn write_layout(out: &mut Vec<u8>, l: &Layout) -> (r: Result<(), VortexError>)
    ensures
        extends(final(out)@, old(out)@),
        layout_small(*l) ==> r is Ok,
    decreases *l,
{
    proof {
        assert(out@.subrange(0, out@.len() as int) =~= out@);
    }
    let mut t = u16_to_le_bytes(l.encoding_);
    out.append(&mut t);
    let mut t = u64_to_le_bytes(l.row_count_);
    out.append(&mut t);
    if l.buffers_.len() > u32::MAX as usize || l.children_.len() > u32::MAX as usize {
        proof {
            assert(out@.subrange(0, old(out)@.len() as int) =~= old(out)@);
        }
        return Err(VortexError::InvalidSerialization);
    }
    let mut t = u32_to_le_bytes(l.buffers_.len() as u32);
    out.append(&mut t);
    proof {
        assert(extends(out@, old(out)@)) by {
            assert(out@.subrange(0, old(out)@.len() as int) =~= old(out)@);
        }
    }
    let mut i: usize = 0;
    #[verifier::loop_isolation(false)]
    while i < l.buffers_.len()
        invariant
            extends(out@, old(out)@),
        decreases l.buffers_@.len() - i,
    {
        let b = l.buffers_[i];
        let mut t = u64_to_le_bytes(b.begin_);
        out.append(&mut t);
        let mut t = u64_to_le_bytes(b.end_);
        out.append(&mut t);
        proof {
            assert(extends(out@, old(out)@)) by {
                assert(out@.subrange(0, old(out)@.len() as int) =~= old(out)@);
            }
        }
        i = i + 1;
    }
    match push_len_bytes(out, &l.metadata_) {
        Ok(_) => {},
        Err(e) => {
            proof {
                if layout_small(*l) {
                    assert(false);
                }
            }
            return Err(e);
        },
    }
    proof {
        assert(extends(out@, old(out)@));
    }
    let mut t = u32_to_le_bytes(l.children_.len() as u32);
    out.append(&mut t);
    proof {
        assert(extends(out@, old(out)@)) by {
            assert(out@.subrange(0, old(out)@.len() as int) =~= old(out)@);
        }
    }
    let mut j: usize = 0;
    #[verifier::loop_isolation(false)]
    while j < l.children_.len()
        invariant
            extends(out@, old(out)@),
        decreases l.children_@.len() - j,
    {
        proof {
            assert(decreases_to!(*l => l.children_));
            assert(decreases_to!(l.children_ => l.children_@));
            assert(decreases_to!(l.children_@ => l.children_@[j as int]));
        }
        match write_layout(out, &l.children_[j]) {
            Ok(_) => {},
            Err(e) => {
                proof {
                    if layout_small(*l) {
                        assert(layout_small(l.children_@[j as int]));
                        assert(false);
                    }
                }
                return Err(e);
            },
        }
        proof {
            assert(extends(out@, old(out)@));
        }
        j = j + 1;
    }
    Ok(())
}

/// Decode a layout. Returns the layout and the position after it.
pub fn read_layout(buf: &Vec<u8>, pos: usize, depth: usize) -> (r: Result<
    (Layout, usize),
    VortexError,
>)
    decreases depth,
{
    if depth == 0 {
        return Err(VortexError::InvalidSerialization);
    }
    let n = buf.len();
    if pos > n || n - pos < 14 {
        return Err(VortexError::InvalidSerialization);
    }
    let encoding = u16_from_le_bytes(slice_subrange(buf.as_slice(), pos, pos + 2));
    let row_count = u64_from_le_bytes(slice_subrange(buf.as_slice(), pos + 2, pos + 10));
    let nbuf = u32_from_le_bytes(slice_subrange(buf.as_slice(), pos + 10, pos + 14)) as usize;
    let mut p = pos + 14;
    let mut buffers: Vec<Buffer> = Vec::new();
    let mut i: usize = 0;
    #[verifier::loop_isolation(false)]
    while i < nbuf
        decreases nbuf - i,
    {
        if p > n || n - p < 16 {
            return Err(VortexError::InvalidSerialization);
        }
        let begin = u64_from_le_bytes(slice_subrange(buf.as_slice(), p, p + 8));
        let end = u64_from_le_bytes(slice_subrange(buf.as_slice(), p + 8, p + 16));
        buffers.push(Buffer::new(begin, end));
        p = p + 16;
        i = i + 1;
    }
    let (metadata, p2) = read_len_bytes(buf, p)?;
    p = p2;
    if p > n || n - p < 4 {
        return Err(VortexError::InvalidSerialization);
    }
    let nch = u32_from_le_bytes(slice_subrange(buf.as_slice(), p, p + 4)) as usize;
    p = p + 4;
    let mut children: Vec<Layout> = Vec::new();
    let mut j: usize = 0;
    #[verifier::loop_isolation(false)]
    while j < nch
        decreases nch - j,
    {
        let (child, p3) = read_layout(buf, p, depth - 1)?;
        children.push(child);
        p = p3;
        j = j + 1;
    }
    Ok(
        (
            Layout {
                encoding_: encoding,
                buffers_: buffers,
                children_: children,
                row_count_: row_count,
                metadata_: metadata,
            },
            p,
        ),
    )
}

/// The rows the first `k` children of a layout describe, summed.
pub open spec fn rows_prefix(s: Seq<Layout>, k: int) -> int
    decreases k,
{
    if k <= 0 {
        0
    } else {
        rows_prefix(s, k - 1) + s[k - 1].row_count_ as int
    }
}

/// One written batch: its row count and one byte range per column.
#[derive(Debug)]
pub struct BatchRecord {
    pub row_count: u64,
    pub columns: Vec<Buffer>,
}

/// The rows of the first `k` recorded batches, summed.
pub open spec fn batch_rows(s: Seq<BatchRecord>, k: int) -> int
    decreases k,
{
    if k <= 0 {
        0
    } else {
        batch_rows(s, k - 1) + s[k - 1].row_count as int
    }
}

/// A streaming writer: feed it one struct array of columns, then finalize.
/// The produced bytes are: magic, the batch messages, the schema, the root
/// layout, the postscript, and the end-of-file marker.
pub struct VortexFileWriter {
    pub buf: Vec<u8>,
    pub dtype_bytes: Vec<u8>,
    pub batches: Vec<BatchRecord>,
    pub wrote_columns: bool,
}

impl VortexFileWriter {
    /// Start a file in the given sink buffer: the magic goes out first.
    pub fn new(buf: Vec<u8>) -> (r: VortexFileWriter)
        ensures
            r.buf@ == buf@ + spec_magic(),
    {
        let mut buf = buf;
        let mut m = magic_bytes();
        buf.append(&mut m);
        VortexFileWriter { buf, dtype_bytes: Vec::new(), batches: Vec::new(), wrote_columns: false }
    }

    /// Write a struct array's columns. Chunked columns are split on the union
    /// of their chunk boundaries; each batch's columns are canonicalized and
    /// written as one message per column. Only appends to the sink.
    pub fn write_array_columns(&mut self, a: Array) -> (r: Result<(), VortexError>)
        requires
            wf(a),
        ensures
            extends(final(self).buf@, old(self).buf@),
    {
        proof {
            assert(self.buf@.subrange(0, self.buf@.len() as int) =~= self.buf@);
        }
        if !self.wrote_columns {
            let mut db: Vec<u8> = Vec::new();
            let d = match &a {
                Array::Chunked(c) => c.dtype.clone(),
                _ => Array::dtype(&a),
            };
            write_dtype(&mut db, &d)?;
            self.dtype_bytes = db;
            self.wrote_columns = true;
        }
        let st = match &a {
            Array::Struct(st) => st,
            Array::Chunked(c) => {
                // A chunked struct: write each chunk's columns in turn.
                let mut i: usize = 0;
                proof {
                    assert(crate::array::all_wf(c.chunks@));
                }
                #[verifier::loop_isolation(false)]
                while i < c.chunks.len()
                    invariant
                        extends(self.buf@, old(self).buf@),
                    decreases c.chunks@.len() - i,
                {
                    proof {
                        assert(wf(c.chunks@[i as int]));
                    }
                    match &c.chunks[i] {
                        Array::Struct(stc) => {
                            self.write_struct_batches(stc)?;
                            proof {
                                assert(extends(self.buf@, old(self).buf@));
                            }
                        },
                        _ => {
                            return Err(VortexError::TypeMismatch);
                        },
                    }
                    i = i + 1;
                }
                return Ok(());
            },
            _ => {
                return Err(VortexError::TypeMismatch);
            },
        };
        self.write_struct_batches(st)
    }

    /// Split one struct array on its columns' chunk boundaries and write each
    /// batch. Only appends to the sink.
    fn write_struct_batches(&mut self, st: &StructArray) -> (r: Result<(), VortexError>)
        requires
            wf(Array::Struct(*st)),
        ensures
            extends(final(self).buf@, old(self).buf@),
    {
        proof {
            assert(self.buf@.subrange(0, self.buf@.len() as int) =~= self.buf@);
        }
        // The sorted union of the columns' interior chunk boundaries.
        let mut splits: Vec<usize> = Vec::new();
        splits.push(0);
        let mut f: usize = 0;
        proof {
            assert(crate::array::all_wf(st.fields@));
        }
        #[verifier::loop_isolation(false)]
        while f < st.fields.len()
            decreases st.fields@.len() - f,
        {
            proof {
                assert(wf(st.fields@[f as int]));
            }
            match &st.fields[f] {
                Array::Chunked(c) => {
                    let mut acc: usize = 0;
                    let mut k: usize = 0;
                    proof {
                        assert(crate::array::all_wf(c.chunks@));
                    }
                    #[verifier::loop_isolation(false)]
                    while k < c.chunks.len()
                        invariant
                            crate::array::all_wf(c.chunks@),
                            extends(self.buf@, old(self).buf@),
                        decreases c.chunks@.len() - k,
                    {
                        proof {
                            assert(wf(c.chunks@[k as int]));
                        }
                        let cl = Array::len(&c.chunks[k]);
                        if acc > usize::MAX - cl {
                            return Err(VortexError::InvalidSerialization);
                        }
                        acc = acc + cl;
                        if acc <= st.len {
                            insert_sorted(&mut splits, acc);
                        }
                        k = k + 1;
                    }
                },
                _ => {},
            }
            f = f + 1;
        }
        if splits.len() == 0 || splits[splits.len() - 1] != st.len {
            insert_sorted(&mut splits, st.len);
        }
        // One batch per consecutive pair of split points.
        let mut b: usize = 0;
        let nsplits = splits.len();
        #[verifier::loop_isolation(false)]
        while b < nsplits && b + 1 < nsplits
            invariant
                wf(Array::Struct(*st)),
                nsplits == splits@.len(),
                extends(self.buf@, old(self).buf@),
            decreases nsplits - b,
        {
            let r0 = splits[b];
            let r1 = splits[b + 1];
            if !(r0 <= r1 && r1 <= st.len) {
                return Err(VortexError::InvalidSerialization);
            }
            let mut columns: Vec<Buffer> = Vec::new();
            let mut f2: usize = 0;
            #[verifier::loop_isolation(false)]
            while f2 < st.fields.len()
                invariant
                    extends(self.buf@, old(self).buf@),
                decreases st.fields@.len() - f2,
            {
                proof {
                    assert(crate::array::all_wf(st.fields@));
                    assert(wf(st.fields@[f2 as int]));
                    assert(crate::array::elems(st.fields@[f2 as int]).len() == st.len as nat);
                }
                let part = match crate::slice::slice(&st.fields[f2], r0, r1) {
                    Ok(p) => p,
                    Err(e) => {
                        return Err(e);
                    },
                };
                let canon = match crate::flatten::flatten(&part) {
                    Ok(c) => c.into_array(),
                    Err(e) => {
                        return Err(e);
                    },
                };
                let begin = self.buf.len() as u64;
                write_array_message(&mut self.buf, &canon)?;
                proof {
                    assert(extends(self.buf@, old(self).buf@));
                }
                let end = self.buf.len() as u64;
                columns.push(Buffer::new(begin, end));
                f2 = f2 + 1;
            }
            self.batches.push(BatchRecord { row_count: (r1 - r0) as u64, columns });
            b = b + 1;
        }
        Ok(())
    }

    /// Write the schema, the layout tree, the postscript and the end-of-file
    /// marker, and hand the finished bytes back. Everything already written
    /// stays where it was; the file ends in the 32-byte postscript — whose
    /// offsets point at the schema and the layout just written — and the
    /// eight-byte marker carrying this crate's version.
    pub fn finalize(self) -> (r: Result<Vec<u8>, VortexError>)
        ensures
            (self.batches@.len() <= u32::MAX && (forall|k: int|
                0 <= k <= self.batches@.len() ==> batch_rows(self.batches@, k) <= u64::MAX) && (
            forall|i: int|
                0 <= i < self.batches@.len() ==> (#[trigger] self.batches@[i]).columns@.len()
                    <= u32::MAX)) ==> r is Ok,
            r matches Ok(bytes) ==> {
                &&& extends(bytes@, self.buf@)
                &&& bytes@.len() >= self.buf@.len() + self.dtype_bytes@.len() + 40
                &&& bytes@.subrange(bytes@.len() - 8, bytes@.len() as int) == spec_eof(
                    crate::VERSION,
                    crate::V1_FOOTER_FBS_SIZE as u16,
                )
                &&& exists|s: u64, l: u64|
                    {
                        &&& bytes@.subrange(bytes@.len() - 40, bytes@.len() - 8)
                            == crate::footer::postscript_bytes(s, l)
                        &&& s as int == self.buf@.len()
                        &&& l as int == self.buf@.len() + self.dtype_bytes@.len()
                    }
                &&& bytes@.subrange(self.buf@.len() as int, self.buf@.len()
                    + self.dtype_bytes@.len() as int) == self.dtype_bytes@
            },
    {
        let mut buf = self.buf;
        let schema_offset = buf.len() as u64;
        let mut db = self.dtype_bytes;
        buf.append(&mut db);
        let layout_offset = buf.len() as u64;
        // The layout tree mirrors the chunking: a chunked root, one columnar
        // child per batch, one flat leaf per column.
        let mut batch_layouts: Vec<Layout> = Vec::new();
        let mut total_rows: u64 = 0;
        let mut i: usize = 0;
        let batches = self.batches;
        let ghost fits = self.batches@.len() <= u32::MAX && (forall|k: int|
            0 <= k <= self.batches@.len() ==> batch_rows(self.batches@, k) <= u64::MAX) && (
        forall|q: int|
            0 <= q < self.batches@.len() ==> (#[trigger] self.batches@[q]).columns@.len()
                <= u32::MAX);
        #[verifier::loop_isolation(false)]
        while i < batches.len()
            invariant
                0 <= i <= batches@.len(),
                batch_layouts@.len() == i,
                forall|q: int| 0 <= q < i ==> layout_small(#[trigger] batch_layouts@[q]),
                fits ==> total_rows as int == batch_rows(batches@, i as int),
            decreases batches@.len() - i,
        {
            let rec = &batches[i];
            let mut flats: Vec<Layout> = Vec::new();
            let mut j: usize = 0;
            #[verifier::loop_isolation(false)]
            while j < rec.columns.len()
                invariant
                    0 <= j <= rec.columns@.len(),
                    flats@.len() == j,
                    forall|q: int| 0 <= q < j ==> layout_small(#[trigger] flats@[q]),
                decreases rec.columns@.len() - j,
            {
                let mut bufs: Vec<Buffer> = Vec::new();
                bufs.push(rec.columns[j]);
                flats.push(
                    Layout {
                        encoding_: FLAT_LAYOUT_ID,
                        buffers_: bufs,
                        children_: Vec::new(),
                        row_count_: rec.row_count,
                        metadata_: Vec::new(),
                    },
                );
                j = j + 1;
            }
            if rec.columns.len() > u32::MAX as usize {
                proof {
                    if fits {
                        assert(false);
                    }
                }
                return Err(VortexError::InvalidSerialization);
            }
            batch_layouts.push(
                Layout {
                    encoding_: COLUMNAR_LAYOUT_ID,
                    buffers_: Vec::new(),
                    children_: flats,
                    row_count_: rec.row_count,
                    metadata_: Vec::new(),
                },
            );
            if total_rows > u64::MAX - rec.row_count {
                proof {
                    if fits {
                        assert(batch_rows(batches@, i + 1) == batch_rows(batches@, i as int)
                            + rec.row_count);
                        assert(false);
                    }
                }
                return Err(VortexError::InvalidSerialization);
            }
            proof {
                if fits {
                    assert(batch_rows(batches@, i + 1) == batch_rows(batches@, i as int)
                        + rec.row_count);
                }
            }
            total_rows = total_rows + rec.row_count;
            i = i + 1;
        }
        let root = Layout {
            encoding_: CHUNKED_LAYOUT_ID,
            buffers_: Vec::new(),
            children_: batch_layouts,
            row_count_: total_rows,
            metadata_: Vec::new(),
        };
        let ghost before_layout = buf@;
        proof {
            if fits {
                assert(layout_small(root));
            }
        }
        match write_layout(&mut buf, &root) {
            Ok(_) => {},
            Err(e) => {
                proof {
                    if fits {
                        assert(false);
                    }
                }
                return Err(e);
            },
        }
        let ghost before_ps = buf@;
        let ps = Postscript { schema_offset_: schema_offset, layout_offset_: layout_offset };
        crate::footer::finish_postscript_buffer(&mut buf, &ps);
        write_eof(&mut buf, crate::VERSION, crate::V1_FOOTER_FBS_SIZE as u16);
        proof {
            vstd::bytes::lemma_auto_spec_u16_to_from_le_bytes();
            let psb = crate::footer::postscript_bytes(schema_offset, layout_offset);
            let eofb = spec_eof(crate::VERSION, crate::V1_FOOTER_FBS_SIZE as u16);
            assert(psb.len() == 32);
            assert(eofb.len() == 8);
            assert(buf@ == before_ps + psb + eofb);
            assert(buf@.subrange(buf@.len() - 8, buf@.len() as int) =~= eofb);
            assert(buf@.subrange(buf@.len() - 40, buf@.len() - 8) =~= psb);
            // Everything written before finalization stays in place.
            assert(extends(before_layout, self.buf@)) by {
                assert(before_layout.subrange(0, self.buf@.len() as int) =~= self.buf@);
            }
            assert(extends(buf@, before_ps)) by {
                assert(buf@.subrange(0, before_ps.len() as int) =~= before_ps);
            }
            assert(extends(buf@, self.buf@));
            assert(buf@.subrange(self.buf@.len() as int, self.buf@.len()
                + self.dtype_bytes@.len() as int) =~= self.dtype_bytes@);
        }
        Ok(buf)
    }
}

/// Insert a value into a sorted vector, keeping it sorted and duplicate-free.
fn insert_sorted(v: &mut Vec<usize>, x: usize) {
    let mut i: usize = 0;
    #[verifier::loop_isolation(false)]
    while i < v.len()
        invariant
            0 <= i <= v@.len(),
        decreases v@.len() - i,
    {
        if v[i] == x {
            return ;
        }
        if v[i] > x {
            v.insert(i, x);
            return ;
        }
        i = i + 1;
    }
    v.push(x);
}


/// A builder for reading a file held in memory: optional projection (field
/// positions), optional row filter, optional sorted row indices.
pub struct VortexReadBuilder {
    pub bytes: Vec<u8>,
    pub projection: Option<Vec<usize>>,
    pub row_filter: Option<crate::expr::RowFilter>,
    pub row_indices: Option<Vec<u64>>,
}

impl VortexReadBuilder {
    /// Read from the given bytes.
    pub fn new(bytes: Vec<u8>) -> (r: VortexReadBuilder) {
        VortexReadBuilder { bytes, projection: None, row_filter: None, row_indices: None }
    }

    /// Keep only the fields at these positions, in this order.
    pub fn with_projection(self, projection: Vec<usize>) -> (r: VortexReadBuilder) {
        VortexReadBuilder { projection: Some(projection), ..self }
    }

    /// Keep only the rows the filter accepts.
    pub fn with_row_filter(self, row_filter: crate::expr::RowFilter) -> (r: VortexReadBuilder) {
        VortexReadBuilder { row_filter: Some(row_filter), ..self }
    }

    /// Keep only the rows at these sorted logical positions.
    pub fn with_indices(self, row_indices: Vec<u64>) -> (r: VortexReadBuilder) {
        VortexReadBuilder { row_indices: Some(row_indices), ..self }
    }

    /// Resolve the end-of-file marker, the postscript, the schema and the
    /// layout, and hand back a reader. Bytes that do not end in a valid
    /// marker — too short, mutilated, truncated by even one byte — are
    /// rejected as `InvalidSerialization`.
    pub fn build(self) -> (r: Result<VortexFileReader, VortexError>)
        ensures
            (self.bytes@.len() < 8 || !(exists|fl: u16|
                self.bytes@.subrange(
                    self.bytes@.len() - 8,
                    self.bytes@.len() as int,
                ) == spec_eof(crate::VERSION, fl))) ==> r == Err::<
                VortexFileReader,
                VortexError,
            >(VortexError::InvalidSerialization),
    {
        let n = self.bytes.len();
        if n < 8 {
            return Err(VortexError::InvalidSerialization);
        }
        let tail = slice_to_vec(slice_subrange(self.bytes.as_slice(), n - 8, n));
        let (_, footer_length) = read_eof(&tail)?;
        let fl = footer_length as usize;
        if fl > n - 8 {
            return Err(VortexError::InvalidSerialization);
        }
        let ps_bytes = slice_to_vec(slice_subrange(self.bytes.as_slice(), n - 8 - fl, n - 8));
        let ps = crate::footer::root_as_postscript(&ps_bytes)?;
        let schema_offset = ps.schema_offset();
        let layout_offset = ps.layout_offset();
        if schema_offset > n as u64 || layout_offset > n as u64 {
            return Err(VortexError::InvalidSerialization);
        }
        let (dtype, _) = read_dtype(&self.bytes, schema_offset as usize, 64)?;
        let (layout, _) = read_layout(&self.bytes, layout_offset as usize, 64)?;
        Ok(
            VortexFileReader {
                bytes: self.bytes,
                dtype,
                layout,
                projection: self.projection,
                row_filter: self.row_filter,
                row_indices: self.row_indices,
            },
        )
    }
}

/// A reader over one file's bytes: its schema, its root layout, and the
/// caller's selections.
pub struct VortexFileReader {
    pub bytes: Vec<u8>,
    pub dtype: DType,
    pub layout: Layout,
    pub projection: Option<Vec<usize>>,
    pub row_filter: Option<crate::expr::RowFilter>,
    pub row_indices: Option<Vec<u64>>,
}

impl VortexFileReader {
    /// The file's logical type.
    pub fn dtype(&self) -> (r: &DType) {
        &self.dtype
    }

    /// The row positions where a batch may start: zero, then the running sums
    /// of the root layout's child row counts, in order.
    pub fn splits(&self) -> (r: Vec<u64>)
        ensures
            (forall|k: int|
                0 <= k <= self.layout.children_@.len() ==> rows_prefix(
                    self.layout.children_@,
                    k,
                ) <= u64::MAX) ==> {
                &&& r@.len() == self.layout.children_@.len() + 1
                &&& forall|k: int|
                    0 <= k <= self.layout.children_@.len() ==> r@[k] as int == rows_prefix(
                        self.layout.children_@,
                        k,
                    )
            },
    {
        let mut out: Vec<u64> = Vec::new();
        out.push(0);
        let mut acc: u64 = 0;
        let mut i: usize = 0;
        let ghost cs = self.layout.children_@;
        let ghost fits = forall|k: int| 0 <= k <= cs.len() ==> rows_prefix(cs, k) <= u64::MAX;
        #[verifier::loop_isolation(false)]
        while i < self.layout.children_.len()
            invariant
                0 <= i <= cs.len(),
                fits ==> {
                    &&& acc as int == rows_prefix(cs, i as int)
                    &&& out@.len() == i + 1
                    &&& forall|k: int| 0 <= k <= i ==> out@[k] as int == rows_prefix(cs, k)
                },
            decreases cs.len() - i,
        {
            let rc = self.layout.children_[i].row_count_;
            proof {
                if fits {
                    assert(rows_prefix(cs, i + 1) <= u64::MAX);
                    assert(rows_prefix(cs, i + 1) == rows_prefix(cs, i as int) + rc);
                }
            }
            if acc <= u64::MAX - rc {
                acc = acc + rc;
                out.push(acc);
            }
            i = i + 1;
        }
        out
    }

    /// Read every surviving batch, in row order: decode each batch's selected
    /// columns, assemble the struct, apply the filter, then the row indices.
    /// Batches left empty by the selections are dropped.
    pub fn read_batches(&self) -> (r: Result<Vec<Array>, VortexError>)
        ensures
            r matches Ok(batches) ==> forall|k: int|
                0 <= k < batches@.len() ==> wf(#[trigger] batches@[k]),
    {
        let names = match &self.dtype {
            DType::Struct(names, _, _) => names,
            _ => {
                return Err(VortexError::TypeMismatch);
            },
        };
        let mut out: Vec<Array> = Vec::new();
        let mut row_base: u64 = 0;
        let mut bi: usize = 0;
        #[verifier::loop_isolation(false)]
        while bi < self.layout.children_.len()
            invariant
                forall|k: int| 0 <= k < out@.len() ==> wf(#[trigger] out@[k]),
            decreases self.layout.children_@.len() - bi,
        {
            let batch_layout = &self.layout.children_[bi];
            let rc64 = batch_layout.row_count_;
            if rc64 > usize::MAX as u64 {
                return Err(VortexError::InvalidSerialization);
            }
            let rc = rc64 as usize;
            // Decode every column of the batch; the projection picks later.
            let mut fields: Vec<Array> = Vec::new();
            let mut batch_names: Vec<String> = Vec::new();
            let mut fi: usize = 0;
            #[verifier::loop_isolation(false)]
            while fi < batch_layout.children_.len()
                invariant
                    crate::array::all_wf(fields@),
                    fields@.len() == batch_names@.len(),
                decreases batch_layout.children_@.len() - fi,
            {
                let flat = &batch_layout.children_[fi];
                if flat.buffers_.len() != 1 || fi >= names.len() {
                    return Err(VortexError::InvalidSerialization);
                }
                let range = flat.buffers_[0];
                if range.begin_ > range.end_ || range.end_ > self.bytes.len() as u64 {
                    return Err(VortexError::InvalidSerialization);
                }
                let (field, _) = read_array_message(&self.bytes, range.begin_ as usize, 64)?;
                if Array::len(&field) != rc {
                    return Err(VortexError::InvalidSerialization);
                }
                fields.push(field);
                batch_names.push(clone_string(&names[fi]));
                proof {
                    assert(crate::array::all_wf(fields@));
                }
                fi = fi + 1;
            }
            let full = match StructArray::try_new(batch_names, fields, rc, Validity::NonNullable) {
                Ok(st) => st,
                Err(e) => {
                    return Err(e);
                },
            };
            // The row indices select batch-local positions first; the filter
            // then runs over the selected rows, so the two compose.
            let selected: Array = match &self.row_indices {
                Some(idx) => {
                    let mut local: Vec<u64> = Vec::new();
                    let mut k: usize = 0;
                    #[verifier::loop_isolation(false)]
                    while k < idx.len()
                        decreases idx@.len() - k,
                    {
                        let x = idx[k];
                        if x >= row_base && x - row_base < rc as u64 {
                            local.push(x - row_base);
                        }
                        k = k + 1;
                    }
                    let ind = match crate::array::PrimitiveArray::from_u64s(&local) {
                        Ok(p) => p,
                        Err(e) => {
                            return Err(e);
                        },
                    };
                    match crate::compute::take(&Array::Struct(full), &Array::Primitive(ind)) {
                        Ok(b) => b,
                        Err(e) => {
                            return Err(e);
                        },
                    }
                },
                None => Array::Struct(full),
            };
            let filtered: Array = match &self.row_filter {
                Some(rf) => {
                    let stq = match &selected {
                        Array::Struct(st) => st,
                        _ => {
                            return Err(VortexError::TypeMismatch);
                        },
                    };
                    let mask = crate::expr::eval_mask(rf, stq)?;
                    let mask_arr = Array::Bool(
                        BoolArray { values: mask, validity: Validity::NonNullable },
                    );
                    proof {
                        assert(crate::array::alen(selected) == stq.len as nat);
                    }
                    match crate::flatten::filter(&selected, &mask_arr) {
                        Ok(b) => b,
                        Err(e) => {
                            return Err(e);
                        },
                    }
                },
                None => selected,
            };
            let keep_all = self.row_filter.is_none() && self.row_indices.is_none();
            if keep_all || Array::len(&filtered) > 0 {
                // Apply the projection last.
                let projected = match &self.projection {
                    Some(cols) => project_struct(&filtered, cols)?,
                    None => filtered,
                };
                out.push(projected);
            }
            if row_base <= u64::MAX - rc64 {
                row_base = row_base + rc64;
            }
            bi = bi + 1;
        }
        Ok(out)
    }
}

/// Keep only the fields at the given positions, in the given order.
fn project_struct(a: &Array, cols: &Vec<usize>) -> (r: Result<Array, VortexError>)
    requires
        wf(*a),
    ensures
        r matches Ok(b) ==> wf(b),
{
    let st = match a {
        Array::Struct(st) => st,
        _ => {
            return Err(VortexError::TypeMismatch);
        },
    };
    let mut names: Vec<String> = Vec::new();
    let mut fields: Vec<Array> = Vec::new();
    let mut i: usize = 0;
    let pos0 = crate::gather::iota(st.len);
    #[verifier::loop_isolation(false)]
    while i < cols.len()
        invariant
            crate::array::all_wf(fields@),
        decreases cols@.len() - i,
    {
        let c = cols[i];
        if c >= st.fields.len() || c >= st.names.len() {
            return Err(VortexError::OutOfBounds);
        }
        proof {
            assert(crate::array::all_wf(st.fields@));
            assert(wf(st.fields@[c as int]));
            assert(crate::array::elems(st.fields@[c as int]).len() == st.len as nat);
            assert(crate::gather::positions_in_bounds(
                pos0@,
                crate::array::alen(st.fields@[c as int]),
            ));
        }
        // Copy the selected field by gathering every position.
        let field = match crate::slice::slice(&st.fields[c], 0, st.len) {
            Ok(f) => f,
            Err(e) => {
                return Err(e);
            },
        };
        names.push(clone_string(&st.names[c]));
        fields.push(field);
        proof {
            assert(crate::array::all_wf(fields@));
        }
        i = i + 1;
    }
    let stn = match StructArray::try_new(names, fields, st.len, Validity::NonNullable) {
        Ok(s) => s,
        Err(e) => {
            return Err(e);
        },
    };
    Ok(Array::Struct(stn))
}

/// A copy of a string with the same characters.
fn clone_string(s: &String) -> (r: String)
    ensures
        r@ == s@,
{
    s.clone()
}

} // verus!
