//! Building canonical arrays element by element.
//!
//! The binary-view builder lays payloads out exactly as the format
//! prescribes: payloads of at most twelve bytes are inlined in the view word,
//! longer ones go to a single data buffer and the word keeps their length,
//! first four bytes, buffer index and offset.

use vstd::bytes::{spec_u32_to_le_bytes, u32_to_le_bytes};
use vstd::prelude::*;

use crate::array::{
    data_bytes, u8_bytes, view_payload, view_size, view_word_wf, wf, Array, PrimitiveArray,
    VarBinViewArray,
};
use crate::dtype::{DType, PType};
use crate::error::VortexError;
use crate::validity::Validity;

verus! {

/// One u8 primitive child holding the given bytes.
pub fn u8_child(bytes: Vec<u8>) -> (r: Array)
    ensures
        crate::array::is_u8_array(r),
        wf(r),
        u8_bytes(r) == bytes@,
{
    let p = PrimitiveArray { ptype: PType::U8, bytes, validity: Validity::NonNullable };
    proof {
        assert(p.spec_len() == p.bytes@.len() / 1nat);
        assert(p.bytes@.len() / 1nat == p.bytes@.len()) by (nonlinear_arith);
        assert(p.spec_len() * 1 == p.bytes@.len()) by (nonlinear_arith)
            requires
                p.spec_len() == p.bytes@.len(),
        ;
    }
    Array::Primitive(p)
}

/// Append one 16-byte view word for a payload. Returns the word's bytes.
fn make_view_word(payload: &Vec<u8>, data_len: u32) -> (w: Vec<u8>)
    requires
        payload@.len() <= u32::MAX,
    ensures
        w@.len() == 16,
        w@.subrange(0, 4) == spec_u32_to_le_bytes(payload@.len() as u32),
        payload@.len() <= 12 ==> w@.subrange(4, 4 + payload@.len() as int) == payload@,
        payload@.len() > 12 ==> {
            &&& w@.subrange(4, 8) == payload@.subrange(0, 4)
            &&& w@.subrange(8, 12) == spec_u32_to_le_bytes(0)
            &&& w@.subrange(12, 16) == spec_u32_to_le_bytes(data_len)
        },
{
    let mut w: Vec<u8> = u32_to_le_bytes(payload.len() as u32);
    if payload.len() <= 12 {
        let mut i: usize = 0;
        #[verifier::loop_isolation(false)]
        while i < payload.len()
            invariant
                0 <= i <= payload@.len(),
                payload@.len() <= 12,
                w@.len() == 4 + i,
                w@.subrange(0, 4) == spec_u32_to_le_bytes(payload@.len() as u32),
                forall|k: int| 0 <= k < i ==> w@[4 + k] == payload@[k],
            decreases payload@.len() - i,
        {
            let b = payload[i];
            w.push(b);
            proof {
                assert(w@.subrange(0, 4) =~= spec_u32_to_le_bytes(payload@.len() as u32));
            }
            i = i + 1;
        }
        while w.len() < 16
            invariant
                4 + payload@.len() <= w@.len() <= 16,
                payload@.len() <= 12,
                w@.subrange(0, 4) == spec_u32_to_le_bytes(payload@.len() as u32),
                forall|k: int| 0 <= k < payload@.len() ==> w@[4 + k] == payload@[k],
            decreases 16 - w@.len(),
        {
            w.push(0);
            proof {
                assert(w@.subrange(0, 4) =~= spec_u32_to_le_bytes(payload@.len() as u32));
            }
        }
        proof {
            assert(w@.subrange(4, 4 + payload@.len() as int) =~= payload@);
        }
        w
    } else {
        let mut i: usize = 0;
        while i < 4
            invariant
                0 <= i <= 4,
                payload@.len() > 12,
                w@.len() == 4 + i,
                w@.subrange(0, 4) == spec_u32_to_le_bytes(payload@.len() as u32),
                forall|k: int| 0 <= k < i ==> w@[4 + k] == payload@[k],
            decreases 4 - i,
        {
            let b = payload[i];
            w.push(b);
            proof {
                assert(w@.subrange(0, 4) =~= spec_u32_to_le_bytes(payload@.len() as u32));
            }
            i = i + 1;
        }
        let mut bi = u32_to_le_bytes(0);
        let mut off = u32_to_le_bytes(data_len);
        w.append(&mut bi);
        w.append(&mut off);
        proof {
            assert(w@.subrange(0, 4) =~= spec_u32_to_le_bytes(payload@.len() as u32));
            assert(w@.subrange(4, 8) =~= payload@.subrange(0, 4));
            assert(w@.subrange(8, 12) =~= spec_u32_to_le_bytes(0));
            assert(w@.subrange(12, 16) =~= spec_u32_to_le_bytes(data_len));
        }
        w
    }
}

/// Build a binary-view array from one payload per element. Fails only when a
/// payload or the data buffer would outgrow a 32-bit offset.
pub fn varbinview_from_payloads(
    payloads: &Vec<Vec<u8>>,
    dtype: DType,
    validity: Validity,
) -> (r: Result<VarBinViewArray, VortexError>)
    requires
        dtype@ is Utf8 || dtype@ is Binary,
        dtype@.is_nullable() == (validity.spec_nullability() is Nullable),
        validity.compat(payloads@.len(), validity.spec_nullability()),
    ensures
        r matches Ok(v) ==> {
            &&& v.wf()
            &&& wf(*v.views)
            &&& crate::array::all_wf(v.data@)
            &&& wf(Array::VarBinView(v))
            &&& v.spec_len() == payloads@.len()
            &&& v.dtype@ == dtype@
            &&& v.validity == validity
            &&& forall|i: int|
                0 <= i < payloads@.len() ==> view_payload(
                    u8_bytes(*v.views),
                    data_bytes(v.data@),
                    i,
                ) == (#[trigger] payloads@[i])@
        },
{
    let n = payloads.len();
    let mut views: Vec<u8> = Vec::new();
    let mut data: Vec<u8> = Vec::new();
    let mut i: usize = 0;
    #[verifier::loop_isolation(false)]
    while i < n
        invariant
            0 <= i <= n,
            views@.len() == 16 * i,
            data@.len() <= u32::MAX,
            forall|k: int| 0 <= k < i ==> #[trigger] view_word_wf(views@, seq![data@], k),
            forall|k: int|
                0 <= k < i ==> #[trigger] view_payload(views@, seq![data@], k) == payloads@[k]@,
        decreases n - i,
    {
        let p = &payloads[i];
        if p.len() > u32::MAX as usize {
            return Err(VortexError::InvalidMetadata);
        }
        let ghost old_views = views@;
        let ghost old_data = data@;
        let mut word = make_view_word(p, data.len() as u32);
        if p.len() > 12 {
            if data.len() > u32::MAX as usize - p.len() {
                return Err(VortexError::InvalidMetadata);
            }
            let mut pc = crate::dtype::clone_bytes(p);
            data.append(&mut pc);
        }
        let ghost wordv = word@;
        views.append(&mut word);
        proof {
            vstd::bytes::lemma_auto_spec_u32_to_from_le_bytes();
            let nv = views@;
            let nd = data@;
            // Old words are untouched: their bytes and referenced ranges are
            // stable under appends.
            assert forall|k: int|
                0 <= k < i implies #[trigger] view_word_wf(nv, seq![nd], k) && view_payload(
                nv,
                seq![nd],
                k,
            ) == payloads@[k]@ by {
                assert(view_word_wf(old_views, seq![old_data], k));
                assert(view_payload(old_views, seq![old_data], k) == payloads@[k]@);
                assert(nv.subrange(16 * k, 16 * k + 4) =~= old_views.subrange(
                    16 * k,
                    16 * k + 4,
                ));
                assert(nv.subrange(16 * k + 4, 16 * k + 8) =~= old_views.subrange(
                    16 * k + 4,
                    16 * k + 8,
                ));
                assert(nv.subrange(16 * k + 8, 16 * k + 12) =~= old_views.subrange(
                    16 * k + 8,
                    16 * k + 12,
                ));
                assert(nv.subrange(16 * k + 12, 16 * k + 16) =~= old_views.subrange(
                    16 * k + 12,
                    16 * k + 16,
                ));
                assert(view_size(nv, k) == view_size(old_views, k));
                let size = view_size(old_views, k) as int;
                if size <= 12 {
                    assert(nv.subrange(16 * k + 4, 16 * k + 4 + size) =~= old_views.subrange(
                        16 * k + 4,
                        16 * k + 4 + size,
                    ));
                } else {
                    let off = crate::array::view_offset(old_views, k) as int;
                    let bi = crate::array::view_buffer_index(old_views, k) as int;
                    assert(view_word_wf(old_views, seq![old_data], k));
                    assert(bi < 1);
                    assert(seq![old_data][0] == old_data);
                    assert(off + size <= old_data.len());
                    assert(nd.len() >= old_data.len());
                    assert(nd.subrange(off, off + size) =~= old_data.subrange(off, off + size));
                    assert(nd.subrange(off, off + 4) =~= old_data.subrange(off, off + 4));
                    assert(crate::array::view_buffer_index(nv, k) == crate::array::view_buffer_index(old_views, k));
                    assert(crate::array::view_offset(nv, k) == crate::array::view_offset(old_views, k));
                }
            }
            // The new word reads back what was just written.
            let k = i as int;
            assert(nv.subrange(16 * k, 16 * k + 4) =~= wordv.subrange(0, 4));
            assert(view_size(nv, k) == payloads@[k]@.len() as u32);
            let size = view_size(nv, k) as int;
            if size <= 12 {
                assert(nv.subrange(16 * k + 4, 16 * k + 4 + size) =~= wordv.subrange(4, 4 + size));
            } else {
                assert(nv.subrange(16 * k + 8, 16 * k + 12) =~= wordv.subrange(8, 12));
                assert(nv.subrange(16 * k + 12, 16 * k + 16) =~= wordv.subrange(12, 16));
                assert(crate::array::view_buffer_index(nv, k) == 0);
                assert(crate::array::view_offset(nv, k) == old_data.len() as u32);
                let off = old_data.len() as int;
                assert(nd.subrange(off, off + size) =~= payloads@[k]@);
                assert(nv.subrange(16 * k + 4, 16 * k + 8) =~= payloads@[k]@.subrange(0, 4));
                assert(nd.subrange(off, off + 4) =~= payloads@[k]@.subrange(0, 4));
            }
            assert(view_word_wf(nv, seq![nd], i as int));
            assert(view_payload(nv, seq![nd], i as int) == payloads@[i as int]@);
            assert forall|k: int| 0 <= k < i + 1 implies #[trigger] view_payload(
                nv,
                seq![nd],
                k,
            ) == payloads@[k]@ by {
                assert(view_word_wf(nv, seq![nd], k));
            }
        }
        i = i + 1;
    }
    let views_child = Box::new(u8_child(views));
    let data_child = u8_child(data);
    let mut datas: Vec<Array> = Vec::new();
    datas.push(data_child);
    let v = VarBinViewArray { views: views_child, data: datas, dtype, validity };
    proof {
        crate::array::lemma_data_bytes(v.data@);
        assert(data_bytes(v.data@) =~= seq![u8_bytes(v.data@[0])]);
        assert(v.spec_len() == n) by (nonlinear_arith)
            requires
                u8_bytes(*v.views).len() == 16 * n,
                v.spec_len() == u8_bytes(*v.views).len() / 16,
        ;
        assert(crate::array::all_wf(v.data@));
    }
    Ok(v)
}

} // verus!
