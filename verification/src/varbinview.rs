//! View words and the binary-view array's own interface.
//!
//! A view word is sixteen bytes, little endian: four size bytes, then either
//! the payload itself (at most twelve bytes, zero padded) or the payload's
//! first four bytes followed by a buffer index and an offset into that
//! buffer.

use vstd::bytes::{spec_u32_to_le_bytes, u32_from_le_bytes, u32_to_le_bytes};
use vstd::pervasive::unreached;
use vstd::prelude::*;

use crate::array::{
    u8_bytes, view_buffer_index, view_offset, view_size, wf, Array, VarBinViewArray,
};
use crate::dtype::DType;
use crate::validity::Validity;

verus! {

/// The number of bytes a single view word occupies.
pub const VIEW_SIZE: usize = 16;

/// A payload of at most twelve bytes held inside the view word itself.
#[derive(Debug, Clone)]
pub struct Inlined {
    pub size: u32,
    pub data: Vec<u8>,
}

impl Inlined {
    /// An inlined view of a short payload.
    pub fn new(value: &Vec<u8>) -> (r: Inlined)
        requires
            value@.len() <= 12,
        ensures
            r.size == value@.len(),
            r.data@.len() == 12,
            r.data@.subrange(0, value@.len() as int) == value@,
            forall|k: int| value@.len() <= k < 12 ==> r.data@[k] == 0,
    {
        let mut data: Vec<u8> = Vec::new();
        let mut i: usize = 0;
        #[verifier::loop_isolation(false)]
        while i < value.len()
            invariant
                0 <= i <= value@.len() <= 12,
                data@.len() == i,
                forall|k: int| 0 <= k < i ==> data@[k] == value@[k],
            decreases value@.len() - i,
        {
            data.push(value[i]);
            i = i + 1;
        }
        while data.len() < 12
            invariant
                value@.len() <= data@.len() <= 12,
                forall|k: int| 0 <= k < value@.len() ==> data@[k] == value@[k],
                forall|k: int| value@.len() <= k < data@.len() ==> data@[k] == 0,
            decreases 12 - data@.len(),
        {
            data.push(0);
        }
        let r = Inlined { size: value.len() as u32, data };
        proof {
            assert(r.data@.subrange(0, value@.len() as int) =~= value@);
        }
        r
    }
}

/// A reference view: the payload's length, its first four bytes, and where
/// the rest lives.
#[derive(Debug, Clone)]
pub struct Ref {
    pub size: u32,
    pub prefix: Vec<u8>,
    pub buffer_index: u32,
    pub offset: u32,
}

/// One decoded view word.
#[derive(Debug, Clone)]
pub enum BinaryView {
    Inlined(Inlined),
    Ref(Ref),
}

impl BinaryView {
    /// Decode a sixteen-byte view word.
    pub fn from_le_bytes(bytes: &Vec<u8>) -> (r: BinaryView)
        requires
            bytes@.len() == 16,
        ensures
            r matches BinaryView::Inlined(inl) ==> {
                &&& view_size(bytes@, 0) <= 12
                &&& inl.size == view_size(bytes@, 0)
                &&& inl.data@ == bytes@.subrange(4, 16)
            },
            r matches BinaryView::Ref(rf) ==> {
                &&& view_size(bytes@, 0) > 12
                &&& rf.size == view_size(bytes@, 0)
                &&& rf.prefix@ == bytes@.subrange(4, 8)
                &&& rf.buffer_index == view_buffer_index(bytes@, 0)
                &&& rf.offset == view_offset(bytes@, 0)
            },
    {
        let size = u32_from_le_bytes(vstd::slice::slice_subrange(bytes.as_slice(), 0, 4));
        proof {
            assert(bytes@.subrange(0, 4) =~= bytes@.subrange(0int, 0int + 4));
        }
        if size > 12 {
            let prefix = vstd::slice::slice_to_vec(
                vstd::slice::slice_subrange(bytes.as_slice(), 4, 8),
            );
            let buffer_index = u32_from_le_bytes(
                vstd::slice::slice_subrange(bytes.as_slice(), 8, 12),
            );
            let offset = u32_from_le_bytes(vstd::slice::slice_subrange(bytes.as_slice(), 12, 16));
            proof {
                assert(bytes@.subrange(8, 12) =~= bytes@.subrange(0int + 8, 0int + 12));
                assert(bytes@.subrange(12, 16) =~= bytes@.subrange(0int + 12, 0int + 16));
            }
            BinaryView::Ref(Ref { size, prefix, buffer_index, offset })
        } else {
            let data = vstd::slice::slice_to_vec(
                vstd::slice::slice_subrange(bytes.as_slice(), 4, 16),
            );
            BinaryView::Inlined(Inlined { size, data })
        }
    }

    /// Encode back into sixteen little-endian bytes.
    pub fn to_le_bytes(&self) -> (r: Vec<u8>)
        requires
            self matches BinaryView::Inlined(inl) ==> inl.data@.len() == 12 && inl.size <= 12,
            self matches BinaryView::Ref(rf) ==> rf.prefix@.len() == 4 && rf.size > 12,
        ensures
            r@.len() == 16,
            view_size(r@, 0) == (match self {
                BinaryView::Inlined(inl) => inl.size,
                BinaryView::Ref(rf) => rf.size,
            }),
            self matches BinaryView::Inlined(inl) ==> r@.subrange(4, 16) == inl.data@,
            self matches BinaryView::Ref(rf) ==> {
                &&& r@.subrange(4, 8) == rf.prefix@
                &&& view_buffer_index(r@, 0) == rf.buffer_index
                &&& view_offset(r@, 0) == rf.offset
            },
    {
        proof {
            vstd::bytes::lemma_auto_spec_u32_to_from_le_bytes();
        }
        match self {
            BinaryView::Inlined(inl) => {
                let mut out = u32_to_le_bytes(inl.size);
                let mut d = crate::dtype::clone_bytes(&inl.data);
                out.append(&mut d);
                proof {
                    assert(out@.subrange(0, 4) =~= spec_u32_to_le_bytes(inl.size));
                    assert(out@.subrange(0int, 0int + 4) =~= spec_u32_to_le_bytes(inl.size));
                    assert(out@.subrange(4, 16) =~= inl.data@);
                }
                out
            },
            BinaryView::Ref(rf) => {
                let mut out = u32_to_le_bytes(rf.size);
                let mut p = crate::dtype::clone_bytes(&rf.prefix);
                let mut bi = u32_to_le_bytes(rf.buffer_index);
                let mut off = u32_to_le_bytes(rf.offset);
                out.append(&mut p);
                out.append(&mut bi);
                out.append(&mut off);
                proof {
                    assert(out@.subrange(0int, 0int + 4) =~= spec_u32_to_le_bytes(rf.size));
                    assert(out@.subrange(4, 8) =~= rf.prefix@);
                    assert(out@.subrange(0int + 8, 0int + 12) =~= spec_u32_to_le_bytes(
                        rf.buffer_index,
                    ));
                    assert(out@.subrange(0int + 12, 0int + 16) =~= spec_u32_to_le_bytes(
                        rf.offset,
                    ));
                }
                out
            },
        }
    }
}

impl VarBinViewArray {
    /// Assemble a binary-view array from its children. The views child must
    /// hold whole, well-formed view words over the data children, all of them
    /// plain byte arrays, and the element type must be a string or binary
    /// type matching the validity.
    pub fn new(views: Box<Array>, data: Vec<Array>, dtype: DType, validity: Validity) -> (r:
        VarBinViewArray)
        requires
            wf(VarBinViewArray { views, data, dtype, validity }.as_array_spec()),
        ensures
            r == (VarBinViewArray { views, data, dtype, validity }),
            wf(Array::VarBinView(r)),
    {
        VarBinViewArray { views, data, dtype, validity }
    }

    /// The node this value wraps, for stating requirements.
    pub open spec fn as_array_spec(self) -> Array {
        Array::VarBinView(self)
    }

    /// Read the view word at one element position.
    pub fn view_at(&self, index: usize) -> (r: BinaryView)
        requires
            wf(Array::VarBinView(*self)),
            index < self.spec_len(),
        ensures
            r matches BinaryView::Inlined(inl) ==> {
                &&& view_size(u8_bytes(*self.views), index as int) <= 12
                &&& inl.size == view_size(u8_bytes(*self.views), index as int)
            },
            r matches BinaryView::Ref(rf) ==> {
                &&& view_size(u8_bytes(*self.views), index as int) > 12
                &&& rf.size == view_size(u8_bytes(*self.views), index as int)
                &&& rf.buffer_index == view_buffer_index(u8_bytes(*self.views), index as int)
                &&& rf.offset == view_offset(u8_bytes(*self.views), index as int)
            },
    {
        let vp = match &*self.views {
            Array::Primitive(p) => p,
            _ => unreached(),
        };
        let nb = vp.bytes.len();
        proof {
            assert(u8_bytes(*self.views) == vp.bytes@);
            assert(16 * (index as int) + 16 <= vp.bytes@.len()) by (nonlinear_arith)
                requires
                    index < self.spec_len(),
                    vp.bytes@.len() == self.spec_len() * 16,
            ;
            assert(16 * (index as int) + 16 <= nb);
        }
        let word = vstd::slice::slice_to_vec(
            vstd::slice::slice_subrange(vp.bytes.as_slice(), 16 * index, 16 * index + 16),
        );
        let r = BinaryView::from_le_bytes(&word);
        proof {
            let vb = u8_bytes(*self.views);
            assert(word@.subrange(0int, 0int + 4) =~= vb.subrange(
                16 * (index as int),
                16 * (index as int) + 4,
            ));
            assert(word@.subrange(0int + 8, 0int + 12) =~= vb.subrange(
                16 * (index as int) + 8,
                16 * (index as int) + 12,
            ));
            assert(word@.subrange(0int + 12, 0int + 16) =~= vb.subrange(
                16 * (index as int) + 12,
                16 * (index as int) + 16,
            ));
        }
        r
    }

    /// The summed payload size of all elements, saturating at the largest
    /// representable value.
    pub fn plain_size(&self) -> (r: usize)
        requires
            wf(Array::VarBinView(*self)),
        ensures
            r as int == (if payload_sizes(u8_bytes(*self.views), self.spec_len() as int)
                <= usize::MAX {
                payload_sizes(u8_bytes(*self.views), self.spec_len() as int)
            } else {
                usize::MAX as int
            }),
    {
        let vp = match &*self.views {
            Array::Primitive(p) => p,
            _ => unreached(),
        };
        let n = vp.bytes.len() / 16;
        proof {
            assert(u8_bytes(*self.views) == vp.bytes@);
            assert(n == self.spec_len());
        }
        let ghost vb = u8_bytes(*self.views);
        let mut acc: usize = 0;
        let mut i: usize = 0;
        #[verifier::loop_isolation(false)]
        while i < n
            invariant
                0 <= i <= n,
                n == self.spec_len(),
                acc as int == (if payload_sizes(vb, i as int) <= usize::MAX {
                    payload_sizes(vb, i as int)
                } else {
                    usize::MAX as int
                }),
            decreases n - i,
        {
            let v = self.view_at(i);
            let size = match v {
                BinaryView::Inlined(inl) => inl.size,
                BinaryView::Ref(rf) => rf.size,
            };
            proof {
                assert(payload_sizes(vb, i + 1) == payload_sizes(vb, i as int) + view_size(
                    vb,
                    i as int,
                ));
                lemma_payload_sizes_nonneg(vb, i as int);
            }
            acc = saturating_add_usize(acc, size as usize);
            i = i + 1;
        }
        acc
    }
}

/// The payload bytes of the first `n` view words, summed.
pub open spec fn payload_sizes(vb: Seq<u8>, n: int) -> int
    decreases n,
{
    if n <= 0 {
        0
    } else {
        payload_sizes(vb, n - 1) + view_size(vb, n - 1) as int
    }
}

/// Payload sizes never sum below zero.
pub proof fn lemma_payload_sizes_nonneg(vb: Seq<u8>, n: int)
    ensures
        payload_sizes(vb, n) >= 0,
    decreases n,
{
    if n > 0 {
        lemma_payload_sizes_nonneg(vb, n - 1);
    }
}

/// Addition that stops at the largest representable value.
pub fn saturating_add_usize(a: usize, b: usize) -> (r: usize)
    ensures
        a + b <= usize::MAX ==> r == a + b,
        a + b > usize::MAX ==> r == usize::MAX,
{
    if a <= usize::MAX - b {
        a + b
    } else {
        usize::MAX
    }
}

} // verus!
