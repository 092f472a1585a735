//! The array data model.
//!
//! An [`Array`] is a logically typed sequence of elements; physically it is a
//! tree: a node's encoding determines how its buffers and child arrays carry
//! the elements. Contracts throughout the crate are stated against one
//! logical model: [`elems`] gives the sequence of element values an array
//! denotes, [`sdtype`] its logical type, and [`wf`] says when a node is
//! well-formed.

use vstd::pervasive::unreached;
use vstd::prelude::*;

use crate::codec::spec_pvalue_at;
use crate::dtype::{dtype_views, DType, DTypeSpec, Nullability, PType};
use crate::scalar::{Scalar, SpecValue};
use crate::validity::Validity;

verus! {

/// An array of a given length whose elements are all null.
#[derive(Debug, Clone, Copy)]
pub struct NullArray {
    pub len: usize,
}

/// Booleans with optional validity. One logical element per mask entry.
#[derive(Debug)]
pub struct BoolArray {
    pub values: Vec<bool>,
    pub validity: Validity,
}

/// Fixed-width elements in one flat little-endian buffer, with optional
/// validity.
#[derive(Debug)]
pub struct PrimitiveArray {
    pub ptype: PType,
    pub bytes: Vec<u8>,
    pub validity: Validity,
}

/// Variable-length binary or UTF-8 elements: a `views` child of 16-byte view
/// words and zero or more `data` children holding long payloads.
#[derive(Debug)]
pub struct VarBinViewArray {
    pub views: Box<Array>,
    pub data: Vec<Array>,
    pub dtype: DType,
    pub validity: Validity,
}

/// One child per field; every child has the struct's own length.
#[derive(Debug)]
pub struct StructArray {
    pub names: Vec<String>,
    pub fields: Vec<Array>,
    pub len: usize,
    pub validity: Validity,
}

/// Patches over a fill value: strictly increasing patched positions, one
/// value per patch, and a constant fill for every other position.
#[derive(Debug)]
pub struct SparseArray {
    pub indices: Box<Array>,
    pub values: Box<Array>,
    pub len: usize,
    pub fill: Scalar,
}

/// Run-length runs: strictly increasing run ends and one value per run,
/// viewed through an element offset.
#[derive(Debug)]
pub struct ReeArray {
    pub ends: Box<Array>,
    pub values: Box<Array>,
    pub offset: usize,
    pub length: usize,
    pub validity: Validity,
}

/// Consecutive chunks of a single logical type.
#[derive(Debug)]
pub struct ChunkedArray {
    pub chunks: Vec<Array>,
    pub dtype: DType,
    pub len: usize,
}

/// An array node: a tagged value whose variant is its encoding.
#[derive(Debug)]
pub enum Array {
    Null(NullArray),
    Bool(BoolArray),
    Primitive(PrimitiveArray),
    VarBinView(VarBinViewArray),
    Struct(StructArray),
    Sparse(SparseArray),
    Ree(ReeArray),
    Chunked(ChunkedArray),
}

impl PrimitiveArray {
    /// Number of logical elements.
    pub open spec fn spec_len(&self) -> nat {
        self.bytes@.len() / self.ptype.spec_byte_width() as nat
    }

    /// The mathematical integer stored at position `i` (for floats, the bit
    /// pattern read as an unsigned integer).
    pub open spec fn int_at(&self, i: int) -> int {
        spec_pvalue_at(self.ptype, self.bytes@, i).spec_int_value()
    }

    /// The buffer holds whole elements and the validity fits.
    pub open spec fn wf(&self) -> bool {
        &&& self.bytes@.len() == self.spec_len() * self.ptype.spec_byte_width()
        &&& self.validity.compat(self.spec_len(), self.validity.spec_nullability())
    }

    /// The elements this node denotes.
    pub open spec fn selems(&self) -> Seq<SpecValue> {
        Seq::new(
            self.spec_len(),
            |i: int|
                if self.validity.is_valid(i) {
                    SpecValue::Primitive(spec_pvalue_at(self.ptype, self.bytes@, i))
                } else {
                    SpecValue::Null
                },
        )
    }
}

impl BoolArray {
    /// The validity fits the element count.
    pub open spec fn wf(&self) -> bool {
        self.validity.compat(self.values@.len(), self.validity.spec_nullability())
    }

    /// The elements this node denotes.
    pub open spec fn selems(&self) -> Seq<SpecValue> {
        Seq::new(
            self.values@.len(),
            |i: int|
                if self.validity.is_valid(i) {
                    SpecValue::Bool(self.values@[i])
                } else {
                    SpecValue::Null
                },
        )
    }
}

/// The flat byte buffer of a node that must be a non-nullable `u8` primitive
/// array (the `views` and `data` children of a binary-view array).
pub open spec fn u8_bytes(a: Array) -> Seq<u8> {
    match a {
        Array::Primitive(p) => p.bytes@,
        _ => Seq::empty(),
    }
}

/// Whether a node is a non-nullable `u8` primitive array.
pub open spec fn is_u8_array(a: Array) -> bool {
    match a {
        Array::Primitive(p) => p.ptype == PType::U8 && p.validity is NonNullable,
        _ => false,
    }
}

/// The byte buffers of a list of `data` children, child by child.
pub open spec fn data_bytes(s: Seq<Array>) -> Seq<Seq<u8>>
    decreases s,
{
    if s.len() == 0 {
        Seq::empty()
    } else {
        data_bytes(s.drop_last()).push(u8_bytes(s.last()))
    }
}

/// `data_bytes` maps `u8_bytes` over the children, position by position.
pub proof fn lemma_data_bytes(s: Seq<Array>)
    ensures
        data_bytes(s).len() == s.len(),
        forall|i: int| 0 <= i < s.len() ==> data_bytes(s)[i] == u8_bytes(#[trigger] s[i]),
    decreases s,
{
    if s.len() > 0 {
        lemma_data_bytes(s.drop_last());
        assert forall|i: int| 0 <= i < s.len() implies data_bytes(s)[i] == u8_bytes(
            #[trigger] s[i],
        ) by {
            if i < s.len() - 1 {
                assert(s.drop_last()[i] == s[i]);
            } else {
                assert(s.last() == s[i]);
            }
        }
    }
}

/// The `size` field of view word `i`: its first four bytes, little endian.
pub open spec fn view_size(vb: Seq<u8>, i: int) -> u32 {
    vstd::bytes::spec_u32_from_le_bytes(vb.subrange(16 * i, 16 * i + 4))
}

/// The `buffer_index` field of a reference view word.
pub open spec fn view_buffer_index(vb: Seq<u8>, i: int) -> u32 {
    vstd::bytes::spec_u32_from_le_bytes(vb.subrange(16 * i + 8, 16 * i + 12))
}

/// The `offset` field of a reference view word.
pub open spec fn view_offset(vb: Seq<u8>, i: int) -> u32 {
    vstd::bytes::spec_u32_from_le_bytes(vb.subrange(16 * i + 12, 16 * i + 16))
}

/// The payload of view word `i`: the inlined bytes when `size <= 12`, else
/// the referenced range of the selected data buffer.
pub open spec fn view_payload(vb: Seq<u8>, bufs: Seq<Seq<u8>>, i: int) -> Seq<u8> {
    let size = view_size(vb, i) as int;
    if size <= 12 {
        vb.subrange(16 * i + 4, 16 * i + 4 + size)
    } else {
        let bi = view_buffer_index(vb, i) as int;
        let off = view_offset(vb, i) as int;
        bufs[bi].subrange(off, off + size)
    }
}

/// A reference view word is in bounds and caches the payload's first four
/// bytes as its prefix.
pub open spec fn view_word_wf(vb: Seq<u8>, bufs: Seq<Seq<u8>>, i: int) -> bool {
    let size = view_size(vb, i) as int;
    size > 12 ==> {
        let bi = view_buffer_index(vb, i) as int;
        let off = view_offset(vb, i) as int;
        &&& bi < bufs.len()
        &&& off + size <= bufs[bi].len()
        &&& vb.subrange(16 * i + 4, 16 * i + 8) == bufs[bi].subrange(off, off + 4)
    }
}

impl VarBinViewArray {
    /// Number of logical elements: one per 16-byte view word.
    pub open spec fn spec_len(&self) -> nat {
        u8_bytes(*self.views).len() / 16
    }

    /// The views child holds whole view words, each word is well-formed, the
    /// type is a string or binary type, and the validity fits.
    pub open spec fn wf(&self) -> bool {
        let vb = u8_bytes(*self.views);
        let bufs = data_bytes(self.data@);
        &&& is_u8_array(*self.views)
        &&& forall|k: int| 0 <= k < self.data@.len() ==> is_u8_array(#[trigger] self.data@[k])
        &&& vb.len() == self.spec_len() * 16
        &&& forall|i: int| 0 <= i < self.spec_len() ==> view_word_wf(vb, bufs, i)
        &&& (self.dtype@ matches DTypeSpec::Utf8(_) || self.dtype@ matches DTypeSpec::Binary(_))
        &&& self.dtype@.is_nullable() == (self.validity.spec_nullability() is Nullable)
        &&& self.validity.compat(self.spec_len(), self.validity.spec_nullability())
    }

    /// The elements this node denotes: each valid position's payload, as a
    /// string or binary value according to the type.
    pub open spec fn selems(&self) -> Seq<SpecValue> {
        let vb = u8_bytes(*self.views);
        let bufs = data_bytes(self.data@);
        let is_utf8 = self.dtype@ is Utf8;
        Seq::new(
            self.spec_len(),
            |i: int|
                if self.validity.is_valid(i) {
                    if is_utf8 {
                        SpecValue::BufferString(view_payload(vb, bufs, i))
                    } else {
                        SpecValue::Buffer(view_payload(vb, bufs, i))
                    }
                } else {
                    SpecValue::Null
                },
        )
    }
}

/// The logical type of each node in a list, node by node.
pub open spec fn arrays_dtypes(s: Seq<Array>) -> Seq<DTypeSpec>
    decreases s,
{
    if s.len() == 0 {
        Seq::empty()
    } else {
        arrays_dtypes(s.drop_last()).push(sdtype(s.last()))
    }
}

/// `arrays_dtypes` maps `sdtype` over the nodes, position by position.
pub proof fn lemma_arrays_dtypes(s: Seq<Array>)
    ensures
        arrays_dtypes(s).len() == s.len(),
        forall|i: int| 0 <= i < s.len() ==> arrays_dtypes(s)[i] == sdtype(#[trigger] s[i]),
    decreases s,
{
    if s.len() > 0 {
        lemma_arrays_dtypes(s.drop_last());
        assert forall|i: int| 0 <= i < s.len() implies arrays_dtypes(s)[i] == sdtype(
            #[trigger] s[i],
        ) by {
            if i < s.len() - 1 {
                assert(s.drop_last()[i] == s[i]);
            } else {
                assert(s.last() == s[i]);
            }
        }
    }
}

/// The element sequences of a list of nodes, node by node.
pub open spec fn arrays_elems(s: Seq<Array>) -> Seq<Seq<SpecValue>>
    decreases s,
{
    if s.len() == 0 {
        Seq::empty()
    } else {
        arrays_elems(s.drop_last()).push(elems(s.last()))
    }
}

/// `arrays_elems` maps `elems` over the nodes, position by position.
pub proof fn lemma_arrays_elems(s: Seq<Array>)
    ensures
        arrays_elems(s).len() == s.len(),
        forall|i: int| 0 <= i < s.len() ==> arrays_elems(s)[i] == elems(#[trigger] s[i]),
    decreases s,
{
    if s.len() > 0 {
        lemma_arrays_elems(s.drop_last());
        assert forall|i: int| 0 <= i < s.len() implies arrays_elems(s)[i] == elems(
            #[trigger] s[i],
        ) by {
            if i < s.len() - 1 {
                assert(s.drop_last()[i] == s[i]);
            } else {
                assert(s.last() == s[i]);
            }
        }
    }
}

/// Every node in a list is well-formed.
pub open spec fn all_wf(s: Seq<Array>) -> bool
    decreases s,
{
    forall|i: int| 0 <= i < s.len() ==> wf(#[trigger] s[i])
}

/// The elements of consecutive chunks, joined in order.
pub open spec fn chunks_elems(s: Seq<Array>) -> Seq<SpecValue>
    decreases s,
{
    if s.len() == 0 {
        Seq::empty()
    } else {
        chunks_elems(s.drop_last()) + elems(s.last())
    }
}

impl StructArray {
    /// As many names as fields, each field well-typed at the struct's length.
    pub open spec fn wf(&self) -> bool {
        &&& self.names@.len() == self.fields@.len()
        &&& forall|i: int, j: int|
            0 <= i < j < self.names@.len() ==> self.names@[i]@ != self.names@[j]@
        &&& forall|i: int|
            0 <= i < self.fields@.len() ==> elems(#[trigger] self.fields@[i]).len()
                == self.len as nat
        &&& self.validity.compat(self.len as nat, self.validity.spec_nullability())
    }

    /// The elements this node denotes: at each valid position, the struct of
    /// the fields' values there.
    pub open spec fn selems(&self) -> Seq<SpecValue>
        decreases self,
    {
        let ess = arrays_elems(self.fields@);
        Seq::new(
            self.len as nat,
            |i: int|
                if self.validity.is_valid(i) {
                    SpecValue::Struct(Seq::new(ess.len(), |j: int| ess[j][i]))
                } else {
                    SpecValue::Null
                },
        )
    }
}

/// The integers stored in a primitive node, element by element (for floats,
/// bit patterns read as unsigned integers).
pub open spec fn prim_ints(a: Array) -> Seq<int> {
    match a {
        Array::Primitive(p) => Seq::new(p.spec_len(), |i: int| p.int_at(i)),
        _ => Seq::empty(),
    }
}

/// Whether a node is a non-nullable primitive array of unsigned integers.
pub open spec fn is_index_array(a: Array) -> bool {
    match a {
        Array::Primitive(p) => p.ptype.spec_is_unsigned_int() && p.validity is NonNullable,
        _ => false,
    }
}

/// A strictly increasing sequence of integers.
pub open spec fn strictly_increasing(s: Seq<int>) -> bool {
    forall|i: int, j: int| 0 <= i < j < s.len() ==> s[i] < s[j]
}

impl SparseArray {
    /// Patched positions are strictly increasing valid positions; one value
    /// per patch; patch values and fill share the array's type.
    pub open spec fn wf(&self) -> bool {
        let idx = prim_ints(*self.indices);
        &&& is_index_array(*self.indices)
        &&& strictly_increasing(idx)
        &&& forall|k: int| 0 <= k < idx.len() ==> 0 <= #[trigger] idx[k] < self.len as int
        &&& elems(*self.values).len() == idx.len()
        &&& sdtype(*self.values) == self.fill.dtype@
        &&& self.fill.wf()
    }

    /// The elements this node denotes: the patch value at each patched
    /// position, the fill everywhere else.
    pub open spec fn selems(&self) -> Seq<SpecValue>
        decreases self,
    {
        let idx = prim_ints(*self.indices);
        let ve = elems(*self.values);
        let fill = self.fill@.value;
        Seq::new(
            self.len as nat,
            |i: int|
                if idx.contains(i) {
                    ve[idx.index_of(i)]
                } else {
                    fill
                },
        )
    }
}

/// The run index that covers position `pos`: how many run ends are at or
/// before it.
pub open spec fn run_of(ends: Seq<int>, pos: int) -> int
    decreases ends,
{
    if ends.len() == 0 {
        0
    } else if pos < ends[0] {
        0
    } else {
        1 + run_of(ends.subrange(1, ends.len() as int), pos)
    }
}

impl ReeArray {
    /// Run ends are strictly increasing and cover the viewed range; one value
    /// per run.
    pub open spec fn wf(&self) -> bool {
        let ends = prim_ints(*self.ends);
        &&& is_index_array(*self.ends)
        &&& strictly_increasing(ends)
        &&& elems(*self.values).len() == ends.len()
        &&& ends.len() > 0 ==> ends.last() >= self.offset + self.length
        &&& self.length > 0 ==> ends.len() > 0
        &&& self.validity.compat(self.length as nat, self.validity.spec_nullability())
        &&& (self.validity is NonNullable || sdtype(*self.values).is_nullable())
    }

    /// The elements this node denotes: position `i` reads the value of the
    /// run that covers `offset + i`.
    pub open spec fn selems(&self) -> Seq<SpecValue>
        decreases self,
    {
        let ends = prim_ints(*self.ends);
        let ve = elems(*self.values);
        Seq::new(
            self.length as nat,
            |i: int|
                if self.validity.is_valid(i) {
                    ve[run_of(ends, self.offset + i)]
                } else {
                    SpecValue::Null
                },
        )
    }
}

impl ChunkedArray {
    /// Every chunk shares the stored logical type, and the stored length is
    /// the chunk lengths summed.
    pub open spec fn wf(&self) -> bool {
        &&& forall|i: int|
            0 <= i < self.chunks@.len() ==> sdtype(#[trigger] self.chunks@[i]) == self.dtype@
        &&& self.len as nat == chunks_elems(self.chunks@).len()
    }
}

/// Whether an array node and all its descendants are well-formed.
pub open spec fn wf(a: Array) -> bool
    decreases a,
{
    match a {
        Array::Null(_) => true,
        Array::Bool(b) => b.wf(),
        Array::Primitive(p) => p.wf(),
        Array::VarBinView(v) => v.wf() && wf(*v.views) && all_wf(v.data@),
        Array::Struct(st) => st.wf() && all_wf(st.fields@) && fields_typed(
            st.fields@,
            st.len as nat,
        ),
        Array::Sparse(sp) => sp.wf() && wf(*sp.indices) && wf(*sp.values),
        Array::Ree(r) => r.wf() && wf(*r.ends) && wf(*r.values),
        Array::Chunked(c) => c.wf() && all_wf(c.chunks@),
    }
}

/// Every field array denotes exactly `len` elements.
pub open spec fn fields_typed(s: Seq<Array>, len: nat) -> bool {
    forall|i: int| 0 <= i < s.len() ==> elems(#[trigger] s[i]).len() == len
}

/// The logical type of an array node.
pub open spec fn sdtype(a: Array) -> DTypeSpec
    decreases a,
{
    match a {
        Array::Null(_) => DTypeSpec::Null,
        Array::Bool(b) => DTypeSpec::Bool(b.validity.spec_nullability()),
        Array::Primitive(p) => DTypeSpec::Primitive(p.ptype, p.validity.spec_nullability()),
        Array::VarBinView(v) => v.dtype@,
        Array::Struct(st) => DTypeSpec::Struct(
            st.names@.map_values(|s: String| s@),
            arrays_dtypes(st.fields@),
            st.validity.spec_nullability(),
        ),
        Array::Sparse(sp) => sp.fill.dtype@,
        Array::Ree(r) => sdtype(*r.values),
        Array::Chunked(c) => c.dtype@,
    }
}

/// The sequence of element values an array denotes. Compute operations are
/// specified against this model.
pub open spec fn elems(a: Array) -> Seq<SpecValue>
    decreases a,
{
    match a {
        Array::Null(n) => Seq::new(n.len as nat, |i: int| SpecValue::Null),
        Array::Bool(b) => b.selems(),
        Array::Primitive(p) => p.selems(),
        Array::VarBinView(v) => v.selems(),
        Array::Struct(st) => st.selems(),
        Array::Sparse(sp) => sp.selems(),
        Array::Ree(r) => r.selems(),
        Array::Chunked(c) => chunks_elems(c.chunks@),
    }
}

/// The number of logical elements an array denotes.
pub open spec fn alen(a: Array) -> nat {
    elems(a).len()
}


/// A chunked node's elements are its first chunk's elements followed by the
/// remaining chunks' elements.
pub proof fn lemma_chunks_elems_first(s: Seq<Array>)
    requires
        s.len() > 0,
    ensures
        chunks_elems(s) == elems(s.first()) + chunks_elems(s.drop_first()),
    decreases s.len(),
{
    if s.len() == 1 {
        assert(s.drop_last().len() == 0);
        assert(s.drop_first().len() == 0);
        assert(chunks_elems(s.drop_last()) =~= Seq::<SpecValue>::empty());
        assert(chunks_elems(s.drop_first()) =~= Seq::<SpecValue>::empty());
        assert(s.first() == s.last());
        assert(chunks_elems(s) == chunks_elems(s.drop_last()) + elems(s.last()));
        assert(chunks_elems(s) =~= elems(s.first()) + chunks_elems(s.drop_first()));
    } else {
        lemma_chunks_elems_first(s.drop_last());
        assert(s.drop_last().first() == s.first());
        assert(s.drop_last().drop_first() =~= s.drop_first().drop_last());
        assert(s.drop_first().last() == s.last());
        assert(chunks_elems(s) == chunks_elems(s.drop_last()) + elems(s.last()));
        assert(chunks_elems(s.drop_first()) == chunks_elems(s.drop_first().drop_last()) + elems(
            s.drop_first().last(),
        ));
        assert(chunks_elems(s) =~= elems(s.first()) + chunks_elems(s.drop_first()));
    }
}

/// Number of logical elements of a chunked node, chunk lengths summed.
pub proof fn lemma_chunks_elems_len(s: Seq<Array>)
    ensures
        s.len() == 0 ==> chunks_elems(s).len() == 0,
        s.len() > 0 ==> chunks_elems(s).len() == chunks_elems(s.drop_last()).len() + elems(
            s.last(),
        ).len(),
{
}

impl Array {
    /// Number of logical elements.
    pub fn len(&self) -> (n: usize)
        requires
            wf(*self),
        ensures
            n == alen(*self),
        decreases *self,
    {
        match self {
            Array::Null(n) => n.len,
            Array::Bool(b) => b.values.len(),
            Array::Primitive(p) => {
                let w = p.ptype.byte_width();
                let n = p.bytes.len() / w;
                proof {
                    assert(p.bytes@.len() / (w as nat) == p.spec_len());
                }
                n
            },
            Array::VarBinView(v) => {
                match &*v.views {
                    Array::Primitive(p) => p.bytes.len() / 16,
                    _ => unreached(),
                }
            },
            Array::Struct(st) => st.len,
            Array::Sparse(sp) => sp.len,
            Array::Ree(r) => r.length,
            Array::Chunked(c) => c.len,
        }
    }

    /// Whether the array has no elements.
    pub fn is_empty(&self) -> (r: bool)
        requires
            wf(*self),
        ensures
            r == (alen(*self) == 0),
    {
        self.len() == 0
    }

    /// The array's logical type, built as an owned value.
    pub fn dtype(&self) -> (d: DType)
        requires
            wf(*self),
        ensures
            d@ == sdtype(*self),
        decreases *self,
    {
        match self {
            Array::Null(_) => DType::Null,
            Array::Bool(b) => DType::Bool(b.validity.nullability()),
            Array::Primitive(p) => DType::Primitive(p.ptype, p.validity.nullability()),
            Array::VarBinView(v) => v.dtype.clone(),
            Array::Struct(st) => {
                let names = crate::dtype::clone_strings(&st.names);
                let mut children: Vec<DType> = Vec::new();
                let mut i: usize = 0;
                proof {
                    lemma_arrays_dtypes(st.fields@);
                }
                #[verifier::loop_isolation(false)]
                while i < st.fields.len()
                    invariant
                        0 <= i <= st.fields@.len(),
                        children@.len() == i,
                        forall|k: int|
                            0 <= k < i ==> (#[trigger] children@[k])@ == arrays_dtypes(
                                st.fields@,
                            )[k],
                    decreases st.fields@.len() - i,
                {
                    proof {
                        assert(decreases_to!(*self => *st));
                        assert(decreases_to!(*st => st.fields));
                        assert(decreases_to!(st.fields => st.fields@));
                        assert(decreases_to!(st.fields@ => st.fields@[i as int]));
                        assert(all_wf(st.fields@));
                        assert(wf(st.fields@[i as int]));
                    }
                    let d = st.fields[i].dtype();
                    children.push(d);
                    i = i + 1;
                }
                proof {
                    crate::dtype::lemma_dtype_views(children@);
                    assert forall|k: int| 0 <= k < children@.len() implies dtype_views(
                        children@,
                    )[k] == arrays_dtypes(st.fields@)[k] by {
                        assert(children@[k]@ == arrays_dtypes(st.fields@)[k]);
                    }
                    assert(dtype_views(children@) =~= arrays_dtypes(st.fields@));
                    assert(names@.map_values(|s: String| s@) =~= st.names@.map_values(
                        |s: String| s@,
                    ));
                }
                DType::Struct(names, children, st.validity.nullability())
            },
            Array::Sparse(sp) => sp.fill.dtype().clone(),
            Array::Ree(r) => r.values.dtype(),
            Array::Chunked(c) => c.dtype.clone(),
        }
    }
}

/// Length and emptiness of an array value.
pub trait ArrayLen {
    /// When the value is well-formed enough to be asked.
    spec fn valid(&self) -> bool;

    /// Number of logical elements, as a mathematical number.
    spec fn spec_len(&self) -> nat;

    /// Number of logical elements.
    fn length(&self) -> (n: usize)
        requires
            self.valid(),
        ensures
            n == self.spec_len(),
    ;

    /// Whether there are no elements.
    fn empty(&self) -> (r: bool)
        requires
            self.valid(),
        ensures
            r == (self.spec_len() == 0),
    ;
}

/// The behaviour every array value answers for: length and logical type.
pub trait ArrayTrait: ArrayLen {
    /// The logical type, as a mathematical value.
    spec fn spec_dtype(&self) -> DTypeSpec;

    /// The logical type, as an owned value.
    fn dtype_of(&self) -> (d: DType)
        requires
            self.valid(),
        ensures
            d@ == self.spec_dtype(),
    ;
}

impl ArrayLen for Array {
    open spec fn valid(&self) -> bool {
        wf(*self)
    }

    open spec fn spec_len(&self) -> nat {
        alen(*self)
    }

    fn length(&self) -> (n: usize) {
        self.len()
    }

    fn empty(&self) -> (r: bool) {
        self.is_empty()
    }
}

impl ArrayTrait for Array {
    open spec fn spec_dtype(&self) -> DTypeSpec {
        sdtype(*self)
    }

    fn dtype_of(&self) -> (d: DType) {
        self.dtype()
    }
}

impl NullArray {
    /// An all-null array of the given length.
    pub fn new(len: usize) -> (r: NullArray)
        ensures
            r.len == len,
            wf(Array::Null(r)),
            alen(Array::Null(r)) == len,
            elems(Array::Null(r)) == Seq::new(len as nat, |i: int| SpecValue::Null),
    {
        NullArray { len }
    }
}

impl BoolArray {
    /// Booleans with the given validity; the mask, if any, must fit.
    pub fn new(values: Vec<bool>, validity: Validity) -> (r: Result<
        BoolArray,
        crate::error::VortexError,
    >)
        ensures
            validity.compat(values@.len(), validity.spec_nullability()) ==> (r matches Ok(b)
                && b.values@ == values@ && b.validity == validity && wf(Array::Bool(b))),
            !validity.compat(values@.len(), validity.spec_nullability()) ==> r is Err,
    {
        let ok = match &validity {
            Validity::Array(mask) => mask.len() == values.len(),
            _ => true,
        };
        if ok {
            Ok(BoolArray { values, validity })
        } else {
            Err(crate::error::VortexError::TypeMismatch)
        }
    }
}

impl PrimitiveArray {
    /// A primitive array from its element values; every value must be of the
    /// stated type and the validity must fit.
    pub fn from_pvalues(ptype: PType, values: &Vec<crate::scalar::PValue>, validity: Validity) -> (r:
        Result<PrimitiveArray, crate::error::VortexError>)
        requires
            values@.len() * ptype.spec_byte_width() <= usize::MAX,
        ensures
            ((forall|i: int| 0 <= i < values@.len() ==> (#[trigger] values@[i]).spec_ptype()
                == ptype) && validity.compat(values@.len(), validity.spec_nullability())) ==> (
            r matches Ok(p) && {
                &&& p.ptype == ptype
                &&& p.validity == validity
                &&& wf(Array::Primitive(p))
                &&& p.spec_len() == values@.len()
                &&& forall|i: int|
                    0 <= i < values@.len() ==> spec_pvalue_at(ptype, p.bytes@, i) == values@[i]
            }),
    {
        let vok = match &validity {
            Validity::Array(mask) => mask.len() == values.len(),
            _ => true,
        };
        let mut ok = true;
        let mut bytes: Vec<u8> = Vec::new();
        let mut i: usize = 0;
        let w = ptype.byte_width();
        #[verifier::loop_isolation(false)]
        while i < values.len()
            invariant
                0 <= i <= values@.len(),
                (forall|k: int| 0 <= k < values@.len() ==> (#[trigger] values@[k]).spec_ptype()
                    == ptype) ==> {
                    &&& bytes@.len() == i * ptype.spec_byte_width()
                    &&& forall|k: int|
                        0 <= k < i ==> spec_pvalue_at(ptype, bytes@, k) == values@[k]
                },
                (forall|k: int| 0 <= k < values@.len() ==> (#[trigger] values@[k]).spec_ptype()
                    == ptype) ==> ok,
                bytes@.len() <= i * ptype.spec_byte_width(),
            decreases values@.len() - i,
        {
            let v = values[i];
            if v.ptype() == ptype {
                proof {
                    if forall|k: int| 0 <= k < values@.len() ==> (#[trigger] values@[k]).spec_ptype()
                        == ptype {
                        crate::codec::lemma_push_pvalue(ptype, bytes@, v, i as int);
                    }
                    crate::codec::lemma_le_bytes_roundtrip(v);
                    assert((i as int) * ptype.spec_byte_width() + ptype.spec_byte_width() == ((
                    i as int) + 1) * ptype.spec_byte_width()) by (nonlinear_arith);
                    assert((i as int) * ptype.spec_byte_width() <= values@.len()
                        * ptype.spec_byte_width() && ((i as int) + 1) * ptype.spec_byte_width()
                        <= values@.len() * ptype.spec_byte_width()) by (nonlinear_arith)
                        requires
                            0 <= i < values@.len(),
                    ;
                }
                crate::codec::push_pvalue(&mut bytes, v);
            } else {
                ok = false;
            }
            i = i + 1;
        }
        if ok && vok {
            let p = PrimitiveArray { ptype, bytes, validity };
            if p.bytes.len() == values.len() * w {
                proof {
                    assert(p.spec_len() == values@.len()) by (nonlinear_arith)
                        requires
                            p.bytes@.len() == values@.len() * ptype.spec_byte_width(),
                            ptype.spec_byte_width() >= 1,
                            p.spec_len() == p.bytes@.len() / ptype.spec_byte_width() as nat,
                    ;
                }
                Ok(p)
            } else {
                Err(crate::error::VortexError::TypeMismatch)
            }
        } else {
            Err(crate::error::VortexError::TypeMismatch)
        }
    }
}


/// Every element of the sequence fits the type.
pub open spec fn elems_match(es: Seq<SpecValue>, d: DTypeSpec) -> bool {
    forall|i: int| 0 <= i < es.len() ==> (#[trigger] es[i]).matches(d)
}

/// The run index of a covered position is a real run: it stays below the
/// number of runs.
pub proof fn lemma_run_of_bounds(ends: Seq<int>, pos: int)
    requires
        ends.len() > 0,
        pos < ends.last(),
    ensures
        0 <= run_of(ends, pos) < ends.len(),
    decreases ends,
{
    if !(pos < ends[0]) {
        let rest = ends.subrange(1, ends.len() as int);
        assert(rest.last() == ends.last());
        lemma_run_of_bounds(rest, pos);
    }
}

/// Type soundness: a well-formed array only denotes elements that fit its
/// logical type. In particular an array of a non-nullable type never denotes
/// a null.
pub proof fn lemma_wf_elems_match(a: Array)
    requires
        wf(a),
    ensures
        elems_match(elems(a), sdtype(a)),
    decreases a,
{
    match a {
        Array::Null(_) => {},
        Array::Bool(b) => {},
        Array::Primitive(p) => {
            assert forall|i: int| 0 <= i < p.selems().len() implies (#[trigger] p.selems()[i]).matches(
                sdtype(a),
            ) by {
                if p.validity.is_valid(i) {
                    let pv = crate::codec::spec_pvalue_at(p.ptype, p.bytes@, i);
                    assert(pv.spec_ptype() == p.ptype);
                }
            }
        },
        Array::VarBinView(v) => {},
        Array::Struct(st) => {
            lemma_arrays_elems(st.fields@);
            lemma_arrays_dtypes(st.fields@);
            assert forall|k: int| 0 <= k < st.fields@.len() implies elems_match(
                #[trigger] arrays_elems(st.fields@)[k],
                arrays_dtypes(st.fields@)[k],
            ) by {
                assert(all_wf(st.fields@));
                assert(wf(st.fields@[k]));
                lemma_wf_elems_match(st.fields@[k]);
            }
            let es = st.selems();
            let ess = arrays_elems(st.fields@);
            assert forall|i: int| 0 <= i < es.len() implies (#[trigger] es[i]).matches(
                sdtype(a),
            ) by {
                if st.validity.is_valid(i) {
                    let vs = Seq::new(ess.len(), |j: int| ess[j][i]);
                    assert forall|j: int| 0 <= j < vs.len() implies (#[trigger] vs[j]).matches(
                        arrays_dtypes(st.fields@)[j],
                    ) by {
                        assert(elems(st.fields@[j]).len() == st.len as nat);
                        assert(ess[j][i].matches(arrays_dtypes(st.fields@)[j]));
                    }
                    assert(crate::scalar::fields_match(vs, arrays_dtypes(st.fields@)));
                    assert(st.names@.map_values(|s: String| s@).len() == st.names@.len());
                }
            }
        },
        Array::Sparse(sp) => {
            lemma_wf_elems_match(*sp.values);
            let es = sp.selems();
            let idx = prim_ints(*sp.indices);
            let ve = elems(*sp.values);
            assert forall|i: int| 0 <= i < es.len() implies (#[trigger] es[i]).matches(
                sdtype(a),
            ) by {
                if idx.contains(i) {
                    let j = idx.index_of(i);
                    assert(0 <= j < idx.len() && idx[j] == i);
                    assert(ve[j].matches(sdtype(*sp.values)));
                } else {
                    assert(sp.fill@.value.matches(sp.fill.dtype@));
                }
            }
        },
        Array::Ree(r) => {
            lemma_wf_elems_match(*r.values);
            let es = r.selems();
            let ends = prim_ints(*r.ends);
            let ve = elems(*r.values);
            assert forall|i: int| 0 <= i < es.len() implies (#[trigger] es[i]).matches(
                sdtype(a),
            ) by {
                if r.validity.is_valid(i) {
                    lemma_run_of_bounds(ends, r.offset + i);
                    assert(ve[run_of(ends, r.offset + i)].matches(sdtype(*r.values)));
                }
            }
        },
        Array::Chunked(c) => {
            lemma_wf_chunks_match(c.chunks@, c.dtype@);
        },
    }
}

/// Type soundness for a list of chunks of one type.
pub proof fn lemma_wf_chunks_match(s: Seq<Array>, d: DTypeSpec)
    requires
        all_wf(s),
        forall|i: int| 0 <= i < s.len() ==> sdtype(#[trigger] s[i]) == d,
    ensures
        elems_match(chunks_elems(s), d),
    decreases s,
{
    if s.len() > 0 {
        lemma_wf_chunks_match(s.drop_last(), d);
        assert(wf(s.last()));
        lemma_wf_elems_match(s.last());
        let es = chunks_elems(s);
        let front = chunks_elems(s.drop_last());
        let back = elems(s.last());
        assert forall|i: int| 0 <= i < es.len() implies (#[trigger] es[i]).matches(d) by {
            if i < front.len() {
                assert(front[i].matches(d));
            } else {
                assert(back[i - front.len()].matches(d));
            }
        }
    }
}


impl PrimitiveArray {
    /// An unsigned 64-bit array from its values, without nulls.
    pub fn from_u64s(v: &Vec<u64>) -> (r: Result<PrimitiveArray, crate::error::VortexError>)
        ensures
            v@.len() * 8 <= usize::MAX ==> r is Ok,
            r matches Ok(p) ==> {
                &&& p.ptype == PType::U64
                &&& p.validity is NonNullable
                &&& wf(Array::Primitive(p))
                &&& is_index_array(Array::Primitive(p))
                &&& p.spec_len() == v@.len()
                &&& prim_ints(Array::Primitive(p)) == v@.map_values(|x: u64| x as int)
            },
    {
        if v.len() > usize::MAX / 8 {
            proof {
                assert(v@.len() * 8 > usize::MAX) by (nonlinear_arith)
                    requires
                        v@.len() > usize::MAX as int / 8,
                ;
            }
            return Err(crate::error::VortexError::InvalidRange);
        }
        let mut vals: Vec<crate::scalar::PValue> = Vec::new();
        let mut i: usize = 0;
        #[verifier::loop_isolation(false)]
        while i < v.len()
            invariant
                0 <= i <= v@.len(),
                vals@.len() == i,
                forall|k: int| 0 <= k < i ==> vals@[k] == crate::scalar::PValue::U64(v@[k]),
            decreases v@.len() - i,
        {
            vals.push(crate::scalar::PValue::U64(v[i]));
            i = i + 1;
        }
        proof {
            assert(v@.len() * 8 <= usize::MAX) by (nonlinear_arith)
                requires
                    v@.len() <= usize::MAX as int / 8,
            ;
            assert forall|k: int| 0 <= k < vals@.len() implies (#[trigger] vals@[k]).spec_ptype()
                == PType::U64 by {}
        }
        let p = match PrimitiveArray::from_pvalues(PType::U64, &vals, Validity::NonNullable) {
            Ok(p) => p,
            Err(_) => vstd::pervasive::unreached(),
        };
        proof {
            assert forall|k: int| 0 <= k < v@.len() implies prim_ints(Array::Primitive(p))[k]
                == v@.map_values(|x: u64| x as int)[k] by {
                assert(crate::codec::spec_pvalue_at(p.ptype, p.bytes@, k) == vals@[k]);
            }
            assert(prim_ints(Array::Primitive(p)) =~= v@.map_values(|x: u64| x as int));
        }
        Ok(p)
    }
}

} // verus!
