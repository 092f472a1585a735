//! The file footer: layouts, the postscript and the end-of-file marker.
//!
//! The last eight bytes of a file are the end-of-file marker: a 16-bit
//! version, the 16-bit length of the postscript, and the magic `VTXF`.
//! Immediately before it sits the postscript, a 32-byte table holding the
//! absolute offsets of the serialized schema and the root layout. The layout
//! is a recursive descriptor — flat, chunked or columnar — locating byte
//! ranges in the file.

use vstd::bytes::{
    spec_u16_to_le_bytes, spec_u32_from_le_bytes, spec_u32_to_le_bytes, spec_u64_from_le_bytes,
    spec_u64_to_le_bytes, u16_from_le_bytes, u16_to_le_bytes, u32_from_le_bytes, u32_to_le_bytes,
    u64_from_le_bytes, u64_to_le_bytes,
};
use vstd::prelude::*;
use vstd::slice::{slice_subrange, slice_to_vec};

use crate::error::VortexError;

verus! {

/// The layout code of a flat layout: one byte range, one array message.
pub const FLAT_LAYOUT_ID: u16 = 1;

/// The layout code of a chunked layout: one child per chunk of rows.
pub const CHUNKED_LAYOUT_ID: u16 = 2;

/// The layout code of a columnar layout: one child per struct field.
pub const COLUMNAR_LAYOUT_ID: u16 = 3;

/// An absolute byte range within the file.
#[derive(Clone, Copy, Debug, PartialEq, Eq, Structural)]
pub struct Buffer {
    pub begin_: u64,
    pub end_: u64,
}

impl Buffer {
    /// A byte range from its bounds.
    pub fn new(begin: u64, end: u64) -> (r: Buffer)
        ensures
            r.begin_ == begin,
            r.end_ == end,
    {
        Buffer { begin_: begin, end_: end }
    }

    /// Where the range starts.
    pub fn begin(&self) -> (r: u64)
        ensures
            r == self.begin_,
    {
        self.begin_
    }

    /// Where the range ends.
    pub fn end(&self) -> (r: u64)
        ensures
            r == self.end_,
    {
        self.end_
    }

    /// Move the start of the range.
    pub fn set_begin(&mut self, x: u64)
        ensures
            final(self).begin_ == x,
            final(self).end_ == old(self).end_,
    {
        self.begin_ = x;
    }

    /// Move the end of the range.
    pub fn set_end(&mut self, x: u64)
        ensures
            final(self).end_ == x,
            final(self).begin_ == old(self).begin_,
    {
        self.end_ = x;
    }
}

/// A recursive file layout: an encoding code, the byte ranges it reads, its
/// child layouts, the number of rows it describes, and opaque metadata that
/// the layout's own reader interprets.
#[derive(Debug)]
pub struct Layout {
    pub encoding_: u16,
    pub buffers_: Vec<Buffer>,
    pub children_: Vec<Layout>,
    pub row_count_: u64,
    pub metadata_: Vec<u8>,
}

/// The mathematical value of a [`Layout`].
pub struct LayoutV {
    pub encoding: u16,
    pub buffers: Seq<Buffer>,
    pub children: Seq<LayoutV>,
    pub row_count: u64,
    pub metadata: Seq<u8>,
}

/// The view of a single layout.
pub open spec fn layout_view(l: Layout) -> LayoutV
    decreases l,
{
    LayoutV {
        encoding: l.encoding_,
        buffers: l.buffers_@,
        children: layout_views(l.children_@),
        row_count: l.row_count_,
        metadata: l.metadata_@,
    }
}

/// The views of a list of layouts, node by node.
pub open spec fn layout_views(s: Seq<Layout>) -> Seq<LayoutV>
    decreases s,
{
    if s.len() == 0 {
        Seq::empty()
    } else {
        layout_views(s.drop_last()).push(layout_view(s.last()))
    }
}

/// `layout_views` maps `layout_view` over the list, position by position.
pub proof fn lemma_layout_views(s: Seq<Layout>)
    ensures
        layout_views(s).len() == s.len(),
        forall|i: int| 0 <= i < s.len() ==> layout_views(s)[i] == layout_view(#[trigger] s[i]),
    decreases s,
{
    if s.len() > 0 {
        lemma_layout_views(s.drop_last());
        assert forall|i: int| 0 <= i < s.len() implies layout_views(s)[i] == layout_view(
            #[trigger] s[i],
        ) by {
            if i < s.len() - 1 {
                assert(s.drop_last()[i] == s[i]);
            } else {
                assert(s.last() == s[i]);
            }
        }
    }
}

impl View for Layout {
    type V = LayoutV;

    open spec fn view(&self) -> LayoutV {
        layout_view(*self)
    }
}

/// Arguments a layout is assembled from.
#[derive(Debug)]
pub struct LayoutArgs {
    pub encoding: u16,
    pub buffers: Option<Vec<Buffer>>,
    pub children: Option<Vec<Layout>>,
    pub row_count: u64,
    pub metadata: Option<Vec<u8>>,
}

/// Assembles one layout field by field.
#[derive(Debug)]
pub struct LayoutBuilder {
    pub encoding: u16,
    pub buffers: Vec<Buffer>,
    pub children: Vec<Layout>,
    pub row_count: u64,
    pub metadata: Vec<u8>,
}

impl LayoutBuilder {
    /// Start with nothing set.
    pub fn new() -> (r: LayoutBuilder)
        ensures
            r.encoding == 0,
            r.buffers@.len() == 0,
            r.children@.len() == 0,
            r.row_count == 0,
            r.metadata@.len() == 0,
    {
        LayoutBuilder {
            encoding: 0,
            buffers: Vec::new(),
            children: Vec::new(),
            row_count: 0,
            metadata: Vec::new(),
        }
    }

    /// Set the layout's encoding code.
    pub fn add_encoding(&mut self, encoding: u16)
        ensures
            final(self).encoding == encoding,
            final(self).buffers == old(self).buffers,
            final(self).children == old(self).children,
            final(self).row_count == old(self).row_count,
            final(self).metadata == old(self).metadata,
    {
        self.encoding = encoding;
    }

    /// Set the layout's byte ranges.
    pub fn add_buffers(&mut self, buffers: Vec<Buffer>)
        ensures
            final(self).buffers == buffers,
            final(self).encoding == old(self).encoding,
            final(self).children == old(self).children,
            final(self).row_count == old(self).row_count,
            final(self).metadata == old(self).metadata,
    {
        self.buffers = buffers;
    }

    /// Set the layout's children.
    pub fn add_children(&mut self, children: Vec<Layout>)
        ensures
            final(self).children == children,
            final(self).encoding == old(self).encoding,
            final(self).buffers == old(self).buffers,
            final(self).row_count == old(self).row_count,
            final(self).metadata == old(self).metadata,
    {
        self.children = children;
    }

    /// Set the number of rows the layout describes.
    pub fn add_row_count(&mut self, row_count: u64)
        ensures
            final(self).row_count == row_count,
            final(self).encoding == old(self).encoding,
            final(self).buffers == old(self).buffers,
            final(self).children == old(self).children,
            final(self).metadata == old(self).metadata,
    {
        self.row_count = row_count;
    }

    /// Set the layout's opaque metadata.
    pub fn add_metadata(&mut self, metadata: Vec<u8>)
        ensures
            final(self).metadata == metadata,
            final(self).encoding == old(self).encoding,
            final(self).buffers == old(self).buffers,
            final(self).children == old(self).children,
            final(self).row_count == old(self).row_count,
    {
        self.metadata = metadata;
    }

    /// The assembled layout.
    pub fn finish(self) -> (r: Layout)
        ensures
            r.encoding_ == self.encoding,
            r.buffers_ == self.buffers,
            r.children_ == self.children,
            r.row_count_ == self.row_count,
            r.metadata_ == self.metadata,
    {
        Layout {
            encoding_: self.encoding,
            buffers_: self.buffers,
            children_: self.children,
            row_count_: self.row_count,
            metadata_: self.metadata,
        }
    }
}

impl Layout {
    /// A layout from its arguments; absent parts default to empty.
    pub fn create(args: LayoutArgs) -> (r: Layout)
        ensures
            r.encoding_ == args.encoding,
            r.row_count_ == args.row_count,
            args.buffers matches Some(b) ==> r.buffers_@ == b@,
            args.buffers is None ==> r.buffers_@.len() == 0,
            args.children matches Some(c) ==> r.children_@ == c@,
            args.children is None ==> r.children_@.len() == 0,
            args.metadata matches Some(m) ==> r.metadata_@ == m@,
            args.metadata is None ==> r.metadata_@.len() == 0,
    {
        let mut builder = LayoutBuilder::new();
        builder.add_row_count(args.row_count);
        match args.metadata {
            Some(m) => builder.add_metadata(m),
            None => {},
        }
        match args.children {
            Some(c) => builder.add_children(c),
            None => {},
        }
        match args.buffers {
            Some(b) => builder.add_buffers(b),
            None => {},
        }
        builder.add_encoding(args.encoding);
        builder.finish()
    }

    /// The layout's encoding code.
    pub fn encoding(&self) -> (r: u16)
        ensures
            r == self@.encoding,
    {
        self.encoding_
    }

    /// The layout's byte ranges.
    pub fn buffers(&self) -> (r: &Vec<Buffer>)
        ensures
            r@ == self@.buffers,
    {
        &self.buffers_
    }

    /// The layout's children.
    pub fn children(&self) -> (r: &Vec<Layout>)
        ensures
            layout_views(r@) == self@.children,
    {
        &self.children_
    }

    /// The number of rows the layout describes.
    pub fn row_count(&self) -> (r: u64)
        ensures
            r == self@.row_count,
    {
        self.row_count_
    }

    /// The layout's opaque metadata.
    pub fn metadata(&self) -> (r: &Vec<u8>)
        ensures
            r@ == self@.metadata,
    {
        &self.metadata_
    }
}

/// The postscript: where the schema and the root layout live in the file.
#[derive(Clone, Copy, Debug, PartialEq, Eq, Structural)]
pub struct Postscript {
    pub schema_offset_: u64,
    pub layout_offset_: u64,
}

/// Arguments a postscript is assembled from.
#[derive(Clone, Copy, Debug, PartialEq, Eq, Structural)]
pub struct PostscriptArgs {
    pub schema_offset: u64,
    pub layout_offset: u64,
}

/// Assembles a postscript field by field.
#[derive(Clone, Copy, Debug, PartialEq, Eq, Structural)]
pub struct PostscriptBuilder {
    pub schema_offset: u64,
    pub layout_offset: u64,
}

impl PostscriptBuilder {
    /// Start with both offsets zero.
    pub fn new() -> (r: PostscriptBuilder)
        ensures
            r.schema_offset == 0,
            r.layout_offset == 0,
    {
        PostscriptBuilder { schema_offset: 0, layout_offset: 0 }
    }

    /// Set where the schema lives.
    pub fn add_schema_offset(&mut self, schema_offset: u64)
        ensures
            final(self).schema_offset == schema_offset,
            final(self).layout_offset == old(self).layout_offset,
    {
        self.schema_offset = schema_offset;
    }

    /// Set where the root layout lives.
    pub fn add_layout_offset(&mut self, layout_offset: u64)
        ensures
            final(self).layout_offset == layout_offset,
            final(self).schema_offset == old(self).schema_offset,
    {
        self.layout_offset = layout_offset;
    }

    /// The assembled postscript.
    pub fn finish(self) -> (r: Postscript)
        ensures
            r.schema_offset_ == self.schema_offset,
            r.layout_offset_ == self.layout_offset,
    {
        Postscript { schema_offset_: self.schema_offset, layout_offset_: self.layout_offset }
    }
}

impl Postscript {
    /// A postscript from its arguments.
    pub fn create(args: PostscriptArgs) -> (r: Postscript)
        ensures
            r.schema_offset_ == args.schema_offset,
            r.layout_offset_ == args.layout_offset,
    {
        let mut builder = PostscriptBuilder::new();
        builder.add_layout_offset(args.layout_offset);
        builder.add_schema_offset(args.schema_offset);
        builder.finish()
    }

    /// Where the schema lives.
    pub fn schema_offset(&self) -> (r: u64)
        ensures
            r == self.schema_offset_,
    {
        self.schema_offset_
    }

    /// Where the root layout lives.
    pub fn layout_offset(&self) -> (r: u64)
        ensures
            r == self.layout_offset_,
    {
        self.layout_offset_
    }
}

/// The 32 bytes a postscript serializes to: a single-table buffer in the
/// table format — root offset, vtable, table with both offsets — whose size
/// never changes.
pub open spec fn postscript_bytes(schema_offset: u64, layout_offset: u64) -> Seq<u8> {
    spec_u32_to_le_bytes(12) + spec_u16_to_le_bytes(8) + spec_u16_to_le_bytes(20)
        + spec_u16_to_le_bytes(4) + spec_u16_to_le_bytes(12) + spec_u32_to_le_bytes(8)
        + spec_u64_to_le_bytes(schema_offset) + spec_u64_to_le_bytes(layout_offset)
}

/// Serialize a postscript into a fresh buffer.
pub fn finish_postscript_buffer(fbb: &mut Vec<u8>, root: &Postscript)
    ensures
        final(fbb)@ == old(fbb)@ + postscript_bytes(root.schema_offset_, root.layout_offset_),
        final(fbb)@.len() == old(fbb)@.len() + 32,
{
    let ghost base = fbb@;
    let mut t = u32_to_le_bytes(12);
    fbb.append(&mut t);
    let mut t = u16_to_le_bytes(8);
    fbb.append(&mut t);
    let mut t = u16_to_le_bytes(20);
    fbb.append(&mut t);
    let mut t = u16_to_le_bytes(4);
    fbb.append(&mut t);
    let mut t = u16_to_le_bytes(12);
    fbb.append(&mut t);
    let mut t = u32_to_le_bytes(8);
    fbb.append(&mut t);
    let mut t = u64_to_le_bytes(root.schema_offset_);
    fbb.append(&mut t);
    let mut t = u64_to_le_bytes(root.layout_offset_);
    fbb.append(&mut t);
    proof {
        vstd::bytes::lemma_auto_spec_u16_to_from_le_bytes();
        vstd::bytes::lemma_auto_spec_u32_to_from_le_bytes();
        vstd::bytes::lemma_auto_spec_u64_to_from_le_bytes();
        assert(fbb@ =~= base + postscript_bytes(root.schema_offset_, root.layout_offset_));
    }
}

/// Serialize a postscript with its length led in front.
pub fn finish_size_prefixed_postscript_buffer(fbb: &mut Vec<u8>, root: &Postscript)
    ensures
        final(fbb)@ == old(fbb)@ + spec_u32_to_le_bytes(32) + postscript_bytes(
            root.schema_offset_,
            root.layout_offset_,
        ),
{
    let ghost base = fbb@;
    let mut t = u32_to_le_bytes(32);
    fbb.append(&mut t);
    finish_postscript_buffer(fbb, root);
    proof {
        assert(fbb@ =~= base + spec_u32_to_le_bytes(32) + postscript_bytes(
            root.schema_offset_,
            root.layout_offset_,
        ));
    }
}

/// What the fixed postscript bytes hold at each position.
pub proof fn lemma_postscript_bytes_shape(b: Seq<u8>, s: u64, l: u64)
    requires
        b == postscript_bytes(s, l),
    ensures
        b.len() == 32,
        spec_u32_from_le_bytes(b.subrange(0, 4)) == 12,
        spec_u32_from_le_bytes(b.subrange(12, 16)) == 8,
        vstd::bytes::spec_u16_from_le_bytes(b.subrange(4, 6)) == 8,
        vstd::bytes::spec_u16_from_le_bytes(b.subrange(8, 10)) == 4,
        vstd::bytes::spec_u16_from_le_bytes(b.subrange(10, 12)) == 12,
        spec_u64_from_le_bytes(b.subrange(16, 24)) == s,
        spec_u64_from_le_bytes(b.subrange(24, 32)) == l,
{
    vstd::bytes::lemma_auto_spec_u16_to_from_le_bytes();
    vstd::bytes::lemma_auto_spec_u32_to_from_le_bytes();
    vstd::bytes::lemma_auto_spec_u64_to_from_le_bytes();
    assert(b.subrange(0, 4) =~= spec_u32_to_le_bytes(12));
    assert(b.subrange(12, 16) =~= spec_u32_to_le_bytes(8));
    assert(b.subrange(4, 6) =~= spec_u16_to_le_bytes(8));
    assert(b.subrange(8, 10) =~= spec_u16_to_le_bytes(4));
    assert(b.subrange(10, 12) =~= spec_u16_to_le_bytes(12));
    assert(b.subrange(16, 24) =~= spec_u64_to_le_bytes(s));
    assert(b.subrange(24, 32) =~= spec_u64_to_le_bytes(l));
}

/// Read a postscript from the front of a buffer, verifying the table
/// structure: the root offset, the vtable and both fields must be in
/// bounds.
pub fn root_as_postscript(buf: &Vec<u8>) -> (r: Result<Postscript, VortexError>)
    ensures
        (exists|s: u64, l: u64| buf@ == postscript_bytes(s, l)) ==> (r matches Ok(p) && buf@
            == postscript_bytes(p.schema_offset_, p.layout_offset_)),
{
    proof {
        vstd::bytes::lemma_auto_spec_u16_to_from_le_bytes();
        vstd::bytes::lemma_auto_spec_u32_to_from_le_bytes();
        vstd::bytes::lemma_auto_spec_u64_to_from_le_bytes();
        if exists|s: u64, l: u64| buf@ == postscript_bytes(s, l) {
            let (s, l) = choose|s: u64, l: u64| buf@ == postscript_bytes(s, l);
            lemma_postscript_bytes_shape(buf@, s, l);
        }
    }
    let n = buf.len();
    if n < 4 {
        return Err(VortexError::InvalidSerialization);
    }
    let root = u32_from_le_bytes(slice_subrange(buf.as_slice(), 0, 4)) as usize;
    // The table needs four bytes for its vtable offset.
    if root > n || n - root < 4 {
        return Err(VortexError::InvalidSerialization);
    }
    // This format's vtables sit directly in front of their table and span
    // eight bytes: length, table length, and one slot per field.
    let vt_back = u32_from_le_bytes(slice_subrange(buf.as_slice(), root, root + 4)) as usize;
    if vt_back > root {
        return Err(VortexError::InvalidSerialization);
    }
    let vt = root - vt_back;
    if n - vt < 8 {
        return Err(VortexError::InvalidSerialization);
    }
    let vt_len = u16_from_le_bytes(slice_subrange(buf.as_slice(), vt, vt + 2)) as usize;
    if vt_len < 8 {
        return Err(VortexError::InvalidSerialization);
    }
    let f0 = u16_from_le_bytes(slice_subrange(buf.as_slice(), vt + 4, vt + 6)) as usize;
    let f1 = u16_from_le_bytes(slice_subrange(buf.as_slice(), vt + 6, vt + 8)) as usize;
    let schema_offset: u64 = if f0 == 0 {
        0
    } else {
        if root > n - 8 || f0 > n - 8 - root {
            return Err(VortexError::InvalidSerialization);
        }
        u64_from_le_bytes(slice_subrange(buf.as_slice(), root + f0, root + f0 + 8))
    };
    let layout_offset: u64 = if f1 == 0 {
        0
    } else {
        if root > n - 8 || f1 > n - 8 - root {
            return Err(VortexError::InvalidSerialization);
        }
        u64_from_le_bytes(slice_subrange(buf.as_slice(), root + f1, root + f1 + 8))
    };
    let p = Postscript { schema_offset_: schema_offset, layout_offset_: layout_offset };
    proof {
        if exists|s: u64, l: u64| buf@ == postscript_bytes(s, l) {
            let (s, l) = choose|s: u64, l: u64| buf@ == postscript_bytes(s, l);
            lemma_postscript_bytes_shape(buf@, s, l);
            assert(p.schema_offset_ == s && p.layout_offset_ == l);
        }
    }
    Ok(p)
}

/// Read a postscript whose length is led in front.
pub fn size_prefixed_root_as_postscript(buf: &Vec<u8>) -> (r: Result<Postscript, VortexError>)
    ensures
        (exists|s: u64, l: u64| buf@ == spec_u32_to_le_bytes(32) + postscript_bytes(s, l)) ==> (
        r matches Ok(p) && buf@ == spec_u32_to_le_bytes(32) + postscript_bytes(
            p.schema_offset_,
            p.layout_offset_,
        )),
{
    proof {
        vstd::bytes::lemma_auto_spec_u32_to_from_le_bytes();
        if exists|s: u64, l: u64| buf@ == spec_u32_to_le_bytes(32) + postscript_bytes(s, l) {
            let (s, l) = choose|s: u64, l: u64|
                buf@ == spec_u32_to_le_bytes(32) + postscript_bytes(s, l);
            vstd::bytes::lemma_auto_spec_u16_to_from_le_bytes();
            vstd::bytes::lemma_auto_spec_u64_to_from_le_bytes();
            assert(postscript_bytes(s, l).len() == 32);
            assert(buf@.len() == 36);
            assert(buf@.subrange(4, 36) =~= postscript_bytes(s, l));
            lemma_postscript_bytes_shape(buf@.subrange(4, 36), s, l);
            assert(buf@.subrange(0, 4) =~= spec_u32_to_le_bytes(32));
        }
    }
    let n = buf.len();
    if n < 4 {
        return Err(VortexError::InvalidSerialization);
    }
    let len = u32_from_le_bytes(slice_subrange(buf.as_slice(), 0, 4)) as usize;
    if len > n - 4 {
        return Err(VortexError::InvalidSerialization);
    }
    let rest = slice_to_vec(slice_subrange(buf.as_slice(), 4, 4 + len));
    let r = root_as_postscript(&rest);
    proof {
        if exists|s: u64, l: u64| buf@ == spec_u32_to_le_bytes(32) + postscript_bytes(s, l) {
            let (s, l) = choose|s: u64, l: u64|
                buf@ == spec_u32_to_le_bytes(32) + postscript_bytes(s, l);
            assert(rest@ =~= postscript_bytes(s, l));
        }
    }
    r
}

/// Limits a reader imposes while verifying a postscript.
#[derive(Clone, Copy, Debug, PartialEq, Eq, Structural)]
pub struct VerifierOptions {
    /// The largest buffer the reader accepts.
    pub max_len: usize,
}

/// Read a postscript under explicit limits.
pub fn root_as_postscript_with_opts(opts: &VerifierOptions, buf: &Vec<u8>) -> (r: Result<
    Postscript,
    VortexError,
>)
    ensures
        (buf@.len() <= opts.max_len && exists|s: u64, l: u64| buf@ == postscript_bytes(s, l)) ==> (
        r matches Ok(p) && buf@ == postscript_bytes(p.schema_offset_, p.layout_offset_)),
{
    if buf.len() > opts.max_len {
        return Err(VortexError::InvalidSerialization);
    }
    root_as_postscript(buf)
}

/// Read a size-prefixed postscript under explicit limits.
pub fn size_prefixed_root_as_postscript_with_opts(opts: &VerifierOptions, buf: &Vec<u8>) -> (r:
    Result<Postscript, VortexError>)
    ensures
        (buf@.len() <= opts.max_len && exists|s: u64, l: u64|
            buf@ == spec_u32_to_le_bytes(32) + postscript_bytes(s, l)) ==> r is Ok,
{
    if buf.len() > opts.max_len {
        return Err(VortexError::InvalidSerialization);
    }
    size_prefixed_root_as_postscript(buf)
}

} // verus!
