//! The encoding registry.
//!
//! Every encoding has a stable identifier; a serialization context holds an
//! ordered list of encodings, and the position of an encoding in that list is
//! the 16-bit code written into serialized form. A code the context does not
//! know resolves to nothing; readers substitute an opaque encoding for it.

use vstd::prelude::*;

verus! {

/// The stable identity of an encoding.
#[derive(Clone, Copy, Debug, PartialEq, Eq, Structural)]
pub enum EncodingId {
    Null,
    Bool,
    Primitive,
    VarBinView,
    Struct,
    Sparse,
    Ree,
    Chunked,
    RoaringInt,
    Delta,
    /// A code this build does not know; kept so buffers and children can be
    /// carried through without being understood.
    Opaque(u16),
}

impl EncodingId {
    /// The encoding's stable textual identifier.
    pub fn as_str(&self) -> (r: &'static str)
    {
        match self {
            EncodingId::Null => "vortex.null",
            EncodingId::Bool => "vortex.bool",
            EncodingId::Primitive => "vortex.primitive",
            EncodingId::VarBinView => "vortex.varbinview",
            EncodingId::Struct => "vortex.struct",
            EncodingId::Sparse => "vortex.sparse",
            EncodingId::Ree => "vortex.ree",
            EncodingId::Chunked => "vortex.chunked",
            EncodingId::RoaringInt => "roaring.int",
            EncodingId::Delta => "fastlanes.delta",
            EncodingId::Opaque(_) => "vortex.opaque",
        }
    }
}

/// The ordered set of encodings a file is written and read with: the index
/// of an encoding is its serialized 16-bit code.
#[derive(Debug)]
pub struct SerdeContext {
    pub encodings: Vec<EncodingId>,
}

impl SerdeContext {
    /// A context over the given encodings, in order.
    pub fn new(encodings: Vec<EncodingId>) -> (r: SerdeContext)
        ensures
            r.encodings@ == encodings@,
    {
        SerdeContext { encodings }
    }

    /// The registered encodings, in code order.
    pub fn encodings(&self) -> (r: &Vec<EncodingId>)
        ensures
            r@ == self.encodings@,
    {
        &self.encodings
    }

    /// The encoding a serialized code names, when the context knows it.
    pub fn find_encoding(&self, encoding_id: u16) -> (r: Option<EncodingId>)
        ensures
            (encoding_id as int) < self.encodings@.len() ==> r == Some(
                self.encodings@[encoding_id as int],
            ),
            (encoding_id as int) >= self.encodings@.len() ==> r is None,
    {
        if (encoding_id as usize) < self.encodings.len() {
            Some(self.encodings[encoding_id as usize])
        } else {
            None
        }
    }

    /// The serialized code of an encoding, when the context holds it: the
    /// first position the encoding occurs at.
    pub fn encoding_idx(&self, encoding_id: EncodingId) -> (r: Option<u16>)
        ensures
            r matches Some(c) ==> (c as int) < self.encodings@.len() && self.encodings@[c as int]
                == encoding_id && forall|k: int| 0 <= k < c as int ==> self.encodings@[k]
                != encoding_id,
            r is None ==> forall|k: int|
                0 <= k < self.encodings@.len() && k < 0x10000 ==> self.encodings@[k]
                    != encoding_id,
    {
        let mut i: usize = 0;
        let n = if self.encodings.len() < 0x10000 {
            self.encodings.len()
        } else {
            0x10000
        };
        #[verifier::loop_isolation(false)]
        while i < n
            invariant
                0 <= i <= n,
                n <= self.encodings@.len(),
                n <= 0x10000,
                n == (if self.encodings@.len() < 0x10000 {
                    self.encodings@.len() as int
                } else {
                    0x10000
                }),
                forall|k: int| 0 <= k < i ==> self.encodings@[k] != encoding_id,
            decreases n - i,
        {
            if self.encodings[i] == encoding_id {
                return Some(i as u16);
            }
            i = i + 1;
        }
        None
    }

    /// The context files are written with by default: the canonical
    /// encodings, then the compressed ones.
    pub fn standard() -> (r: SerdeContext)
        ensures
            r.encodings@ =~= seq![
                EncodingId::Null,
                EncodingId::Bool,
                EncodingId::Primitive,
                EncodingId::VarBinView,
                EncodingId::Struct,
                EncodingId::Sparse,
                EncodingId::Ree,
                EncodingId::Chunked,
                EncodingId::RoaringInt,
                EncodingId::Delta,
            ],
    {
        let mut v: Vec<EncodingId> = Vec::new();
        v.push(EncodingId::Null);
        v.push(EncodingId::Bool);
        v.push(EncodingId::Primitive);
        v.push(EncodingId::VarBinView);
        v.push(EncodingId::Struct);
        v.push(EncodingId::Sparse);
        v.push(EncodingId::Ree);
        v.push(EncodingId::Chunked);
        v.push(EncodingId::RoaringInt);
        v.push(EncodingId::Delta);
        SerdeContext { encodings: v }
    }
}

/// The run-length encoding's registry entry.
#[derive(Debug, Clone, Copy)]
pub struct REEEncoding;

impl REEEncoding {
    /// The encoding's identity.
    pub fn id(&self) -> (r: EncodingId)
        ensures
            r == EncodingId::Ree,
    {
        EncodingId::Ree
    }
}

/// The roaring-bitmap integer encoding's registry entry.
#[derive(Debug, Clone, Copy)]
pub struct RoaringIntEncoding;

impl RoaringIntEncoding {
    /// The encoding's identity.
    pub fn id(&self) -> (r: EncodingId)
        ensures
            r == EncodingId::RoaringInt,
    {
        EncodingId::RoaringInt
    }
}

/// The delta encoding's registry entry. This build registers the identity so
/// files naming it are recognized; it decodes none of its payloads.
#[derive(Debug, Clone, Copy)]
pub struct DeltaEncoding;

impl DeltaEncoding {
    /// The encoding's identity.
    pub fn id(&self) -> (r: EncodingId)
        ensures
            r == EncodingId::Delta,
    {
        EncodingId::Delta
    }
}

} // verus!
