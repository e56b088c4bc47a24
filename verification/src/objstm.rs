use vstd::prelude::*;

use crate::err::Error;
use crate::err::ErrorV;
use crate::filter::FilterCodec;
use crate::filter::FilterV;
use crate::lexer::offsets_view;
use crate::lexer::parse_offsets;
use crate::lexer::spec_parse_pairs;
use crate::primitive::ObjNr;
use crate::primitive::PlainRef;
use crate::primitive::Primitive;
use crate::primitive::PrimitiveV;
use crate::primitive::Resolver;
use crate::primitive::ResolverV;
use crate::primitive::dict_get;
use crate::primitive::dict_without;
use crate::stream::Object;
use crate::stream::u64_from_primitive;
use crate::stream::Stream;
use crate::stream::StreamV;
use crate::stream::spec_decode_chain;
use crate::stream::spec_u64_from;

verus! {

broadcast use vstd::group_vstd_default;

/// Specialized information record of an object stream: the general stream
/// keys have already been stripped before this record is built.
#[derive(Debug, Clone, Copy, PartialEq, Eq)]
pub struct ObjStmInfo {
    /// Number of compressed objects packed in the stream (`N`).
    pub num_objects: u64,
    /// Byte offset, in the decoded stream, of the first compressed object
    /// (`First`).
    pub first: u64,
    /// Reference to an object stream which this one logically extends
    /// (`Extends`); resolving that chain is outside this core.
    pub extends: Option<PlainRef>,
}

impl Default for ObjStmInfo {
    /// An empty record: no objects, payload at offset zero, no predecessor.
    fn default() -> (r: ObjStmInfo)
        ensures
            r == (ObjStmInfo { num_objects: 0, first: 0, extends: None }),
    {
        ObjStmInfo { num_objects: 0, first: 0, extends: None }
    }
}

impl View for ObjStmInfo {
    type V = ObjStmInfo;

    open spec fn view(&self) -> ObjStmInfo {
        *self
    }
}

impl Object for ObjStmInfo {
    /// Image of the conversion: a dictionary with required integer entries
    /// `N` and `First` (resolved if indirect) and an optional reference
    /// entry `Extends`.
    open spec fn spec_from_primitive(p: PrimitiveV, r: ResolverV) -> Result<ObjStmInfo, ErrorV> {
        match p {
            PrimitiveV::Dictionary(dict) => match dict_get(dict, "N"@) {
                None => Err(ErrorV::MissingKey { key: "N"@ }),
                Some(n_p) => match spec_u64_from(n_p, r) {
                    Err(e) => Err(e),
                    Ok(n) => {
                        let d1 = dict_without(dict, "N"@);
                        match dict_get(d1, "First"@) {
                            None => Err(ErrorV::MissingKey { key: "First"@ }),
                            Some(first_p) => match spec_u64_from(first_p, r) {
                                Err(e) => Err(e),
                                Ok(first) => {
                                    let d2 = dict_without(d1, "First"@);
                                    match dict_get(d2, "Extends"@) {
                                        None => Ok(ObjStmInfo {
                                            num_objects: n as u64,
                                            first: first as u64,
                                            extends: None,
                                        }),
                                        Some(e_p) => match e_p {
                                            PrimitiveV::Null => Ok(ObjStmInfo {
                                                num_objects: n as u64,
                                                first: first as u64,
                                                extends: None,
                                            }),
                                            PrimitiveV::Reference(id) => Ok(ObjStmInfo {
                                                num_objects: n as u64,
                                                first: first as u64,
                                                extends: Some(PlainRef { id }),
                                            }),
                                            _ => Err(ErrorV::TypeMismatch),
                                        },
                                    }
                                },
                            },
                        }
                    },
                },
            },
            _ => Err(ErrorV::TypeMismatch),
        }
    }

    fn from_primitive(p: Primitive, resolve: &Resolver) -> (res: Result<ObjStmInfo, Error>) {
        let mut dict = match p {
            Primitive::Dictionary(d) => d,
            _ => {
                return Err(Error::TypeMismatch);
            },
        };
        let n_p = match dict.remove("N") {
            Some(v) => v,
            None => {
                return Err(Error::MissingKey { key: "N".to_owned() });
            },
        };
        let num_objects = match u64_from_primitive(n_p, resolve) {
            Ok(v) => v,
            Err(e) => {
                return Err(e);
            },
        };
        let first_p = match dict.remove("First") {
            Some(v) => v,
            None => {
                return Err(Error::MissingKey { key: "First".to_owned() });
            },
        };
        let first = match u64_from_primitive(first_p, resolve) {
            Ok(v) => v,
            Err(e) => {
                return Err(e);
            },
        };
        let extends = match dict.remove("Extends") {
            None => None,
            Some(Primitive::Null) => None,
            Some(Primitive::Reference(pr)) => Some(pr),
            Some(_) => {
                return Err(Error::TypeMismatch);
            },
        };
        Ok(ObjStmInfo { num_objects, first, extends })
    }

    fn serialize(&self) -> (res: Result<Vec<u8>, Error>) {
        Err(Error::Unsupported)
    }
}

/// Mathematical image of an [`ObjectStream`].
#[verifier::ext_equal]
pub struct ObjectStreamV {
    /// The decoded stream: its filter chain is empty, its data canonical.
    pub stream: StreamV<ObjStmInfo>,
    /// Byte offset of each object, relative to `stream.info.first`.
    pub offsets: Seq<int>,
    /// The object number of this object stream.
    pub id: u64,
}

/// A stream whose decoded payload packs multiple sub-objects, indexed by an
/// offset table read from the payload's leading integer pairs.  Immutable
/// once constructed: a read-only container for extraction queries.
///
/// The token region's own extent is deliberately not cross-checked against
/// `first`: an offset that leaves the data's bounds is caught at extraction
/// time, not eagerly.
#[derive(Debug)]
pub struct ObjectStream {
    stream: Stream<ObjStmInfo>,
    /// Byte offset of each object; the index is the object's position.
    offsets: Vec<usize>,
    /// The object number of this object stream.
    id: ObjNr,
}

impl View for ObjectStream {
    type V = ObjectStreamV;

    closed spec fn view(&self) -> ObjectStreamV {
        ObjectStreamV {
            stream: self.stream@,
            offsets: offsets_view(self.offsets@),
            id: self.id,
        }
    }
}

/// Image of constructing an object stream: build the generic stream, decode
/// it eagerly, then read `num_objects` integer pairs from the canonical
/// bytes to populate the offset table.
pub open spec fn spec_objstm_from<C: FilterCodec>(c: C, p: PrimitiveV, r: ResolverV) -> Result<
    ObjectStreamV,
    ErrorV,
> {
    match <Stream<ObjStmInfo> as Object>::spec_from_primitive(p, r) {
        Err(e) => Err(e),
        Ok(sv) => match spec_decode_chain(c, sv.filters, sv.data) {
            Err(e) => Err(e),
            Ok(bytes) => match spec_parse_pairs(bytes, 0, sv.info.num_objects as nat) {
                Err(e) => Err(e),
                Ok(offs) => Ok(ObjectStreamV {
                    stream: StreamV { filters: Seq::<FilterV>::empty(), data: bytes, ..sv },
                    offsets: offs,
                    id: 0,
                }),
            },
        },
    }
}

/// Byte range of the object at `index` in the canonical data: it starts at
/// `first` plus the object's offset and runs to the next object's start, or
/// to the end of the data for the last object.  An index beyond the offset
/// table, or a range that does not lie within the data, is out of bounds.
pub open spec fn spec_object_slice(o: ObjectStreamV, index: int) -> Result<Seq<u8>, ErrorV> {
    let count = o.offsets.len() as int;
    if !(0 <= index < count) {
        Err(ErrorV::OutOfBounds { index, count })
    } else {
        let start = o.stream.info.first + o.offsets[index];
        let end = if index == count - 1 {
            o.stream.data.len() as int
        } else {
            o.stream.info.first + o.offsets[index + 1]
        };
        if start <= end <= o.stream.data.len() {
            Ok(o.stream.data.subrange(start, end))
        } else {
            Err(ErrorV::OutOfBounds { index, count })
        }
    }
}

impl ObjectStream {
    /// The offset table always has exactly one entry per declared object.
    #[verifier::type_invariant]
    spec fn type_inv(self) -> bool {
        self.offsets@.len() == self.stream@.info.num_objects
    }

    /// Constructs an object stream from a primitive stream value: the
    /// general stream is built, decoded through `codec`, and the offset
    /// table is read from the canonical payload's leading integer pairs.
    pub fn from_primitive<C: FilterCodec>(p: Primitive, resolve: &Resolver, codec: &C) -> (res:
        Result<ObjectStream, Error>)
        ensures
            match spec_objstm_from(*codec, p@, resolve@) {
                Ok(ov) => res matches Ok(o) && o@ == ov,
                Err(e) => res matches Err(err) && err@ == e,
            },
    {
        let mut stream = match Stream::<ObjStmInfo>::from_primitive(p, resolve) {
            Ok(s) => s,
            Err(e) => {
                return Err(e);
            },
        };
        match stream.decode(codec) {
            Ok(u) => u,
            Err(e) => {
                return Err(e);
            },
        };
        let n = stream.info.num_objects;
        let offsets = {
            let data = match stream.get_data() {
                Ok(d) => d,
                Err(e) => {
                    proof {
                        assert(false);
                    }
                    return Err(e);
                },
            };
            match parse_offsets(data, n) {
                Ok(v) => v,
                Err(e) => {
                    return Err(e);
                },
            }
        };
        let o = ObjectStream { stream, offsets, id: 0 };
        proof {
            assert(o@ =~= spec_objstm_from(*codec, p@, resolve@)->Ok_0);
        }
        Ok(o)
    }

    /// Creating a brand-new object stream for writing is an open area in
    /// the surrounding document model and a non-goal here: the operation
    /// fails clearly.
    pub fn new() -> (r: Result<ObjectStream, Error>)
        ensures
            r matches Err(e) && e@ == ErrorV::Unsupported,
    {
        Err(Error::Unsupported)
    }

    /// Serialization back to bytes is a stated non-goal of this core.
    pub fn serialize(&self) -> (r: Result<Vec<u8>, Error>)
        ensures
            r matches Err(e) && e@ == ErrorV::Unsupported,
    {
        Err(Error::Unsupported)
    }

    /// The object number of this object stream.
    pub fn id(&self) -> (r: ObjNr)
        ensures
            r == self@.id,
    {
        self.id
    }

    /// Returns the byte slice of the object at `index`, per
    /// [`spec_object_slice`]: bounds violations are caught here, at
    /// extraction time, and reported as out-of-bounds errors.
    pub fn get_object_slice(&self, index: usize) -> (r: Result<&[u8], Error>)
        ensures
            match spec_object_slice(self@, index as int) {
                Ok(b) => r matches Ok(s) && s@ == b,
                Err(e) => r matches Err(err) && err@ == e,
            },
    {
        let count = self.offsets.len();
        if index >= count {
            return Err(Error::OutOfBounds { index, count });
        }
        let first = self.stream.info.first;
        let data = self.stream.get_data_raw();
        let start_wide: u128 = first as u128 + self.offsets[index] as u128;
        let end_wide: u128 = if index == count - 1 {
            data.len() as u128
        } else {
            first as u128 + self.offsets[index + 1] as u128
        };
        if !(start_wide <= end_wide && end_wide <= data.len() as u128) {
            return Err(Error::OutOfBounds { index, count });
        }
        let start = start_wide as usize;
        let end = end_wide as usize;
        let s = vstd::slice::slice_subrange(data.as_slice(), start, end);
        Ok(s)
    }

    /// Returns the number of contained objects: the authoritative count for
    /// bounds checks, always equal to the declared object count.
    pub fn n_objects(&self) -> (n: usize)
        ensures
            n == self@.offsets.len(),
            n == self@.stream.info.num_objects,
    {
        proof {
            use_type_invariant(self);
        }
        self.offsets.len()
    }
}

} // verus!
