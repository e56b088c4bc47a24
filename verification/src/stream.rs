use vstd::prelude::*;

use crate::err::Error;
use crate::err::ErrorV;
use crate::err::rview;
use crate::filter::FilterCodec;
use crate::filter::FilterV;
use crate::filter::StreamFilter;
use crate::filter::build_filters;
use crate::filter::dicts_view;
use crate::filter::filters_view;
use crate::filter::names_view;
use crate::filter::spec_build_filters;
use crate::primitive::DictV;
use crate::primitive::Dictionary;
use crate::primitive::Primitive;
use crate::primitive::PrimitiveV;
use crate::primitive::Resolver;
use crate::primitive::ResolverV;
use crate::primitive::arr_view;
use crate::primitive::dict_get;
use crate::primitive::dict_without;
use crate::primitive::lemma_arr_view;
use crate::primitive::spec_resolve;

verus! {

broadcast use vstd::group_vstd_default;

/// The object conversion protocol: the capability, shared by every domain
/// type, of being constructed from a primitive value with indirect
/// references resolved through a [`Resolver`], and of being serialized back
/// to bytes (a stated non-goal of this core: it always fails).
pub trait Object: View + Sized {
    /// Image of the conversion: what `from_primitive` returns, stated over
    /// the mathematical views of the primitive value and the resolver.
    spec fn spec_from_primitive(p: PrimitiveV, r: ResolverV) -> Result<Self::V, ErrorV>;

    /// Constructs an instance from a primitive value, resolving indirect
    /// references through `resolve`.
    fn from_primitive(p: Primitive, resolve: &Resolver) -> (res: Result<Self, Error>)
        ensures
            rview(res) == Self::spec_from_primitive(p@, resolve@),
    ;

    /// Serialization back to bytes is a stated non-goal of this core: the
    /// operation fails clearly and has no other effect.
    fn serialize(&self) -> (res: Result<Vec<u8>, Error>)
        ensures
            res matches Err(e) && e@ == ErrorV::Unsupported,
    ;
}

/// Image of transparent indirect resolution: a reference is looked up
/// through the resolver, any other value is returned as it is.
pub open spec fn spec_resolve_val(p: PrimitiveV, r: ResolverV) -> Result<PrimitiveV, ErrorV> {
    match p {
        PrimitiveV::Reference(id) => match spec_resolve(r, id) {
            Some(pv) => Ok(pv),
            None => Err(ErrorV::UnresolvedRef { id }),
        },
        _ => Ok(p),
    }
}

/// Resolves a value transparently: a reference is replaced by its target.
fn resolve_val(p: Primitive, resolve: &Resolver) -> (r: Result<Primitive, Error>)
    ensures
        match spec_resolve_val(p@, resolve@) {
            Ok(pv) => r matches Ok(q) && q@ == pv,
            Err(e) => r matches Err(err) && err@ == e,
        },
{
    match p {
        Primitive::Reference(pr) => resolve.resolve(pr),
        other => Ok(other),
    }
}

/// Image of reading a required non-negative integer entry, resolved if
/// indirect: anything but an integer in `0 ..= u64::MAX` is a shape
/// mismatch.
pub open spec fn spec_u64_from(p: PrimitiveV, r: ResolverV) -> Result<int, ErrorV> {
    match spec_resolve_val(p, r) {
        Err(e) => Err(e),
        Ok(pv) => match pv {
            PrimitiveV::Integer(i) => if 0 <= i <= u64::MAX {
                Ok(i)
            } else {
                Err(ErrorV::TypeMismatch)
            },
            _ => Err(ErrorV::TypeMismatch),
        },
    }
}

/// Reads a non-negative integer, resolving an indirect reference first.
pub(crate) fn u64_from_primitive(p: Primitive, resolve: &Resolver) -> (r: Result<u64, Error>)
    ensures
        match spec_u64_from(p@, resolve@) {
            Ok(v) => r matches Ok(u) && u == v,
            Err(e) => r matches Err(err) && err@ == e,
        },
{
    let resolved = match resolve_val(p, resolve) {
        Ok(q) => q,
        Err(e) => {
            return Err(e);
        },
    };
    match resolved {
        Primitive::Integer(i) => if i >= 0 {
            Ok(i as u64)
        } else {
            Err(Error::TypeMismatch)
        },
        _ => Err(Error::TypeMismatch),
    }
}

/// Image of reading a list of names from an array's elements: every element
/// must be a name.
pub open spec fn spec_names_arr(items: Seq<PrimitiveV>) -> Result<Seq<Seq<char>>, ErrorV>
    decreases items.len(),
{
    if items.len() == 0 {
        Ok(Seq::empty())
    } else {
        match items[0] {
            PrimitiveV::Name(n) => match spec_names_arr(items.subrange(1, items.len() as int)) {
                Ok(rest) => Ok(seq![n] + rest),
                Err(e) => Err(e),
            },
            _ => Err(ErrorV::TypeMismatch),
        }
    }
}

/// Image of reading one-or-more filter names, resolved if indirect: null
/// stands for no names, a single name for a one-element list, an array for
/// its elements.
pub open spec fn spec_names_from(p: PrimitiveV, r: ResolverV) -> Result<Seq<Seq<char>>, ErrorV> {
    match spec_resolve_val(p, r) {
        Err(e) => Err(e),
        Ok(pv) => match pv {
            PrimitiveV::Null => Ok(Seq::empty()),
            PrimitiveV::Name(n) => Ok(seq![n]),
            PrimitiveV::Array(items) => spec_names_arr(items),
            _ => Err(ErrorV::TypeMismatch),
        },
    }
}

/// Reads one-or-more filter names, resolving an indirect reference first.
fn names_from_primitive(p: Primitive, resolve: &Resolver) -> (r: Result<Vec<String>, Error>)
    ensures
        match spec_names_from(p@, resolve@) {
            Ok(names) => r matches Ok(v) && names_view(v@) == names,
            Err(e) => r matches Err(err) && err@ == e,
        },
{
    let resolved = match resolve_val(p, resolve) {
        Ok(q) => q,
        Err(e) => {
            return Err(e);
        },
    };
    match resolved {
        Primitive::Null => {
            let out: Vec<String> = Vec::new();
            proof {
                assert(names_view(out@) =~= Seq::<Seq<char>>::empty());
            }
            Ok(out)
        },
        Primitive::Name(n) => {
            let mut out: Vec<String> = Vec::new();
            out.push(n);
            proof {
                assert(names_view(out@) =~= seq![out@[0]@]);
            }
            Ok(out)
        },
        Primitive::Array(items) => {
            let mut items = items;
            let ghost orig = arr_view(items@);
            let mut out: Vec<String> = Vec::new();
            #[verifier::loop_isolation(false)]
            while items.len() > 0
                invariant
                    match spec_names_arr(arr_view(items@)) {
                        Ok(rest) => spec_names_arr(orig) == Ok::<Seq<Seq<char>>, ErrorV>(
                            names_view(out@) + rest,
                        ),
                        Err(e) => spec_names_arr(orig) == Err::<Seq<Seq<char>>, ErrorV>(e),
                    },
                decreases items.len(),
            {
                let ghost items0 = items@;
                let ghost out0 = out@;
                let val = items.remove(0);
                proof {
                    lemma_arr_view(items0);
                    lemma_arr_view(items@);
                    assert(arr_view(items@) =~= arr_view(items0).subrange(
                        1,
                        items0.len() as int,
                    ));
                }
                match val {
                    Primitive::Name(n) => {
                        out.push(n);
                        proof {
                            let rest1 = spec_names_arr(arr_view(items@));
                            if rest1 is Ok {
                                let rest = rest1->Ok_0;
                                assert(names_view(out@) =~= names_view(out0) + seq![
                                    out@.last()@,
                                ]);
                                assert((names_view(out0) + seq![out@.last()@]) + rest
                                    =~= names_view(out0) + (seq![out@.last()@] + rest));
                            }
                        }
                    },
                    _ => {
                        return Err(Error::TypeMismatch);
                    },
                }
            }
            proof {
                lemma_arr_view(items@);
                assert(names_view(out@) + Seq::<Seq<char>>::empty() =~= names_view(out@));
            }
            Ok(out)
        },
        _ => Err(Error::TypeMismatch),
    }
}

/// Image of reading a list of parameter dictionaries from an array's
/// elements: every element must be a dictionary.
pub open spec fn spec_dicts_arr(items: Seq<PrimitiveV>) -> Result<Seq<DictV>, ErrorV>
    decreases items.len(),
{
    if items.len() == 0 {
        Ok(Seq::empty())
    } else {
        match items[0] {
            PrimitiveV::Dictionary(d) => match spec_dicts_arr(
                items.subrange(1, items.len() as int),
            ) {
                Ok(rest) => Ok(seq![d] + rest),
                Err(e) => Err(e),
            },
            _ => Err(ErrorV::TypeMismatch),
        }
    }
}

/// Image of reading the optional parameter-dictionary list, resolved if
/// indirect: null stands for no entries, a single dictionary for a
/// one-element list, an array for its elements.
pub open spec fn spec_dicts_from(p: PrimitiveV, r: ResolverV) -> Result<Seq<DictV>, ErrorV> {
    match spec_resolve_val(p, r) {
        Err(e) => Err(e),
        Ok(pv) => match pv {
            PrimitiveV::Null => Ok(Seq::empty()),
            PrimitiveV::Dictionary(d) => Ok(seq![d]),
            PrimitiveV::Array(items) => spec_dicts_arr(items),
            _ => Err(ErrorV::TypeMismatch),
        },
    }
}

/// Reads the optional parameter-dictionary list, resolving an indirect
/// reference first.
fn dicts_from_primitive(p: Primitive, resolve: &Resolver) -> (r: Result<Vec<Dictionary>, Error>)
    ensures
        match spec_dicts_from(p@, resolve@) {
            Ok(ds) => r matches Ok(v) && dicts_view(v@) == ds,
            Err(e) => r matches Err(err) && err@ == e,
        },
{
    let resolved = match resolve_val(p, resolve) {
        Ok(q) => q,
        Err(e) => {
            return Err(e);
        },
    };
    match resolved {
        Primitive::Null => {
            let out: Vec<Dictionary> = Vec::new();
            proof {
                assert(dicts_view(out@) =~= Seq::<DictV>::empty());
            }
            Ok(out)
        },
        Primitive::Dictionary(d) => {
            let mut out: Vec<Dictionary> = Vec::new();
            out.push(d);
            proof {
                assert(dicts_view(out@) =~= seq![out@[0]@]);
            }
            Ok(out)
        },
        Primitive::Array(items) => {
            let mut items = items;
            let ghost orig = arr_view(items@);
            let mut out: Vec<Dictionary> = Vec::new();
            #[verifier::loop_isolation(false)]
            while items.len() > 0
                invariant
                    match spec_dicts_arr(arr_view(items@)) {
                        Ok(rest) => spec_dicts_arr(orig) == Ok::<Seq<DictV>, ErrorV>(
                            dicts_view(out@) + rest,
                        ),
                        Err(e) => spec_dicts_arr(orig) == Err::<Seq<DictV>, ErrorV>(e),
                    },
                decreases items.len(),
            {
                let ghost items0 = items@;
                let ghost out0 = out@;
                let val = items.remove(0);
                proof {
                    lemma_arr_view(items0);
                    lemma_arr_view(items@);
                    assert(arr_view(items@) =~= arr_view(items0).subrange(
                        1,
                        items0.len() as int,
                    ));
                }
                match val {
                    Primitive::Dictionary(d) => {
                        out.push(d);
                        proof {
                            let rest1 = spec_dicts_arr(arr_view(items@));
                            if rest1 is Ok {
                                let rest = rest1->Ok_0;
                                assert(dicts_view(out@) =~= dicts_view(out0)
                                    + seq![out@.last()@]);
                                assert((dicts_view(out0) + seq![out@.last()@]) + rest
                                    =~= dicts_view(out0) + (seq![out@.last()@] + rest));
                            }
                        }
                    },
                    _ => {
                        return Err(Error::TypeMismatch);
                    },
                }
            }
            proof {
                lemma_arr_view(items@);
                assert(dicts_view(out@) + Seq::<DictV>::empty() =~= dicts_view(
                    out@,
                ));
            }
            Ok(out)
        },
        _ => Err(Error::TypeMismatch),
    }
}

/// An opaque reference to externally-stored stream data.  Only a placeholder
/// in this core: its presence means the stream's real bytes live outside the
/// in-memory buffer and must be fetched through the external file
/// indirection, which is not implemented further here.
#[derive(Debug)]
pub struct FileSpec {
    pub raw: Primitive,
}

impl View for FileSpec {
    type V = PrimitiveV;

    open spec fn view(&self) -> PrimitiveV {
        self.raw@
    }
}

/// Image of an optional external-file entry.
pub open spec fn file_view(f: Option<FileSpec>) -> Option<PrimitiveV> {
    match f {
        Some(fs) => Some(fs.raw@),
        None => None,
    }
}

/// Mathematical image of a [`Stream`].
#[verifier::ext_equal]
pub struct StreamV<I> {
    /// The filter chain the data is currently encoded with, in declared
    /// order; empty exactly when the data is canonical.
    pub filters: Seq<FilterV>,
    /// The optional external-file redirection.
    pub file: Option<PrimitiveV>,
    /// The filter chain that would apply to the external file's bytes.
    pub file_filters: Seq<FilterV>,
    /// The specialized information record.
    pub info: I,
    /// The data bytes: raw-encoded while `filters` is non-empty, canonical
    /// once it is empty.
    pub data: Seq<u8>,
}

/// General stream container: a byte payload, the ordered filter chain it is
/// currently encoded with, optional external-file redirection, and a
/// specialized information record `T` built from the remaining dictionary
/// entries.
#[derive(Debug)]
pub struct Stream<T> {
    /// The filter chain the data is currently encoded with.
    pub filters: Vec<StreamFilter>,
    /// Optional external-file redirection.
    pub file: Option<FileSpec>,
    /// The filter chain that would apply to the external file's bytes.
    pub file_filters: Vec<StreamFilter>,
    /// The specialized dictionary payload.
    pub info: T,
    /// The data bytes: raw-encoded before `decode`, canonical after.
    pub data: Vec<u8>,
}

impl<T: View> View for Stream<T> {
    type V = StreamV<T::V>;

    open spec fn view(&self) -> StreamV<T::V> {
        StreamV {
            filters: filters_view(self.filters@),
            file: file_view(self.file),
            file_filters: filters_view(self.file_filters@),
            info: self.info@,
            data: self.data@,
        }
    }
}

/// Image of applying the filter chain left to right: each filter's decode
/// transform replaces the buffer, and the first failure aborts the chain
/// with a decode-failure error carrying that filter's name and the codec's
/// message.
pub open spec fn spec_decode_chain<C: FilterCodec>(c: C, filters: Seq<FilterV>, data: Seq<u8>)
    -> Result<Seq<u8>, ErrorV>
    decreases filters.len(),
{
    if filters.len() == 0 {
        Ok(data)
    } else {
        match c.spec_apply(filters[0], data) {
            Ok(out) => spec_decode_chain(c, filters.subrange(1, filters.len() as int), out),
            Err(cause) => Err(ErrorV::FilterDecodeFailure { filter: filters[0].kind, cause }),
        }
    }
}

/// Canonical-data access at the view level: the data bytes when the filter
/// chain is empty, a not-decoded error otherwise.
pub open spec fn spec_get_data<I>(s: StreamV<I>) -> Result<Seq<u8>, ErrorV> {
    if s.filters.len() == 0 {
        Ok(s.data)
    } else {
        Err(ErrorV::NotDecoded)
    }
}

impl<T: View> Stream<T> {
    /// Applies the filter chain to the data in declared order and clears it:
    /// on success the data is canonical from then on, and decoding again is
    /// a no-op.  On the first filter failure the error is propagated and the
    /// stream is left unchanged: no partial application is observable.
    pub fn decode<C: FilterCodec>(&mut self, codec: &C) -> (r: Result<(), Error>)
        ensures
            match spec_decode_chain(*codec, old(self)@.filters, old(self)@.data) {
                Ok(bytes) => r is Ok && final(self)@ == (StreamV {
                    filters: Seq::<FilterV>::empty(),
                    data: bytes,
                    ..old(self)@
                }),
                Err(e) => (r matches Err(err) && err@ == e) && *final(self) == *old(self),
            },
    {
        let ghost fv = filters_view(self.filters@);
        let ghost d0 = self.data@;
        let n = self.filters.len();
        if n == 0 {
            proof {
                assert(final(self)@ =~= (StreamV {
                    filters: Seq::<FilterV>::empty(),
                    data: d0,
                    ..old(self)@
                }));
            }
            return Ok(());
        }
        let first = match codec.apply(&self.filters[0], &self.data) {
            Ok(v) => v,
            Err(cause) => {
                let name = self.filters[0].kind.clone();
                return Err(Error::FilterDecodeFailure { filter: name, cause });
            },
        };
        let mut buf = first;
        let mut i: usize = 1;
        #[verifier::loop_isolation(false)]
        while i < n
            invariant
                1 <= i <= n,
                n == self.filters.len(),
                *self == *old(self),
                spec_decode_chain(*codec, fv.subrange(i as int, n as int), buf@)
                    == spec_decode_chain(*codec, fv, d0),
            decreases n - i,
        {
            match codec.apply(&self.filters[i], &buf) {
                Ok(v) => {
                    buf = v;
                    proof {
                        assert(fv.subrange(i as int, n as int).subrange(1, (n - i) as int)
                            =~= fv.subrange(i as int + 1, n as int));
                    }
                },
                Err(cause) => {
                    let name = self.filters[i].kind.clone();
                    return Err(Error::FilterDecodeFailure { filter: name, cause });
                },
            }
            i += 1;
        }
        self.data = buf;
        self.filters.clear();
        proof {
            assert(filters_view(final(self).filters@) =~= Seq::<FilterV>::empty());
            assert(final(self)@ =~= (StreamV {
                filters: Seq::<FilterV>::empty(),
                data: final(self).data@,
                ..old(self)@
            }));
        }
        Ok(())
    }

    /// Re-applying a filter to canonical data is an explicit non-goal of
    /// this core: the operation fails clearly and leaves the stream as it
    /// was.
    pub fn encode(&mut self, _filter: StreamFilter) -> (r: Result<(), Error>)
        ensures
            r matches Err(e) && e@ == ErrorV::Unsupported,
            *final(self) == *old(self),
    {
        Err(Error::Unsupported)
    }

    /// The length of the data bytes currently held.
    pub fn get_length(&self) -> (n: usize)
        ensures
            n == self@.data.len(),
    {
        self.data.len()
    }

    /// The filter chain the data is currently encoded with.
    pub fn get_filters(&self) -> (fs: &Vec<StreamFilter>)
        ensures
            filters_view(fs@) == self@.filters,
    {
        &self.filters
    }

    /// Canonical-data accessor: yields the data only once the filter chain
    /// is empty, and a not-decoded error while it is not.
    pub fn get_data(&self) -> (r: Result<&Vec<u8>, Error>)
        ensures
            match spec_get_data(self@) {
                Ok(b) => r matches Ok(d) && d@ == b,
                Err(e) => r matches Err(err) && err@ == e,
            },
    {
        if self.filters.len() > 0 {
            Err(Error::NotDecoded)
        } else {
            Ok(&self.data)
        }
    }

    /// The data bytes as currently held, decoded or not.
    pub fn get_data_raw(&self) -> (d: &Vec<u8>)
        ensures
            d@ == self@.data,
    {
        &self.data
    }
}

impl<T: Default + View> Default for Stream<T> {
    /// An empty, canonical stream around a default information record.
    fn default() -> (s: Stream<T>)
        ensures
            s@.filters == Seq::<FilterV>::empty(),
            s@.file is None,
            s@.file_filters == Seq::<FilterV>::empty(),
            s@.data == Seq::<u8>::empty(),
    {
        let s = Stream {
            filters: Vec::new(),
            file: None,
            file_filters: Vec::new(),
            info: T::default(),
            data: Vec::new(),
        };
        proof {
            assert(s@.filters =~= Seq::<FilterV>::empty());
            assert(s@.file_filters =~= Seq::<FilterV>::empty());
        }
        s
    }
}

impl<T: Object> Object for Stream<T> {
    /// Image of the construction steps of `from_primitive`: take and check
    /// `Length`, take `Filter`, the optional `DecodeParms`, `F`, `FFilter`
    /// and `FDecodeParms`, build both filter chains, and hand the remaining
    /// dictionary to the information record's own conversion.
    open spec fn spec_from_primitive(p: PrimitiveV, r: ResolverV) -> Result<StreamV<T::V>, ErrorV> {
        match p {
            PrimitiveV::Stream { dict, data } => match dict_get(dict, "Length"@) {
                None => Err(ErrorV::MissingKey { key: "Length"@ }),
                Some(length_p) => {
                    let d1 = dict_without(dict, "Length"@);
                    match spec_u64_from(length_p, r) {
                        Err(e) => Err(e),
                        Ok(length) => if length != data.len() {
                            Err(ErrorV::LengthMismatch)
                        } else {
                            match dict_get(d1, "Filter"@) {
                                None => Err(ErrorV::MissingKey { key: "Filter"@ }),
                                Some(filter_p) => {
                                    let d2 = dict_without(d1, "Filter"@);
                                    match spec_names_from(filter_p, r) {
                                        Err(e) => Err(e),
                                        Ok(names) => spec_stream_rest::<T>(d2, data, names, r),
                                    }
                                },
                            }
                        },
                    }
                },
            },
            _ => Err(ErrorV::TypeMismatch),
        }
    }

    fn from_primitive(p: Primitive, resolve: &Resolver) -> (res: Result<Stream<T>, Error>) {
        let (mut dict, data) = match p {
            Primitive::Stream { dict, data } => (dict, data),
            _ => {
                return Err(Error::TypeMismatch);
            },
        };
        let length_p = match dict.remove("Length") {
            Some(v) => v,
            None => {
                return Err(Error::MissingKey { key: "Length".to_owned() });
            },
        };
        let length = match u64_from_primitive(length_p, resolve) {
            Ok(v) => v,
            Err(e) => {
                return Err(e);
            },
        };
        if length != data.len() as u64 {
            return Err(Error::LengthMismatch);
        }
        let filter_p = match dict.remove("Filter") {
            Some(v) => v,
            None => {
                return Err(Error::MissingKey { key: "Filter".to_owned() });
            },
        };
        let names = match names_from_primitive(filter_p, resolve) {
            Ok(v) => v,
            Err(e) => {
                return Err(e);
            },
        };
        let parms_p = match dict.remove("DecodeParms") {
            Some(v) => v,
            None => Primitive::Null,
        };
        let parms = match dicts_from_primitive(parms_p, resolve) {
            Ok(v) => v,
            Err(e) => {
                return Err(e);
            },
        };
        let f_p = match dict.remove("F") {
            Some(v) => v,
            None => Primitive::Null,
        };
        let file = match f_p {
            Primitive::Null => None,
            other => Some(FileSpec { raw: other }),
        };
        let ffilter_p = match dict.remove("FFilter") {
            Some(v) => v,
            None => Primitive::Null,
        };
        let fnames = match names_from_primitive(ffilter_p, resolve) {
            Ok(v) => v,
            Err(e) => {
                return Err(e);
            },
        };
        let fparms_p = match dict.remove("FDecodeParms") {
            Some(v) => v,
            None => Primitive::Null,
        };
        let fparms = match dicts_from_primitive(fparms_p, resolve) {
            Ok(v) => v,
            Err(e) => {
                return Err(e);
            },
        };
        let filters = match build_filters(names, parms, resolve) {
            Ok(v) => v,
            Err(e) => {
                return Err(e);
            },
        };
        let file_filters = match build_filters(fnames, fparms, resolve) {
            Ok(v) => v,
            Err(e) => {
                return Err(e);
            },
        };
        let info = match T::from_primitive(Primitive::Dictionary(dict), resolve) {
            Ok(v) => v,
            Err(e) => {
                return Err(e);
            },
        };
        let s = Stream { filters, file, file_filters, info, data };
        proof {
            assert(rview(Ok::<Stream<T>, Error>(s)) == Self::spec_from_primitive(p@, resolve@));
        }
        Ok(s)
    }

    fn serialize(&self) -> (res: Result<Vec<u8>, Error>) {
        Err(Error::Unsupported)
    }
}

/// Image of the construction steps after `Length` and `Filter` have been
/// taken: the optional entries, both filter chains, and the information
/// record built from what remains.
pub open spec fn spec_stream_rest<T: Object>(
    d2: DictV,
    data: Seq<u8>,
    names: Seq<Seq<char>>,
    r: ResolverV,
) -> Result<StreamV<T::V>, ErrorV> {
    let parms_p = match dict_get(d2, "DecodeParms"@) {
        Some(v) => v,
        None => PrimitiveV::Null,
    };
    let d3 = dict_without(d2, "DecodeParms"@);
    match spec_dicts_from(parms_p, r) {
        Err(e) => Err(e),
        Ok(parms) => {
            let f_p = match dict_get(d3, "F"@) {
                Some(v) => v,
                None => PrimitiveV::Null,
            };
            let d4 = dict_without(d3, "F"@);
            let file = match f_p {
                PrimitiveV::Null => None,
                other => Some(other),
            };
            let ffilter_p = match dict_get(d4, "FFilter"@) {
                Some(v) => v,
                None => PrimitiveV::Null,
            };
            let d5 = dict_without(d4, "FFilter"@);
            match spec_names_from(ffilter_p, r) {
                Err(e) => Err(e),
                Ok(fnames) => {
                    let fparms_p = match dict_get(d5, "FDecodeParms"@) {
                        Some(v) => v,
                        None => PrimitiveV::Null,
                    };
                    let d6 = dict_without(d5, "FDecodeParms"@);
                    match spec_dicts_from(fparms_p, r) {
                        Err(e) => Err(e),
                        Ok(fparms) => match spec_build_filters(names, parms, r) {
                            Err(e) => Err(e),
                            Ok(filters) => match spec_build_filters(fnames, fparms, r) {
                                Err(e) => Err(e),
                                Ok(ffilters) => match T::spec_from_primitive(
                                    PrimitiveV::Dictionary(d6),
                                    r,
                                ) {
                                    Err(e) => Err(e),
                                    Ok(info) => Ok(StreamV {
                                        filters,
                                        file,
                                        file_filters: ffilters,
                                        info,
                                        data,
                                    }),
                                },
                            },
                        },
                    }
                },
            }
        },
    }
}

/// A dictionary is itself an object: the conversion demands a dictionary
/// value and keeps it whole; serialization stays a non-goal.
impl Object for Dictionary {
    open spec fn spec_from_primitive(p: PrimitiveV, r: ResolverV) -> Result<DictV, ErrorV> {
        match p {
            PrimitiveV::Dictionary(d) => Ok(d),
            _ => Err(ErrorV::TypeMismatch),
        }
    }

    fn from_primitive(p: Primitive, resolve: &Resolver) -> (res: Result<Dictionary, Error>) {
        match p {
            Primitive::Dictionary(d) => Ok(d),
            _ => Err(Error::TypeMismatch),
        }
    }

    fn serialize(&self) -> (res: Result<Vec<u8>, Error>) {
        Err(Error::Unsupported)
    }
}

/// Law: on a stream whose filter chain is empty, decoding is a no-op — the
/// chain yields the data unchanged, so `decode` succeeds and leaves the
/// stream exactly as it was.
pub proof fn lemma_decode_empty_chain<I, C: FilterCodec>(c: C, s: StreamV<I>)
    requires
        s.filters.len() == 0,
    ensures
        spec_decode_chain(c, s.filters, s.data) == Ok::<Seq<u8>, ErrorV>(s.data),
        (StreamV { filters: Seq::<FilterV>::empty(), data: s.data, ..s }) == s,
{
    assert((StreamV { filters: Seq::<FilterV>::empty(), data: s.data, ..s }) =~= s);
}

/// Law: after a successful decode the filter chain is empty, and accessing
/// canonical data succeeds with the decoded bytes instead of failing with a
/// not-decoded error.
pub proof fn lemma_decoded_data_accessible<I, C: FilterCodec>(c: C, s: StreamV<I>)
    ensures
        spec_decode_chain(c, s.filters, s.data) matches Ok(bytes) ==> {
            let s2 = StreamV { filters: Seq::<FilterV>::empty(), data: bytes, ..s };
            &&& s2.filters.len() == 0
            &&& spec_get_data(s2) == Ok::<Seq<u8>, ErrorV>(bytes)
        },
{
}

/// Law: a stream dictionary lacking `Length` is rejected with a missing-key
/// error naming `Length`; one whose `Length` is present and consistent but
/// which lacks `Filter` is rejected with a missing-key error naming
/// `Filter`.
pub proof fn lemma_missing_required_keys<T: Object>(dict: DictV, data: Seq<u8>, r: ResolverV)
    ensures
        dict_get(dict, "Length"@) is None ==> <Stream<T> as Object>::spec_from_primitive(
            PrimitiveV::Stream { dict, data },
            r,
        ) == Err::<StreamV<T::V>, ErrorV>(ErrorV::MissingKey { key: "Length"@ }),
        (dict_get(dict, "Length"@) matches Some(length_p) && spec_u64_from(length_p, r)
            == Ok::<int, ErrorV>(data.len() as int) && dict_get(
            dict_without(dict, "Length"@),
            "Filter"@,
        ) is None) ==> <Stream<T> as Object>::spec_from_primitive(
            PrimitiveV::Stream { dict, data },
            r,
        ) == Err::<StreamV<T::V>, ErrorV>(ErrorV::MissingKey { key: "Filter"@ }),
{
}

/// Law: a declared `Length` that disagrees with the actual raw byte count is
/// rejected with a length-mismatch error.
pub proof fn lemma_length_mismatch<T: Object>(dict: DictV, data: Seq<u8>, r: ResolverV, n: int)
    requires
        dict_get(dict, "Length"@) matches Some(length_p) && spec_u64_from(length_p, r) == Ok::<
            int,
            ErrorV,
        >(n),
        n != data.len(),
    ensures
        <Stream<T> as Object>::spec_from_primitive(PrimitiveV::Stream { dict, data }, r) == Err::<
            StreamV<T::V>,
            ErrorV,
        >(ErrorV::LengthMismatch),
{
}

} // verus!
