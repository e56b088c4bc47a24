use vstd::prelude::*;

use crate::err::Error;
use crate::err::ErrorV;
use crate::primitive::DictV;
use crate::primitive::Dictionary;
use crate::primitive::Primitive;
use crate::primitive::PrimitiveV;
use crate::primitive::Resolver;
use crate::primitive::ResolverV;
use crate::primitive::dict_view;
use crate::primitive::lemma_dict_view;
use crate::primitive::spec_resolve;

verus! {

broadcast use vstd::group_vstd_default;

/// Mathematical image of a filter descriptor.
#[verifier::ext_equal]
pub struct FilterV {
    pub kind: Seq<char>,
    pub params: DictV,
}

/// A filter descriptor: the name of a decode algorithm together with its
/// parameter dictionary.  Immutable once constructed.
#[derive(Debug, PartialEq)]
pub struct StreamFilter {
    pub kind: String,
    pub params: Dictionary,
}

impl View for StreamFilter {
    type V = FilterV;

    open spec fn view(&self) -> FilterV {
        FilterV { kind: self.kind@, params: self.params@ }
    }
}

/// Image of resolving one dictionary entry: a reference value is replaced by
/// the object it points to; any other value stays as it is.
pub open spec fn spec_resolve_entry(e: (Seq<char>, PrimitiveV), r: ResolverV) -> Result<
    (Seq<char>, PrimitiveV),
    ErrorV,
> {
    match e.1 {
        PrimitiveV::Reference(id) => match spec_resolve(r, id) {
            Some(pv) => Ok((e.0, pv)),
            None => Err(ErrorV::UnresolvedRef { id }),
        },
        _ => Ok(e),
    }
}

/// Image of resolving every top-level value of a parameter dictionary, in
/// entry order, failing at the first reference that resolves to nothing.
pub open spec fn spec_resolve_dict(d: DictV, r: ResolverV) -> Result<DictV, ErrorV>
    decreases d.len(),
{
    if d.len() == 0 {
        Ok(Seq::empty())
    } else {
        match spec_resolve_entry(d[0], r) {
            Err(e) => Err(e),
            Ok(e0) => match spec_resolve_dict(d.subrange(1, d.len() as int), r) {
                Ok(rest) => Ok(seq![e0] + rest),
                Err(e) => Err(e),
            },
        }
    }
}

/// Resolves every top-level reference value of a parameter dictionary.
fn resolve_params(params: Dictionary, resolve: &Resolver) -> (r: Result<Dictionary, Error>)
    ensures
        match spec_resolve_dict(params@, resolve@) {
            Ok(d) => r matches Ok(p) && p@ == d,
            Err(e) => r matches Err(err) && err@ == e,
        },
{
    let ghost orig = params@;
    let mut entries = params.entries;
    let mut out: Vec<(String, Primitive)> = Vec::new();
    #[verifier::loop_isolation(false)]
    while entries.len() > 0
        invariant
            match spec_resolve_dict(dict_view(entries@), resolve@) {
                Ok(d) => spec_resolve_dict(orig, resolve@) == Ok::<DictV, ErrorV>(
                    dict_view(out@) + d,
                ),
                Err(e) => spec_resolve_dict(orig, resolve@) == Err::<DictV, ErrorV>(e),
            },
        decreases entries.len(),
    {
        let ghost ent0 = entries@;
        let ghost out0 = out@;
        let (key, val) = entries.remove(0);
        proof {
            lemma_dict_view(ent0);
            lemma_dict_view(entries@);
            assert(dict_view(entries@) =~= dict_view(ent0).subrange(1, ent0.len() as int));
        }
        let resolved: Primitive = match val {
            Primitive::Reference(pr) => {
                match resolve.resolve(pr) {
                    Ok(p) => p,
                    Err(e) => {
                        proof {
                            assert(dict_view(ent0)[0].1 == PrimitiveV::Reference(pr.id));
                            assert(spec_resolve_entry(dict_view(ent0)[0], resolve@) == Err::<
                                (Seq<char>, PrimitiveV),
                                ErrorV,
                            >(e@));
                            assert(spec_resolve_dict(dict_view(ent0), resolve@) == Err::<
                                DictV,
                                ErrorV,
                            >(e@));
                        }
                        return Err(e);
                    },
                }
            },
            other => other,
        };
        out.push((key, resolved));
        proof {
            lemma_dict_view(out@);
            lemma_dict_view(out0);
            let rest1 = spec_resolve_dict(dict_view(entries@), resolve@);
            if rest1 is Ok {
                let rest = rest1->Ok_0;
                assert(dict_view(out@) =~= dict_view(out0) + seq![
                    (ent0[0].0@, spec_resolve_entry(dict_view(ent0)[0], resolve@)->Ok_0.1),
                ]);
                assert((dict_view(out0) + seq![dict_view(out@).last()]) + rest
                    =~= dict_view(out0) + (seq![dict_view(out@).last()] + rest));
            }
        }
    }
    proof {
        lemma_dict_view(entries@);
        assert(dict_view(out@) + Seq::<(Seq<char>, PrimitiveV)>::empty() =~= dict_view(out@));
    }
    Ok(Dictionary { entries: out })
}

impl StreamFilter {
    /// Builds one descriptor from a declared filter name and its matching
    /// parameter dictionary; parameter values that are indirect references
    /// are resolved through `resolve`.
    pub fn from_kind_and_params(kind: String, params: Dictionary, resolve: &Resolver) -> (r:
        Result<StreamFilter, Error>)
        ensures
            match spec_resolve_dict(params@, resolve@) {
                Ok(d) => r matches Ok(f) && f@ == (FilterV { kind: kind@, params: d }),
                Err(e) => r matches Err(err) && err@ == e,
            },
    {
        match resolve_params(params, resolve) {
            Ok(p) => Ok(StreamFilter { kind, params: p }),
            Err(e) => Err(e),
        }
    }
}

/// The decode transform registry: an opaque table of codecs keyed by filter
/// name.  The concrete decompression algorithms are outside this core;
/// callers supply an implementation, and every contract of this crate holds
/// for each of them.
pub trait FilterCodec {
    /// Image of applying one filter's decode transform to a buffer: the
    /// decoded bytes, or the codec's own error message.
    spec fn spec_apply(&self, f: FilterV, data: Seq<u8>) -> Result<Seq<u8>, Seq<char>>;

    /// Applies one filter's decode transform to `data`.
    fn apply(&self, f: &StreamFilter, data: &Vec<u8>) -> (r: Result<Vec<u8>, String>)
        ensures
            match r {
                Ok(out) => self.spec_apply(f@, data@) == Ok::<Seq<u8>, Seq<char>>(out@),
                Err(e) => self.spec_apply(f@, data@) == Err::<Seq<u8>, Seq<char>>(e@),
            },
    ;
}

/// A registry that knows no codecs: every decode attempt fails.  This core
/// ships no decompression algorithms of its own.
#[derive(Debug)]
pub struct EmptyRegistry;

impl FilterCodec for EmptyRegistry {
    open spec fn spec_apply(&self, f: FilterV, data: Seq<u8>) -> Result<Seq<u8>, Seq<char>> {
        Err("no codec registered"@)
    }

    fn apply(&self, f: &StreamFilter, data: &Vec<u8>) -> (r: Result<Vec<u8>, String>) {
        let msg: String = "no codec registered".to_owned();
        Err(msg)
    }
}

/// A registry that treats every filter as the identity transform: decoding
/// hands the bytes back unchanged.  A stand-in for callers whose payloads
/// are already stored in canonical form under a declared filter name.
#[derive(Debug)]
pub struct IdentityRegistry;

impl FilterCodec for IdentityRegistry {
    open spec fn spec_apply(&self, f: FilterV, data: Seq<u8>) -> Result<Seq<u8>, Seq<char>> {
        Ok(data)
    }

    fn apply(&self, f: &StreamFilter, data: &Vec<u8>) -> (r: Result<Vec<u8>, String>) {
        Ok(crate::primitive::clone_bytes(data))
    }
}

/// Image of building a filter chain by pairing declared names with their
/// parameter dictionaries, index-aligned; a missing parameter entry stands
/// for the empty mapping.
pub open spec fn spec_build_filters(names: Seq<Seq<char>>, parms: Seq<DictV>, r: ResolverV)
    -> Result<Seq<FilterV>, ErrorV>
    decreases names.len(),
{
    if names.len() == 0 {
        Ok(Seq::empty())
    } else {
        let params0: DictV = if parms.len() > 0 {
            parms[0]
        } else {
            Seq::empty()
        };
        let tail: Seq<DictV> = if parms.len() > 0 {
            parms.subrange(1, parms.len() as int)
        } else {
            parms
        };
        match spec_resolve_dict(params0, r) {
            Err(e) => Err(e),
            Ok(d) => match spec_build_filters(names.subrange(1, names.len() as int), tail, r) {
                Ok(rest) => Ok(seq![FilterV { kind: names[0], params: d }] + rest),
                Err(e) => Err(e),
            },
        }
    }
}

/// A sequence of filter names viewed as character sequences.
pub open spec fn names_view(s: Seq<String>) -> Seq<Seq<char>> {
    s.map_values(|x: String| x@)
}

/// A sequence of dictionaries viewed entry by entry.
pub open spec fn dicts_view(s: Seq<Dictionary>) -> Seq<DictV> {
    s.map_values(|d: Dictionary| dict_view(d.entries@))
}

/// A sequence of filter descriptors viewed one by one.
pub open spec fn filters_view(s: Seq<StreamFilter>) -> Seq<FilterV> {
    s.map_values(|f: StreamFilter| f@)
}

/// Builds the filter chain: zips declared filter names with their
/// corresponding parameter dictionaries, index-aligned; a name without a
/// matching entry gets the empty mapping.
pub fn build_filters(names: Vec<String>, parms: Vec<Dictionary>, resolve: &Resolver) -> (r:
    Result<Vec<StreamFilter>, Error>)
    ensures
        match spec_build_filters(names_view(names@), dicts_view(parms@), resolve@) {
            Ok(fs) => r matches Ok(v) && filters_view(v@) == fs,
            Err(e) => r matches Err(err) && err@ == e,
        },
{
    let mut names = names;
    let mut parms = parms;
    let ghost names_orig = names_view(names@);
    let ghost parms_orig = dicts_view(parms@);
    let mut out: Vec<StreamFilter> = Vec::new();
    #[verifier::loop_isolation(false)]
    while names.len() > 0
        invariant
            match spec_build_filters(names_view(names@), dicts_view(parms@), resolve@) {
                Ok(fs) => spec_build_filters(names_orig, parms_orig, resolve@) == Ok::<
                    Seq<FilterV>,
                    ErrorV,
                >(filters_view(out@) + fs),
                Err(e) => spec_build_filters(names_orig, parms_orig, resolve@) == Err::<
                    Seq<FilterV>,
                    ErrorV,
                >(e),
            },
        decreases names.len(),
    {
        let ghost names0 = names_view(names@);
        let ghost parms0 = dicts_view(parms@);
        let ghost out0 = filters_view(out@);
        let name = names.remove(0);
        let params: Dictionary = if parms.len() > 0 {
            parms.remove(0)
        } else {
            Dictionary::empty()
        };
        proof {
            assert(names_view(names@) =~= names0.subrange(1, names0.len() as int));
            if parms0.len() > 0 {
                assert(dicts_view(parms@) =~= parms0.subrange(1, parms0.len() as int));
            } else {
                assert(dicts_view(parms@) =~= parms0);
            }
            assert(params@ == (if parms0.len() > 0 {
                parms0[0]
            } else {
                Seq::<(Seq<char>, PrimitiveV)>::empty()
            }));
        }
        let f = match StreamFilter::from_kind_and_params(name, params, resolve) {
            Ok(f) => f,
            Err(e) => {
                return Err(e);
            },
        };
        out.push(f);
        proof {
            let rest1 = spec_build_filters(names_view(names@), dicts_view(parms@), resolve@);
            if rest1 is Ok {
                let rest = rest1->Ok_0;
                assert(filters_view(out@) =~= out0 + seq![out@.last()@]);
                assert((out0 + seq![out@.last()@]) + rest =~= out0 + (seq![out@.last()@] + rest));
            }
        }
    }
    proof {
        assert(filters_view(out@) + Seq::<FilterV>::empty() =~= filters_view(out@));
    }
    Ok(out)
}

/// A dictionary whose top-level values hold no indirect references.
pub open spec fn dict_no_refs(d: DictV) -> bool {
    forall|i: int| 0 <= i < d.len() ==> !((#[trigger] d[i]).1 is Reference)
}

/// Resolution is the identity on a dictionary without reference values.
pub proof fn lemma_resolve_dict_id(d: DictV, r: ResolverV)
    requires
        dict_no_refs(d),
    ensures
        spec_resolve_dict(d, r) == Ok::<DictV, ErrorV>(d),
    decreases d.len(),
{
    if d.len() == 0 {
        assert(d =~= Seq::<(Seq<char>, PrimitiveV)>::empty());
    } else {
        lemma_resolve_dict_id(d.subrange(1, d.len() as int), r);
        assert(seq![d[0]] + d.subrange(1, d.len() as int) =~= d);
    }
}

/// Law: building a filter chain from `k` declared `(name, params)` pairs
/// succeeds and yields `k` descriptors in declared order; each descriptor
/// carries exactly the parameter entry at its own index, or the empty
/// mapping where the parameter list is shorter.  Stated for parameter
/// dictionaries without reference values; a reference-valued entry would be
/// replaced by its resolved target instead.
pub proof fn lemma_filter_chain_shape(names: Seq<Seq<char>>, parms: Seq<DictV>, r: ResolverV)
    requires
        forall|i: int| 0 <= i < parms.len() ==> dict_no_refs(#[trigger] parms[i]),
    ensures
        spec_build_filters(names, parms, r) matches Ok(fs) && fs.len() == names.len() && forall|
            i: int,
        |
            0 <= i < names.len() ==> (#[trigger] fs[i]).kind == names[i] && fs[i].params == (
            if i < parms.len() {
                parms[i]
            } else {
                Seq::<(Seq<char>, PrimitiveV)>::empty()
            }),
    decreases names.len(),
{
    if names.len() > 0 {
        let params0: DictV = if parms.len() > 0 {
            parms[0]
        } else {
            Seq::empty()
        };
        let tail: Seq<DictV> = if parms.len() > 0 {
            parms.subrange(1, parms.len() as int)
        } else {
            parms
        };
        lemma_resolve_dict_id(params0, r);
        lemma_filter_chain_shape(names.subrange(1, names.len() as int), tail, r);
    }
}

} // verus!
