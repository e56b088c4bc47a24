use vstd::prelude::*;

use crate::err::Error;
use crate::err::ErrorV;

verus! {

broadcast use vstd::group_vstd_default;

/// Object number of an indirect object.
pub type ObjNr = u64;

/// An indirect reference: a pointer-like value that must be resolved through
/// an external lookup to obtain its target primitive value.
#[derive(Debug, Clone, Copy, PartialEq, Eq)]
pub struct PlainRef {
    pub id: ObjNr,
}

/// Mathematical image of a [`Primitive`] value.
#[verifier::ext_equal]
pub enum PrimitiveV {
    Null,
    Integer(int),
    Text(Seq<u8>),
    Name(Seq<char>),
    Array(Seq<PrimitiveV>),
    Dictionary(Seq<(Seq<char>, PrimitiveV)>),
    Reference(u64),
    Stream { dict: Seq<(Seq<char>, PrimitiveV)>, data: Seq<u8> },
}

/// Mathematical image of a dictionary: the ordered entry list, keys viewed as
/// character sequences.  Lookup takes the first entry with a matching key.
pub type DictV = Seq<(Seq<char>, PrimitiveV)>;

/// The tagged union of values a dictionary entry can hold.
#[derive(Debug, PartialEq)]
pub enum Primitive {
    /// The absent value.
    Null,
    /// A number.  This core only interprets integral values.
    Integer(i64),
    /// A string object: an uninterpreted byte string.
    Text(Vec<u8>),
    /// A name object.
    Name(String),
    /// An ordered array of values.
    Array(Vec<Primitive>),
    /// A key-to-value mapping.
    Dictionary(Dictionary),
    /// An indirect reference, to be resolved through a [`Resolver`].
    Reference(PlainRef),
    /// A raw stream token: its metadata dictionary plus its raw bytes.
    Stream { dict: Dictionary, data: Vec<u8> },
}

/// A key-to-value mapping with string keys.  Entries are kept in insertion
/// order; when a key occurs twice, the first occurrence wins.
#[derive(Debug, PartialEq)]
pub struct Dictionary {
    pub entries: Vec<(String, Primitive)>,
}

/// Mathematical image of one primitive value.
pub open spec fn prim_view(p: Primitive) -> PrimitiveV
    decreases p,
{
    match p {
        Primitive::Null => PrimitiveV::Null,
        Primitive::Integer(i) => PrimitiveV::Integer(i as int),
        Primitive::Text(bytes) => PrimitiveV::Text(bytes@),
        Primitive::Name(name) => PrimitiveV::Name(name@),
        Primitive::Array(items) => PrimitiveV::Array(arr_view(items@)),
        Primitive::Dictionary(d) => PrimitiveV::Dictionary(dict_view(d.entries@)),
        Primitive::Reference(r) => PrimitiveV::Reference(r.id),
        Primitive::Stream { dict, data } => PrimitiveV::Stream {
            dict: dict_view(dict.entries@),
            data: data@,
        },
    }
}

/// Mathematical image of an array of primitive values, element by element.
pub open spec fn arr_view(s: Seq<Primitive>) -> Seq<PrimitiveV>
    decreases s,
{
    if s.len() == 0 {
        Seq::empty()
    } else {
        seq![prim_view(s[0])] + arr_view(s.subrange(1, s.len() as int))
    }
}

/// Mathematical image of a dictionary entry list, entry by entry.
pub open spec fn dict_view(s: Seq<(String, Primitive)>) -> DictV
    decreases s,
{
    if s.len() == 0 {
        Seq::empty()
    } else {
        seq![(s[0].0@, prim_view(s[0].1))] + dict_view(s.subrange(1, s.len() as int))
    }
}

/// `arr_view` maps the sequence element by element.
pub broadcast proof fn lemma_arr_view(s: Seq<Primitive>)
    ensures
        (#[trigger] arr_view(s)).len() == s.len(),
        forall|i: int| 0 <= i < s.len() ==> arr_view(s)[i] == prim_view(s[i]),
    decreases s.len(),
{
    if s.len() > 0 {
        lemma_arr_view(s.subrange(1, s.len() as int));
    }
}

/// `dict_view` maps the entry list entry by entry.
pub broadcast proof fn lemma_dict_view(s: Seq<(String, Primitive)>)
    ensures
        (#[trigger] dict_view(s)).len() == s.len(),
        forall|i: int| 0 <= i < s.len() ==> dict_view(s)[i] == (s[i].0@, prim_view(s[i].1)),
    decreases s.len(),
{
    if s.len() > 0 {
        lemma_dict_view(s.subrange(1, s.len() as int));
    }
}

impl View for Primitive {
    type V = PrimitiveV;

    open spec fn view(&self) -> PrimitiveV {
        prim_view(*self)
    }
}

impl View for Dictionary {
    type V = DictV;

    open spec fn view(&self) -> DictV {
        dict_view(self.entries@)
    }
}

/// First value bound to `key` in the entry list, if any.
pub open spec fn dict_get(d: DictV, key: Seq<char>) -> Option<PrimitiveV>
    decreases d.len(),
{
    if d.len() == 0 {
        None
    } else if d[0].0 == key {
        Some(d[0].1)
    } else {
        dict_get(d.skip(1), key)
    }
}

/// The entry list with the first entry bound to `key` removed, if any.
pub open spec fn dict_without(d: DictV, key: Seq<char>) -> DictV
    decreases d.len(),
{
    if d.len() == 0 {
        d
    } else if d[0].0 == key {
        d.skip(1)
    } else {
        seq![d[0]] + dict_without(d.skip(1), key)
    }
}

impl Dictionary {
    /// The empty mapping.
    pub fn empty() -> (d: Dictionary)
        ensures
            d@ == Seq::<(Seq<char>, PrimitiveV)>::empty(),
    {
        let d = Dictionary { entries: Vec::new() };
        proof {
            assert(d@ =~= Seq::<(Seq<char>, PrimitiveV)>::empty());
        }
        d
    }

    /// Removes the first entry bound to `key` and returns its value.
    pub fn remove(&mut self, key: &str) -> (r: Option<Primitive>)
        ensures
            match r {
                Some(v) => dict_get(old(self)@, key@) == Some(v@),
                None => dict_get(old(self)@, key@) is None,
            },
            final(self)@ == dict_without(old(self)@, key@),
    {
        let owned: String = key.to_owned();
        let n = self.entries.len();
        let mut i: usize = 0;
        while i < n
            invariant
                owned@ == key@,
                n == self.entries.len(),
                i <= n,
                *self == *old(self),
                forall|j: int| 0 <= j < i ==> (#[trigger] self.entries@[j]).0@ != key@,
            decreases n - i,
        {
            if self.entries[i].0 == owned {
                proof {
                    lemma_dict_view(self.entries@);
                    lemma_dict_found(self@, key@, i as int);
                }
                let (_, v) = self.entries.remove(i);
                proof {
                    lemma_dict_view(self.entries@);
                    assert(final(self)@ =~= dict_without(old(self)@, key@));
                }
                return Some(v);
            }
            i += 1;
        }
        proof {
            lemma_dict_view(self.entries@);
            assert forall|j: int| 0 <= j < self@.len() implies (#[trigger] self@[j]).0 != key@ by {
                assert(self.entries@[j].0@ != key@);
            }
            lemma_dict_absent(self@, key@);
            assert(final(self)@ =~= dict_without(old(self)@, key@));
        }
        None
    }
}

/// When the first `i` entries of `d` do not carry `key` and entry `i` does,
/// lookup yields that entry's value and removal drops exactly that entry.
proof fn lemma_dict_found(d: DictV, key: Seq<char>, i: int)
    requires
        0 <= i < d.len(),
        forall|j: int| 0 <= j < i ==> (#[trigger] d[j]).0 != key,
        d[i].0 == key,
    ensures
        dict_get(d, key) == Some(d[i].1),
        dict_without(d, key) =~= d.remove(i),
    decreases i,
{
    if i == 0 {
        assert(dict_without(d, key) == d.skip(1));
        assert(d.skip(1) =~= d.remove(0));
    } else {
        assert(d[0].0 != key);
        lemma_dict_found(d.skip(1), key, i - 1);
        assert(d.skip(1).remove(i - 1) =~= d.remove(i).skip(1));
        assert(dict_without(d, key) =~= seq![d[0]] + d.skip(1).remove(i - 1));
        assert(seq![d[0]] + d.remove(i).skip(1) =~= d.remove(i));
    }
}

/// When no entry carries `key`, lookup fails and removal is the identity.
proof fn lemma_dict_absent(d: DictV, key: Seq<char>)
    requires
        forall|j: int| 0 <= j < d.len() ==> (#[trigger] d[j]).0 != key,
    ensures
        dict_get(d, key) is None,
        dict_without(d, key) =~= d,
    decreases d.len(),
{
    if d.len() > 0 {
        lemma_dict_absent(d.skip(1), key);
        assert(seq![d[0]] + d.skip(1) =~= d);
    }
}

/// Copy of a byte buffer, equal to the original in view.
pub fn clone_bytes(bytes: &Vec<u8>) -> (r: Vec<u8>)
    ensures
        r@ == bytes@,
{
    let mut out: Vec<u8> = Vec::new();
    let n = bytes.len();
    let mut i: usize = 0;
    while i < n
        invariant
            n == bytes.len(),
            i <= n,
            out@.len() == i,
            forall|j: int| 0 <= j < i ==> out@[j] == bytes@[j],
        decreases n - i,
    {
        out.push(bytes[i]);
        i += 1;
    }
    proof {
        assert(out@ =~= bytes@);
    }
    out
}

/// Deep copy of a primitive value, equal to the original in view.
pub fn clone_primitive(p: &Primitive) -> (r: Primitive)
    ensures
        r@ == p@,
    decreases *p,
{
    match p {
        Primitive::Null => Primitive::Null,
        Primitive::Integer(i) => Primitive::Integer(*i),
        Primitive::Text(bytes) => Primitive::Text(clone_bytes(bytes)),
        Primitive::Name(name) => Primitive::Name(name.clone()),
        Primitive::Array(items) => {
            let mut out: Vec<Primitive> = Vec::new();
            let n = items.len();
            let mut i: usize = 0;
            #[verifier::loop_isolation(false)]
            while i < n
                invariant
                    n == items.len(),
                    i <= n,
                    out@.len() == i,
                    forall|j: int| 0 <= j < i ==> (#[trigger] out@[j])@ == items@[j]@,
                decreases n - i,
            {
                let c = clone_primitive(&items[i]);
                out.push(c);
                i += 1;
            }
            let r = Primitive::Array(out);
            proof {
                lemma_arr_view(out@);
                lemma_arr_view(items@);
                assert(arr_view(out@) =~= arr_view(items@));
            }
            r
        },
        Primitive::Dictionary(d) => Primitive::Dictionary(clone_dictionary(d)),
        Primitive::Reference(r) => Primitive::Reference(*r),
        Primitive::Stream { dict, data } => Primitive::Stream {
            dict: clone_dictionary(dict),
            data: clone_bytes(data),
        },
    }
}

/// Deep copy of a dictionary, equal to the original in view.
pub fn clone_dictionary(d: &Dictionary) -> (r: Dictionary)
    ensures
        r@ == d@,
    decreases *d,
{
    let mut out: Vec<(String, Primitive)> = Vec::new();
    let n = d.entries.len();
    let mut i: usize = 0;
    #[verifier::loop_isolation(false)]
    while i < n
        invariant
            n == d.entries.len(),
            i <= n,
            out@.len() == i,
            forall|j: int| 0 <= j < i ==> (#[trigger] out@[j]).0@ == d.entries@[j].0@
                && out@[j].1@ == d.entries@[j].1@,
        decreases n - i,
    {
        let key = d.entries[i].0.clone();
        let val = clone_primitive(&d.entries[i].1);
        out.push((key, val));
        i += 1;
    }
    let r = Dictionary { entries: out };
    proof {
        lemma_dict_view(out@);
        lemma_dict_view(d.entries@);
        assert(r@ =~= d@);
    }
    r
}

/// Mathematical image of a [`Resolver`]: its entry list, values viewed.
pub type ResolverV = Seq<(u64, PrimitiveV)>;

/// First value bound to object number `id`, if any.
pub open spec fn spec_resolve(r: ResolverV, id: u64) -> Option<PrimitiveV>
    decreases r.len(),
{
    if r.len() == 0 {
        None
    } else if r[0].0 == id {
        Some(r[0].1)
    } else {
        spec_resolve(r.skip(1), id)
    }
}

/// The indirect-reference lookup table: maps object numbers to the primitive
/// values they denote.  Stand-in for the document-level resolution
/// collaborator; callers populate it with whatever objects they hold.
#[derive(Debug)]
pub struct Resolver {
    pub entries: Vec<(ObjNr, Primitive)>,
}

impl View for Resolver {
    type V = ResolverV;

    open spec fn view(&self) -> ResolverV {
        Seq::new(self.entries@.len(), |i: int| (self.entries@[i].0, self.entries@[i].1@))
    }
}

impl Resolver {
    /// A table that knows no objects.
    pub fn empty() -> (r: Resolver)
        ensures
            r@ == Seq::<(u64, PrimitiveV)>::empty(),
    {
        let r = Resolver { entries: Vec::new() };
        proof {
            assert(r@ =~= Seq::<(u64, PrimitiveV)>::empty());
        }
        r
    }

    /// Resolves an indirect reference to the referenced primitive value.
    pub fn resolve(&self, r: PlainRef) -> (res: Result<Primitive, Error>)
        ensures
            match spec_resolve(self@, r.id) {
                Some(pv) => res matches Ok(p) && p@ == pv,
                None => res matches Err(e) && e@ == (ErrorV::UnresolvedRef { id: r.id }),
            },
    {
        let n = self.entries.len();
        let mut i: usize = 0;
        while i < n
            invariant
                n == self.entries.len(),
                i <= n,
                forall|j: int| 0 <= j < i ==> (#[trigger] self@[j]).0 != r.id,
            decreases n - i,
        {
            if self.entries[i].0 == r.id {
                proof {
                    lemma_resolve_found(self@, r.id, i as int);
                }
                return Ok(clone_primitive(&self.entries[i].1));
            }
            assert(self@[i as int].0 != r.id);
            i += 1;
        }
        proof {
            lemma_resolve_absent(self@, r.id);
        }
        Err(Error::UnresolvedRef { id: r.id })
    }
}

/// When the first `i` entries do not carry `id` and entry `i` does, lookup
/// yields that entry's value.
proof fn lemma_resolve_found(r: ResolverV, id: u64, i: int)
    requires
        0 <= i < r.len(),
        forall|j: int| 0 <= j < i ==> (#[trigger] r[j]).0 != id,
        r[i].0 == id,
    ensures
        spec_resolve(r, id) == Some(r[i].1),
    decreases i,
{
    if i > 0 {
        assert(r[0].0 != id);
        lemma_resolve_found(r.skip(1), id, i - 1);
    }
}

/// When no entry carries `id`, lookup fails.
proof fn lemma_resolve_absent(r: ResolverV, id: u64)
    requires
        forall|j: int| 0 <= j < r.len() ==> (#[trigger] r[j]).0 != id,
    ensures
        spec_resolve(r, id) is None,
    decreases r.len(),
{
    if r.len() > 0 {
        lemma_resolve_absent(r.skip(1), id);
    }
}

} // verus!
