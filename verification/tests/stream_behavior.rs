use pdf::err::Error;
use pdf::filter::EmptyRegistry;
use pdf::filter::IdentityRegistry;
use pdf::filter::StreamFilter;
use pdf::objstm::ObjStmInfo;
use pdf::primitive::Dictionary;
use pdf::primitive::PlainRef;
use pdf::primitive::Primitive;
use pdf::primitive::Resolver;
use pdf::stream::Object;
use pdf::stream::Stream;

fn dict(entries: Vec<(&str, Primitive)>) -> Dictionary {
    Dictionary {
        entries: entries.into_iter().map(|(k, v)| (k.to_string(), v)).collect(),
    }
}

fn stream_prim(mut extra: Vec<(&str, Primitive)>, filter: Primitive, data: &[u8]) -> Primitive {
    let mut entries = vec![("Length", Primitive::Integer(data.len() as i64)), ("Filter", filter)];
    entries.append(&mut extra);
    Primitive::Stream { dict: dict(entries), data: data.to_vec() }
}

#[test]
fn decode_empty_chain_is_noop() {
    let p = stream_prim(vec![], Primitive::Array(vec![]), b"abcd");
    let mut s = Stream::<Dictionary>::from_primitive(p, &Resolver::empty()).unwrap();
    assert_eq!(s.get_filters().len(), 0);
    assert!(s.decode(&EmptyRegistry).is_ok());
    assert_eq!(s.get_data_raw().as_slice(), b"abcd");
    assert_eq!(s.get_length(), 4);
    assert_eq!(s.get_data().unwrap().as_slice(), b"abcd");
}

#[test]
fn decode_applies_filter_and_clears_chain() {
    let p = stream_prim(vec![], Primitive::Name("Rev".to_string()), b"abc");
    let mut s = Stream::<Dictionary>::from_primitive(p, &Resolver::empty()).unwrap();
    assert_eq!(s.get_filters().len(), 1);
    assert!(matches!(s.get_data(), Err(Error::NotDecoded)));
    assert!(s.decode(&IdentityRegistry).is_ok());
    assert_eq!(s.get_filters().len(), 0);
    assert_eq!(s.get_data().unwrap().as_slice(), b"abc");
}

#[test]
fn decode_failure_reports_filter_and_keeps_stream() {
    let p = stream_prim(vec![], Primitive::Name("Foo".to_string()), b"abc");
    let mut s = Stream::<Dictionary>::from_primitive(p, &Resolver::empty()).unwrap();
    let e = s.decode(&EmptyRegistry).unwrap_err();
    assert_eq!(
        e,
        Error::FilterDecodeFailure {
            filter: "Foo".to_string(),
            cause: "no codec registered".to_string(),
        }
    );
    assert_eq!(s.get_filters().len(), 1);
    assert_eq!(s.get_data_raw().as_slice(), b"abc");
    assert!(matches!(s.get_data(), Err(Error::NotDecoded)));
}

#[test]
fn missing_length_is_rejected() {
    let p = Primitive::Stream {
        dict: dict(vec![("Filter", Primitive::Array(vec![]))]),
        data: b"abcd".to_vec(),
    };
    let e = Stream::<Dictionary>::from_primitive(p, &Resolver::empty()).unwrap_err();
    assert_eq!(e, Error::MissingKey { key: "Length".to_string() });
}

#[test]
fn missing_filter_is_rejected() {
    let p = Primitive::Stream {
        dict: dict(vec![("Length", Primitive::Integer(4))]),
        data: b"abcd".to_vec(),
    };
    let e = Stream::<Dictionary>::from_primitive(p, &Resolver::empty()).unwrap_err();
    assert_eq!(e, Error::MissingKey { key: "Filter".to_string() });
}

#[test]
fn length_mismatch_is_rejected() {
    let p = Primitive::Stream {
        dict: dict(vec![
            ("Length", Primitive::Integer(5)),
            ("Filter", Primitive::Array(vec![])),
        ]),
        data: b"abcd".to_vec(),
    };
    let e = Stream::<Dictionary>::from_primitive(p, &Resolver::empty()).unwrap_err();
    assert_eq!(e, Error::LengthMismatch);
}

#[test]
fn length_can_be_an_indirect_reference() {
    let p = Primitive::Stream {
        dict: dict(vec![
            ("Length", Primitive::Reference(PlainRef { id: 7 })),
            ("Filter", Primitive::Array(vec![])),
        ]),
        data: b"abcd".to_vec(),
    };
    let resolver = Resolver { entries: vec![(7, Primitive::Integer(4))] };
    let s = Stream::<Dictionary>::from_primitive(p, &resolver).unwrap();
    assert_eq!(s.get_length(), 4);
}

#[test]
fn unresolved_reference_is_reported() {
    let p = Primitive::Stream {
        dict: dict(vec![
            ("Length", Primitive::Reference(PlainRef { id: 9 })),
            ("Filter", Primitive::Array(vec![])),
        ]),
        data: b"abcd".to_vec(),
    };
    let e = Stream::<Dictionary>::from_primitive(p, &Resolver::empty()).unwrap_err();
    assert_eq!(e, Error::UnresolvedRef { id: 9 });
}

#[test]
fn wrong_shapes_are_type_mismatches() {
    let p = stream_prim(vec![], Primitive::Integer(3), b"abcd");
    let e = Stream::<Dictionary>::from_primitive(p, &Resolver::empty()).unwrap_err();
    assert_eq!(e, Error::TypeMismatch);

    let p = Primitive::Stream {
        dict: dict(vec![
            ("Length", Primitive::Name("four".to_string())),
            ("Filter", Primitive::Array(vec![])),
        ]),
        data: b"abcd".to_vec(),
    };
    let e = Stream::<Dictionary>::from_primitive(p, &Resolver::empty()).unwrap_err();
    assert_eq!(e, Error::TypeMismatch);

    let p = Primitive::Stream {
        dict: dict(vec![
            ("Length", Primitive::Integer(-1)),
            ("Filter", Primitive::Array(vec![])),
        ]),
        data: b"abcd".to_vec(),
    };
    let e = Stream::<Dictionary>::from_primitive(p, &Resolver::empty()).unwrap_err();
    assert_eq!(e, Error::TypeMismatch);

    let e = Stream::<Dictionary>::from_primitive(Primitive::Null, &Resolver::empty()).unwrap_err();
    assert_eq!(e, Error::TypeMismatch);
}

#[test]
fn filter_chain_preserves_order_and_params() {
    let parms = Primitive::Array(vec![Primitive::Dictionary(dict(vec![(
        "X",
        Primitive::Integer(1),
    )]))]);
    let p = stream_prim(
        vec![("DecodeParms", parms)],
        Primitive::Array(vec![
            Primitive::Name("A".to_string()),
            Primitive::Name("B".to_string()),
        ]),
        b"abcd",
    );
    let s = Stream::<Dictionary>::from_primitive(p, &Resolver::empty()).unwrap();
    let filters = s.get_filters();
    assert_eq!(filters.len(), 2);
    assert_eq!(filters[0].kind, "A");
    assert_eq!(filters[0].params, dict(vec![("X", Primitive::Integer(1))]));
    assert_eq!(filters[1].kind, "B");
    assert_eq!(filters[1].params, dict(vec![]));
}

#[test]
fn filter_params_resolve_indirect_values() {
    let parms = Primitive::Array(vec![Primitive::Dictionary(dict(vec![(
        "P",
        Primitive::Reference(PlainRef { id: 5 }),
    )]))]);
    let p = stream_prim(
        vec![("DecodeParms", parms)],
        Primitive::Array(vec![Primitive::Name("A".to_string())]),
        b"abcd",
    );
    let resolver = Resolver { entries: vec![(5, Primitive::Integer(12))] };
    let s = Stream::<Dictionary>::from_primitive(p, &resolver).unwrap();
    assert_eq!(s.get_filters()[0].params, dict(vec![("P", Primitive::Integer(12))]));
}

#[test]
fn info_gets_the_remaining_dictionary() {
    let p = stream_prim(vec![("Z", Primitive::Integer(9))], Primitive::Array(vec![]), b"ab");
    let s = Stream::<Dictionary>::from_primitive(p, &Resolver::empty()).unwrap();
    assert_eq!(s.info, dict(vec![("Z", Primitive::Integer(9))]));
}

#[test]
fn encode_and_serialize_are_unsupported() {
    let p = stream_prim(vec![], Primitive::Array(vec![]), b"ab");
    let mut s = Stream::<Dictionary>::from_primitive(p, &Resolver::empty()).unwrap();
    let f = StreamFilter { kind: "X".to_string(), params: dict(vec![]) };
    assert_eq!(s.encode(f), Err(Error::Unsupported));
    assert_eq!(s.serialize(), Err(Error::Unsupported));
    assert_eq!(s.get_data_raw().as_slice(), b"ab");
}

#[test]
fn default_stream_is_empty_and_canonical() {
    let s = Stream::<ObjStmInfo>::default();
    assert_eq!(s.get_filters().len(), 0);
    assert_eq!(s.get_length(), 0);
    assert!(s.get_data().is_ok());
}

#[test]
fn resolver_returns_first_binding() {
    let resolver = Resolver {
        entries: vec![(1, Primitive::Integer(10)), (1, Primitive::Integer(20))],
    };
    let v = resolver.resolve(PlainRef { id: 1 }).unwrap();
    assert_eq!(v, Primitive::Integer(10));
    let e = resolver.resolve(PlainRef { id: 2 }).unwrap_err();
    assert_eq!(e, Error::UnresolvedRef { id: 2 });
}
