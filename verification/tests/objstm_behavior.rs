use pdf::err::Error;
use pdf::filter::EmptyRegistry;
use pdf::objstm::ObjStmInfo;
use pdf::objstm::ObjectStream;
use pdf::primitive::Dictionary;
use pdf::primitive::PlainRef;
use pdf::primitive::Primitive;
use pdf::primitive::Resolver;
use pdf::stream::Object;
use pdf::stream::Stream;

fn dict(entries: Vec<(&str, Primitive)>) -> Dictionary {
    Dictionary {
        entries: entries.into_iter().map(|(k, v)| (k.to_string(), v)).collect(),
    }
}

fn objstm_prim(n: i64, first: i64, data: &[u8]) -> Primitive {
    Primitive::Stream {
        dict: dict(vec![
            ("Length", Primitive::Integer(data.len() as i64)),
            ("Filter", Primitive::Array(vec![])),
            ("N", Primitive::Integer(n)),
            ("First", Primitive::Integer(first)),
        ]),
        data: data.to_vec(),
    }
}

#[test]
fn object_stream_scenario() {
    // Ten token bytes encoding the pairs (1, 0) and (2, 3), then ten
    // payload bytes starting at offset 10.
    let p = objstm_prim(2, 10, b"1 0 2 3   AAABBBBBBB");
    let o = ObjectStream::from_primitive(p, &Resolver::empty(), &EmptyRegistry).unwrap();
    assert_eq!(o.n_objects(), 2);
    assert_eq!(o.id(), 0);
    assert_eq!(o.get_object_slice(0).unwrap(), b"AAA");
    assert_eq!(o.get_object_slice(1).unwrap(), b"BBBBBBB");
}

#[test]
fn object_slice_out_of_bounds() {
    let p = objstm_prim(2, 10, b"1 0 2 3   AAABBBBBBB");
    let o = ObjectStream::from_primitive(p, &Resolver::empty(), &EmptyRegistry).unwrap();
    let e = o.get_object_slice(2).unwrap_err();
    assert_eq!(e, Error::OutOfBounds { index: 2, count: 2 });
}

#[test]
fn short_token_stream_is_malformed() {
    // Three pairs declared, only two available.
    let p = objstm_prim(3, 10, b"1 0 2 3   AAABBBBBBB");
    let e = ObjectStream::from_primitive(p, &Resolver::empty(), &EmptyRegistry).unwrap_err();
    assert_eq!(e, Error::MalformedTokenStream);
}

#[test]
fn non_integer_token_is_malformed() {
    let p = objstm_prim(1, 2, b"x AAA");
    let e = ObjectStream::from_primitive(p, &Resolver::empty(), &EmptyRegistry).unwrap_err();
    assert_eq!(e, Error::MalformedTokenStream);
}

#[test]
fn oversized_token_is_malformed() {
    // The object number has more digits than any 64-bit value.
    let p = objstm_prim(1, 24, b"999999999999999999999 0 A");
    let e = ObjectStream::from_primitive(p, &Resolver::empty(), &EmptyRegistry).unwrap_err();
    assert_eq!(e, Error::MalformedTokenStream);
}

#[test]
fn whitespace_variants_separate_tokens() {
    let p = objstm_prim(2, 10, b"1\t0\x0d\x0a2 3\x0c AAABBBBBBB");
    let o = ObjectStream::from_primitive(p, &Resolver::empty(), &EmptyRegistry).unwrap();
    assert_eq!(o.get_object_slice(0).unwrap(), b"AAA");
    assert_eq!(o.get_object_slice(1).unwrap(), b"BBBBBBB");
}

#[test]
fn empty_object_stream_has_no_objects() {
    let p = objstm_prim(0, 0, b"");
    let o = ObjectStream::from_primitive(p, &Resolver::empty(), &EmptyRegistry).unwrap();
    assert_eq!(o.n_objects(), 0);
    let e = o.get_object_slice(0).unwrap_err();
    assert_eq!(e, Error::OutOfBounds { index: 0, count: 0 });
}

#[test]
fn offset_beyond_data_is_out_of_bounds() {
    // One pair (0, 99): the offset points far past the data's end.
    let p = objstm_prim(1, 5, b"0 99 AAA");
    let o = ObjectStream::from_primitive(p, &Resolver::empty(), &EmptyRegistry).unwrap();
    let e = o.get_object_slice(0).unwrap_err();
    assert_eq!(e, Error::OutOfBounds { index: 0, count: 1 });
}

#[test]
fn descending_offsets_are_caught_at_extraction() {
    // Pairs (1, 5) and (2, 0): the first object's range would end before it
    // starts; the second is still extractable.
    let p = objstm_prim(2, 10, b"1 5 2 0   XYZ");
    let o = ObjectStream::from_primitive(p, &Resolver::empty(), &EmptyRegistry).unwrap();
    let e = o.get_object_slice(0).unwrap_err();
    assert_eq!(e, Error::OutOfBounds { index: 0, count: 2 });
    assert_eq!(o.get_object_slice(1).unwrap(), b"XYZ");
}

#[test]
fn decode_failure_propagates_to_object_stream() {
    let p = Primitive::Stream {
        dict: dict(vec![
            ("Length", Primitive::Integer(3)),
            ("Filter", Primitive::Name("Foo".to_string())),
            ("N", Primitive::Integer(0)),
            ("First", Primitive::Integer(0)),
        ]),
        data: b"abc".to_vec(),
    };
    let e = ObjectStream::from_primitive(p, &Resolver::empty(), &EmptyRegistry).unwrap_err();
    assert_eq!(
        e,
        Error::FilterDecodeFailure {
            filter: "Foo".to_string(),
            cause: "no codec registered".to_string(),
        }
    );
}

#[test]
fn objstm_info_reads_its_keys() {
    let p = Primitive::Stream {
        dict: dict(vec![
            ("Length", Primitive::Integer(2)),
            ("Filter", Primitive::Array(vec![])),
            ("N", Primitive::Integer(2)),
            ("First", Primitive::Integer(1)),
            ("Extends", Primitive::Reference(PlainRef { id: 3 })),
        ]),
        data: b"ab".to_vec(),
    };
    let s = Stream::<ObjStmInfo>::from_primitive(p, &Resolver::empty()).unwrap();
    assert_eq!(
        s.info,
        ObjStmInfo { num_objects: 2, first: 1, extends: Some(PlainRef { id: 3 }) }
    );
}

#[test]
fn objstm_info_requires_object_count() {
    let p = Primitive::Stream {
        dict: dict(vec![
            ("Length", Primitive::Integer(2)),
            ("Filter", Primitive::Array(vec![])),
            ("First", Primitive::Integer(0)),
        ]),
        data: b"ab".to_vec(),
    };
    let e = Stream::<ObjStmInfo>::from_primitive(p, &Resolver::empty()).unwrap_err();
    assert_eq!(e, Error::MissingKey { key: "N".to_string() });
}

#[test]
fn object_stream_new_and_serialize_are_unsupported() {
    assert!(matches!(ObjectStream::new(), Err(Error::Unsupported)));
    let p = objstm_prim(0, 0, b"");
    let o = ObjectStream::from_primitive(p, &Resolver::empty(), &EmptyRegistry).unwrap();
    assert_eq!(o.serialize(), Err(Error::Unsupported));
}
