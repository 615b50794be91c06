use yaml_tree::builder::YamlLoader;
use yaml_tree::emit::serialize_docs;
use yaml_tree::value::{YamlInput, YamlOutput};

/// Serializes the converted tree and parses the text back.
fn roundtrip(doc: &YamlInput) -> YamlInput {
    let out = doc.duplicate().into_output();
    let text = serialize_docs(&vec![out]);
    let mut docs = YamlLoader::load_from_str(&text).unwrap();
    assert_eq!(docs.len(), 1);
    docs.remove(0)
}

/// Parses, reserializes, reparses, and checks the fixed point.
fn double_round_trip(text: &str) {
    let docs = YamlLoader::load_from_str(text).unwrap();
    let outs: Vec<YamlOutput> = docs.iter().map(|d| d.duplicate().into_output()).collect();
    let text2 = serialize_docs(&outs);
    let docs2 = YamlLoader::load_from_str(&text2).unwrap();
    assert_eq!(docs, docs2);
}

#[test]
fn test_round_trip_scalars() {
    let s = "
- 123
- -321
- 1.23
- -1e4
- ~
- true
- false
- string
- '0'
- 0xFF
- 0o77
- +12345
- -.INF
- .NAN
";
    let docs = YamlLoader::load_from_str(s).unwrap();
    let doc = &docs[0];
    assert_eq!(&roundtrip(doc), doc);
}

#[test]
fn test_round_trip_nested() {
    let s = "
a: [1, 2, {x: y}]
b:
  c: ~
  d: [true, false]
e: 'quoted text'
";
    let docs = YamlLoader::load_from_str(s).unwrap();
    let doc = &docs[0];
    assert_eq!(&roundtrip(doc), doc);
}

#[test]
fn test_double_round_trip_multi_doc() {
    double_round_trip("1\n---\n[a, b]\n---\nk: v\n");
}

#[test]
fn test_double_round_trip_anchors() {
    double_round_trip("a1: &D\n    b: 4\na2: *D\n");
    // a forward alias stays unresolved through the trip
    double_round_trip("a1: &D\n    b: *D\n");
}

#[test]
fn test_escape_character() {
    let text = "\x1b".to_owned();
    let doc = YamlInput::String(text);
    assert_eq!(roundtrip(&doc), doc);
}

#[test]
fn test_colon_in_string() {
    let doc = YamlInput::String("x: %".to_owned());
    assert_eq!(roundtrip(&doc), doc);
    let doc = YamlInput::String("base64 on disk: %".to_owned());
    assert_eq!(roundtrip(&doc), doc);
}

#[test]
fn test_numberlike_strings() {
    for t in ["1234", "01234", " 01234", "0x1234", " 0x1234"] {
        let doc = YamlInput::String(t.to_owned());
        assert_eq!(roundtrip(&doc), doc, "string {:?} must stay a string", t);
    }
    let nested = YamlInput::Hash(vec![(
        YamlInput::String("x".to_owned()),
        YamlInput::String("1234".to_owned()),
    )]);
    assert_eq!(roundtrip(&nested), nested);
}

#[test]
fn test_issue133() {
    let doc = YamlLoader::load_from_str("\"0x123\"").unwrap().into_iter().next().unwrap();
    assert_eq!(doc, YamlInput::String("0x123".to_owned()));
    let doc2 = roundtrip(&doc);
    assert_eq!(doc, doc2);
}

#[test]
fn test_mapvec_legal() {
    // a non-scalar mapping key is rendered in explicit-key form:
    // a sequence key, and a nested mapping key {key: [1, 2, 3]}
    let seq_key = YamlInput::Array(vec![YamlInput::Integer(0), YamlInput::Integer(0)]);
    let doc = YamlInput::Hash(vec![(seq_key, YamlInput::Integer(1))]);
    let out = doc.duplicate().into_output();
    let text = serialize_docs(&vec![out]);
    let docs = YamlLoader::load_from_str(&text).unwrap();
    assert_eq!(docs[0], doc);

    let map_key = YamlInput::Hash(vec![(
        YamlInput::String("key".to_owned()),
        YamlInput::Array(vec![
            YamlInput::Integer(1),
            YamlInput::Integer(2),
            YamlInput::Integer(3),
        ]),
    )]);
    let doc2 = YamlInput::Hash(vec![(map_key, YamlInput::Integer(1))]);
    let out2 = doc2.duplicate().into_output();
    let text2 = serialize_docs(&vec![out2]);
    let docs2 = YamlLoader::load_from_str(&text2).unwrap();
    assert_eq!(docs2[0], doc2);
}

#[test]
fn test_round_trip_tagged_float() {
    // a float whose bare text would re-classify carries its tag
    let s = "- !!float 2\n- !!float +1\n";
    let docs = YamlLoader::load_from_str(s).unwrap();
    let doc = &docs[0];
    assert_eq!(doc.index_at(0).as_real_str().unwrap(), "2");
    assert_eq!(&roundtrip(doc), doc);
}
