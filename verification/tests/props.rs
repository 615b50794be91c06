use yaml_tree::builder::{BuildFault, Event, YamlLoader, MAX_NESTING_DEPTH};
use yaml_tree::value::YamlInput;

#[test]
fn test_scalar_classification() {
    assert_eq!(YamlInput::from_str("123"), YamlInput::Integer(123));
    assert_eq!(YamlInput::from_str("-321"), YamlInput::Integer(-321));
    assert_eq!(YamlInput::from_str("1.23"), YamlInput::Real("1.23".to_owned()));
    assert_eq!(YamlInput::from_str("0xFF"), YamlInput::Integer(255));
    assert_eq!(YamlInput::from_str("0o77"), YamlInput::Integer(63));
    assert_eq!(YamlInput::from_str("+12345"), YamlInput::Integer(12345));
    assert_eq!(YamlInput::from_str("~"), YamlInput::Null);
    assert_eq!(YamlInput::from_str("null"), YamlInput::Null);
    assert_eq!(YamlInput::from_str("true"), YamlInput::Boolean(true));
    assert_eq!(YamlInput::from_str("false"), YamlInput::Boolean(false));
    // quoted scalars never reach plain classification
    let docs = YamlLoader::load_from_str("'0'").unwrap();
    assert_eq!(docs[0], YamlInput::String("0".to_owned()));
    // 64-bit overflow falls through to the float rule
    assert_eq!(
        YamlInput::from_str("99999999999999999999"),
        YamlInput::Real("99999999999999999999".to_owned())
    );
    assert_eq!(YamlInput::from_str("0x"), YamlInput::String("0x".to_owned()));
}

#[test]
fn test_explicit_tag_mismatch() {
    let s = "
- !!int string
- !!bool null
- !!null val
";
    let docs = YamlLoader::load_from_str(s).unwrap();
    let doc = &docs[0];
    assert!(doc.index_at(0).is_badvalue());
    assert!(doc.index_at(1).is_badvalue());
    assert!(doc.index_at(2).is_badvalue());
}

#[test]
fn test_indexing_safety() {
    let s = "
m: {k: 1}
a: [1, 2]
n: 5
";
    let docs = YamlLoader::load_from_str(s).unwrap();
    let doc = &docs[0];
    // missing key
    assert!(doc.index_str("absent").is_badvalue());
    assert!(doc.index_str("m").index_str("other").is_badvalue());
    // wrong receiver shape
    assert!(doc.index_str("n").index_str("k").is_badvalue());
    assert!(doc.index_str("n").index_at(0).is_badvalue());
    // out-of-range position
    assert!(doc.index_str("a").index_at(2).is_badvalue());
    // chaining on the sentinel yields the sentinel again
    assert!(doc.index_str("absent").index_at(3).index_str("x").is_badvalue());
}

#[test]
fn test_duplicate_key_overwrites() {
    // the newest write wins and moves the key to the end
    let s = "{a: 1, b: 2, a: 3}";
    let docs = YamlLoader::load_from_str(s).unwrap();
    let doc = docs.into_iter().next().unwrap();
    let entries = doc.into_hash().unwrap();
    assert_eq!(entries.len(), 2);
    assert_eq!(entries[0], (YamlInput::String("b".to_owned()), YamlInput::Integer(2)));
    assert_eq!(entries[1], (YamlInput::String("a".to_owned()), YamlInput::Integer(3)));
}

#[test]
fn test_event_api_builds_documents() {
    let events = vec![
        Event::DocumentStart,
        Event::MappingStart(None),
        Event::Scalar("a".to_owned(), false, None, None),
        Event::Scalar("1".to_owned(), true, None, None),
        Event::MappingEnd,
        Event::DocumentEnd,
    ];
    let docs = YamlLoader::load_from_events(events).unwrap();
    assert_eq!(docs.len(), 1);
    assert_eq!(docs[0].index_str("a").as_i64().unwrap(), 1);
}

#[test]
fn test_event_api_depth_ceiling() {
    let mut events = vec![Event::DocumentStart];
    for _ in 0..(MAX_NESTING_DEPTH + 1) {
        events.push(Event::SequenceStart(None));
    }
    assert_eq!(YamlLoader::load_from_events(events), Err(BuildFault::TooDeep));
}

#[test]
fn test_event_api_protocol_fault() {
    // a close without an open breaks the event protocol
    let events = vec![Event::DocumentStart, Event::SequenceEnd];
    assert_eq!(YamlLoader::load_from_events(events), Err(BuildFault::Protocol));
}

#[test]
fn test_anchor_redefinition() {
    // the newest definition wins at evaluation time
    let s = "
a1: &D 1
a2: *D
a3: &D 2
a4: *D
";
    let docs = YamlLoader::load_from_str(s).unwrap();
    let doc = &docs[0];
    assert_eq!(doc.index_str("a2").as_i64().unwrap(), 1);
    assert_eq!(doc.index_str("a4").as_i64().unwrap(), 2);
}

#[test]
fn test_anchor_persists_across_documents() {
    let s = "a: &D 7\n---\nb: *D\n";
    let docs = YamlLoader::load_from_str(s).unwrap();
    assert_eq!(docs[1].index_str("b").as_i64().unwrap(), 7);
}

#[test]
fn test_iteration_of_non_array() {
    let mut it = YamlInput::Integer(5).into_iter();
    assert!(it.next().is_none());
    let mut it2 = YamlInput::BadValue.into_iter();
    assert!(it2.next().is_none());
}

#[test]
fn test_predicates_unwrap_wrappers() {
    // predicates answer as the wrapped child
    let docs = YamlLoader::load_from_str("a: &N ~\nb: *N\n").unwrap();
    let doc = &docs[0];
    assert!(doc.index_str("a").is_null());
    assert!(doc.index_str("b").is_null());
    let arr = YamlInput::Anchored("n".to_owned(), Box::new(YamlInput::Array(Vec::new())));
    assert!(arr.is_array());
    let bad = YamlInput::Anchored("n".to_owned(), Box::new(YamlInput::BadValue));
    assert!(bad.is_badvalue());
    // an unresolved alias answers false for every predicate
    let unresolved = YamlInput::Aliased("x".to_owned(), None);
    assert!(!unresolved.is_null());
    assert!(!unresolved.is_badvalue());
    assert!(!unresolved.is_array());
}

#[test]
fn test_insert_new_node_records_anchor() {
    // a node handed to the Insert step with an anchor name is bound
    // in the anchor table, so a later alias resolves to it
    let mut loader = YamlLoader::new();
    loader.on_event(Event::DocumentStart).unwrap();
    loader.on_event(Event::MappingStart(None)).unwrap();
    loader.on_event(Event::Scalar("k".to_owned(), true, None, None)).unwrap();
    loader.insert_new_node((YamlInput::Integer(7), Some("d".to_owned()))).unwrap();
    loader.on_event(Event::Scalar("k2".to_owned(), true, None, None)).unwrap();
    loader.on_event(Event::Alias("d".to_owned())).unwrap();
    loader.on_event(Event::MappingEnd).unwrap();
    loader.on_event(Event::DocumentEnd).unwrap();
    let docs = loader.take_docs();
    assert_eq!(docs[0].index_str("k2").as_i64().unwrap(), 7);
}
