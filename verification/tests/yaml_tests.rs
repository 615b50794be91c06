use yaml_tree::builder::YamlLoader;
use yaml_tree::value::YamlInput;

/// Core-schema float reading used by the tests: the dotted special
/// spellings, then the standard parser.
fn parse_f64_text(v: &str) -> Option<f64> {
    match v {
        ".inf" | ".Inf" | ".INF" | "+.inf" | "+.Inf" | "+.INF" => Some(f64::INFINITY),
        "-.inf" | "-.Inf" | "-.INF" => Some(f64::NEG_INFINITY),
        ".nan" | "NaN" | ".NAN" => Some(f64::NAN),
        _ => v.parse::<f64>().ok(),
    }
}

fn as_f64(y: &YamlInput) -> Option<f64> {
    y.as_real_str().and_then(parse_f64_text)
}

fn into_f64(y: YamlInput) -> Option<f64> {
    as_f64(&y)
}

#[test]
fn test_coerce() {
    let s = "---
a: 1
b: 2.2
c: [1, 2]
";
    let out = YamlLoader::load_from_str(&s).unwrap();
    let doc = &out[0];
    assert_eq!(doc.index_str("a").as_i64().unwrap(), 1i64);
    assert_eq!(as_f64(&doc.index_str("b")).unwrap(), 2.2f64);
    assert_eq!(doc.index_str("c").index_at(1).as_i64().unwrap(), 2i64);
    assert!(doc.index_str("d").index_at(0).is_badvalue());
}

#[test]
fn test_empty_doc() {
    let s: String = "".to_owned();
    YamlLoader::load_from_str(&s).unwrap();
    let s: String = "---".to_owned();
    assert_eq!(YamlLoader::load_from_str(&s).unwrap()[0], YamlInput::Null);
}

#[test]
fn test_parser() {
    let s: String = "
# comment
a0 bb: val
a1:
    b1: 4
    b2: d
a2: 4 # i'm comment
a3: [1, 2, 3]
a4:
    - - a1
      - a2
    - 2
a5: 'single_quoted'
a6: \"double_quoted\"
a7: 你好
"
    .to_owned();
    let out = YamlLoader::load_from_str(&s).unwrap();
    let doc = &out[0];
    assert_eq!(doc.index_str("a7").as_str().unwrap(), "你好");
}

#[test]
fn test_multi_doc() {
    let s = "
'a scalar'
---
'a scalar'
---
'a scalar'
";
    let out = YamlLoader::load_from_str(&s).unwrap();
    assert_eq!(out.len(), 3);
}

#[test]
fn test_anchor() {
    let s = "
a1: &DEFAULT
    b1: 4
    b2: d
a2: *DEFAULT
";
    let out = YamlLoader::load_from_str(&s).unwrap();
    let doc = &out[0];
    assert_eq!(doc.index_str("a2").index_str("b1").as_i64().unwrap(), 4);
}

#[test]
fn test_bad_anchor() {
    // an alias used before its anchor closes stays unresolved
    let s = "
a1: &DEFAULT
    b1: 4
    b2: *DEFAULT
";
    let out = YamlLoader::load_from_str(&s).unwrap();
    let doc = &out[0];
    assert_eq!(
        doc.index_str("a1").index_str("b2"),
        YamlInput::Aliased("DEFAULT".to_string(), None)
    );
}

#[test]
fn test_github_27() {
    let s = "&a";
    let out = YamlLoader::load_from_str(&s).unwrap();
    let doc = &out[0];
    assert_eq!(doc.as_str().unwrap(), "");
}

#[test]
fn test_plain_datatype() {
    let s = "
- 'string'
- \"string\"
- string
- 123
- -321
- 1.23
- -1e4
- ~
- null
- true
- false
- !!str 0
- !!int 100
- !!float 2
- !!null ~
- !!bool true
- !!bool false
- 0xFF
# bad values
- !!int string
- !!float string
- !!bool null
- !!null val
- 0o77
- [ 0xF, 0xF ]
- +12345
- [ true, false ]
";
    let out = YamlLoader::load_from_str(&s).unwrap();
    let doc = &out[0];

    assert_eq!(doc.index_at(0).as_str().unwrap(), "string");
    assert_eq!(doc.index_at(1).as_str().unwrap(), "string");
    assert_eq!(doc.index_at(2).as_str().unwrap(), "string");
    assert_eq!(doc.index_at(3).as_i64().unwrap(), 123);
    assert_eq!(doc.index_at(4).as_i64().unwrap(), -321);
    assert_eq!(as_f64(&doc.index_at(5)).unwrap(), 1.23);
    assert_eq!(as_f64(&doc.index_at(6)).unwrap(), -1e4);
    assert!(doc.index_at(7).is_null());
    assert!(doc.index_at(8).is_null());
    assert_eq!(doc.index_at(9).as_bool().unwrap(), true);
    assert_eq!(doc.index_at(10).as_bool().unwrap(), false);
    assert_eq!(doc.index_at(11).as_str().unwrap(), "0");
    assert_eq!(doc.index_at(12).as_i64().unwrap(), 100);
    assert_eq!(as_f64(&doc.index_at(13)).unwrap(), 2.0);
    assert!(doc.index_at(14).is_null());
    assert_eq!(doc.index_at(15).as_bool().unwrap(), true);
    assert_eq!(doc.index_at(16).as_bool().unwrap(), false);
    assert_eq!(doc.index_at(17).as_i64().unwrap(), 255);
    assert!(doc.index_at(18).is_badvalue());
    assert!(doc.index_at(19).is_badvalue());
    assert!(doc.index_at(20).is_badvalue());
    assert!(doc.index_at(21).is_badvalue());
    assert_eq!(doc.index_at(22).as_i64().unwrap(), 63);
    assert_eq!(doc.index_at(23).index_at(0).as_i64().unwrap(), 15);
    assert_eq!(doc.index_at(23).index_at(1).as_i64().unwrap(), 15);
    assert_eq!(doc.index_at(24).as_i64().unwrap(), 12345);
    assert!(doc.index_at(25).index_at(0).as_bool().unwrap());
    assert!(!doc.index_at(25).index_at(1).as_bool().unwrap());
}

#[test]
fn test_bad_hyphen() {
    let s = "{-";
    assert!(YamlLoader::load_from_str(&s).is_err());
}

#[test]
fn test_issue_65() {
    let b = "\n\"ll\\\"ll\\\r\n\"ll\\\"ll\\\r\r\r\rU\r\r\rU";
    assert!(YamlLoader::load_from_str(&b).is_err());
}

#[test]
fn test_bad_docstart() {
    assert!(YamlLoader::load_from_str("---This used to cause an infinite loop").is_ok());
    assert_eq!(
        YamlLoader::load_from_str("----").unwrap(),
        vec![YamlInput::String(String::from("----"))]
    );
    assert_eq!(
        YamlLoader::load_from_str("--- #here goes a comment").unwrap(),
        vec![YamlInput::Null]
    );
    assert_eq!(
        YamlLoader::load_from_str("---- #here goes a comment").unwrap(),
        vec![YamlInput::String(String::from("----"))]
    );
}

#[test]
fn test_plain_datatype_with_into_methods() {
    let s = "
- 'string'
- \"string\"
- string
- 123
- -321
- 1.23
- -1e4
- true
- false
- !!str 0
- !!int 100
- !!float 2
- !!bool true
- !!bool false
- 0xFF
- 0o77
- +12345
- -.INF
- .NAN
- !!float .INF
";
    let mut out = YamlLoader::load_from_str(&s).unwrap().into_iter();
    let mut doc = out.next().unwrap().into_iter();

    assert_eq!(doc.next().unwrap().into_string().unwrap(), "string");
    assert_eq!(doc.next().unwrap().into_string().unwrap(), "string");
    assert_eq!(doc.next().unwrap().into_string().unwrap(), "string");
    assert_eq!(doc.next().unwrap().into_i64().unwrap(), 123);
    assert_eq!(doc.next().unwrap().into_i64().unwrap(), -321);
    assert_eq!(into_f64(doc.next().unwrap()).unwrap(), 1.23);
    assert_eq!(into_f64(doc.next().unwrap()).unwrap(), -1e4);
    assert_eq!(doc.next().unwrap().into_bool().unwrap(), true);
    assert_eq!(doc.next().unwrap().into_bool().unwrap(), false);
    assert_eq!(doc.next().unwrap().into_string().unwrap(), "0");
    assert_eq!(doc.next().unwrap().into_i64().unwrap(), 100);
    assert_eq!(into_f64(doc.next().unwrap()).unwrap(), 2.0);
    assert_eq!(doc.next().unwrap().into_bool().unwrap(), true);
    assert_eq!(doc.next().unwrap().into_bool().unwrap(), false);
    assert_eq!(doc.next().unwrap().into_i64().unwrap(), 255);
    assert_eq!(doc.next().unwrap().into_i64().unwrap(), 63);
    assert_eq!(doc.next().unwrap().into_i64().unwrap(), 12345);
    assert_eq!(into_f64(doc.next().unwrap()).unwrap(), f64::NEG_INFINITY);
    assert!(into_f64(doc.next().unwrap()).is_some());
    assert_eq!(into_f64(doc.next().unwrap()).unwrap(), f64::INFINITY);
}

#[test]
fn test_hash_order() {
    let s = "---
b: ~
a: ~
c: ~
";
    let out = YamlLoader::load_from_str(&s).unwrap();
    let first = out.into_iter().next().unwrap();
    let mut iter = first.into_hash().unwrap().into_iter();
    assert_eq!(
        Some((YamlInput::String("b".to_owned()), YamlInput::Null)),
        iter.next()
    );
    assert_eq!(
        Some((YamlInput::String("a".to_owned()), YamlInput::Null)),
        iter.next()
    );
    assert_eq!(
        Some((YamlInput::String("c".to_owned()), YamlInput::Null)),
        iter.next()
    );
    assert_eq!(None, iter.next());
}

#[test]
fn test_integer_key() {
    let s = "
0:
    important: true
1:
    important: false
";
    let out = YamlLoader::load_from_str(&s).unwrap();
    let first = out.into_iter().next().unwrap();
    assert_eq!(first.index_at(0).index_str("important").as_bool().unwrap(), true);
}

#[test]
fn test_indentation_equality() {
    let four_spaces = YamlLoader::load_from_str(
        r#"
hash:
    with:
        indentations
"#,
    )
    .unwrap()
    .into_iter()
    .next()
    .unwrap();

    let two_spaces = YamlLoader::load_from_str(
        r#"
hash:
  with:
    indentations
"#,
    )
    .unwrap()
    .into_iter()
    .next()
    .unwrap();

    let one_space = YamlLoader::load_from_str(
        r#"
hash:
 with:
  indentations
"#,
    )
    .unwrap()
    .into_iter()
    .next()
    .unwrap();

    let mixed_spaces = YamlLoader::load_from_str(
        r#"
hash:
     with:
               indentations
"#,
    )
    .unwrap()
    .into_iter()
    .next()
    .unwrap();

    assert_eq!(four_spaces, two_spaces);
    assert_eq!(two_spaces, one_space);
    assert_eq!(four_spaces, mixed_spaces);
}

#[test]
fn test_two_space_indentations() {
    let s = r#"
subcommands:
  - server:
    about: server related commands
subcommands2:
  - server:
      about: server related commands
subcommands3:
 - server:
    about: server related commands
            "#;

    let out = YamlLoader::load_from_str(&s).unwrap();
    let doc = &out.into_iter().next().unwrap();

    println!("{:#?}", doc);
    assert_eq!(doc.index_str("subcommands").index_at(0).index_str("server"), YamlInput::Null);
    assert!(doc.index_str("subcommands2").index_at(0).index_str("server").as_hash().is_some());
    assert!(doc.index_str("subcommands3").index_at(0).index_str("server").as_hash().is_some());
}

#[test]
fn test_recursion_depth_check_objects() {
    let s = "{a:".repeat(10_000) + &"}".repeat(10_000);
    assert!(YamlLoader::load_from_str(&s).is_err());
}

#[test]
fn test_recursion_depth_check_arrays() {
    let s = "[".repeat(10_000) + &"]".repeat(10_000);
    assert!(YamlLoader::load_from_str(&s).is_err());
}
