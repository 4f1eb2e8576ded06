//! Unit tests for the string utilities, numeric token handling, the
//! dict/list encoding, and the attribute-key registry.

use graphconv::errors::ConvError;
use graphconv::json::encode_dict;
use graphconv::json::json_decode;
use graphconv::json::json_escape;
use graphconv::json::json_unescape;
use graphconv::json::scalar_of_token;
use graphconv::numeric::digits_value;
use graphconv::numeric::int_token;
use graphconv::numeric::is_float;
use graphconv::numeric::json_num;
use graphconv::numeric::parse_u32_token;
use graphconv::numeric::u64_to_string;
use graphconv::registry::GraphmlAttributeTypes;
use graphconv::registry::GraphmlElems;
use graphconv::registry::KeyAttributes;
use graphconv::registry::KeyValues;
use graphconv::registry::get_or_add_key_id;
use graphconv::registry::infer_attr_type;
use graphconv::registry::make_key_id;
use graphconv::registry::update_element;
use graphconv::strutil::contains_sub;
use graphconv::strutil::split_kv;
use graphconv::strutil::str_eq;
use graphconv::strutil::trim_str;
use graphconv::value::DictVal;
use graphconv::value::JsonTree;
use graphconv::value::Scalar;

#[test]
fn trim_and_split() {
    assert_eq!(trim_str("  node [  "), "node [");
    assert_eq!(trim_str(""), "");
    assert_eq!(trim_str(" \t "), "");
    assert_eq!(split_kv("id 5"), Some(("id", "5")));
    assert_eq!(split_kv("label  \"a b\""), Some(("label", "\"a b\"")));
    assert_eq!(split_kv("lonely"), None);
    assert!(split_kv("trailing ").is_none());
    assert!(str_eq("abc", "abc"));
    assert!(!str_eq("abc", "abd"));
    assert!(contains_sub("  node [", "node ["));
    assert!(!contains_sub("monode", "node ["));
}

#[test]
fn u32_tokens() {
    assert_eq!(parse_u32_token("3"), Some(3));
    assert_eq!(parse_u32_token("+3"), Some(3));
    assert_eq!(parse_u32_token("4294967295"), Some(u32::MAX));
    assert_eq!(parse_u32_token("4294967296"), None);
    assert_eq!(parse_u32_token("-1"), None);
    assert_eq!(parse_u32_token(""), None);
    assert_eq!(parse_u32_token("12a"), None);
    assert_eq!(u64_to_string(0), "0");
    assert_eq!(u64_to_string(1234), "1234");
    assert_eq!(u64_to_string(18446744073709551615), "18446744073709551615");
}

#[test]
fn digit_filtered_ids() {
    assert_eq!(digits_value("n17"), Some(17));
    assert_eq!(digits_value("17"), Some(17));
    assert_eq!(digits_value("n1x7"), Some(17));
    assert_eq!(digits_value("abc"), None);
    assert_eq!(digits_value(""), None);
    assert_eq!(digits_value("n99999999999"), None);
}

#[test]
fn float_tokens() {
    assert!(is_float("3.14"));
    assert!(is_float("1"));
    assert!(is_float("-1.5e-3"));
    assert!(is_float("1e5"));
    assert!(is_float("1."));
    assert!(is_float(".5"));
    assert!(is_float("inf"));
    assert!(is_float("-Infinity"));
    assert!(is_float("NaN"));
    assert!(!is_float("hello"));
    assert!(!is_float("."));
    assert!(!is_float(""));
    assert!(!is_float("1e"));
    assert!(int_token("3"));
    assert!(int_token("-3"));
    assert!(int_token("+3"));
    assert!(!int_token("3.5"));
    assert!(!int_token(""));
}

#[test]
fn json_numbers() {
    assert!(json_num("1"));
    assert!(json_num("-2.5"));
    assert!(json_num("1e9"));
    assert!(json_num("1.25E-3"));
    assert!(!json_num("+1"));
    assert!(!json_num("1."));
    assert!(!json_num(".5"));
    assert!(!json_num("inf"));
}

#[test]
fn escape_round_trip() {
    assert_eq!(json_escape("plain"), "plain");
    assert_eq!(json_escape("a\"b\\c"), "a\\\"b\\\\c");
    assert_eq!(json_unescape("a\\\"b\\\\c"), Some("a\"b\\c".to_string()));
    assert_eq!(json_unescape("raw\"quote"), None);
    assert_eq!(json_unescape("bad\\n"), None);
}

#[test]
fn scalar_classification() {
    assert_eq!(scalar_of_token("3"), Scalar::Num("3".to_string()));
    assert_eq!(scalar_of_token("-2.5"), Scalar::Num("-2.5".to_string()));
    assert_eq!(scalar_of_token("\"hi\""), Scalar::Txt("hi".to_string()));
    assert_eq!(scalar_of_token("bare"), Scalar::Txt("bare".to_string()));
    assert_eq!(scalar_of_token("\"a\\\"b\""), Scalar::Txt("a\"b".to_string()));
}

#[test]
fn dict_encode_decode() {
    let d: Vec<(String, DictVal)> = vec![
        ("a".to_string(), DictVal::One(Scalar::Num("1".to_string()))),
        ("b".to_string(), DictVal::One(Scalar::Num("2".to_string()))),
    ];
    let enc = encode_dict(&d);
    assert_eq!(enc, "{\"a\":1,\"b\":2}");
    let back = json_decode(&enc);
    assert_eq!(back, Some(JsonTree::Obj(d)));
}

#[test]
fn dict_encode_decode_nested_list() {
    let d: Vec<(String, DictVal)> = vec![
        (
            "xs".to_string(),
            DictVal::Many(vec![
                Scalar::Num("1".to_string()),
                Scalar::Txt("two words".to_string()),
            ]),
        ),
        ("t".to_string(), DictVal::One(Scalar::Txt("q\"q".to_string()))),
    ];
    let enc = encode_dict(&d);
    assert_eq!(enc, "{\"xs\":[1,\"two words\"],\"t\":\"q\\\"q\"}");
    let back = json_decode(&enc);
    assert_eq!(back, Some(JsonTree::Obj(d)));
}

#[test]
fn decode_shapes() {
    assert_eq!(json_decode("{}"), Some(JsonTree::Obj(vec![])));
    assert_eq!(json_decode("[]"), Some(JsonTree::Arr(vec![])));
    assert_eq!(
        json_decode("[1,2]"),
        Some(JsonTree::Arr(vec![
            Scalar::Num("1".to_string()),
            Scalar::Num("2".to_string()),
        ]))
    );
    assert_eq!(
        json_decode("\"hi\""),
        Some(JsonTree::Prim(Scalar::Txt("hi".to_string())))
    );
    assert_eq!(json_decode("5"), Some(JsonTree::Prim(Scalar::Num("5".to_string()))));
    assert_eq!(json_decode("x"), None);
    assert_eq!(json_decode(""), None);
    assert_eq!(json_decode("{\"a\":1"), None);
    assert_eq!(json_decode("[1,2]extra"), None);
}

#[test]
fn type_inference() {
    assert_eq!(infer_attr_type("3"), GraphmlAttributeTypes::Int);
    assert_eq!(infer_attr_type("3.14"), GraphmlAttributeTypes::Float);
    assert_eq!(infer_attr_type("hello"), GraphmlAttributeTypes::Str);
    assert_eq!(infer_attr_type("\"3\""), GraphmlAttributeTypes::Str);
    assert_eq!(infer_attr_type("-1"), GraphmlAttributeTypes::Float);
    assert_eq!(infer_attr_type("4294967296"), GraphmlAttributeTypes::Float);
}

#[test]
fn registry_assigns_sequential_ids() {
    let mut keys: Vec<(KeyAttributes, KeyValues)> = Vec::new();
    let a0 = KeyAttributes { attr_name: "w".to_string(), for_elem: GraphmlElems::Node };
    let a1 = KeyAttributes { attr_name: "w".to_string(), for_elem: GraphmlElems::Edge };
    let id0 = get_or_add_key_id(&mut keys, &a0, "1");
    let id1 = get_or_add_key_id(&mut keys, &a1, "x");
    let id0_again = get_or_add_key_id(&mut keys, &a0, "ignored");
    assert_eq!(id0, "d0");
    assert_eq!(id1, "d1");
    assert_eq!(id0_again, "d0");
    assert_eq!(keys.len(), 2);
    assert_eq!(keys[0].1.attr_type, GraphmlAttributeTypes::Int);
    assert_eq!(keys[1].1.attr_type, GraphmlAttributeTypes::Str);
    assert_eq!(make_key_id(7), "d7");
}

#[test]
fn repeated_value_widens_to_string() {
    let mut keys: Vec<(KeyAttributes, KeyValues)> = Vec::new();
    let mut data: Vec<(String, Vec<String>)> = Vec::new();
    update_element(&mut data, &mut keys, "1", GraphmlElems::Node, "weight");
    assert_eq!(keys[0].1.attr_type, GraphmlAttributeTypes::Int);
    update_element(&mut data, &mut keys, "2", GraphmlElems::Node, "weight");
    assert_eq!(keys[0].1.attr_type, GraphmlAttributeTypes::Str);
    assert_eq!(data.len(), 1);
    assert_eq!(data[0].0, "d0");
    assert_eq!(data[0].1, vec!["1".to_string(), "2".to_string()]);
}

#[test]
fn error_positions() {
    let e = ConvError::Parse { pos: 7 };
    assert_eq!(e.position(), 7);
    let k = ConvError::KeyNotFound { pos: 3 };
    assert_eq!(k.position(), 3);
}

#[test]
fn decode_tolerates_whitespace() {
    let d: Vec<(String, DictVal)> = vec![
        ("a".to_string(), DictVal::One(Scalar::Num("1".to_string()))),
        ("b".to_string(), DictVal::One(Scalar::Num("2".to_string()))),
    ];
    assert_eq!(json_decode("{\"a\": 1, \"b\": 2}"), Some(JsonTree::Obj(d.clone())));
    assert_eq!(json_decode(" { \"a\" : 1 , \"b\" : 2 } "), Some(JsonTree::Obj(d)));
    assert_eq!(json_decode("{ }"), Some(JsonTree::Obj(vec![])));
    assert_eq!(json_decode("[ ]"), Some(JsonTree::Arr(vec![])));
    assert_eq!(
        json_decode(" [ 1 , 2 ] "),
        Some(JsonTree::Arr(vec![
            Scalar::Num("1".to_string()),
            Scalar::Num("2".to_string()),
        ]))
    );
    let with_list: Vec<(String, DictVal)> = vec![(
        "xs".to_string(),
        DictVal::Many(vec![Scalar::Num("1".to_string()), Scalar::Num("2".to_string())]),
    )];
    assert_eq!(json_decode("{\"xs\": [1, 2]}"), Some(JsonTree::Obj(with_list)));
    // whitespace inside a quoted string is content, not separation
    assert_eq!(
        json_decode("\" a b \""),
        Some(JsonTree::Prim(Scalar::Txt(" a b ".to_string())))
    );
}
