use quill_core::json::{
    array_of_texts, compact_json, object_of_texts, parse_json, print_json, quill_json_compact, read_value, Json,
};

fn again(text: &str) -> Option<String> {
    parse_json(text).map(|json| print_json(&json))
}

#[test]
fn compaction_drops_blanks() {
    assert_eq!(compact_json(" { \"a\" : [ 1 , 2 ] } "), Some("{\"a\":[1,2]}".to_string()));
    assert_eq!(compact_json("{\"a\":"), None);
    assert_eq!(compact_json(""), None);
    assert_eq!(compact_json("1 2"), None);
}

#[test]
fn compaction_twice_is_compaction_once() {
    let once = compact_json("{ \"k\" : \"a\\u0001\\\"\\\\\" , \"n\" : -9223372036854775808 }").unwrap();
    assert_eq!(once, "{\"k\":\"a\\u0001\\\"\\\\\",\"n\":-9223372036854775808}");
    assert_eq!(compact_json(&once), Some(once.clone()));
}

#[test]
fn blanks_stay_inside_of_strings_alone() {
    assert_eq!(
        compact_json("[ \" a\\\" b\\\\\" ,\n\t{ \"k l\" :\r1 } ]"),
        Some("[\" a\\\" b\\\\\",{\"k l\":1}]".to_string())
    );
}

#[test]
fn documents_are_read_and_written() {
    for text in [
        "null",
        "true",
        "false",
        "0",
        "18446744073709551615",
        "-9223372036854775808",
        "1.5",
        "-2.25",
        "\"\"",
        "\"h\u{e9}\"",
        "[]",
        "{}",
        "[1,[2,{\"a\":null}]]",
        "{\"a\":1,\"b\":{\"c\":[\"d\"]}}",
    ] {
        assert_eq!(again(text), Some(text.to_string()));
    }
}

#[test]
fn scalars_are_told_apart() {
    assert!(parse_json("null").unwrap().is_null());
    assert!(!parse_json("0").unwrap().is_null());
    assert!(parse_json("0").unwrap().is_number());
    assert!(parse_json("1.5").unwrap().is_number());
    assert!(!parse_json("\"1\"").unwrap().is_number());
    assert!(parse_json("false").unwrap().is_boolean());
    assert!(!parse_json("null").unwrap().is_boolean());
    assert_eq!(parse_json("\"x\"").unwrap().as_str(), Some("x"));
    assert_eq!(parse_json("1").unwrap().as_str(), None);
}

#[test]
fn integers_are_read_in_their_range() {
    let big = parse_json("18446744073709551615").unwrap();
    assert_eq!(big.as_u64(), Some(u64::MAX));
    assert_eq!(big.as_i64(), None);
    let low = parse_json("-9223372036854775808").unwrap();
    assert_eq!(low.as_i64(), Some(i64::MIN));
    assert_eq!(low.as_u64(), None);
    assert_eq!(parse_json("2.0").unwrap().as_i64(), None);
    assert_eq!(Json::Integer(7).as_u64(), Some(7));
    assert_eq!(Json::Integer(-7).as_u64(), None);
    assert_eq!(print_json(&Json::Integer(7)), "7");
    assert_eq!(print_json(&Json::Natural(u64::MAX)), "18446744073709551615");
}

#[test]
fn numbers_count_as_floats() {
    assert_eq!(parse_json("3").unwrap().float_bits(), Some((3.0f64).to_bits()));
    assert_eq!(parse_json("-3").unwrap().float_bits(), Some((-3.0f64).to_bits()));
    assert_eq!(parse_json("2.5").unwrap().float_bits(), Some((2.5f64).to_bits()));
    assert_eq!(parse_json("\"3\"").unwrap().float_bits(), None);
    match parse_json("2.5").unwrap() {
        Json::Real(real) => assert_eq!(real.bits(), (2.5f64).to_bits()),
        _ => panic!("2.5 is no integer"),
    }
}

#[test]
fn a_number_that_underflows_is_kept() {
    let tiny = parse_json("-1e-400").unwrap();
    assert_eq!(tiny.duplicate().float_bits(), tiny.float_bits());
    assert_eq!(print_json(&tiny.duplicate()), print_json(&tiny));
}

#[test]
fn numbers_are_read_back_as_they_were() {
    for text in [
        "0.1",
        "1e16",
        "5e-324",
        "2.2250738585072014e-308",
        "1.7976931348623157e308",
        "-123456789.125",
        "9007199254740993.0",
        "0.30000000000000004",
        "1e-7",
    ] {
        let json = parse_json(text).unwrap();
        let again = parse_json(&print_json(&json)).unwrap();
        assert_eq!(again.float_bits(), json.float_bits());
        assert_eq!(json.float_bits(), text.parse::<f64>().ok().map(|x| x.to_bits()));
    }
}

#[test]
fn a_repeated_name_is_found_first() {
    let json = parse_json("{\"a\":1,\"b\":2,\"a\":3}").unwrap();
    assert_eq!(json.get("a").and_then(|v| v.as_i64()), Some(1));
    assert_eq!(json.get("b").and_then(|v| v.as_i64()), Some(2));
    assert!(json.get("c").is_none());
    assert!(parse_json("[1]").unwrap().get("a").is_none());
}

#[test]
fn a_duplicate_is_the_same_document() {
    let text = "{\"a\":[1,-1,1.5,\"x\",true,null],\"b\":{}}";
    let json = parse_json(text).unwrap();
    assert_eq!(print_json(&json.duplicate()), text);
}

#[test]
fn texts_become_documents() {
    let texts = vec!["a".to_string(), "\"".to_string()];
    assert_eq!(print_json(&array_of_texts(&texts)), "[\"a\",\"\\\"\"]");
    let pairs = vec![("k".to_string(), "v".to_string()), ("k".to_string(), "w".to_string())];
    assert_eq!(print_json(&object_of_texts(&pairs)), "{\"k\":\"v\",\"k\":\"w\"}");
}

#[test]
fn compaction_fills_a_buffer() {
    let mut out = [7u8; 8];
    assert_eq!(quill_json_compact(Some(b"[ 1, 2 ]"), &mut out), 5);
    assert_eq!(&out, b"[1,2]\0\x07\x07");
    let mut short = [7u8; 3];
    assert_eq!(quill_json_compact(Some(b"[ 1, 2 ]"), &mut short), 2);
    assert_eq!(&short, b"[1\0");
    let mut untouched = [7u8; 3];
    assert_eq!(quill_json_compact(None, &mut untouched), 0);
    assert_eq!(quill_json_compact(Some(b"{"), &mut untouched), 0);
    assert_eq!(quill_json_compact(Some(&[0xff]), &mut untouched), 0);
    assert_eq!(untouched, [7u8; 3]);
    let mut none: [u8; 0] = [];
    assert_eq!(quill_json_compact(Some(b"1"), &mut none), 0);
}

#[test]
fn a_value_that_keeps_raw_text_is_read_for_what_it_stands_for() {
    let raw: sonic_rs::Value =
        sonic_rs::Deserializer::from_str("[1.50,7]").use_rawnumber().deserialize().unwrap();
    assert_eq!(sonic_rs::to_string(&raw).unwrap(), "[1.50,7]");
    let json = read_value(&raw);
    assert_eq!(print_json(&json), "[1.5,7]");
    assert_eq!(again(&print_json(&json)), Some("[1.5,7]".to_string()));
}
