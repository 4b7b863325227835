use git_ai::json::Json;
use serde_json::Number;

#[test]
fn text_is_parsed_and_printed() {
    let json = Json::parse("{\"b\":[1,-2,null,true,0.5],\"a\":\"x\\ny\"}").unwrap();
    assert_eq!(json.get_str("a"), Some("x\ny"));
    assert_eq!(json.get("b").unwrap().as_array().unwrap().len(), 5);
    assert!(json.get("c").is_none());
    assert_eq!(
        json.pretty().unwrap(),
        "{\n  \"a\": \"x\\ny\",\n  \"b\": [\n    1,\n    -2,\n    null,\n    true,\n    0.5\n  ]\n}"
    );
}

#[test]
fn printed_text_is_read_back() {
    let mut json = Json::empty_object();
    json.insert("s", Json::string("\u{1}\"\\\u{2028}"));
    json.insert("n", Json::Number(Number::from(7)));
    json.insert("l", Json::Array(vec![Json::Null, Json::Bool(false)]));
    let text = json.pretty().unwrap();
    let back = Json::parse(&text).unwrap();
    assert_eq!(back.get_str("s"), Some("\u{1}\"\\\u{2028}"));
    assert_eq!(back.pretty().unwrap(), text);
    assert_eq!(back.clone().pretty().unwrap(), text);
}

#[test]
fn nesting_is_read_back_up_to_the_limit() {
    let nested = |depth: usize| format!("{}{}", "[".repeat(depth), "]".repeat(depth));
    assert!(Json::parse(&nested(127)).is_ok());
    assert!(Json::parse(&nested(128)).is_err());
}

#[test]
fn last_of_equal_keys_counts() {
    let mut json = Json::Object(vec![
        ("k".to_string(), Json::string("first")),
        ("k".to_string(), Json::string("last")),
    ]);
    assert_eq!(json.get_str("k"), Some("last"));
    assert_eq!(json.pretty().unwrap(), "{\n  \"k\": \"last\"\n}");
    json.insert("k", Json::Null);
    assert!(json.get_str("k").is_none());
    assert_eq!(json.pretty().unwrap(), "{\n  \"k\": null\n}");
    let parsed = Json::parse("{\"k\": 1, \"k\": \"two\"}").unwrap();
    assert_eq!(parsed.get_str("k"), Some("two"));
}

#[test]
fn only_objects_have_members() {
    let mut list = Json::Array(vec![]);
    list.insert("k", Json::Null);
    assert!(list.get("k").is_none());
    assert!(!list.is_object());
    assert!(Json::string("x").as_array().is_none());
    assert!(Json::Bool(true).as_str().is_none());
}

#[test]
fn errors_bring_the_message() {
    assert_eq!(
        Json::parse("nulx").unwrap_err(),
        "expected ident at line 1 column 4"
    );
}

#[test]
fn integers_are_read_back_as_they_were() {
    let numbers = [
        Number::from(0u64),
        Number::from(u64::MAX),
        Number::from(i64::MIN),
        Number::from(-1i64),
    ];
    for number in numbers {
        let json = Json::Number(number.clone());
        assert!(!json.is_float());
        match Json::parse(&json.pretty().unwrap()).unwrap() {
            Json::Number(found) => assert_eq!(found, number),
            _ => panic!("expected a number"),
        }
    }
    assert!(!Json::string("0.5").is_float());
}

#[test]
fn floats_are_read_back_as_numbers() {
    let mut floats = vec![0.5, -0.0, 1e16, f64::MIN_POSITIVE, 5e-324, 1.1640711209589715e258];
    for step in 0..2000u64 {
        floats.push(f64::from_bits(f64::MAX.to_bits() - step));
        floats.push(-f64::from_bits(f64::MAX.to_bits() - step));
    }
    for float in floats {
        let json = Json::Number(Number::from_f64(float).unwrap());
        assert!(json.is_float());
        let text = json.pretty().unwrap();
        let alone = match Json::parse(&text).unwrap() {
            Json::Number(found) => found,
            _ => panic!("expected a number"),
        };
        let list = Json::Array(vec![json, Json::Null]);
        match Json::parse(&list.pretty().unwrap()).unwrap() {
            Json::Array(items) => match &items[0] {
                Json::Number(found) => assert_eq!(*found, alone),
                _ => panic!("expected a number"),
            },
            _ => panic!("expected an array"),
        }
    }
}
