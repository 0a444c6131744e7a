use jamal::{to_json, to_yaml};
use jamal::float_literal::float_literal;
use jamal::value::copy_yaml;
use jamal::{Error, JsonValue, YamlValue};

fn ys(s: &str) -> YamlValue {
    YamlValue::String(s.to_owned())
}

fn js(s: &str) -> JsonValue {
    JsonValue::String(s.to_owned())
}

#[test]
fn json_str_vec_to_yaml() {
    let input = JsonValue::Array(vec![js("foo")]);
    let output = YamlValue::Array(vec![ys("foo")]);
    assert_eq!(to_yaml(&input).unwrap(), output);
}

#[test]
fn yaml_str_vec_to_json() {
    let input = YamlValue::Array(vec![ys("foo")]);
    let output = JsonValue::Array(vec![js("foo")]);
    assert_eq!(to_json(&input).unwrap(), output);
}

#[test]
fn json_obj_to_yaml() {
    let input = JsonValue::Object(vec![("foo".to_owned(), JsonValue::U64(1))]);
    let output = YamlValue::Hash(vec![(ys("foo"), YamlValue::Integer(1))]);
    assert_eq!(to_yaml(&input).unwrap(), output);
}

#[test]
fn yaml_obj_to_json() {
    let input = YamlValue::Hash(vec![(ys("foo"), YamlValue::Integer(1))]);
    let output = JsonValue::Object(vec![("foo".to_owned(), JsonValue::I64(1))]);
    assert_eq!(to_json(&input).unwrap(), output);
}

#[test]
fn json_bool_to_yaml() {
    let input = JsonValue::Bool(true);
    let output = YamlValue::Boolean(true);
    assert_eq!(to_yaml(&input).unwrap(), output);
}

#[test]
fn yaml_bool_to_json() {
    let input = YamlValue::Boolean(true);
    let output = JsonValue::Bool(true);
    assert_eq!(to_json(&input).unwrap(), output);
}

#[test]
fn json_null_to_yaml() {
    let input = JsonValue::Null;
    let output = YamlValue::Null;
    assert_eq!(to_yaml(&input).unwrap(), output);
}

#[test]
fn yaml_null_to_json() {
    let input = YamlValue::Null;
    let output = JsonValue::Null;
    assert_eq!(to_json(&input).unwrap(), output);
}

#[test]
fn yaml_integer_key_is_rejected() {
    let input = YamlValue::Hash(vec![(YamlValue::Integer(1), ys("x"))]);
    assert_eq!(to_json(&input), Err(Error::UnsupportedValue(YamlValue::Integer(1))));
}

#[test]
fn yaml_later_integer_key_is_rejected() {
    let input = YamlValue::Hash(vec![
        (ys("a"), YamlValue::Integer(2)),
        (YamlValue::Boolean(false), ys("x")),
        (ys("b"), YamlValue::Integer(3)),
    ]);
    assert_eq!(to_json(&input), Err(Error::UnsupportedValue(YamlValue::Boolean(false))));
}

#[test]
fn yaml_float_text_to_json() {
    let input = YamlValue::Real("3.14".to_owned());
    assert_eq!(to_json(&input), Ok(JsonValue::F64("3.14".to_owned())));
}

#[test]
fn yaml_bad_float_text_fails() {
    let input = YamlValue::Real("not-a-number".to_owned());
    assert_eq!(to_json(&input), Err(Error::ParseFloat("not-a-number".to_owned())));
}

#[test]
fn yaml_alias_is_rejected() {
    let input = YamlValue::Alias(7);
    assert_eq!(to_json(&input), Err(Error::UnsupportedValue(YamlValue::Alias(7))));
}

#[test]
fn yaml_alias_in_sequence_is_rejected() {
    let input = YamlValue::Array(vec![YamlValue::Null, YamlValue::Alias(0)]);
    assert_eq!(to_json(&input), Err(Error::UnsupportedValue(YamlValue::Alias(0))));
}

#[test]
fn yaml_bad_value_is_invalid() {
    assert_eq!(to_json(&YamlValue::BadValue), Err(Error::InvalidValue));
    let nested = YamlValue::Hash(vec![(ys("k"), YamlValue::BadValue)]);
    assert_eq!(to_json(&nested), Err(Error::InvalidValue));
}

#[test]
fn first_fault_in_walk_order_wins() {
    let input = YamlValue::Array(vec![
        YamlValue::Real("1.5x".to_owned()),
        YamlValue::BadValue,
    ]);
    assert_eq!(to_json(&input), Err(Error::ParseFloat("1.5x".to_owned())));
    let input = YamlValue::Hash(vec![
        (ys("a"), YamlValue::Real("oops".to_owned())),
        (YamlValue::Null, YamlValue::Null),
    ]);
    assert_eq!(to_json(&input), Err(Error::ParseFloat("oops".to_owned())));
}

#[test]
fn unsigned_integers_keep_their_bits() {
    assert_eq!(to_yaml(&JsonValue::U64(5)).unwrap(), YamlValue::Integer(5));
    assert_eq!(
        to_yaml(&JsonValue::U64(9_223_372_036_854_775_807)).unwrap(),
        YamlValue::Integer(i64::MAX)
    );
    assert_eq!(
        to_yaml(&JsonValue::U64(9_223_372_036_854_775_808)).unwrap(),
        YamlValue::Integer(i64::MIN)
    );
    assert_eq!(to_yaml(&JsonValue::U64(u64::MAX)).unwrap(), YamlValue::Integer(-1));
}

#[test]
fn scalars_round_trip() {
    let cases = vec![
        JsonValue::Null,
        JsonValue::Bool(true),
        JsonValue::Bool(false),
        JsonValue::I64(0),
        JsonValue::I64(-1),
        JsonValue::I64(i64::MIN),
        JsonValue::I64(i64::MAX),
    ];
    for x in cases {
        let y = to_yaml(&x).unwrap();
        assert_eq!(to_json(&y).unwrap(), x);
    }
}

#[test]
fn float_text_round_trips() {
    for t in ["3.14", "-0", "1e300", "NaN", "inf", "-inf", "0.1"] {
        let x = JsonValue::F64(t.to_owned());
        let y = to_yaml(&x).unwrap();
        assert_eq!(y, YamlValue::Real(t.to_owned()));
        assert_eq!(to_json(&y).unwrap(), x);
    }
    let f: f64 = 0.1 + 0.2;
    let x = JsonValue::F64(f.to_string());
    let back = to_json(&to_yaml(&x).unwrap()).unwrap();
    match back {
        JsonValue::F64(t) => assert_eq!(t.parse::<f64>().unwrap().to_bits(), f.to_bits()),
        other => panic!("unexpected {:?}", other),
    }
}

#[test]
fn sequences_convert_item_by_item() {
    let a = JsonValue::I64(4);
    let b = JsonValue::Object(vec![("k".to_owned(), JsonValue::Bool(false))]);
    let whole = to_yaml(&JsonValue::Array(vec![
        JsonValue::I64(4),
        JsonValue::Object(vec![("k".to_owned(), JsonValue::Bool(false))]),
    ]))
    .unwrap();
    assert_eq!(
        whole,
        YamlValue::Array(vec![to_yaml(&a).unwrap(), to_yaml(&b).unwrap()])
    );
    let ya = ys("s");
    let yb = YamlValue::Array(vec![YamlValue::Integer(-3)]);
    let whole = to_json(&YamlValue::Array(vec![copy_yaml(&ya), copy_yaml(&yb)])).unwrap();
    assert_eq!(
        whole,
        JsonValue::Array(vec![to_json(&ya).unwrap(), to_json(&yb).unwrap()])
    );
}

#[test]
fn empty_collections_convert() {
    assert_eq!(to_yaml(&JsonValue::Array(vec![])).unwrap(), YamlValue::Array(vec![]));
    assert_eq!(to_yaml(&JsonValue::Object(vec![])).unwrap(), YamlValue::Hash(vec![]));
    assert_eq!(to_json(&YamlValue::Array(vec![])).unwrap(), JsonValue::Array(vec![]));
    assert_eq!(to_json(&YamlValue::Hash(vec![])).unwrap(), JsonValue::Object(vec![]));
}

#[test]
fn mapping_order_is_kept() {
    let input = YamlValue::Hash(vec![
        (ys("z"), YamlValue::Integer(1)),
        (ys("a"), YamlValue::Real("2.5".to_owned())),
    ]);
    let output = JsonValue::Object(vec![
        ("z".to_owned(), JsonValue::I64(1)),
        ("a".to_owned(), JsonValue::F64("2.5".to_owned())),
    ]);
    assert_eq!(to_json(&input).unwrap(), output);
}

#[test]
fn float_literal_grammar() {
    for t in [
        "0", "1.", ".5", "3.14", "+2", "-7.25e-3", "1E10", "1e+5", "inf", "-Infinity", "NaN",
        "+nan", "INF", "007",
    ] {
        assert!(float_literal(t), "{} should be accepted", t);
    }
    for t in [
        "", ".", "+", "-", "e5", "1e", "1e+", " 1", "1 ", "1.2.3", "infin", "nanx", "0x10",
        "1_000", "not-a-number", "１",
    ] {
        assert!(!float_literal(t), "{} should be rejected", t);
    }
}

#[test]
fn float_literal_agrees_with_std() {
    for t in ["1.", ".5", "-0.0", "1e-7", "Inf", "-nan", "12e", "..", "+-1", "1e+-2"] {
        assert_eq!(float_literal(t), t.parse::<f64>().is_ok(), "{}", t);
    }
}

#[test]
fn copy_is_equal() {
    let y = YamlValue::Hash(vec![(ys("a"), YamlValue::Array(vec![YamlValue::Alias(3)]))]);
    assert_eq!(copy_yaml(&y), y);
}

#[test]
fn error_descriptions() {
    assert_eq!(Error::ParseFloat("x".to_owned()).description(), "invalid float literal");
    assert_eq!(Error::ParseFloat(String::new()).description(), "cannot parse float from empty string");
    assert_eq!(Error::InvalidValue.description(), "invalid value");
    assert_eq!(Error::UnsupportedValue(YamlValue::Alias(1)).description(), "supported value");
}

#[test]
fn float_error_description_matches_std() {
    for t in ["", "x", "1e", "--1"] {
        let e = to_json(&YamlValue::Real(t.to_owned())).unwrap_err();
        assert_eq!(e.description(), t.parse::<f64>().unwrap_err().to_string());
    }
}

#[test]
fn nested_tree_round_trips() {
    let x = JsonValue::Object(vec![
        ("list".to_owned(), JsonValue::Array(vec![JsonValue::I64(-5), JsonValue::F64("2.5".to_owned())])),
        ("name".to_owned(), js("n")),
        ("none".to_owned(), JsonValue::Null),
    ]);
    let y = to_yaml(&x).unwrap();
    assert_eq!(
        y,
        YamlValue::Hash(vec![
            (ys("list"), YamlValue::Array(vec![YamlValue::Integer(-5), YamlValue::Real("2.5".to_owned())])),
            (ys("name"), ys("n")),
            (ys("none"), YamlValue::Null),
        ])
    );
    assert_eq!(to_json(&y).unwrap(), x);
}
