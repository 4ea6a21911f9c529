use jsonschema_core::multiple_of::compile;
use jsonschema_core::text::number_to_text;
use jsonschema_core::{JsonValue, Number, PathSegment, Schema};

fn text(negative: bool, digits: u64, scale: u8) -> String {
    number_to_text(&Number::new(negative, digits, -(scale as i16)))
}

#[test]
fn numbers_render_as_decimals() {
    assert_eq!(text(false, 0, 0), "0");
    assert_eq!(text(false, 35, 1), "3.5");
    assert_eq!(text(true, 35, 1), "-3.5");
    assert_eq!(text(false, 5, 3), "0.005");
    assert_eq!(text(false, 1200, 2), "12.00");
    assert_eq!(text(true, 0, 2), "0.00");
    assert_eq!(text(false, u64::MAX, 0), "18446744073709551615");
    assert_eq!(text(false, 7, 22), "0.0000000000000000000007");
    assert_eq!(number_to_text(&Number::from_i64(i64::MIN)), "-9223372036854775808");
    assert_eq!(number_to_text(&Number::new(false, 12, 3)), "12000");
    assert_eq!(number_to_text(&Number::new(true, 0, 5)), "0");
    assert_eq!(number_to_text(&Number::new(false, 5, -324)).len(), 326);
}

#[test]
fn validators_describe_their_divisor() {
    let v = compile(&JsonValue::Number(Number::new(false, 35, -1))).unwrap();
    assert_eq!(v.to_string(), "multipleOf: 3.5");
    let w = compile(&JsonValue::Number(Number::from_i64(-4))).unwrap();
    assert_eq!(w.to_string(), "multipleOf: -4");
}

#[test]
fn errors_render_message_and_path() {
    let schema = Schema::compile(&JsonValue::Object(vec![(
        "items".to_string(),
        JsonValue::Object(vec![("multipleOf".to_string(), JsonValue::Number(Number::from_i64(2)))]),
    )]))
    .unwrap();
    let root = vec![PathSegment::Key("items".to_string())];
    let instance = JsonValue::Array(vec![
        JsonValue::Number(Number::from_i64(1)),
        JsonValue::Number(Number::from_i64(4)),
    ]);
    let errors = schema.validate(&instance, &root);
    assert_eq!(errors.len(), 1);
    assert_eq!(errors[0].path_to_string(), "/items/0");
    assert_eq!(errors[0].to_string(), "1 is not a multiple of 2 at '/items/0'");
    let no = Schema::compile(&JsonValue::Bool(false)).unwrap();
    let e = no.validate(&JsonValue::Null, &vec![]);
    assert_eq!(e[0].to_string(), "False schema does not allow the value at ''");
}

#[test]
fn schemas_describe_their_tree() {
    let n = |d: u64, e: i16| JsonValue::Number(Number::new(false, d, e));
    let doc = JsonValue::Object(vec![
        ("multipleOf".to_string(), n(2, 0)),
        ("items".to_string(), JsonValue::Object(vec![("multipleOf".to_string(), n(5, -1))])),
        ("allOf".to_string(), JsonValue::Array(vec![JsonValue::Bool(true), JsonValue::Bool(false)])),
        ("properties".to_string(), JsonValue::Object(vec![("a".to_string(), JsonValue::Object(vec![]))])),
        ("title".to_string(), JsonValue::String("x".to_string())),
    ]);
    let schema = Schema::compile(&doc).unwrap();
    assert_eq!(
        schema.to_string(),
        "{multipleOf: 2, items: {multipleOf: 0.5}, allOf: [true, false], properties: {a: {}}, (ignored)}"
    );
    assert_eq!(Schema::compile(&JsonValue::Bool(false)).unwrap().to_string(), "false");
}
