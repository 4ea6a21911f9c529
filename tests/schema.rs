use jsonschema_core::{
    CompilationError, ErrorKind, JsonValue, Number, PathSegment, Schema, ValidationError,
};

fn num(n: i64) -> JsonValue {
    JsonValue::Number(Number::from_i64(n))
}

fn obj(entries: Vec<(&str, JsonValue)>) -> JsonValue {
    JsonValue::Object(entries.into_iter().map(|(k, v)| (k.to_string(), v)).collect())
}

fn arr(items: Vec<JsonValue>) -> JsonValue {
    JsonValue::Array(items)
}

fn paths(errors: &[ValidationError]) -> Vec<Vec<PathSegment>> {
    errors.iter().map(|e| e.instance_path.clone()).collect()
}

#[test]
fn items_error_located_at_index() {
    let schema = Schema::compile(&obj(vec![("items", obj(vec![("multipleOf", num(2))]))])).unwrap();
    let instance = arr(vec![num(1), num(4)]);
    let errors = schema.validate(&instance, &vec![]);
    assert_eq!(errors.len(), 1);
    assert_eq!(errors[0].instance_path, vec![PathSegment::Index(0)]);
    assert_eq!(
        errors[0].kind,
        ErrorKind::MultipleOf { value: Number::from_i64(1), multiple_of: Number::from_i64(2) }
    );
    assert!(!schema.is_valid(&instance));
}

#[test]
fn errors_follow_declaration_order_and_carry_paths() {
    let schema = Schema::compile(&obj(vec![
        ("items", obj(vec![("multipleOf", num(2)), ("multipleOf", num(3))])),
        ("title", JsonValue::String("t".to_string())),
    ]))
    .unwrap();
    let root = vec![PathSegment::Key("data".to_string())];
    let errors = schema.validate(&arr(vec![num(6), num(3), num(4)]), &root);
    let two = Number::from_i64(2);
    let three = Number::from_i64(3);
    let kinds: Vec<ErrorKind> = errors.iter().map(|e| e.kind).collect();
    assert_eq!(
        kinds,
        vec![
            ErrorKind::MultipleOf { value: three, multiple_of: two },
            ErrorKind::MultipleOf { value: Number::from_i64(4), multiple_of: three },
        ]
    );
    let key = PathSegment::Key("data".to_string());
    assert_eq!(
        paths(&errors),
        vec![vec![key.clone(), PathSegment::Index(1)], vec![key, PathSegment::Index(2)]]
    );
}

#[test]
fn nested_items_extend_the_path() {
    let inner = obj(vec![("multipleOf", num(2))]);
    let schema = Schema::compile(&obj(vec![("items", obj(vec![("items", inner)]))])).unwrap();
    let instance = arr(vec![arr(vec![num(1)]), arr(vec![num(2), num(3)]), num(5)]);
    let errors = schema.validate(&instance, &vec![]);
    assert_eq!(
        paths(&errors),
        vec![
            vec![PathSegment::Index(0), PathSegment::Index(0)],
            vec![PathSegment::Index(1), PathSegment::Index(1)],
        ]
    );
}

#[test]
fn boolean_schemas_are_constant() {
    let yes = Schema::compile(&JsonValue::Bool(true)).unwrap();
    let no = Schema::compile(&JsonValue::Bool(false)).unwrap();
    assert!(yes.is_valid(&num(1)));
    assert!(yes.validate(&num(1), &vec![]).is_empty());
    assert!(!no.is_valid(&JsonValue::Null));
    let errors = no.validate(&JsonValue::Null, &vec![PathSegment::Index(4)]);
    assert_eq!(errors.len(), 1);
    assert_eq!(errors[0].kind, ErrorKind::FalseSchema);
    assert_eq!(errors[0].instance_path, vec![PathSegment::Index(4)]);
}

#[test]
fn false_items_schema_rejects_each_element() {
    let schema = Schema::compile(&obj(vec![("items", JsonValue::Bool(false))])).unwrap();
    assert!(schema.is_valid(&arr(vec![])));
    let errors = schema.validate(&arr(vec![num(1), JsonValue::Null]), &vec![]);
    assert_eq!(paths(&errors), vec![vec![PathSegment::Index(0)], vec![PathSegment::Index(1)]]);
}

#[test]
fn non_numeric_multiple_of_fails_compilation() {
    let bad = obj(vec![("multipleOf", JsonValue::String("5".to_string()))]);
    assert!(matches!(Schema::compile(&bad), Err(CompilationError::SchemaError)));
    let nested = obj(vec![("items", bad)]);
    assert!(matches!(Schema::compile(&nested), Err(CompilationError::SchemaError)));
    let not_schema = obj(vec![("items", num(3))]);
    assert!(matches!(Schema::compile(&not_schema), Err(CompilationError::SchemaError)));
    assert!(matches!(Schema::compile(&num(1)), Err(CompilationError::SchemaError)));
}

#[test]
fn unknown_keywords_are_ignored() {
    let schema = Schema::compile(&obj(vec![("minimum", JsonValue::String("x".to_string()))]))
        .unwrap();
    assert!(schema.is_valid(&num(-3)));
    let empty = Schema::compile(&obj(vec![])).unwrap();
    assert!(empty.is_valid(&JsonValue::Null));
}

#[test]
fn string_instance_satisfies_multiple_of_schema() {
    let schema = Schema::compile(&obj(vec![("multipleOf", num(5))])).unwrap();
    assert!(schema.is_valid(&JsonValue::String("abc".to_string())));
    assert!(schema.validate(&JsonValue::String("abc".to_string()), &vec![]).is_empty());
}

#[test]
fn fast_and_diagnostic_modes_agree_on_schemas() {
    let schemas = vec![
        obj(vec![("multipleOf", num(2))]),
        obj(vec![("items", obj(vec![("multipleOf", num(3))]))]),
        obj(vec![
            ("multipleOf", JsonValue::Number(Number::new(false, 5, -1))),
            ("items", JsonValue::Bool(false)),
        ]),
        JsonValue::Bool(false),
    ];
    let instances = vec![
        num(4),
        num(3),
        JsonValue::Number(Number::new(false, 15, -1)),
        arr(vec![]),
        arr(vec![num(3), num(6)]),
        arr(vec![num(1)]),
        JsonValue::String("s".to_string()),
    ];
    for s in schemas.iter() {
        let compiled = Schema::compile(s).unwrap();
        for i in instances.iter() {
            assert_eq!(compiled.is_valid(i), compiled.validate(i, &vec![]).is_empty());
        }
    }
}

#[test]
fn validate_twice_gives_same_errors() {
    let schema = Schema::compile(&obj(vec![
        ("multipleOf", num(2)),
        ("items", obj(vec![("multipleOf", num(4))])),
    ]))
    .unwrap();
    let instance = arr(vec![num(4), num(6), num(9)]);
    let first = schema.validate(&instance, &vec![]);
    let second = schema.validate(&instance, &vec![]);
    assert_eq!(first.len(), 2);
    assert_eq!(first, second);
}

#[test]
fn all_of_errors_in_declaration_order() {
    let schema = Schema::compile(&obj(vec![
        ("allOf", arr(vec![obj(vec![("multipleOf", num(2))]), obj(vec![("multipleOf", num(3))])])),
        ("multipleOf", num(5)),
    ]))
    .unwrap();
    let seven = Number::from_i64(7);
    let errors = schema.validate(&num(7), &vec![]);
    let kinds: Vec<ErrorKind> = errors.iter().map(|e| e.kind).collect();
    assert_eq!(
        kinds,
        vec![
            ErrorKind::MultipleOf { value: seven, multiple_of: Number::from_i64(2) },
            ErrorKind::MultipleOf { value: seven, multiple_of: Number::from_i64(3) },
            ErrorKind::MultipleOf { value: seven, multiple_of: Number::from_i64(5) },
        ]
    );
    assert!(errors.iter().all(|e| e.instance_path.is_empty()));
    assert!(!schema.is_valid(&num(7)));
    assert!(schema.is_valid(&num(30)));
    assert_eq!(schema.validate(&num(10), &vec![]).len(), 1);
}

#[test]
fn all_of_shapes() {
    let empty = Schema::compile(&obj(vec![("allOf", arr(vec![]))])).unwrap();
    assert!(empty.is_valid(&num(3)));
    let not_array = obj(vec![("allOf", obj(vec![]))]);
    assert!(matches!(Schema::compile(&not_array), Err(CompilationError::SchemaError)));
    let bad_member = obj(vec![(
        "allOf",
        arr(vec![JsonValue::Bool(true), obj(vec![("multipleOf", JsonValue::Null)])]),
    )]);
    assert!(matches!(Schema::compile(&bad_member), Err(CompilationError::SchemaError)));
    let with_false = Schema::compile(&obj(vec![("allOf", arr(vec![JsonValue::Bool(false)]))])).unwrap();
    let errors = with_false.validate(&num(1), &vec![PathSegment::Key("k".to_string())]);
    assert_eq!(errors.len(), 1);
    assert_eq!(errors[0].kind, ErrorKind::FalseSchema);
    assert_eq!(errors[0].instance_path, vec![PathSegment::Key("k".to_string())]);
}

#[test]
fn fast_and_diagnostic_modes_agree_with_all_of() {
    let schema = Schema::compile(&obj(vec![(
        "allOf",
        arr(vec![
            obj(vec![("items", obj(vec![("multipleOf", num(2))]))]),
            obj(vec![("multipleOf", JsonValue::Number(Number::new(false, 25, -1)))]),
        ]),
    )]))
    .unwrap();
    let instances = vec![
        num(5),
        num(4),
        arr(vec![num(2)]),
        arr(vec![num(1), num(2)]),
        JsonValue::Number(Number::new(false, 75, -1)),
        JsonValue::Null,
    ];
    for i in instances.iter() {
        assert_eq!(schema.is_valid(i), schema.validate(i, &vec![]).is_empty());
    }
}

#[test]
fn property_path_example_yields_one_error() {
    let schema = Schema::compile(&obj(vec![(
        "properties",
        obj(vec![("items", obj(vec![("items", obj(vec![("multipleOf", num(2))]))]))]),
    )]))
    .unwrap();
    let instance = obj(vec![("items", arr(vec![num(1), num(4)]))]);
    let errors = schema.validate(&instance, &vec![]);
    assert_eq!(errors.len(), 1);
    assert_eq!(
        errors[0].instance_path,
        vec![PathSegment::Key("items".to_string()), PathSegment::Index(0)]
    );
    assert_eq!(errors[0].path_to_string(), "/items/0");
    assert!(!schema.is_valid(&instance));
}

#[test]
fn properties_errors_follow_schema_names_order() {
    let schema = Schema::compile(&obj(vec![(
        "properties",
        obj(vec![
            ("a", obj(vec![("multipleOf", num(2))])),
            ("b", obj(vec![("items", obj(vec![("multipleOf", num(3))]))])),
        ]),
    )]))
    .unwrap();
    let instance = obj(vec![("b", arr(vec![num(3), num(4)])), ("a", num(5)), ("c", num(1))]);
    let errors = schema.validate(&instance, &vec![]);
    assert_eq!(
        paths(&errors),
        vec![
            vec![PathSegment::Key("a".to_string())],
            vec![PathSegment::Key("b".to_string()), PathSegment::Index(1)],
        ]
    );
    assert!(!schema.is_valid(&instance));
    let fine = obj(vec![("a", num(4)), ("b", arr(vec![num(9)]))]);
    assert!(schema.is_valid(&fine));
    assert!(schema.validate(&fine, &vec![]).is_empty());
    assert!(schema.is_valid(&num(5)));
}

#[test]
fn properties_shapes() {
    let not_object = obj(vec![("properties", arr(vec![]))]);
    assert!(matches!(Schema::compile(&not_object), Err(CompilationError::SchemaError)));
    let bad_member = obj(vec![("properties", obj(vec![("x", JsonValue::Null)]))]);
    assert!(matches!(Schema::compile(&bad_member), Err(CompilationError::SchemaError)));
    let absent = Schema::compile(&obj(vec![("properties", obj(vec![("x", JsonValue::Bool(false))]))]))
        .unwrap();
    assert!(absent.is_valid(&obj(vec![("y", num(1))])));
    assert!(!absent.is_valid(&obj(vec![("x", num(1))])));
}
