use zdoc::json::JsonValue;
use zdoc::types::{format_type, TypeExpr, MAX_TYPE_DEPTH};

fn s(text: &str) -> JsonValue {
    JsonValue::Str(text.to_string())
}

fn obj(entries: Vec<(&str, JsonValue)>) -> JsonValue {
    JsonValue::Object(entries.into_iter().map(|(k, v)| (k.to_string(), v)).collect())
}

fn render(v: &JsonValue) -> String {
    format_type(&TypeExpr::from_json(v))
}

#[test]
fn renders_each_modeled_shape() {
    assert_eq!(format_type(&TypeExpr::Primitive("i32".to_string())), "i32");
    assert_eq!(format_type(&TypeExpr::ResolvedPath("Vec".to_string())), "Vec");
    let shared = TypeExpr::BorrowedRef {
        mutable: false,
        referent: Box::new(TypeExpr::Primitive("str".to_string())),
    };
    assert_eq!(format_type(&shared), "&str");
    let exclusive = TypeExpr::BorrowedRef {
        mutable: true,
        referent: Box::new(TypeExpr::ResolvedPath("String".to_string())),
    };
    assert_eq!(format_type(&exclusive), "&mut String");
    assert_eq!(format_type(&TypeExpr::Unknown), "...");
}

#[test]
fn unmodeled_json_shape_renders_placeholder() {
    let tuple = obj(vec![("tuple", JsonValue::Array(vec![]))]);
    assert_eq!(TypeExpr::from_json(&tuple), TypeExpr::Unknown);
    assert_eq!(render(&tuple), "...");
    assert_eq!(render(&JsonValue::Null), "...");
    assert_eq!(render(&s("i32")), "...");
}

#[test]
fn json_shapes_are_read() {
    assert_eq!(render(&obj(vec![("primitive", s("u8"))])), "u8");
    let path = obj(vec![("resolved_path", obj(vec![("name", s("Option")), ("id", JsonValue::Number("7".to_string()))]))]);
    assert_eq!(render(&path), "Option");
    let reference = obj(vec![(
        "borrowed_ref",
        obj(vec![("mutable", JsonValue::Bool(true)), ("type", obj(vec![("primitive", s("str"))]))]),
    )]);
    assert_eq!(render(&reference), "&mut str");
    let shared = obj(vec![("borrowed_ref", obj(vec![("type", path)]))]);
    assert_eq!(render(&shared), "&Option");
}

#[test]
fn named_path_wins_over_primitive() {
    let both = obj(vec![
        ("primitive", s("u8")),
        ("resolved_path", obj(vec![("name", s("Wrapper"))])),
    ]);
    assert_eq!(render(&both), "Wrapper");
    let nameless_path = obj(vec![("resolved_path", obj(vec![])), ("primitive", s("u8"))]);
    assert_eq!(render(&nameless_path), "u8");
}

#[test]
fn reference_without_referent_renders_placeholder() {
    let reference = obj(vec![("borrowed_ref", obj(vec![("mutable", JsonValue::Bool(false))]))]);
    assert_eq!(render(&reference), "&...");
}

#[test]
fn nesting_beyond_the_bound_is_cut_off() {
    let mut v = obj(vec![("primitive", s("u8"))]);
    for _ in 0..(MAX_TYPE_DEPTH + 3) {
        v = obj(vec![("borrowed_ref", obj(vec![("type", v)]))]);
    }
    let text = render(&v);
    let expected = format!("{}...", "&".repeat(MAX_TYPE_DEPTH));
    assert_eq!(text, expected);
    let shallow = obj(vec![("borrowed_ref", obj(vec![("type", obj(vec![("primitive", s("u8"))]))]))]);
    assert_eq!(format_type(&TypeExpr::from_json_bounded(&shallow, 0)), "...");
    assert_eq!(format_type(&TypeExpr::from_json_bounded(&shallow, 1)), "&u8");
}
