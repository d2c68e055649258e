use zdoc::api::{extract_api_items, ApiItem, IndexError};
use zdoc::item::{extract_signature, ItemInner, StructLayout};
use zdoc::json::JsonValue;

fn s(text: &str) -> JsonValue {
    JsonValue::Str(text.to_string())
}

fn n(value: u64) -> JsonValue {
    JsonValue::Number(value.to_string())
}

fn arr(items: Vec<JsonValue>) -> JsonValue {
    JsonValue::Array(items)
}

fn obj(entries: Vec<(&str, JsonValue)>) -> JsonValue {
    JsonValue::Object(entries.into_iter().map(|(k, v)| (k.to_string(), v)).collect())
}

fn prim(name: &str) -> JsonValue {
    obj(vec![("primitive", s(name))])
}

fn item(name: Option<&str>, path: Option<Vec<&str>>, kind: &str, payload: JsonValue) -> JsonValue {
    let mut entries = Vec::new();
    if let Some(name) = name {
        entries.push(("name", s(name)));
    }
    if let Some(path) = path {
        entries.push(("path", arr(path.into_iter().map(s).collect())));
    }
    entries.push(("inner", obj(vec![(kind, payload)])));
    obj(entries)
}

fn index(items: Vec<JsonValue>) -> JsonValue {
    let entries = items.into_iter().enumerate().map(|(i, v)| (i.to_string(), v)).collect();
    obj(vec![("index", JsonValue::Object(entries))])
}

fn signature_of(kind: &str, payload: JsonValue) -> String {
    let items = extract_api_items(&index(vec![item(Some("x"), None, kind, payload)])).unwrap();
    assert_eq!(items.len(), 1);
    items[0].signature.clone()
}

fn fn_payload(inputs: Option<Vec<JsonValue>>, output: Option<JsonValue>) -> JsonValue {
    let mut decl = Vec::new();
    if let Some(inputs) = inputs {
        decl.push(("inputs", arr(inputs)));
    }
    if let Some(output) = output {
        decl.push(("output", output));
    }
    obj(vec![("decl", obj(decl))])
}

#[test]
fn function_signature_example() {
    let payload = fn_payload(Some(vec![arr(vec![s("x"), prim("i32")])]), Some(prim("i32")));
    let doc = index(vec![item(Some("foo"), None, "Function", payload)]);
    let items = extract_api_items(&doc).unwrap();
    assert_eq!(items.len(), 1);
    assert_eq!(items[0].name, "foo");
    assert_eq!(items[0].item_type, "Function");
    assert!(items[0].path.is_empty());
    assert_eq!(items[0].signature, "(x: i32) -> i32");
}

#[test]
fn function_signature_variants() {
    let two = fn_payload(
        Some(vec![arr(vec![s("a"), prim("u8")]), arr(vec![s("b"), prim("bool")])]),
        Some(JsonValue::Null),
    );
    assert_eq!(signature_of("Function", two), "(a: u8, b: bool)");
    let unit = fn_payload(Some(vec![]), Some(prim("()")));
    assert_eq!(signature_of("Method", unit), "()");
    let only_output = fn_payload(None, Some(prim("usize")));
    assert_eq!(signature_of("Function", only_output), "-> usize");
    let malformed = fn_payload(Some(vec![arr(vec![s("a")]), arr(vec![n(1), prim("u8")]), arr(vec![s("c"), prim("u8")])]), None);
    assert_eq!(signature_of("Function", malformed), "(c: u8)");
    assert_eq!(signature_of("Function", obj(vec![])), "");
    assert_eq!(signature_of("Function", JsonValue::Null), "");
}

#[test]
fn aggregate_signatures_count_members() {
    let plain = obj(vec![("kind", s("plain")), ("fields", arr(vec![n(1), n(2)]))]);
    assert_eq!(signature_of("Struct", plain), "{ 2 fields }");
    let tuple = obj(vec![("kind", s("tuple")), ("fields", arr(vec![n(1), n(2), n(3)]))]);
    assert_eq!(signature_of("Struct", tuple), "(3 fields)");
    let unit = obj(vec![("kind", s("unit"))]);
    assert_eq!(signature_of("Struct", unit), "");
    let no_fields = obj(vec![("kind", s("plain"))]);
    assert_eq!(signature_of("Struct", no_fields), "");
    let variants: Vec<JsonValue> = (0..12).map(n).collect();
    assert_eq!(signature_of("Enum", obj(vec![("variants", arr(variants))])), "{ 12 variants }");
    assert_eq!(signature_of("Trait", obj(vec![("items", arr(vec![]))])), "{ 0 items }");
    assert_eq!(signature_of("Enum", obj(vec![])), "");
    assert_eq!(signature_of("Module", obj(vec![("items", arr(vec![n(1)]))])), "");
}

#[test]
fn payload_is_read_into_its_kind() {
    let plain = obj(vec![("kind", s("plain")), ("fields", arr(vec![n(1)]))]);
    let inner = ItemInner::from_json(&"Struct".to_string(), &plain);
    assert_eq!(inner, ItemInner::Struct(StructLayout::Plain(Some(1))));
    assert_eq!(extract_signature(&inner), "{ 1 fields }");
    let other = ItemInner::from_json(&"TypeAlias".to_string(), &JsonValue::Null);
    assert_eq!(other, ItemInner::Other("TypeAlias".to_string()));
    assert_eq!(other.kind_name(), "TypeAlias");
    assert_eq!(ItemInner::Import.kind_name(), "Import");
}

#[test]
fn reexports_and_unnamed_items_are_left_out() {
    let doc = index(vec![
        item(Some("kept"), Some(vec!["a", "b"]), "Enum", obj(vec![("variants", arr(vec![]))])),
        item(Some("again"), None, "Import", obj(vec![])),
        item(Some("mac"), None, "ProcMacro", obj(vec![])),
        item(None, None, "Function", obj(vec![])),
        obj(vec![("name", s("no_inner"))]),
        obj(vec![("name", s("empty_inner")), ("inner", obj(vec![]))]),
        obj(vec![("name", s("odd_inner")), ("inner", s("Function"))]),
    ]);
    let items = extract_api_items(&doc).unwrap();
    assert_eq!(items.len(), 1);
    assert_eq!(items[0].name, "kept");
    assert_eq!(items[0].path, vec!["a".to_string(), "b".to_string()]);
    assert_eq!(items[0].signature, "{ 0 variants }");
}

#[test]
fn path_keeps_only_string_segments() {
    let with_numbers = obj(vec![
        ("name", s("f")),
        ("path", arr(vec![s("core"), n(3), s("mem")])),
        ("inner", obj(vec![("Function", obj(vec![]))])),
    ]);
    let items = extract_api_items(&index(vec![with_numbers])).unwrap();
    assert_eq!(items[0].path, vec!["core".to_string(), "mem".to_string()]);
    assert_eq!(items[0].full_path(), "core::mem::f");
}

#[test]
fn missing_index_is_an_error() {
    assert_eq!(extract_api_items(&obj(vec![])), Err(IndexError::MissingIndex));
    assert_eq!(extract_api_items(&obj(vec![("index", arr(vec![]))])), Err(IndexError::MissingIndex));
    assert_eq!(extract_api_items(&JsonValue::Null), Err(IndexError::MissingIndex));
    assert_eq!(extract_api_items(&obj(vec![("index", obj(vec![]))])), Ok(vec![]));
}

#[test]
fn normalizing_twice_gives_the_same_items() {
    let doc = index(vec![
        item(Some("a"), Some(vec!["m"]), "Function", fn_payload(Some(vec![]), None)),
        item(Some("b"), None, "Trait", obj(vec![("items", arr(vec![n(1)]))])),
    ]);
    let first = extract_api_items(&doc).unwrap();
    let second = extract_api_items(&doc).unwrap();
    assert_eq!(first, second);
}

#[test]
fn full_path_and_display_string() {
    let top = ApiItem {
        name: "foo".to_string(),
        item_type: "Function".to_string(),
        path: vec![],
        signature: String::new(),
    };
    assert_eq!(top.full_path(), "foo");
    assert_eq!(top.display_string(), "Function foo");
    let nested = ApiItem {
        name: "Bar".to_string(),
        item_type: "Struct".to_string(),
        path: vec!["krate".to_string(), "inner".to_string()],
        signature: "{ 1 fields }".to_string(),
    };
    assert_eq!(nested.full_path(), "krate::inner::Bar");
    assert_eq!(nested.display_string(), "Struct krate::inner::Bar");
    assert_eq!(nested.duplicate(), nested);
}
