//! Type expressions and their canonical rendering.
use vstd::prelude::*;
use vstd::string::*;
use crate::json::{JsonValue, field, field_of, text_of};

verus! {

/// How deep references may nest before the rest of a type expression is
/// rendered as the placeholder; a guard against adversarial input.
pub const MAX_TYPE_DEPTH: usize = 64;

/// A type expression. Shapes that are not modeled are `Unknown`.
#[derive(Debug, PartialEq, Eq)]
pub enum TypeExpr {
    Primitive(String),
    ResolvedPath(String),
    BorrowedRef { mutable: bool, referent: Box<TypeExpr> },
    Unknown,
}

/// The canonical rendering of a type expression.
pub open spec fn type_text(t: TypeExpr) -> Seq<char>
    decreases t,
{
    match t {
        TypeExpr::Primitive(name) => name@,
        TypeExpr::ResolvedPath(name) => name@,
        TypeExpr::BorrowedRef { mutable, referent } => if mutable {
            "&mut "@ + type_text(*referent)
        } else {
            "&"@ + type_text(*referent)
        },
        TypeExpr::Unknown => "..."@,
    }
}

/// A boolean value, absent or of another shape counting as false.
pub open spec fn flag_of(v: Option<JsonValue>) -> bool {
    match v {
        Some(JsonValue::Bool(b)) => b,
        _ => false,
    }
}

/// The rendering of a type expression read from a document, with `depth`
/// levels of references left. A named path wins over a primitive, a
/// primitive over a reference; every other shape is the placeholder.
pub open spec fn json_type_text(v: JsonValue, depth: nat) -> Seq<char>
    decreases depth,
{
    match text_of(field_of(field(v, "resolved_path"@), "name"@)) {
        Some(name) => name,
        None => match text_of(field(v, "primitive"@)) {
            Some(name) => name,
            None => match field(v, "borrowed_ref"@) {
                Some(b) => if depth == 0 {
                    "..."@
                } else {
                    let referent = match field(b, "type"@) {
                        Some(t) => json_type_text(t, (depth - 1) as nat),
                        None => "..."@,
                    };
                    if flag_of(field(b, "mutable"@)) {
                        "&mut "@ + referent
                    } else {
                        "&"@ + referent
                    }
                },
                None => "..."@,
            },
        },
    }
}

/// Whether `t` is what reading `v` with `depth` levels of references left
/// gives: a named path over a primitive over a reference, the placeholder
/// for every other shape and for references past the bound.
pub open spec fn decodes_to(v: JsonValue, depth: nat, t: TypeExpr) -> bool
    decreases depth,
{
    match text_of(field_of(field(v, "resolved_path"@), "name"@)) {
        Some(name) => t matches TypeExpr::ResolvedPath(n) && n@ == name,
        None => match text_of(field(v, "primitive"@)) {
            Some(name) => t matches TypeExpr::Primitive(n) && n@ == name,
            None => match field(v, "borrowed_ref"@) {
                Some(b) => if depth == 0 {
                    t is Unknown
                } else {
                    t matches TypeExpr::BorrowedRef { mutable, referent } && mutable == flag_of(
                        field(b, "mutable"@),
                    ) && match field(b, "type"@) {
                        Some(inner) => decodes_to(inner, (depth - 1) as nat, *referent),
                        None => *referent is Unknown,
                    }
                },
                None => t is Unknown,
            },
        },
    }
}

/// A value that is neither a named path, a primitive nor a reference
/// renders as the placeholder, at every depth.
pub proof fn unmodeled_type_renders_placeholder(v: JsonValue, depth: nat)
    requires
        text_of(field_of(field(v, "resolved_path"@), "name"@)) is None,
        text_of(field(v, "primitive"@)) is None,
        field(v, "borrowed_ref"@) is None,
    ensures
        json_type_text(v, depth) == "..."@,
{
}

impl TypeExpr {
    /// Reads a type expression, rendering the part deeper than `depth`
    /// references as the placeholder.
    pub fn from_json_bounded(v: &JsonValue, depth: usize) -> (r: TypeExpr)
        ensures
            decodes_to(*v, depth as nat, r),
            type_text(r) == json_type_text(*v, depth as nat),
        decreases depth,
    {
        match v.get("resolved_path") {
            Some(rp) => match rp.get("name") {
                Some(JsonValue::Str(name)) => {
                    return TypeExpr::ResolvedPath(name.clone());
                },
                _ => {},
            },
            None => {},
        }
        match v.get("primitive") {
            Some(JsonValue::Str(name)) => {
                return TypeExpr::Primitive(name.clone());
            },
            _ => {},
        }
        match v.get("borrowed_ref") {
            Some(b) => {
                if depth == 0 {
                    return TypeExpr::Unknown;
                }
                let mutable = match b.get("mutable") {
                    Some(JsonValue::Bool(m)) => *m,
                    _ => false,
                };
                let referent = match b.get("type") {
                    Some(t) => TypeExpr::from_json_bounded(t, depth - 1),
                    None => TypeExpr::Unknown,
                };
                let r = TypeExpr::BorrowedRef { mutable, referent: Box::new(referent) };
                assert(flag_of(field(*b, "mutable"@)) == mutable);
                assert(field(*v, "borrowed_ref"@) == Some(*b));
                assert(type_text(r) == (if mutable { "&mut "@ } else { "&"@ }) + type_text(referent));
                assert(type_text(referent) == match field(*b, "type"@) {
                        Some(t) => json_type_text(t, (depth - 1) as nat),
                        None => "..."@,
                    });
                assert(text_of(field_of(field(*v, "resolved_path"@), "name"@)) is None);
                assert(text_of(field(*v, "primitive"@)) is None);
                assert(type_text(r) == json_type_text(*v, depth as nat));
                r
            },
            None => TypeExpr::Unknown,
        }
    }

    /// Reads a type expression, up to the default nesting bound.
    pub fn from_json(v: &JsonValue) -> (r: TypeExpr)
        ensures
            decodes_to(*v, MAX_TYPE_DEPTH as nat, r),
            type_text(r) == json_type_text(*v, MAX_TYPE_DEPTH as nat),
    {
        TypeExpr::from_json_bounded(v, MAX_TYPE_DEPTH)
    }
}

/// Renders a type expression as its canonical text. Never fails: shapes
/// that are not modeled render as `...`.
pub fn format_type(t: &TypeExpr) -> (r: String)
    ensures
        r@ == type_text(*t),
    decreases t,
{
    match t {
        TypeExpr::Primitive(name) => name.clone(),
        TypeExpr::ResolvedPath(name) => name.clone(),
        TypeExpr::BorrowedRef { mutable, referent } => {
            let mut out = if *mutable {
                String::from_str("&mut ")
            } else {
                String::from_str("&")
            };
            let inner = format_type(referent);
            out.append(inner.as_str());
            out
        },
        TypeExpr::Unknown => String::from_str("..."),
    }
}

} // verus!
