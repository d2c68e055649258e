//! The kind-specific payload of an index item, and its signature summary.
use vstd::prelude::*;
use vstd::string::*;
use crate::json::{JsonValue, field, field_of, element, text_of, array_of};
use crate::text::{decimal, join, join_strings, push_decimal, str_eq};
use crate::types::{TypeExpr, MAX_TYPE_DEPTH, type_text, json_type_text, format_type, decodes_to};

verus! {

/// A named parameter of a function.
#[derive(Debug, PartialEq, Eq)]
pub struct Param {
    pub name: String,
    pub ty: TypeExpr,
}

/// What a function's declaration says: its parameter list, when one is
/// given, and its return type, when one is given and is not null.
#[derive(Debug, PartialEq, Eq)]
pub struct FnShape {
    pub params: Option<Vec<Param>>,
    pub output: Option<TypeExpr>,
}

/// The field layout of a struct, with the number of fields where listed.
#[derive(Debug, Clone, Copy, PartialEq, Eq)]
pub enum StructLayout {
    Plain(Option<usize>),
    Tuple(Option<usize>),
    Unit,
    Unrecognized,
}

/// The payload of an item, by kind. Every kind that is not modeled is
/// `Other`, under its own label.
#[derive(Debug, PartialEq, Eq)]
pub enum ItemInner {
    Function(FnShape),
    Method(FnShape),
    Struct(StructLayout),
    Enum(Option<usize>),
    Trait(Option<usize>),
    Import,
    ProcMacro,
    Other(String),
}

/// The label of a payload's kind.
pub open spec fn kind_label(i: ItemInner) -> Seq<char> {
    match i {
        ItemInner::Function(_) => "Function"@,
        ItemInner::Method(_) => "Method"@,
        ItemInner::Struct(_) => "Struct"@,
        ItemInner::Enum(_) => "Enum"@,
        ItemInner::Trait(_) => "Trait"@,
        ItemInner::Import => "Import"@,
        ItemInner::ProcMacro => "ProcMacro"@,
        ItemInner::Other(label) => label@,
    }
}

/// A function signature from its parenthesized parameter list and its
/// return type, each where present.
pub open spec fn fn_signature_text(params: Option<Seq<char>>, ret: Option<Seq<char>>) -> Seq<char> {
    match (params, ret) {
        (Some(p), Some(t)) => p + " -> "@ + t,
        (Some(p), None) => p,
        (None, Some(t)) => "-> "@ + t,
        (None, None) => Seq::empty(),
    }
}

/// `{ n noun }` where a count is given, else nothing.
pub open spec fn braced_count(n: Option<nat>, noun: Seq<char>) -> Seq<char> {
    match n {
        Some(c) => "{ "@ + decimal(c) + " "@ + noun + " }"@,
        None => Seq::empty(),
    }
}

/// `(n fields)` where a count is given, else nothing.
pub open spec fn tuple_count(n: Option<nat>) -> Seq<char> {
    match n {
        Some(c) => "("@ + decimal(c) + " fields)"@,
        None => Seq::empty(),
    }
}

pub open spec fn opt_nat(n: Option<usize>) -> Option<nat> {
    match n {
        Some(c) => Some(c as nat),
        None => None,
    }
}

pub open spec fn params_view(ps: Seq<Param>) -> Seq<Seq<char>> {
    ps.map_values(|p: Param| p.name@ + ": "@ + type_text(p.ty))
}

/// A return type's rendering, unless it renders as the unit type.
pub open spec fn ret_text(t: Seq<char>) -> Option<Seq<char>> {
    if t == "()"@ {
        None
    } else {
        Some(t)
    }
}

pub open spec fn fn_text(f: FnShape) -> Seq<char> {
    let params = match f.params {
        Some(ps) => Some("("@ + join(params_view(ps@), ", "@) + ")"@),
        None => None,
    };
    let ret = match f.output {
        Some(t) => ret_text(type_text(t)),
        None => None,
    };
    fn_signature_text(params, ret)
}

/// The signature summary of a payload.
pub open spec fn signature_text(i: ItemInner) -> Seq<char> {
    match i {
        ItemInner::Function(f) => fn_text(f),
        ItemInner::Method(f) => fn_text(f),
        ItemInner::Struct(layout) => match layout {
            StructLayout::Plain(n) => braced_count(opt_nat(n), "fields"@),
            StructLayout::Tuple(n) => tuple_count(opt_nat(n)),
            _ => Seq::empty(),
        },
        ItemInner::Enum(n) => braced_count(opt_nat(n), "variants"@),
        ItemInner::Trait(n) => braced_count(opt_nat(n), "items"@),
        _ => Seq::empty(),
    }
}

/// The number of elements of an array value.
pub open spec fn count_of(v: Option<JsonValue>) -> Option<nat> {
    match array_of(v) {
        Some(items) => Some(items.len()),
        None => None,
    }
}

/// `name: Type` for an input written as a two-element array, if it is one.
pub open spec fn param_text(input: JsonValue) -> Option<Seq<char>> {
    match (text_of(element(input, 0)), element(input, 1)) {
        (Some(name), Some(t)) => Some(name + ": "@ + json_type_text(t, MAX_TYPE_DEPTH as nat)),
        _ => None,
    }
}

/// The well-formed inputs among `inputs`, rendered, in order.
pub open spec fn param_texts(inputs: Seq<JsonValue>) -> Seq<Seq<char>>
    decreases inputs.len(),
{
    if inputs.len() == 0 {
        Seq::empty()
    } else {
        let rest = param_texts(inputs.drop_last());
        match param_text(inputs.last()) {
            Some(p) => rest.push(p),
            None => rest,
        }
    }
}

/// The signature of a function payload read from a document.
pub open spec fn json_fn_text(payload: JsonValue) -> Seq<char> {
    let decl = field(payload, "decl"@);
    let params = match array_of(field_of(decl, "inputs"@)) {
        Some(inputs) => Some("("@ + join(param_texts(inputs), ", "@) + ")"@),
        None => None,
    };
    let ret = match field_of(decl, "output"@) {
        Some(JsonValue::Null) => None,
        Some(o) => ret_text(json_type_text(o, MAX_TYPE_DEPTH as nat)),
        None => None,
    };
    fn_signature_text(params, ret)
}

/// The signature of a struct payload read from a document.
pub open spec fn json_struct_text(payload: JsonValue) -> Seq<char> {
    let n = count_of(field(payload, "fields"@));
    match text_of(field(payload, "kind"@)) {
        Some(k) => if k == "plain"@ {
            braced_count(n, "fields"@)
        } else if k == "tuple"@ {
            tuple_count(n)
        } else {
            Seq::empty()
        },
        None => Seq::empty(),
    }
}

/// The signature summary of the payload of an item of kind `kind`.
pub open spec fn payload_signature(kind: Seq<char>, payload: JsonValue) -> Seq<char> {
    if kind == "Function"@ || kind == "Method"@ {
        json_fn_text(payload)
    } else if kind == "Struct"@ {
        json_struct_text(payload)
    } else if kind == "Enum"@ {
        braced_count(count_of(field(payload, "variants"@)), "variants"@)
    } else if kind == "Trait"@ {
        braced_count(count_of(field(payload, "items"@)), "items"@)
    } else {
        Seq::empty()
    }
}

/// Whether `ps` are the well-formed inputs among `inputs`, read in order.
pub open spec fn params_decoded(inputs: Seq<JsonValue>, ps: Seq<Param>) -> bool
    decreases inputs.len(),
{
    if inputs.len() == 0 {
        ps.len() == 0
    } else {
        let last = inputs.last();
        match (text_of(element(last, 0)), element(last, 1)) {
            (Some(name), Some(t)) => ps.len() > 0 && ps.last().name@ == name && decodes_to(
                t,
                MAX_TYPE_DEPTH as nat,
                ps.last().ty,
            ) && params_decoded(inputs.drop_last(), ps.drop_last()),
            _ => params_decoded(inputs.drop_last(), ps),
        }
    }
}

/// Whether `f` is what reading a function payload gives.
pub open spec fn fn_decoded(payload: JsonValue, f: FnShape) -> bool {
    let decl = field(payload, "decl"@);
    &&& match (array_of(field_of(decl, "inputs"@)), f.params) {
        (Some(inputs), Some(ps)) => params_decoded(inputs, ps@),
        (None, None) => true,
        _ => false,
    }
    &&& match (field_of(decl, "output"@), f.output) {
        (Some(JsonValue::Null), None) => true,
        (Some(o), Some(t)) => !(o is Null) && decodes_to(o, MAX_TYPE_DEPTH as nat, t),
        (None, None) => true,
        _ => false,
    }
}

/// Whether `l` is what reading a struct payload gives.
pub open spec fn layout_decoded(payload: JsonValue, l: StructLayout) -> bool {
    let n = count_of(field(payload, "fields"@));
    match text_of(field(payload, "kind"@)) {
        Some(k) => if k == "plain"@ {
            l matches StructLayout::Plain(c) && opt_nat(c) == n
        } else if k == "tuple"@ {
            l matches StructLayout::Tuple(c) && opt_nat(c) == n
        } else if k == "unit"@ {
            l is Unit
        } else {
            l is Unrecognized
        },
        None => l is Unrecognized,
    }
}

/// Whether `i` is what reading the payload of an item of kind `kind` gives.
pub open spec fn inner_decoded(kind: Seq<char>, payload: JsonValue, i: ItemInner) -> bool {
    if kind == "Function"@ {
        i matches ItemInner::Function(f) && fn_decoded(payload, f)
    } else if kind == "Method"@ {
        i matches ItemInner::Method(f) && fn_decoded(payload, f)
    } else if kind == "Struct"@ {
        i matches ItemInner::Struct(l) && layout_decoded(payload, l)
    } else if kind == "Enum"@ {
        i matches ItemInner::Enum(n) && opt_nat(n) == count_of(field(payload, "variants"@))
    } else if kind == "Trait"@ {
        i matches ItemInner::Trait(n) && opt_nat(n) == count_of(field(payload, "items"@))
    } else if kind == "Import"@ {
        i is Import
    } else if kind == "ProcMacro"@ {
        i is ProcMacro
    } else {
        i matches ItemInner::Other(label) && label@ == kind
    }
}

/// The length of an array value, if it is one.
fn array_len(v: Option<&JsonValue>) -> (r: Option<usize>)
    ensures
        match v {
            Some(x) => opt_nat(r) == count_of(Some(*x)),
            None => r is None,
        },
{
    match v {
        Some(JsonValue::Array(items)) => Some(items.len()),
        _ => None,
    }
}

/// The well-formed inputs of a function declaration.
fn read_params(inputs: &Vec<JsonValue>) -> (r: Vec<Param>)
    ensures
        params_view(r@) == param_texts(inputs@),
        params_decoded(inputs@, r@),
{
    let mut out: Vec<Param> = Vec::new();
    let mut i: usize = 0;
    while i < inputs.len()
        invariant
            i <= inputs@.len(),
            params_view(out@) == param_texts(inputs@.take(i as int)),
            params_decoded(inputs@.take(i as int), out@),
        decreases inputs@.len() - i,
    {
        assert(inputs@.take(i as int + 1).drop_last() =~= inputs@.take(i as int));
        let input = &inputs[i];
        let ghost prev = out@;
        match (input.at(0), input.at(1)) {
            (Some(JsonValue::Str(name)), Some(t)) => {
                let ty = TypeExpr::from_json(t);
                out.push(Param { name: name.clone(), ty });
                assert(out@.drop_last() =~= prev);
            },
            _ => {},
        }
        assert(params_view(out@) =~= param_texts(inputs@.take(i as int + 1)));
        i += 1;
    }
    assert(inputs@.take(inputs@.len() as int) =~= inputs@);
    out
}

fn read_fn_shape(payload: &JsonValue) -> (r: FnShape)
    ensures
        fn_text(r) == json_fn_text(*payload),
        fn_decoded(*payload, r),
{
    let decl = payload.get("decl");
    let params = match decl {
        Some(d) => match d.get("inputs") {
            Some(JsonValue::Array(inputs)) => Some(read_params(inputs)),
            _ => None,
        },
        None => None,
    };
    let output = match decl {
        Some(d) => match d.get("output") {
            Some(JsonValue::Null) => None,
            Some(o) => Some(TypeExpr::from_json(o)),
            None => None,
        },
        None => None,
    };
    FnShape { params, output }
}

fn read_struct_layout(payload: &JsonValue) -> (r: StructLayout)
    ensures
        signature_text(ItemInner::Struct(r)) == json_struct_text(*payload),
        layout_decoded(*payload, r),
{
    let n = array_len(payload.get("fields"));
    match payload.get("kind") {
        Some(JsonValue::Str(k)) => {
            if str_eq(k.as_str(), "plain") {
                StructLayout::Plain(n)
            } else if str_eq(k.as_str(), "tuple") {
                StructLayout::Tuple(n)
            } else if str_eq(k.as_str(), "unit") {
                StructLayout::Unit
            } else {
                StructLayout::Unrecognized
            }
        },
        _ => StructLayout::Unrecognized,
    }
}

impl ItemInner {
    /// Reads the payload of an item whose kind is labelled `kind`.
    pub fn from_json(kind: &String, payload: &JsonValue) -> (r: ItemInner)
        ensures
            inner_decoded(kind@, *payload, r),
            kind_label(r) == kind@,
            signature_text(r) == payload_signature(kind@, *payload),
    {
        let k = kind.as_str();
        if str_eq(k, "Function") {
            ItemInner::Function(read_fn_shape(payload))
        } else if str_eq(k, "Method") {
            ItemInner::Method(read_fn_shape(payload))
        } else if str_eq(k, "Struct") {
            ItemInner::Struct(read_struct_layout(payload))
        } else if str_eq(k, "Enum") {
            ItemInner::Enum(array_len(payload.get("variants")))
        } else if str_eq(k, "Trait") {
            ItemInner::Trait(array_len(payload.get("items")))
        } else if str_eq(k, "Import") {
            ItemInner::Import
        } else if str_eq(k, "ProcMacro") {
            ItemInner::ProcMacro
        } else {
            ItemInner::Other(kind.clone())
        }
    }

    /// The label of this payload's kind.
    pub fn kind_name(&self) -> (r: String)
        ensures
            r@ == kind_label(*self),
    {
        match self {
            ItemInner::Function(_) => String::from_str("Function"),
            ItemInner::Method(_) => String::from_str("Method"),
            ItemInner::Struct(_) => String::from_str("Struct"),
            ItemInner::Enum(_) => String::from_str("Enum"),
            ItemInner::Trait(_) => String::from_str("Trait"),
            ItemInner::Import => String::from_str("Import"),
            ItemInner::ProcMacro => String::from_str("ProcMacro"),
            ItemInner::Other(label) => label.clone(),
        }
    }
}

/// `{ n noun }` for a count that is given.
fn render_braced_count(n: Option<usize>, noun: &str) -> (r: String)
    ensures
        r@ == braced_count(opt_nat(n), noun@),
{
    match n {
        Some(c) => {
            let mut out = String::from_str("{ ");
            push_decimal(&mut out, c);
            out.append(" ");
            out.append(noun);
            out.append(" }");
            out
        },
        None => String::new(),
    }
}

fn render_fn(f: &FnShape) -> (r: String)
    ensures
        r@ == fn_text(*f),
{
    let mut out = String::new();
    let mut has_params = false;
    match &f.params {
        Some(ps) => {
            let mut parts: Vec<String> = Vec::new();
            let mut i: usize = 0;
            while i < ps.len()
                invariant
                    i <= ps@.len(),
                    parts@.map_values(|s: String| s@) == params_view(ps@.take(i as int)),
                decreases ps@.len() - i,
            {
                let mut part = ps[i].name.clone();
                part.append(": ");
                let ty = format_type(&ps[i].ty);
                part.append(ty.as_str());
                assert(part@ == ps@[i as int].name@ + ": "@ + type_text(ps@[i as int].ty));
                assert(ps@.take(i as int + 1).drop_last() =~= ps@.take(i as int));
                let ghost prev = parts@;
                let ghost pv = part@;
                parts.push(part);
                assert(parts@.map_values(|s: String| s@) =~= prev.map_values(|s: String| s@).push(pv));
                assert(params_view(ps@.take(i as int + 1)) =~= params_view(ps@.take(i as int)).push(pv));
                i += 1;
            }
            assert(ps@.take(ps@.len() as int) =~= ps@);
            out.append("(");
            let joined = join_strings(&parts, ", ");
            out.append(joined.as_str());
            out.append(")");
            has_params = true;
        },
        None => {},
    }
    match &f.output {
        Some(t) => {
            let ret = format_type(t);
            if !str_eq(ret.as_str(), "()") {
                if has_params {
                    out.append(" -> ");
                } else {
                    out.append("-> ");
                }
                out.append(ret.as_str());
            }
        },
        None => {},
    }
    out
}

/// The signature summary of a payload: the parameter list and return type
/// of a function, or the number of fields, variants or associated items
/// of an aggregate; empty for every other kind.
pub fn extract_signature(inner: &ItemInner) -> (r: String)
    ensures
        r@ == signature_text(*inner),
{
    match inner {
        ItemInner::Function(f) => render_fn(f),
        ItemInner::Method(f) => render_fn(f),
        ItemInner::Struct(layout) => match layout {
            StructLayout::Plain(n) => render_braced_count(*n, "fields"),
            StructLayout::Tuple(n) => match n {
                Some(c) => {
                    let mut out = String::from_str("(");
                    push_decimal(&mut out, *c);
                    out.append(" fields)");
                    out
                },
                None => String::new(),
            },
            _ => String::new(),
        },
        ItemInner::Enum(n) => render_braced_count(*n, "variants"),
        ItemInner::Trait(n) => render_braced_count(*n, "items"),
        _ => String::new(),
    }
}

} // verus!
