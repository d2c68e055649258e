//! Normalized public-surface items, and their extraction from an index.
use vstd::prelude::*;
use vstd::string::*;
use crate::json::{JsonValue, field, text_of, array_of, object_of, strings_in, collect_strings};
use crate::text::{join, join_strings, str_eq};
use crate::item::{ItemInner, payload_signature, extract_signature};

verus! {

/// One declaration of the public surface, as compared across versions.
#[derive(Debug, Clone, PartialEq, Eq, Hash)]
pub struct ApiItem {
    pub name: String,
    pub item_type: String,
    pub path: Vec<String>,
    pub signature: String,
}

pub ghost struct ApiItemView {
    pub name: Seq<char>,
    pub item_type: Seq<char>,
    pub path: Seq<Seq<char>>,
    pub signature: Seq<char>,
}

impl View for ApiItem {
    type V = ApiItemView;

    open spec fn view(&self) -> ApiItemView {
        ApiItemView {
            name: self.name@,
            item_type: self.item_type@,
            path: self.path@.map_values(|s: String| s@),
            signature: self.signature@,
        }
    }
}

/// The views of a sequence of items.
pub open spec fn views(s: Seq<ApiItem>) -> Seq<ApiItemView> {
    s.map_values(|x: ApiItem| x@)
}

/// The path segments joined with `::`, then the item's own name.
pub open spec fn full_path_of(v: ApiItemView) -> Seq<char> {
    if v.path.len() == 0 {
        v.name
    } else {
        join(v.path, "::"@) + "::"@ + v.name
    }
}

/// Why an index could not be read.
#[derive(Debug, Clone, Copy, PartialEq, Eq)]
pub enum IndexError {
    /// The document has no `index` object.
    MissingIndex,
}

/// The entries of a document's `index` object.
pub open spec fn index_entries(doc: JsonValue) -> Option<Seq<(String, JsonValue)>> {
    object_of(field(doc, "index"@))
}

/// The first entry of an item's `inner` object: its kind label and payload.
pub open spec fn tag_of(item: JsonValue) -> Option<(String, JsonValue)> {
    match object_of(field(item, "inner"@)) {
        Some(entries) => if entries.len() > 0 {
            Some(entries[0])
        } else {
            None
        },
        None => None,
    }
}

/// The declaration path of an item: its string segments, or none.
pub open spec fn path_of(item: JsonValue) -> Seq<Seq<char>> {
    match array_of(field(item, "path"@)) {
        Some(segments) => strings_in(segments),
        None => Seq::empty(),
    }
}

/// The normalized form of one index item: none for an item without a name
/// or kind, and for re-exports and macro stubs.
pub open spec fn normalized_item(item: JsonValue) -> Option<ApiItemView> {
    match (text_of(field(item, "name"@)), tag_of(item)) {
        (Some(name), Some(tag)) => if tag.0@ == "Import"@ || tag.0@ == "ProcMacro"@ {
            None
        } else {
            Some(
                ApiItemView {
                    name,
                    item_type: tag.0@,
                    path: path_of(item),
                    signature: payload_signature(tag.0@, tag.1),
                },
            )
        },
        _ => None,
    }
}

/// The normalized items of an index, in the order of its entries.
pub open spec fn normalized(entries: Seq<(String, JsonValue)>) -> Seq<ApiItemView>
    decreases entries.len(),
{
    if entries.len() == 0 {
        Seq::empty()
    } else {
        let rest = normalized(entries.drop_last());
        match normalized_item(entries.last().1) {
            Some(v) => rest.push(v),
            None => rest,
        }
    }
}

/// Normalizing an index is a function of the index: two normalizations of
/// one index hold the same items, each as often.
pub proof fn normalization_is_idempotent(doc: JsonValue, a: Seq<ApiItemView>, b: Seq<ApiItemView>)
    requires
        index_entries(doc) is Some,
        a == normalized(index_entries(doc)->0),
        b == normalized(index_entries(doc)->0),
    ensures
        a.to_multiset() == b.to_multiset(),
{
}

impl ApiItem {
    /// The path segments joined with `::`, then the item's own name.
    pub fn full_path(&self) -> (r: String)
        ensures
            r@ == full_path_of(self@),
    {
        if self.path.len() == 0 {
            self.name.clone()
        } else {
            let mut out = join_strings(&self.path, "::");
            out.append("::");
            out.append(self.name.as_str());
            out
        }
    }

    /// The kind, a space, then the full path.
    pub fn display_string(&self) -> (r: String)
        ensures
            r@ == self.item_type@ + " "@ + full_path_of(self@),
    {
        let mut out = self.item_type.clone();
        out.append(" ");
        let p = self.full_path();
        out.append(p.as_str());
        out
    }

    /// A copy of this item.
    pub fn duplicate(&self) -> (r: ApiItem)
        ensures
            r@ == self@,
    {
        let path = self.path.clone();
        assert(path@.map_values(|s: String| s@) =~= self.path@.map_values(|s: String| s@));
        ApiItem {
            name: self.name.clone(),
            item_type: self.item_type.clone(),
            path,
            signature: self.signature.clone(),
        }
    }
}

/// The normalized form of one index item.
fn normalize_item(item: &JsonValue) -> (r: Option<ApiItem>)
    ensures
        match normalized_item(*item) {
            Some(v) => r matches Some(x) && x@ == v,
            None => r is None,
        },
{
    let name = match item.get("name") {
        Some(JsonValue::Str(n)) => n,
        _ => {
            return None;
        },
    };
    let tag = match item.get("inner") {
        Some(JsonValue::Object(entries)) => {
            if entries.len() == 0 {
                return None;
            }
            &entries[0]
        },
        _ => {
            return None;
        },
    };
    let kind = &tag.0;
    if str_eq(kind.as_str(), "Import") || str_eq(kind.as_str(), "ProcMacro") {
        return None;
    }
    let path = match item.get("path") {
        Some(JsonValue::Array(segments)) => collect_strings(segments),
        _ => Vec::new(),
    };
    proof {
        if !(field(*item, "path"@) matches Some(JsonValue::Array(_))) {
            assert(path@.map_values(|s: String| s@) =~= Seq::<Seq<char>>::empty());
        }
    }
    let inner = ItemInner::from_json(kind, &tag.1);
    let signature = extract_signature(&inner);
    Some(ApiItem { name: name.clone(), item_type: kind.clone(), path, signature })
}

/// Walks a document's index and returns one normalized item for every entry
/// that has a name and a kind, leaving out re-exports and macro stubs, in
/// the order of the index. An item's declaration path is the string
/// segments of its own `path` field, or empty. Fails when the document has
/// no `index` object.
pub fn extract_api_items(json_data: &JsonValue) -> (r: Result<Vec<ApiItem>, IndexError>)
    ensures
        match index_entries(*json_data) {
            Some(entries) => r matches Ok(items) && views(items@) == normalized(entries),
            None => r is Err,
        },
{
    let index = match json_data.get("index") {
        Some(JsonValue::Object(entries)) => entries,
        _ => {
            return Err(IndexError::MissingIndex);
        },
    };
    let mut items: Vec<ApiItem> = Vec::new();
    let mut i: usize = 0;
    while i < index.len()
        invariant
            i <= index@.len(),
            views(items@) == normalized(index@.take(i as int)),
        decreases index@.len() - i,
    {
        assert(index@.take(i as int + 1).drop_last() =~= index@.take(i as int));
        let ghost prev = items@;
        match normalize_item(&index[i].1) {
            Some(x) => {
                items.push(x);
                assert(views(items@) =~= views(prev).push(x@));
            },
            None => {},
        }
        i += 1;
    }
    assert(index@.take(index@.len() as int) =~= index@);
    Ok(items)
}

} // verus!
