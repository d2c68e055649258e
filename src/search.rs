//! Fuzzy name search over an index, and ranking of its results.
use vstd::prelude::*;
use vstd::string::*;
use fuzzy_matcher::FuzzyMatcher;
use fuzzy_matcher::skim::SkimMatcherV2;
use crate::json::{JsonValue, field, text_of};
use crate::api::{IndexError, index_entries, tag_of};

verus! {

/// One match of a search.
#[derive(Debug, Clone, PartialEq, Eq)]
pub struct SearchResult {
    pub name: String,
    pub crate_name: String,
    pub item_type: String,
    pub path: Option<String>,
    pub description: Option<String>,
    pub score: i64,
}

pub ghost struct SearchResultView {
    pub name: Seq<char>,
    pub crate_name: Seq<char>,
    pub item_type: Seq<char>,
    pub path: Option<Seq<char>>,
    pub description: Option<Seq<char>>,
    pub score: i64,
}

pub open spec fn opt_text(s: Option<String>) -> Option<Seq<char>> {
    match s {
        Some(t) => Some(t@),
        None => None,
    }
}

impl View for SearchResult {
    type V = SearchResultView;

    open spec fn view(&self) -> SearchResultView {
        SearchResultView {
            name: self.name@,
            crate_name: self.crate_name@,
            item_type: self.item_type@,
            path: opt_text(self.path),
            description: opt_text(self.description),
            score: self.score,
        }
    }
}

pub open spec fn result_views(s: Seq<SearchResult>) -> Seq<SearchResultView> {
    s.map_values(|r: SearchResult| r@)
}

/// The score that the default skim matcher gives `choice` for `pattern`,
/// or none where it does not match.
pub uninterp spec fn skim_score(choice: Seq<char>, pattern: Seq<char>) -> Option<i64>;

/// Relies on fuzzy_matcher's `SkimMatcherV2::fuzzy_match`, in the default
/// configuration: its result depends on the two strings alone.
#[verifier::external_body]
fn skim_fuzzy_match(choice: &str, pattern: &str) -> (r: Option<i64>)
    ensures
        r == skim_score(choice@, pattern@),
{
    SkimMatcherV2::default().fuzzy_match(choice, pattern)
}

/// The kind label of an item as search reports it: the first key of its
/// `inner` object, or `unknown`.
pub open spec fn search_kind(item: JsonValue) -> Seq<char> {
    match tag_of(item) {
        Some(tag) => tag.0@,
        None => "unknown"@,
    }
}

/// The result for one index item, given the scorer's verdict on its name:
/// none for an unnamed item or one that did not match.
pub open spec fn candidate(item: JsonValue, crate_name: Seq<char>, score: Option<i64>) -> Option<
    SearchResultView,
> {
    match (text_of(field(item, "name"@)), score) {
        (Some(name), Some(sc)) => Some(
            SearchResultView {
                name,
                crate_name,
                item_type: search_kind(item),
                path: None,
                description: text_of(field(item, "docs"@)),
                score: sc,
            },
        ),
        _ => None,
    }
}

/// The results for the entries of an index, given one verdict per entry.
pub open spec fn matches_of(
    entries: Seq<(String, JsonValue)>,
    crate_name: Seq<char>,
    scores: Seq<Option<i64>>,
) -> Seq<SearchResultView>
    decreases entries.len(),
{
    if entries.len() == 0 {
        Seq::empty()
    } else {
        let n = (entries.len() - 1) as int;
        let rest = matches_of(entries.drop_last(), crate_name, scores.take(n));
        match candidate(entries.last().1, crate_name, scores[n]) {
            Some(v) => rest.push(v),
            None => rest,
        }
    }
}

/// The skim verdict on each entry's name; none for an unnamed entry.
pub open spec fn skim_scores(entries: Seq<(String, JsonValue)>, query: Seq<char>) -> Seq<Option<i64>> {
    entries.map_values(
        |e: (String, JsonValue)|
            match text_of(field(e.1, "name"@)) {
                Some(name) => skim_score(name, query),
                None => None,
            },
    )
}

fn copy_opt(s: &Option<String>) -> (r: Option<String>)
    ensures
        opt_text(r) == opt_text(*s),
{
    match s {
        Some(t) => Some(t.clone()),
        None => None,
    }
}

/// The results for the entries of an index, given the scorer's verdict on
/// each entry's name (`scores[i]` for `index[i]`): one for every named
/// entry with a score, in index order.
pub fn collect_matches(index: &Vec<(String, JsonValue)>, crate_name: &str, scores: &Vec<Option<i64>>) -> (r: Vec<SearchResult>)
    requires
        scores@.len() == index@.len(),
    ensures
        result_views(r@) == matches_of(index@, crate_name@, scores@),
{
    let mut out: Vec<SearchResult> = Vec::new();
    let mut i: usize = 0;
    while i < index.len()
        invariant
            scores@.len() == index@.len(),
            i <= index@.len(),
            result_views(out@) == matches_of(index@.take(i as int), crate_name@, scores@.take(i as int)),
        decreases index@.len() - i,
    {
        assert(index@.take(i as int + 1).drop_last() =~= index@.take(i as int));
        assert(scores@.take(i as int + 1).take(i as int) =~= scores@.take(i as int));
        let item = &index[i].1;
        let ghost prev = result_views(out@);
        match (item.get("name"), scores[i]) {
            (Some(JsonValue::Str(name)), Some(score)) => {
                let item_type = match item.get("inner") {
                    Some(JsonValue::Object(entries)) => if entries.len() > 0 {
                        entries[0].0.clone()
                    } else {
                        String::from_str("unknown")
                    },
                    _ => String::from_str("unknown"),
                };
                let description = match item.get("docs") {
                    Some(JsonValue::Str(d)) => Some(d.clone()),
                    _ => None,
                };
                let result = SearchResult {
                    name: name.clone(),
                    crate_name: String::from_str(crate_name),
                    item_type,
                    path: None,
                    description,
                    score,
                };
                out.push(result);
                assert(result_views(out@) =~= prev.push(result@));
            },
            _ => {},
        }
        i += 1;
    }
    assert(index@.take(index@.len() as int) =~= index@);
    assert(scores@.take(index@.len() as int) =~= scores@);
    out
}

/// Scores every named item of a document's index against `query` with the
/// skim matcher and returns those that match, in index order, labelled with
/// `crate_name`. Fails when the document has no `index` object.
pub fn fuzzy_search_json(json_data: &JsonValue, crate_name: &str, query: &str) -> (r: Result<
    Vec<SearchResult>,
    IndexError,
>)
    ensures
        match index_entries(*json_data) {
            Some(entries) => r matches Ok(found) && result_views(found@) == matches_of(
                entries,
                crate_name@,
                skim_scores(entries, query@),
            ),
            None => r is Err,
        },
{
    let index = match json_data.get("index") {
        Some(JsonValue::Object(entries)) => entries,
        _ => {
            return Err(IndexError::MissingIndex);
        },
    };
    let mut scores: Vec<Option<i64>> = Vec::new();
    let mut i: usize = 0;
    while i < index.len()
        invariant
            i <= index@.len(),
            scores@ == skim_scores(index@, query@).take(i as int),
        decreases index@.len() - i,
    {
        let score = match index[i].1.get("name") {
            Some(JsonValue::Str(name)) => skim_fuzzy_match(name.as_str(), query),
            _ => None,
        };
        scores.push(score);
        assert(scores@ =~= skim_scores(index@, query@).take(i as int + 1));
        i += 1;
    }
    assert(scores@ =~= skim_scores(index@, query@));
    Ok(collect_matches(index, crate_name, &scores))
}

/// `order` lists each index of `all` once, and the results it lists come
/// by score, highest first, with results of equal score in their order in
/// `all`.
pub open spec fn is_stable_ranking(all: Seq<SearchResultView>, order: Seq<int>) -> bool {
    &&& order.len() == all.len()
    &&& forall|k: int| 0 <= k < order.len() ==> 0 <= #[trigger] order[k] < all.len()
    &&& forall|a: int, b: int| 0 <= a < b < order.len() ==> #[trigger] order[a] != #[trigger] order[b]
    &&& forall|a: int, b: int|
        0 <= a < b < order.len() ==> all[#[trigger] order[a]].score >= all[#[trigger] order[b]].score
    &&& forall|a: int, b: int|
        0 <= a < b < order.len() && all[#[trigger] order[a]].score == all[#[trigger] order[b]].score
            ==> order[a] < order[b]
}

/// The results of `all` in the order that `order` lists them.
pub open spec fn arranged(all: Seq<SearchResultView>, order: Seq<int>) -> Seq<SearchResultView> {
    order.map_values(|k: int| all[k])
}

/// Sorts results by score, highest first, keeping results of equal score in
/// their given order, and keeps the first `limit`.
pub fn rank_results(results: Vec<SearchResult>, limit: usize) -> (r: Vec<SearchResult>)
    ensures
        exists|order: Seq<int>|
            is_stable_ranking(result_views(results@), order) && result_views(r@) == arranged(
                result_views(results@),
                order,
            ).take(
                if limit < results@.len() {
                    limit as int
                } else {
                    results@.len() as int
                },
            ),
{
    let ghost all = result_views(results@);
    let ghost n = all.len() as int;
    let mut rest = results;
    let mut acc: Vec<SearchResult> = Vec::new();
    let ghost mut order: Seq<int> = Seq::empty();
    assert(all.take(n) =~= all);
    while rest.len() > 0
        invariant
            n == all.len(),
            rest@.len() <= n,
            result_views(rest@) == all.take(rest@.len() as int),
            order.len() == acc@.len(),
            acc@.len() + rest@.len() == n,
            forall|k: int| 0 <= k < order.len() ==> rest@.len() <= #[trigger] order[k] < n,
            forall|k: int| 0 <= k < order.len() ==> acc@[k]@ == all[#[trigger] order[k]],
            forall|a: int, b: int| 0 <= a < b < order.len() ==> #[trigger] order[a] != #[trigger] order[b],
            forall|a: int, b: int|
                0 <= a < b < order.len() ==> all[#[trigger] order[a]].score >= all[#[trigger] order[b]].score,
            forall|a: int, b: int|
                0 <= a < b < order.len() && all[#[trigger] order[a]].score == all[#[trigger] order[b]].score
                    ==> order[a] < order[b],
        decreases rest@.len(),
    {
        let ghost m = rest@.len() as int - 1;
        let ghost old_rest = rest@;
        assert(all[m] == result_views(old_rest)[m]);
        let x = rest.pop().unwrap();
        assert(x == old_rest[m]);
        assert(x@ == all[m]);
        assert(result_views(rest@) =~= all.take(m));
        let mut pos: usize = 0;
        while pos < acc.len() && acc[pos].score > x.score
            invariant
                pos <= acc@.len(),
                forall|q: int| 0 <= q < pos ==> (#[trigger] acc@[q]).score > x.score,
            decreases acc@.len() - pos,
        {
            pos += 1;
        }
        let ghost before = order;
        let ghost before_acc = acc@;
        acc.insert(pos, x);
        proof {
            order = before.insert(pos as int, m);
            assert forall|k: int| 0 <= k < order.len() implies acc@[k]@ == all[#[trigger] order[k]] by {
                if k < pos {
                    assert(acc@[k] == before_acc[k]);
                } else if k > pos {
                    assert(acc@[k] == before_acc[k - 1]);
                    assert(order[k] == before[k - 1]);
                }
            }
            assert forall|k: int| 0 <= k < order.len() implies m <= #[trigger] order[k] < n by {
                if k > pos {
                    assert(order[k] == before[k - 1]);
                }
            }
            assert forall|a: int, b: int| 0 <= a < b < order.len() implies #[trigger] order[a]
                != #[trigger] order[b] by {
                if a == pos {
                    assert(order[b] == before[b - 1]);
                } else if b == pos {
                    assert(order[a] == before[a]);
                } else if a < pos && b > pos {
                    assert(order[b] == before[b - 1]);
                } else if a > pos {
                    assert(order[b] == before[b - 1]);
                    assert(order[a] == before[a - 1]);
                }
            }
            assert forall|a: int, b: int| 0 <= a < b < order.len() implies all[#[trigger] order[a]].score
                >= all[#[trigger] order[b]].score && (all[order[a]].score == all[order[b]].score ==> order[a]
                < order[b]) by {
                if a == pos {
                    assert(order[b] == before[b - 1]);
                    if pos < before.len() {
                        assert(all[before[pos as int]].score == before_acc[pos as int]@.score);
                        assert(before_acc[pos as int].score <= x.score);
                        if b - 1 > pos {
                            assert(all[before[pos as int]].score >= all[before[b - 1]].score);
                        }
                    }
                } else if b == pos {
                    assert(order[a] == before[a]);
                    assert(before_acc[a].score > x.score);
                    assert(all[before[a]].score == before_acc[a]@.score);
                } else if a < pos && b > pos {
                    assert(order[a] == before[a]);
                    assert(order[b] == before[b - 1]);
                } else if a > pos {
                    assert(order[b] == before[b - 1]);
                    assert(order[a] == before[a - 1]);
                } else {
                    assert(order[a] == before[a]);
                    assert(order[b] == before[b]);
                }
            }
        }
    }
    proof {
        assert(is_stable_ranking(all, order));
        assert(result_views(acc@) =~= arranged(all, order));
    }
    let ghost sorted = result_views(acc@);
    if limit < acc.len() {
        acc.truncate(limit);
        assert(result_views(acc@) =~= sorted.take(limit as int));
    } else {
        assert(sorted.take(sorted.len() as int) =~= sorted);
    }
    acc
}

} // verus!
