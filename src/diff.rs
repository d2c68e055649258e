//! Comparison of two normalized item collections.
//!
//! Two items are the same declaration when their identity keys agree: the
//! full path, `::`, then the kind, compared as text. Where one side lists a
//! declaration more than once, its last occurrence stands for it. Every
//! result is sorted by full path, then kind.
use vstd::prelude::*;
use crate::api::{ApiItem, ApiItemView, views, full_path_of};
use crate::text::{seq_lt, lex_less, str_eq, lemma_seq_lt_irreflexive, lemma_seq_lt_transitive,
    lemma_seq_lt_total};

verus! {

/// The identity key of an item: its full path, `::`, its kind.
pub open spec fn identity_key(a: ApiItemView) -> Seq<char> {
    full_path_of(a) + "::"@ + a.item_type
}

/// Whether two items are the same declaration: their identity keys agree.
pub open spec fn same_id(a: ApiItemView, b: ApiItemView) -> bool {
    identity_key(a) == identity_key(b)
}

/// The order in which declarations are looked up: by identity key.
pub open spec fn key_lt(a: ApiItemView, b: ApiItemView) -> bool {
    seq_lt(identity_key(a), identity_key(b))
}

pub open spec fn key_sorted(s: Seq<ApiItemView>) -> bool {
    forall|i: int, j: int| 0 <= i < j < s.len() ==> key_lt(#[trigger] s[i], #[trigger] s[j])
}

/// The order of results: by full path, then by kind.
pub open spec fn item_lt(a: ApiItemView, b: ApiItemView) -> bool {
    seq_lt(full_path_of(a), full_path_of(b)) || (full_path_of(a) == full_path_of(b) && seq_lt(
        a.item_type,
        b.item_type,
    ))
}

pub open spec fn strictly_sorted(s: Seq<ApiItemView>) -> bool {
    forall|i: int, j: int| 0 <= i < j < s.len() ==> item_lt(#[trigger] s[i], #[trigger] s[j])
}

/// Whether some item of `s` is the same declaration as `v`.
pub open spec fn has_id(s: Seq<ApiItemView>, v: ApiItemView) -> bool {
    exists|i: int| 0 <= i < s.len() && same_id(#[trigger] s[i], v)
}

/// Whether `v` stands at some index of `s` with no later item of the same identity.
pub open spec fn is_last_occurrence(s: Seq<ApiItemView>, v: ApiItemView, from: int) -> bool {
    exists|k: int|
        from <= k < s.len() && s[k] == v && forall|j: int| k < j < s.len() ==> !same_id(#[trigger] s[j], v)
}

/// The items that stand for the declarations of `s`: the last occurrence of each.
pub open spec fn survivors(s: Seq<ApiItemView>) -> Set<ApiItemView> {
    Set::new(|v: ApiItemView| is_last_occurrence(s, v, 0))
}

/// Declarations of `new` that `old` lacks.
pub open spec fn added_set(old: Seq<ApiItemView>, new: Seq<ApiItemView>) -> Set<ApiItemView> {
    Set::new(|v: ApiItemView| survivors(new).contains(v) && !has_id(old, v))
}

/// Declarations of `old` that `new` lacks.
pub open spec fn removed_set(old: Seq<ApiItemView>, new: Seq<ApiItemView>) -> Set<ApiItemView> {
    Set::new(|v: ApiItemView| survivors(old).contains(v) && !has_id(new, v))
}

/// Declarations on both sides whose signatures differ, as (old, new).
pub open spec fn modified_set(old: Seq<ApiItemView>, new: Seq<ApiItemView>) -> Set<
    (ApiItemView, ApiItemView),
> {
    Set::new(
        |p: (ApiItemView, ApiItemView)|
            survivors(old).contains(p.0) && survivors(new).contains(p.1) && same_id(p.0, p.1)
                && p.0.signature != p.1.signature,
    )
}

/// `s` lists the members of `set`, each once, in result order.
pub open spec fn lists_exactly(s: Seq<ApiItemView>, set: Set<ApiItemView>) -> bool {
    strictly_sorted(s) && forall|v: ApiItemView| s.contains(v) <==> set.contains(v)
}

pub open spec fn firsts(s: Seq<(ApiItemView, ApiItemView)>) -> Seq<ApiItemView> {
    s.map_values(|p: (ApiItemView, ApiItemView)| p.0)
}

pub open spec fn pair_views(s: Seq<(ApiItem, ApiItem)>) -> Seq<(ApiItemView, ApiItemView)> {
    s.map_values(|p: (ApiItem, ApiItem)| (p.0@, p.1@))
}

/// What comparing `old` with `new` reports: the added, removed and
/// modified declarations, each listed once and in result order.
pub open spec fn is_change_report(
    old: Seq<ApiItemView>,
    new: Seq<ApiItemView>,
    added: Seq<ApiItemView>,
    removed: Seq<ApiItemView>,
    modified: Seq<(ApiItemView, ApiItemView)>,
) -> bool {
    &&& lists_exactly(added, added_set(old, new))
    &&& lists_exactly(removed, removed_set(old, new))
    &&& strictly_sorted(firsts(modified))
    &&& forall|p: (ApiItemView, ApiItemView)|
        modified.contains(p) <==> modified_set(old, new).contains(p)
}

pub proof fn lemma_item_lt_irreflexive(a: ApiItemView)
    ensures
        !item_lt(a, a),
{
    lemma_seq_lt_irreflexive(full_path_of(a));
    lemma_seq_lt_irreflexive(a.item_type);
}

pub proof fn lemma_item_lt_transitive(a: ApiItemView, b: ApiItemView, c: ApiItemView)
    requires
        item_lt(a, b),
        item_lt(b, c),
    ensures
        item_lt(a, c),
{
    let (fa, fb, fc) = (full_path_of(a), full_path_of(b), full_path_of(c));
    if seq_lt(fa, fb) && seq_lt(fb, fc) {
        lemma_seq_lt_transitive(fa, fb, fc);
    } else if seq_lt(fa, fb) {
    } else if seq_lt(fb, fc) {
    } else {
        lemma_seq_lt_transitive(a.item_type, b.item_type, c.item_type);
    }
}

pub proof fn lemma_item_lt_total(a: ApiItemView, b: ApiItemView)
    requires
        !same_id(a, b),
    ensures
        item_lt(a, b) || item_lt(b, a),
{
    if full_path_of(a) != full_path_of(b) {
        lemma_seq_lt_total(full_path_of(a), full_path_of(b));
    } else {
        if a.item_type == b.item_type {
            assert(identity_key(a) == identity_key(b));
        }
        lemma_seq_lt_total(a.item_type, b.item_type);
    }
}

pub proof fn lemma_key_lt_irreflexive(a: ApiItemView)
    ensures
        !key_lt(a, a),
{
    lemma_seq_lt_irreflexive(identity_key(a));
}

pub proof fn lemma_key_lt_transitive(a: ApiItemView, b: ApiItemView, c: ApiItemView)
    requires
        key_lt(a, b),
        key_lt(b, c),
    ensures
        key_lt(a, c),
{
    lemma_seq_lt_transitive(identity_key(a), identity_key(b), identity_key(c));
}

pub proof fn lemma_key_lt_total(a: ApiItemView, b: ApiItemView)
    requires
        !same_id(a, b),
    ensures
        key_lt(a, b) || key_lt(b, a),
{
    lemma_seq_lt_total(identity_key(a), identity_key(b));
}

/// An item together with its full path and identity key, computed once.
struct Keyed {
    path: String,
    key: String,
    item: ApiItem,
}

impl Keyed {
    spec fn wf(&self) -> bool {
        &&& self.path@ == full_path_of(self.item@)
        &&& self.key@ == identity_key(self.item@)
    }

    fn copy(&self) -> (r: Keyed)
        requires
            self.wf(),
        ensures
            r.wf(),
            r.item@ == self.item@,
    {
        Keyed { path: self.path.clone(), key: self.key.clone(), item: self.item.duplicate() }
    }
}

spec fn kv(ks: Seq<Keyed>) -> Seq<ApiItemView> {
    ks.map_values(|k: Keyed| k.item@)
}

spec fn all_wf(ks: Seq<Keyed>) -> bool {
    forall|i: int| 0 <= i < ks.len() ==> (#[trigger] ks[i]).wf()
}

fn keyed(item: &ApiItem) -> (r: Keyed)
    ensures
        r.wf(),
        r.item@ == item@,
{
    let path = item.full_path();
    let mut key = path.clone();
    key.append("::");
    key.append(item.item_type.as_str());
    Keyed { path, key, item: item.duplicate() }
}

fn keyed_lt(a: &Keyed, b: &Keyed) -> (r: bool)
    requires
        a.wf(),
        b.wf(),
    ensures
        r == item_lt(a.item@, b.item@),
{
    lex_less(a.path.as_str(), b.path.as_str()) || (str_eq(a.path.as_str(), b.path.as_str())
        && lex_less(a.item.item_type.as_str(), b.item.item_type.as_str()))
}

fn keyed_same(a: &Keyed, b: &Keyed) -> (r: bool)
    requires
        a.wf(),
        b.wf(),
    ensures
        r == same_id(a.item@, b.item@),
{
    str_eq(a.key.as_str(), b.key.as_str())
}

fn keyed_key_lt(a: &Keyed, b: &Keyed) -> (r: bool)
    requires
        a.wf(),
        b.wf(),
    ensures
        r == key_lt(a.item@, b.item@),
{
    lex_less(a.key.as_str(), b.key.as_str())
}

/// The first index of a sequence sorted by identity key whose item does not
/// come before `x` in that order.
fn find_slot(ks: &Vec<Keyed>, x: &Keyed) -> (r: usize)
    requires
        key_sorted(kv(ks@)),
        all_wf(ks@),
        x.wf(),
    ensures
        r <= ks@.len(),
        forall|q: int| 0 <= q < r ==> key_lt(#[trigger] kv(ks@)[q], x.item@),
        forall|q: int| r <= q < ks@.len() ==> !key_lt(#[trigger] kv(ks@)[q], x.item@),
{
    let ghost s = kv(ks@);
    let mut lo: usize = 0;
    let mut hi: usize = ks.len();
    while lo < hi
        invariant
            s == kv(ks@),
            key_sorted(s),
            all_wf(ks@),
            x.wf(),
            lo <= hi <= ks@.len(),
            forall|q: int| 0 <= q < lo ==> key_lt(#[trigger] s[q], x.item@),
            forall|q: int| hi <= q < ks@.len() ==> !key_lt(#[trigger] s[q], x.item@),
        decreases hi - lo,
    {
        let mid = lo + (hi - lo) / 2;
        assert(ks@[mid as int].wf());
        if keyed_key_lt(&ks[mid], x) {
            assert forall|q: int| 0 <= q < mid + 1 implies key_lt(#[trigger] s[q], x.item@) by {
                if q < mid {
                    lemma_key_lt_transitive(s[q], s[mid as int], x.item@);
                }
            }
            lo = mid + 1;
        } else {
            assert forall|q: int| mid <= q < ks@.len() implies !key_lt(#[trigger] s[q], x.item@) by {
                if mid < q && key_lt(s[q], x.item@) {
                    lemma_key_lt_transitive(s[mid as int], s[q], x.item@);
                }
            }
            hi = mid;
        }
    }
    lo
}

/// In a sequence sorted by identity key, an item with `x`'s key can only
/// stand at `x`'s slot.
proof fn lemma_slot_decides(s: Seq<ApiItemView>, p: int, x: ApiItemView)
    requires
        key_sorted(s),
        0 <= p <= s.len(),
        forall|q: int| 0 <= q < p ==> key_lt(#[trigger] s[q], x),
        forall|q: int| p <= q < s.len() ==> !key_lt(#[trigger] s[q], x),
    ensures
        has_id(s, x) <==> (p < s.len() && same_id(s[p], x)),
        p < s.len() && !same_id(s[p], x) ==> forall|q: int| p <= q < s.len() ==> key_lt(x, #[trigger] s[q]),
{
    lemma_key_lt_irreflexive(x);
    if has_id(s, x) {
        let q = choose|q: int| 0 <= q < s.len() && same_id(#[trigger] s[q], x);
        if q < p {
            assert(key_lt(s[q], x));
        } else if q > p {
            assert(key_lt(s[p], s[q]));
        }
    }
    if p < s.len() && !same_id(s[p], x) {
        lemma_key_lt_total(s[p], x);
        assert forall|q: int| p <= q < s.len() implies key_lt(x, #[trigger] s[q]) by {
            if q > p {
                lemma_key_lt_transitive(x, s[p], s[q]);
            }
        }
    }
}

/// The last occurrence of each declaration of `items`, sorted by identity key.
fn survivors_sorted(items: &Vec<ApiItem>) -> (r: Vec<Keyed>)
    ensures
        all_wf(r@),
        key_sorted(kv(r@)),
        forall|v: ApiItemView| kv(r@).contains(v) <==> survivors(views(items@)).contains(v),
        forall|v: ApiItemView| has_id(kv(r@), v) <==> has_id(views(items@), v),
{
    let ghost s = views(items@);
    let n = items.len();
    let mut kept: Vec<Keyed> = Vec::new();
    let mut i: usize = n;
    while i > 0
        invariant
            s == views(items@),
            n == s.len(),
            i <= n,
            all_wf(kept@),
            key_sorted(kv(kept@)),
            forall|v: ApiItemView| kv(kept@).contains(v) <==> is_last_occurrence(s, v, i as int),
            forall|v: ApiItemView|
                has_id(kv(kept@), v) <==> exists|k: int| i <= k < n && same_id(#[trigger] s[k], v),
        decreases i,
    {
        i -= 1;
        let x = keyed(&items[i]);
        let ghost xv = x.item@;
        assert(xv == s[i as int]);
        let ghost old_k = kv(kept@);
        let p = find_slot(&kept, &x);
        proof {
            lemma_slot_decides(old_k, p as int, xv);
        }
        let found = p < kept.len() && keyed_same(&kept[p], &x);
        if !found {
            kept.insert(p, x);
            proof {
                let new_k = kv(kept@);
                assert(new_k =~= old_k.insert(p as int, xv));
                assert forall|a: int, b: int| 0 <= a < b < new_k.len() implies key_lt(
                    #[trigger] new_k[a],
                    #[trigger] new_k[b],
                ) by {
                    if b < p {
                    } else if b == p {
                    } else if a < p {
                        lemma_key_lt_transitive(new_k[a], xv, new_k[b]);
                    } else if a == p {
                    } else {
                    }
                }
                assert forall|v: ApiItemView| new_k.contains(v) <==> is_last_occurrence(s, v, i as int) by {
                    if v == xv {
                        assert(new_k[p as int] == xv);
                        assert forall|j: int| i < j < n implies !same_id(#[trigger] s[j], v) by {
                            if same_id(s[j], v) {
                                assert(has_id(old_k, v));
                            }
                        }
                    } else {
                        if new_k.contains(v) {
                            let q = choose|q: int| 0 <= q < new_k.len() && new_k[q] == v;
                            if q < p {
                                assert(old_k[q] == v);
                            } else {
                                assert(old_k[q - 1] == v);
                            }
                            assert(old_k.contains(v));
                        }
                        if old_k.contains(v) {
                            let q = choose|q: int| 0 <= q < old_k.len() && old_k[q] == v;
                            if q < p {
                                assert(new_k[q] == v);
                            } else {
                                assert(new_k[q + 1] == v);
                            }
                        }
                        if is_last_occurrence(s, v, i as int) {
                            let k = choose|k: int|
                                i <= k < s.len() && s[k] == v && forall|j: int|
                                    k < j < s.len() ==> !same_id(#[trigger] s[j], v);
                            assert(k != i);
                            assert(is_last_occurrence(s, v, i + 1));
                        }
                        if is_last_occurrence(s, v, i + 1) {
                            let k = choose|k: int|
                                i + 1 <= k < s.len() && s[k] == v && forall|j: int|
                                    k < j < s.len() ==> !same_id(#[trigger] s[j], v);
                            assert(is_last_occurrence(s, v, i as int));
                        }
                    }
                }
                assert forall|v: ApiItemView| has_id(new_k, v) <==> exists|k: int|
                    i <= k < n && same_id(#[trigger] s[k], v) by {
                    if has_id(new_k, v) {
                        let q = choose|q: int| 0 <= q < new_k.len() && same_id(#[trigger] new_k[q], v);
                        if q < p {
                            assert(same_id(old_k[q], v));
                            assert(has_id(old_k, v));
                            let k = choose|k: int| i + 1 <= k < n && same_id(#[trigger] s[k], v);
                            assert(i <= k < n && same_id(s[k], v));
                        } else if q == p {
                            assert(same_id(s[i as int], v));
                        } else {
                            assert(same_id(old_k[q - 1], v));
                            assert(has_id(old_k, v));
                            let k = choose|k: int| i + 1 <= k < n && same_id(#[trigger] s[k], v);
                            assert(i <= k < n && same_id(s[k], v));
                        }
                    }
                    if exists|k: int| i <= k < n && same_id(#[trigger] s[k], v) {
                        let k = choose|k: int| i <= k < n && same_id(#[trigger] s[k], v);
                        if k == i {
                            assert(same_id(new_k[p as int], v));
                        } else {
                            assert(has_id(old_k, v));
                            let q = choose|q: int| 0 <= q < old_k.len() && same_id(#[trigger] old_k[q], v);
                            if q < p {
                                assert(same_id(new_k[q], v));
                            } else {
                                assert(same_id(new_k[q + 1], v));
                            }
                        }
                    }
                }
            }
        } else {
            proof {
                assert(same_id(old_k[p as int], xv));
                assert forall|v: ApiItemView| old_k.contains(v) <==> is_last_occurrence(s, v, i as int) by {
                    if is_last_occurrence(s, v, i as int) {
                        let k = choose|k: int|
                            i <= k < s.len() && s[k] == v && forall|j: int|
                                k < j < s.len() ==> !same_id(#[trigger] s[j], v);
                        if k == i {
                            assert(has_id(old_k, v));
                            let k2 = choose|k2: int| i + 1 <= k2 < n && same_id(#[trigger] s[k2], v);
                            assert(!same_id(s[k2], v));
                        }
                        assert(is_last_occurrence(s, v, i + 1));
                    }
                    if is_last_occurrence(s, v, i + 1) {
                        let k = choose|k: int|
                            i + 1 <= k < s.len() && s[k] == v && forall|j: int|
                                k < j < s.len() ==> !same_id(#[trigger] s[j], v);
                        assert(is_last_occurrence(s, v, i as int));
                    }
                }
                assert forall|v: ApiItemView| has_id(old_k, v) <==> exists|k: int|
                    i <= k < n && same_id(#[trigger] s[k], v) by {
                    if exists|k: int| i <= k < n && same_id(#[trigger] s[k], v) {
                        let k = choose|k: int| i <= k < n && same_id(#[trigger] s[k], v);
                        if k == i {
                            assert(same_id(old_k[p as int], v));
                        }
                    }
                }
            }
        }
    }
    proof {
        assert forall|v: ApiItemView| kv(kept@).contains(v) <==> survivors(s).contains(v) by {}
        assert forall|v: ApiItemView| has_id(kv(kept@), v) <==> has_id(s, v) by {
            if has_id(s, v) {
                let k = choose|k: int| 0 <= k < s.len() && same_id(#[trigger] s[k], v);
                assert(exists|k: int| 0 <= k < n && same_id(#[trigger] s[k], v));
            }
        }
    }
    kept
}

/// The first index of a sequence sorted by full path whose item does not
/// come before `x` in that order.
fn find_path_slot(ks: &Vec<Keyed>, x: &Keyed) -> (r: usize)
    requires
        strictly_sorted(kv(ks@)),
        all_wf(ks@),
        x.wf(),
    ensures
        r <= ks@.len(),
        forall|q: int| 0 <= q < r ==> item_lt(#[trigger] kv(ks@)[q], x.item@),
        forall|q: int| r <= q < ks@.len() ==> !item_lt(#[trigger] kv(ks@)[q], x.item@),
{
    let ghost s = kv(ks@);
    let mut lo: usize = 0;
    let mut hi: usize = ks.len();
    while lo < hi
        invariant
            s == kv(ks@),
            strictly_sorted(s),
            all_wf(ks@),
            x.wf(),
            lo <= hi <= ks@.len(),
            forall|q: int| 0 <= q < lo ==> item_lt(#[trigger] s[q], x.item@),
            forall|q: int| hi <= q < ks@.len() ==> !item_lt(#[trigger] s[q], x.item@),
        decreases hi - lo,
    {
        let mid = lo + (hi - lo) / 2;
        assert(ks@[mid as int].wf());
        if keyed_lt(&ks[mid], x) {
            assert forall|q: int| 0 <= q < mid + 1 implies item_lt(#[trigger] s[q], x.item@) by {
                if q < mid {
                    lemma_item_lt_transitive(s[q], s[mid as int], x.item@);
                }
            }
            lo = mid + 1;
        } else {
            assert forall|q: int| mid <= q < ks@.len() implies !item_lt(#[trigger] s[q], x.item@) by {
                if mid < q && item_lt(s[q], x.item@) {
                    lemma_item_lt_transitive(s[mid as int], s[q], x.item@);
                }
            }
            hi = mid;
        }
    }
    lo
}

/// The items of a sequence with distinct identity keys, sorted by full path, then kind.
fn sort_by_path(ks: &Vec<Keyed>) -> (r: Vec<Keyed>)
    requires
        all_wf(ks@),
        key_sorted(kv(ks@)),
    ensures
        all_wf(r@),
        strictly_sorted(kv(r@)),
        forall|v: ApiItemView| kv(r@).contains(v) <==> kv(ks@).contains(v),
{
    let ghost s = kv(ks@);
    let mut out: Vec<Keyed> = Vec::new();
    let mut i: usize = 0;
    while i < ks.len()
        invariant
            s == kv(ks@),
            all_wf(ks@),
            key_sorted(s),
            i <= ks@.len(),
            all_wf(out@),
            strictly_sorted(kv(out@)),
            forall|v: ApiItemView| kv(out@).contains(v) <==> exists|j: int| 0 <= j < i && #[trigger] s[j] == v,
        decreases ks@.len() - i,
    {
        assert(ks@[i as int].wf());
        let x = ks[i].copy();
        let ghost xv = x.item@;
        let ghost before = kv(out@);
        let p = find_path_slot(&out, &x);
        proof {
            lemma_item_lt_irreflexive(xv);
            lemma_key_lt_irreflexive(xv);
            if p < before.len() {
                assert(before.contains(before[p as int]));
                let j = choose|j: int| 0 <= j < i && #[trigger] s[j] == before[p as int];
                assert(key_lt(s[j], s[i as int]));
                lemma_item_lt_total(before[p as int], xv);
            }
            assert forall|q: int| p <= q < before.len() implies item_lt(xv, #[trigger] before[q]) by {
                if q > p {
                    lemma_item_lt_transitive(xv, before[p as int], before[q]);
                }
            }
        }
        out.insert(p, x);
        proof {
            let cur = kv(out@);
            assert(cur =~= before.insert(p as int, xv));
            assert forall|a: int, b: int| 0 <= a < b < cur.len() implies item_lt(
                #[trigger] cur[a],
                #[trigger] cur[b],
            ) by {
                if b < p {
                } else if b == p {
                } else if a < p {
                    lemma_item_lt_transitive(cur[a], xv, cur[b]);
                } else if a == p {
                } else {
                }
            }
            assert forall|v: ApiItemView| cur.contains(v) <==> exists|j: int| 0 <= j < i + 1 && #[trigger] s[j] == v by {
                if cur.contains(v) {
                    let q = choose|q: int| 0 <= q < cur.len() && cur[q] == v;
                    if q < p {
                        assert(before[q] == v);
                        assert(before.contains(v));
                    } else if q > p {
                        assert(before[q - 1] == v);
                        assert(before.contains(v));
                    } else {
                        assert(s[i as int] == v);
                    }
                }
                if exists|j: int| 0 <= j < i + 1 && #[trigger] s[j] == v {
                    let j = choose|j: int| 0 <= j < i + 1 && #[trigger] s[j] == v;
                    if j == i {
                        assert(cur[p as int] == v);
                    } else {
                        assert(before.contains(v));
                        let q = choose|q: int| 0 <= q < before.len() && before[q] == v;
                        if q < p {
                            assert(cur[q] == v);
                        } else {
                            assert(cur[q + 1] == v);
                        }
                    }
                }
            }
        }
        i += 1;
    }
    proof {
        assert forall|v: ApiItemView| kv(out@).contains(v) <==> s.contains(v) by {
            if s.contains(v) {
                let j = choose|j: int| 0 <= j < s.len() && s[j] == v;
                assert(0 <= j < ks@.len() && s[j] == v);
            }
        }
    }
    out
}

/// The items of `from` whose declaration `other` lacks, in order.
fn only_in(from: &Vec<Keyed>, other: &Vec<Keyed>) -> (r: Vec<ApiItem>)
    requires
        all_wf(from@),
        all_wf(other@),
        strictly_sorted(kv(from@)),
        key_sorted(kv(other@)),
    ensures
        strictly_sorted(views(r@)),
        forall|v: ApiItemView|
            views(r@).contains(v) <==> (kv(from@).contains(v) && !has_id(kv(other@), v)),
{
    let ghost f = kv(from@);
    let ghost o = kv(other@);
    let mut out: Vec<ApiItem> = Vec::new();
    let mut i: usize = 0;
    while i < from.len()
        invariant
            f == kv(from@),
            o == kv(other@),
            all_wf(from@),
            all_wf(other@),
            strictly_sorted(f),
            key_sorted(o),
            i <= from@.len(),
            strictly_sorted(views(out@)),
            forall|v: ApiItemView|
                views(out@).contains(v) <==> exists|j: int|
                    0 <= j < i && #[trigger] f[j] == v && !has_id(o, v),
        decreases from@.len() - i,
    {
        assert(from@[i as int].wf());
        let p = find_slot(other, &from[i]);
        proof {
            lemma_slot_decides(o, p as int, f[i as int]);
        }
        let present = p < other.len() && keyed_same(&other[p], &from[i]);
        let ghost prev = views(out@);
        if !present {
            out.push(from[i].item.duplicate());
            proof {
                let cur = views(out@);
                assert(cur =~= prev.push(f[i as int]));
                assert forall|a: int, b: int| 0 <= a < b < cur.len() implies item_lt(
                    #[trigger] cur[a],
                    #[trigger] cur[b],
                ) by {
                    if b == prev.len() {
                        assert(prev.contains(cur[a]));
                        let j = choose|j: int| 0 <= j < i && #[trigger] f[j] == cur[a] && !has_id(o, cur[a]);
                        assert(item_lt(f[j], f[i as int]));
                    }
                }
                assert forall|v: ApiItemView| cur.contains(v) <==> exists|j: int|
                    0 <= j < i + 1 && #[trigger] f[j] == v && !has_id(o, v) by {
                    if cur.contains(v) && v != f[i as int] {
                        let q = choose|q: int| 0 <= q < cur.len() && cur[q] == v;
                        assert(prev[q] == v);
                        assert(prev.contains(v));
                        let j = choose|j: int| 0 <= j < i && #[trigger] f[j] == v && !has_id(o, v);
                        assert(0 <= j < i + 1 && f[j] == v && !has_id(o, v));
                    }
                    if v == f[i as int] {
                        assert(cur[prev.len() as int] == v);
                        assert(!has_id(o, v));
                        assert(0 <= i < i + 1 && f[i as int] == v && !has_id(o, v));
                    } else if exists|j: int| 0 <= j < i + 1 && #[trigger] f[j] == v && !has_id(o, v) {
                        assert(prev.contains(v));
                        let q = choose|q: int| 0 <= q < prev.len() && prev[q] == v;
                        assert(cur[q] == v);
                    }
                }
            }
        } else {
            proof {
                assert forall|v: ApiItemView| prev.contains(v) <==> exists|j: int|
                    0 <= j < i + 1 && #[trigger] f[j] == v && !has_id(o, v) by {
                    if exists|j: int| 0 <= j < i + 1 && #[trigger] f[j] == v && !has_id(o, v) {
                        let j = choose|j: int| 0 <= j < i + 1 && #[trigger] f[j] == v && !has_id(o, v);
                        if j == i {
                            assert(has_id(o, v));
                        }
                    }
                }
            }
        }
        i += 1;
    }
    proof {
        assert forall|v: ApiItemView| views(out@).contains(v) <==> (f.contains(v) && !has_id(o, v)) by {
            if f.contains(v) && !has_id(o, v) {
                let j = choose|j: int| 0 <= j < f.len() && f[j] == v;
                assert(0 <= j < from@.len() && f[j] == v && !has_id(o, v));
            }
        }
    }
    out
}

/// The pairs of an item of `olds` and the item of `news` of the same
/// declaration, where their signatures differ; in the order of `olds`.
fn changed_pairs(olds: &Vec<Keyed>, news: &Vec<Keyed>) -> (r: Vec<(ApiItem, ApiItem)>)
    requires
        all_wf(olds@),
        all_wf(news@),
        strictly_sorted(kv(olds@)),
        key_sorted(kv(news@)),
    ensures
        strictly_sorted(firsts(pair_views(r@))),
        forall|pr: (ApiItemView, ApiItemView)|
            pair_views(r@).contains(pr) <==> (kv(olds@).contains(pr.0) && kv(news@).contains(pr.1)
                && same_id(pr.0, pr.1) && pr.0.signature != pr.1.signature),
{
    let ghost f = kv(olds@);
    let ghost o = kv(news@);
    let mut out: Vec<(ApiItem, ApiItem)> = Vec::new();
    let mut i: usize = 0;
    while i < olds.len()
        invariant
            f == kv(olds@),
            o == kv(news@),
            all_wf(olds@),
            all_wf(news@),
            strictly_sorted(f),
            key_sorted(o),
            i <= olds@.len(),
            strictly_sorted(firsts(pair_views(out@))),
            forall|pr: (ApiItemView, ApiItemView)|
                pair_views(out@).contains(pr) <==> exists|j: int|
                    0 <= j < i && #[trigger] f[j] == pr.0 && o.contains(pr.1) && same_id(pr.0, pr.1)
                        && pr.0.signature != pr.1.signature,
        decreases olds@.len() - i,
    {
        assert(olds@[i as int].wf());
        let x = &olds[i];
        let ghost xv = f[i as int];
        let p = find_slot(news, x);
        proof {
            lemma_slot_decides(o, p as int, xv);
            lemma_item_lt_irreflexive(xv);
            lemma_key_lt_irreflexive(xv);
        }
        let ghost prev = pair_views(out@);
        if p < news.len() && keyed_same(&news[p], x) {
            assert(news@[p as int].wf());
            let y = &news[p];
            let ghost yv = o[p as int];
            proof {
                assert forall|q: int| 0 <= q < o.len() && same_id(#[trigger] o[q], xv) implies q == p by {
                    if q < p {
                        assert(key_lt(o[q], o[p as int]));
                    } else if q > p {
                        assert(key_lt(o[p as int], o[q]));
                    }
                }
            }
            if !str_eq(x.item.signature.as_str(), y.item.signature.as_str()) {
                out.push((x.item.duplicate(), y.item.duplicate()));
                proof {
                    let cur = pair_views(out@);
                    assert(cur =~= prev.push((xv, yv)));
                    assert(firsts(cur) =~= firsts(prev).push(xv));
                    let fc = firsts(cur);
                    assert forall|a: int, b: int| 0 <= a < b < fc.len() implies item_lt(
                        #[trigger] fc[a],
                        #[trigger] fc[b],
                    ) by {
                        if b == prev.len() {
                            assert(prev.contains(cur[a]));
                            let j = choose|j: int|
                                0 <= j < i && #[trigger] f[j] == cur[a].0 && o.contains(cur[a].1)
                                    && same_id(cur[a].0, cur[a].1) && cur[a].0.signature
                                    != cur[a].1.signature;
                            assert(item_lt(f[j], f[i as int]));
                        }
                    }
                    assert forall|pr: (ApiItemView, ApiItemView)| cur.contains(pr) <==> exists|j: int|
                        0 <= j < i + 1 && #[trigger] f[j] == pr.0 && o.contains(pr.1) && same_id(
                            pr.0,
                            pr.1,
                        ) && pr.0.signature != pr.1.signature by {
                        if cur.contains(pr) && pr != (xv, yv) {
                            let q = choose|q: int| 0 <= q < cur.len() && cur[q] == pr;
                            assert(prev[q] == pr);
                            assert(prev.contains(pr));
                            let j = choose|j: int|
                                0 <= j < i && #[trigger] f[j] == pr.0 && o.contains(pr.1)
                                    && same_id(pr.0, pr.1) && pr.0.signature != pr.1.signature;
                            assert(0 <= j < i + 1 && f[j] == pr.0);
                        }
                        if pr == (xv, yv) {
                            assert(cur[prev.len() as int] == pr);
                            assert(f[i as int] == pr.0);
                            assert(o[p as int] == pr.1);
                            assert(o.contains(pr.1));
                            assert(0 <= i < i + 1 && f[i as int] == pr.0 && o.contains(pr.1) && same_id(
                                pr.0,
                                pr.1,
                            ) && pr.0.signature != pr.1.signature);
                        } else if exists|j: int|
                            0 <= j < i + 1 && #[trigger] f[j] == pr.0 && o.contains(pr.1) && same_id(
                                pr.0,
                                pr.1,
                            ) && pr.0.signature != pr.1.signature {
                            let j = choose|j: int|
                                0 <= j < i + 1 && #[trigger] f[j] == pr.0 && o.contains(pr.1)
                                    && same_id(pr.0, pr.1) && pr.0.signature != pr.1.signature;
                            if j == i {
                                let q = choose|q: int| 0 <= q < o.len() && o[q] == pr.1;
                                assert(same_id(o[q], xv));
                                assert(q == p);
                            }
                            assert(prev.contains(pr));
                            let q = choose|q: int| 0 <= q < prev.len() && prev[q] == pr;
                            assert(cur[q] == pr);
                        }
                    }
                }
            } else {
                proof {
                    assert forall|pr: (ApiItemView, ApiItemView)| prev.contains(pr) <==> exists|j: int|
                        0 <= j < i + 1 && #[trigger] f[j] == pr.0 && o.contains(pr.1) && same_id(
                            pr.0,
                            pr.1,
                        ) && pr.0.signature != pr.1.signature by {
                        if exists|j: int|
                            0 <= j < i + 1 && #[trigger] f[j] == pr.0 && o.contains(pr.1) && same_id(
                                pr.0,
                                pr.1,
                            ) && pr.0.signature != pr.1.signature {
                            let j = choose|j: int|
                                0 <= j < i + 1 && #[trigger] f[j] == pr.0 && o.contains(pr.1)
                                    && same_id(pr.0, pr.1) && pr.0.signature != pr.1.signature;
                            if j == i {
                                let q = choose|q: int| 0 <= q < o.len() && o[q] == pr.1;
                                assert(same_id(o[q], xv));
                                assert(q == p);
                            }
                        }
                    }
                }
            }
        } else {
            proof {
                assert forall|pr: (ApiItemView, ApiItemView)| prev.contains(pr) <==> exists|j: int|
                    0 <= j < i + 1 && #[trigger] f[j] == pr.0 && o.contains(pr.1) && same_id(
                        pr.0,
                        pr.1,
                    ) && pr.0.signature != pr.1.signature by {
                    if exists|j: int|
                        0 <= j < i + 1 && #[trigger] f[j] == pr.0 && o.contains(pr.1) && same_id(
                            pr.0,
                            pr.1,
                        ) && pr.0.signature != pr.1.signature {
                        let j = choose|j: int|
                            0 <= j < i + 1 && #[trigger] f[j] == pr.0 && o.contains(pr.1) && same_id(
                                pr.0,
                                pr.1,
                            ) && pr.0.signature != pr.1.signature;
                        if j == i {
                            let q = choose|q: int| 0 <= q < o.len() && o[q] == pr.1;
                            assert(same_id(o[q], xv));
                            assert(has_id(o, xv));
                        }
                    }
                }
            }
        }
        i += 1;
    }
    proof {
        assert forall|pr: (ApiItemView, ApiItemView)|
            pair_views(out@).contains(pr) <==> (f.contains(pr.0) && o.contains(pr.1) && same_id(
                pr.0,
                pr.1,
            ) && pr.0.signature != pr.1.signature) by {
            if f.contains(pr.0) && o.contains(pr.1) && same_id(pr.0, pr.1) && pr.0.signature
                != pr.1.signature {
                let j = choose|j: int| 0 <= j < f.len() && f[j] == pr.0;
                assert(0 <= j < olds@.len() && f[j] == pr.0);
            }
        }
    }
    out
}

/// Compares two item collections: the declarations only in `new_items`
/// (added), those only in `old_items` (removed), and those on both sides
/// whose signatures differ (modified, as old and new). Unchanged
/// declarations are not reported. Each list is sorted by full path, then
/// kind; the modified pairs by their old item.
pub fn compare_api_items(old_items: Vec<ApiItem>, new_items: Vec<ApiItem>) -> (r: (
    Vec<ApiItem>,
    Vec<ApiItem>,
    Vec<(ApiItem, ApiItem)>,
))
    ensures
        is_change_report(
            views(old_items@),
            views(new_items@),
            views(r.0@),
            views(r.1@),
            pair_views(r.2@),
        ),
{
    let old_keys = survivors_sorted(&old_items);
    let new_keys = survivors_sorted(&new_items);
    let olds = sort_by_path(&old_keys);
    let news = sort_by_path(&new_keys);
    let added = only_in(&news, &old_keys);
    let removed = only_in(&olds, &new_keys);
    let modified = changed_pairs(&olds, &new_keys);
    proof {
        let (ov, nv) = (views(old_items@), views(new_items@));
        assert forall|v: ApiItemView| views(added@).contains(v) <==> added_set(ov, nv).contains(v) by {}
        assert forall|v: ApiItemView| views(removed@).contains(v) <==> removed_set(ov, nv).contains(v) by {}
        assert forall|pr: (ApiItemView, ApiItemView)|
            pair_views(modified@).contains(pr) <==> modified_set(ov, nv).contains(pr) by {}
    }
    (added, removed, modified)
}

/// Two sequences, each strictly ordered by the same strict order, that
/// hold the same members are equal.
pub proof fn lemma_sorted_same_members<A>(s1: Seq<A>, s2: Seq<A>, lt: spec_fn(A, A) -> bool)
    requires
        forall|a: A| !#[trigger] lt(a, a),
        forall|a: A, b: A, c: A| #[trigger] lt(a, b) && #[trigger] lt(b, c) ==> lt(a, c),
        forall|i: int, j: int| 0 <= i < j < s1.len() ==> lt(#[trigger] s1[i], #[trigger] s1[j]),
        forall|i: int, j: int| 0 <= i < j < s2.len() ==> lt(#[trigger] s2[i], #[trigger] s2[j]),
        forall|v: A| s1.contains(v) <==> s2.contains(v),
    ensures
        s1 == s2,
    decreases s1.len(),
{
    if s1.len() == 0 {
        if s2.len() > 0 {
            assert(s2.contains(s2[0]));
        }
        assert(s1 =~= s2);
    } else {
        assert(s1.contains(s1[0]));
        let j = choose|j: int| 0 <= j < s2.len() && s2[j] == s1[0];
        assert(s2.contains(s2[0]));
        let k = choose|k: int| 0 <= k < s1.len() && s1[k] == s2[0];
        if j > 0 {
            assert(lt(s2[0], s2[j]));
            if k > 0 {
                assert(lt(s1[0], s1[k]));
                assert(lt(s1[0], s1[0]));
            }
        }
        assert(s1[0] == s2[0]);
        let (t1, t2) = (s1.drop_first(), s2.drop_first());
        assert forall|v: A| t1.contains(v) <==> t2.contains(v) by {
            if t1.contains(v) {
                let q = choose|q: int| 0 <= q < t1.len() && t1[q] == v;
                assert(lt(s1[0], s1[q + 1]));
                assert(s1.contains(v));
                let q2 = choose|q2: int| 0 <= q2 < s2.len() && s2[q2] == v;
                assert(q2 != 0);
                assert(t2[q2 - 1] == v);
            }
            if t2.contains(v) {
                let q = choose|q: int| 0 <= q < t2.len() && t2[q] == v;
                assert(lt(s2[0], s2[q + 1]));
                assert(s2.contains(v));
                let q2 = choose|q2: int| 0 <= q2 < s1.len() && s1[q2] == v;
                assert(q2 != 0);
                assert(t1[q2 - 1] == v);
            }
        }
        assert forall|i: int, j: int| 0 <= i < j < t1.len() implies lt(#[trigger] t1[i], #[trigger] t1[j]) by {
            assert(lt(s1[i + 1], s1[j + 1]));
        }
        assert forall|i: int, j: int| 0 <= i < j < t2.len() implies lt(#[trigger] t2[i], #[trigger] t2[j]) by {
            assert(lt(s2[i + 1], s2[j + 1]));
        }
        lemma_sorted_same_members(t1, t2, lt);
        assert(s1 =~= seq![s1[0]] + t1);
        assert(s2 =~= seq![s2[0]] + t2);
    }
}

proof fn lemma_item_order_laws()
    ensures
        forall|a: ApiItemView| !item_lt(a, a),
        forall|a: ApiItemView, b: ApiItemView, c: ApiItemView|
            #[trigger] item_lt(a, b) && #[trigger] item_lt(b, c) ==> item_lt(a, c),
{
    assert forall|a: ApiItemView| !item_lt(a, a) by {
        lemma_item_lt_irreflexive(a);
    }
    assert forall|a: ApiItemView, b: ApiItemView, c: ApiItemView|
        #[trigger] item_lt(a, b) && #[trigger] item_lt(b, c) implies item_lt(a, c) by {
        lemma_item_lt_transitive(a, b, c);
    }
}

proof fn lemma_same_report_lists(
    s1: Seq<ApiItemView>,
    s2: Seq<ApiItemView>,
    set: Set<ApiItemView>,
)
    requires
        lists_exactly(s1, set),
        lists_exactly(s2, set),
    ensures
        s1 == s2,
{
    lemma_item_order_laws();
    lemma_sorted_same_members(s1, s2, |a: ApiItemView, b: ApiItemView| item_lt(a, b));
}

proof fn lemma_same_pair_lists(
    s1: Seq<(ApiItemView, ApiItemView)>,
    s2: Seq<(ApiItemView, ApiItemView)>,
)
    requires
        strictly_sorted(firsts(s1)),
        strictly_sorted(firsts(s2)),
        forall|p: (ApiItemView, ApiItemView)| s1.contains(p) <==> s2.contains(p),
    ensures
        s1 == s2,
{
    lemma_item_order_laws();
    let lt = |p: (ApiItemView, ApiItemView), q: (ApiItemView, ApiItemView)| item_lt(p.0, q.0);
    assert forall|p: (ApiItemView, ApiItemView), q: (ApiItemView, ApiItemView), r: (
        ApiItemView,
        ApiItemView,
    )| #[trigger] lt(p, q) && #[trigger] lt(q, r) implies lt(p, r) by {
        lemma_item_lt_transitive(p.0, q.0, r.0);
    }
    assert forall|i: int, j: int| 0 <= i < j < s1.len() implies lt(#[trigger] s1[i], #[trigger] s1[j]) by {
        assert(item_lt(firsts(s1)[i], firsts(s1)[j]));
    }
    assert forall|i: int, j: int| 0 <= i < j < s2.len() implies lt(#[trigger] s2[i], #[trigger] s2[j]) by {
        assert(item_lt(firsts(s2)[i], firsts(s2)[j]));
    }
    lemma_sorted_same_members(s1, s2, lt);
}

/// Comparing `b` with `a` reports as added exactly what comparing `a` with
/// `b` reports as removed, and as removed what it reports as added.
pub proof fn diff_is_symmetric(
    a: Seq<ApiItemView>,
    b: Seq<ApiItemView>,
    added_ab: Seq<ApiItemView>,
    removed_ab: Seq<ApiItemView>,
    modified_ab: Seq<(ApiItemView, ApiItemView)>,
    added_ba: Seq<ApiItemView>,
    removed_ba: Seq<ApiItemView>,
    modified_ba: Seq<(ApiItemView, ApiItemView)>,
)
    requires
        is_change_report(a, b, added_ab, removed_ab, modified_ab),
        is_change_report(b, a, added_ba, removed_ba, modified_ba),
    ensures
        added_ab == removed_ba,
        removed_ab == added_ba,
{
    assert(added_set(a, b) =~= removed_set(b, a));
    assert(removed_set(a, b) =~= added_set(b, a));
    lemma_same_report_lists(added_ab, removed_ba, added_set(a, b));
    lemma_same_report_lists(removed_ab, added_ba, removed_set(a, b));
}

/// Two last occurrences of one declaration are the same item.
proof fn lemma_survivor_unique(s: Seq<ApiItemView>, x: ApiItemView, y: ApiItemView)
    requires
        survivors(s).contains(x),
        survivors(s).contains(y),
        same_id(x, y),
    ensures
        x == y,
{
    let kx = choose|k: int|
        0 <= k < s.len() && s[k] == x && forall|j: int| k < j < s.len() ==> !same_id(#[trigger] s[j], x);
    let ky = choose|k: int|
        0 <= k < s.len() && s[k] == y && forall|j: int| k < j < s.len() ==> !same_id(#[trigger] s[j], y);
    if kx < ky {
        assert(same_id(s[ky], x));
    } else if ky < kx {
        assert(same_id(s[kx], y));
    }
}

proof fn lemma_survivor_has_id(s: Seq<ApiItemView>, x: ApiItemView)
    requires
        survivors(s).contains(x),
    ensures
        has_id(s, x),
{
    let k = choose|k: int|
        0 <= k < s.len() && s[k] == x && forall|j: int| k < j < s.len() ==> !same_id(#[trigger] s[j], x);
    assert(same_id(s[k], x));
}

/// Comparing a collection with itself reports nothing.
pub proof fn diff_of_itself_is_empty(
    a: Seq<ApiItemView>,
    added: Seq<ApiItemView>,
    removed: Seq<ApiItemView>,
    modified: Seq<(ApiItemView, ApiItemView)>,
)
    requires
        is_change_report(a, a, added, removed, modified),
    ensures
        added.len() == 0,
        removed.len() == 0,
        modified.len() == 0,
{
    if added.len() > 0 {
        assert(added.contains(added[0]));
        lemma_survivor_has_id(a, added[0]);
    }
    if removed.len() > 0 {
        assert(removed.contains(removed[0]));
        lemma_survivor_has_id(a, removed[0]);
    }
    if modified.len() > 0 {
        assert(modified.contains(modified[0]));
        lemma_survivor_unique(a, modified[0].0, modified[0].1);
    }
}

/// Each modified pair is one declaration (one identity key) whose signature
/// changed; and no identity key is reported in more than one of added,
/// removed and modified.
pub proof fn diff_categories_are_consistent(
    a: Seq<ApiItemView>,
    b: Seq<ApiItemView>,
    added: Seq<ApiItemView>,
    removed: Seq<ApiItemView>,
    modified: Seq<(ApiItemView, ApiItemView)>,
)
    requires
        is_change_report(a, b, added, removed, modified),
    ensures
        forall|k: int|
            0 <= k < modified.len() ==> identity_key(#[trigger] modified[k].0) == identity_key(modified[k].1)
                && modified[k].0.signature != modified[k].1.signature,
        forall|x: ApiItemView, y: ApiItemView|
            added.contains(x) && removed.contains(y) ==> identity_key(x) != identity_key(y),
        forall|x: ApiItemView, k: int|
            #[trigger] added.contains(x) && 0 <= k < modified.len() ==> identity_key(x) != identity_key(#[trigger] modified[k].0),
        forall|y: ApiItemView, k: int|
            #[trigger] removed.contains(y) && 0 <= k < modified.len() ==> identity_key(y) != identity_key(#[trigger] modified[k].0),
{
    assert forall|k: int| 0 <= k < modified.len() implies identity_key(#[trigger] modified[k].0) == identity_key(modified[k].1)
        && modified[k].0.signature != modified[k].1.signature by {
        assert(modified.contains(modified[k]));
    }
    assert forall|x: ApiItemView, y: ApiItemView|
        added.contains(x) && removed.contains(y) implies identity_key(x) != identity_key(y) by {
        lemma_survivor_has_id(a, y);
    }
    assert forall|x: ApiItemView, k: int|
        #[trigger] added.contains(x) && 0 <= k < modified.len() implies identity_key(x) != identity_key(#[trigger] modified[k].0) by {
        assert(modified.contains(modified[k]));
        lemma_survivor_has_id(a, modified[k].0);
    }
    assert forall|y: ApiItemView, k: int|
        #[trigger] removed.contains(y) && 0 <= k < modified.len() implies identity_key(y) != identity_key(#[trigger] modified[k].0) by {
        assert(modified.contains(modified[k]));
        lemma_survivor_has_id(b, modified[k].1);
    }
}

/// No two items of `s` are the same declaration.
pub open spec fn distinct_ids(s: Seq<ApiItemView>) -> bool {
    forall|i: int, j: int| 0 <= i < j < s.len() ==> !same_id(#[trigger] s[i], #[trigger] s[j])
}

proof fn lemma_permuted_survivors(s: Seq<ApiItemView>, t: Seq<ApiItemView>)
    requires
        distinct_ids(s),
        distinct_ids(t),
        s.to_multiset() == t.to_multiset(),
    ensures
        survivors(s) == survivors(t),
        forall|v: ApiItemView| has_id(s, v) <==> has_id(t, v),
{
    assert forall|v: ApiItemView| s.contains(v) <==> t.contains(v) by {
        vstd::seq_lib::to_multiset_contains(s, v);
        vstd::seq_lib::to_multiset_contains(t, v);
    }
    assert forall|v: ApiItemView| survivors(s).contains(v) <==> s.contains(v) by {
        if s.contains(v) {
            let k = choose|k: int| 0 <= k < s.len() && s[k] == v;
            assert forall|j: int| k < j < s.len() implies !same_id(#[trigger] s[j], v) by {}
            assert(is_last_occurrence(s, v, 0));
        }
    }
    assert forall|v: ApiItemView| survivors(t).contains(v) <==> t.contains(v) by {
        if t.contains(v) {
            let k = choose|k: int| 0 <= k < t.len() && t[k] == v;
            assert forall|j: int| k < j < t.len() implies !same_id(#[trigger] t[j], v) by {}
            assert(is_last_occurrence(t, v, 0));
        }
    }
    assert forall|v: ApiItemView| survivors(s).contains(v) == survivors(t).contains(v) by {
        if s.contains(v) {
            assert(t.contains(v));
        }
        if t.contains(v) {
            assert(s.contains(v));
        }
    }
    assert(survivors(s) =~= survivors(t));
    assert forall|v: ApiItemView| has_id(s, v) <==> has_id(t, v) by {
        if has_id(s, v) {
            let k = choose|k: int| 0 <= k < s.len() && same_id(#[trigger] s[k], v);
            assert(s.contains(s[k]));
            let q = choose|q: int| 0 <= q < t.len() && t[q] == s[k];
            assert(same_id(t[q], v));
        }
        if has_id(t, v) {
            let k = choose|k: int| 0 <= k < t.len() && same_id(#[trigger] t[k], v);
            assert(t.contains(t[k]));
            let q = choose|q: int| 0 <= q < s.len() && s[q] == t[k];
            assert(same_id(s[q], v));
        }
    }
}

/// Where neither side lists a declaration twice, reordering either input
/// leaves every list of the report exactly as it was.
pub proof fn diff_ignores_input_order(
    a: Seq<ApiItemView>,
    b: Seq<ApiItemView>,
    a2: Seq<ApiItemView>,
    b2: Seq<ApiItemView>,
    added: Seq<ApiItemView>,
    removed: Seq<ApiItemView>,
    modified: Seq<(ApiItemView, ApiItemView)>,
    added2: Seq<ApiItemView>,
    removed2: Seq<ApiItemView>,
    modified2: Seq<(ApiItemView, ApiItemView)>,
)
    requires
        distinct_ids(a),
        distinct_ids(b),
        distinct_ids(a2),
        distinct_ids(b2),
        a2.to_multiset() == a.to_multiset(),
        b2.to_multiset() == b.to_multiset(),
        is_change_report(a, b, added, removed, modified),
        is_change_report(a2, b2, added2, removed2, modified2),
    ensures
        added == added2,
        removed == removed2,
        modified == modified2,
{
    lemma_permuted_survivors(a, a2);
    lemma_permuted_survivors(b, b2);
    assert(added_set(a, b) =~= added_set(a2, b2));
    assert(removed_set(a, b) =~= removed_set(a2, b2));
    assert(modified_set(a, b) =~= modified_set(a2, b2));
    lemma_same_report_lists(added, added2, added_set(a, b));
    lemma_same_report_lists(removed, removed2, removed_set(a, b));
    lemma_same_pair_lists(modified, modified2);
}

} // verus!
