//! Ordering of keyed items by their text keys.

use vstd::prelude::*;

use crate::text::{lemma_text_less_irreflexive, lemma_text_less_total, lemma_text_less_transitive, text_less, text_lt};

verus! {

/// Where an item with key `key` goes in `s`: before the first item whose key is greater,
/// looking from position `j` on.
pub open spec fn insert_position<T>(s: Seq<(Seq<char>, T)>, key: Seq<char>, j: int) -> int
    decreases s.len() - j,
{
    if j < 0 || j >= s.len() || text_less(key, s[j].0) {
        j
    } else {
        insert_position(s, key, j + 1)
    }
}

/// `s` with `x` put in its place.
pub open spec fn insert_by_key<T>(s: Seq<(Seq<char>, T)>, x: (Seq<char>, T)) -> Seq<
    (Seq<char>, T),
> {
    s.insert(insert_position(s, x.0, 0), x)
}

/// The items in key order, equal keys in their original order (insertion sort).
pub open spec fn sort_by_key<T>(s: Seq<(Seq<char>, T)>) -> Seq<(Seq<char>, T)>
    decreases s.len(),
{
    if s.len() == 0 {
        s
    } else {
        insert_by_key(sort_by_key(s.drop_last()), s.last())
    }
}

/// No key of `s` is greater than a key after it.
pub open spec fn keys_ordered<T>(s: Seq<(Seq<char>, T)>) -> bool {
    forall|i: int, j: int| 0 <= i < j < s.len() ==> !text_less(#[trigger] s[j].0, #[trigger] s[i].0)
}

/// The keyed items of a vector whose keys are char vectors.
pub open spec fn keyed_view<T>(s: Seq<(Vec<char>, T)>) -> Seq<(Seq<char>, T)> {
    s.map_values(|e: (Vec<char>, T)| (e.0@, e.1))
}

proof fn lemma_insert_position_bounds<T>(s: Seq<(Seq<char>, T)>, key: Seq<char>, j: int)
    requires
        0 <= j <= s.len(),
    ensures
        j <= insert_position(s, key, j) <= s.len(),
        forall|m: int| j <= m < insert_position(s, key, j) ==> !text_less(key, #[trigger] s[m].0),
        insert_position(s, key, j) < s.len() ==> text_less(key, s[insert_position(s, key, j)].0),
    decreases s.len() - j,
{
    if j < s.len() && !text_less(key, s[j].0) {
        lemma_insert_position_bounds(s, key, j + 1);
    }
}

/// Sorting keeps the items (as a multiset) and orders the keys.
pub proof fn lemma_sort_by_key<T>(s: Seq<(Seq<char>, T)>)
    ensures
        sort_by_key(s).to_multiset() == s.to_multiset(),
        sort_by_key(s).len() == s.len(),
        keys_ordered(sort_by_key(s)),
    decreases s.len(),
{
    if s.len() > 0 {
        let p = sort_by_key(s.drop_last());
        lemma_sort_by_key(s.drop_last());
        let x = s.last();
        let k = insert_position(p, x.0, 0);
        lemma_insert_position_bounds(p, x.0, 0);
        let r = p.insert(k, x);
        assert(r == sort_by_key(s));
        // multiset
        vstd::seq_lib::to_multiset_insert(p, k, x);
        assert(s =~= s.drop_last().push(x));
        vstd::seq_lib::to_multiset_build(s.drop_last(), x);
        // order
        assert forall|i: int, j: int| 0 <= i < j < r.len() implies !text_less(
            #[trigger] r[j].0,
            #[trigger] r[i].0,
        ) by {
            if j < k {
                assert(r[i] == p[i] && r[j] == p[j]);
            } else if j == k {
                assert(r[i] == p[i]);
                assert(!text_less(x.0, p[i].0));
                if text_less(x.0, p[i].0) {
                }
            } else if i == k {
                assert(r[j] == p[j - 1]);
                // p[j-1] comes at or after position k: its key is not below x's
                if text_less(p[j - 1].0, x.0) {
                    assert(k < p.len());
                    assert(text_less(x.0, p[k].0));
                    if k < j - 1 {
                        assert(!text_less(p[j - 1].0, p[k].0));
                        lemma_text_less_transitive(p[j - 1].0, x.0, p[k].0);
                    } else {
                        lemma_text_less_transitive(x.0, p[k].0, x.0);
                        lemma_text_less_irreflexive(x.0);
                    }
                }
            } else if i < k {
                assert(r[i] == p[i] && r[j] == p[j - 1]);
            } else {
                assert(r[i] == p[i - 1] && r[j] == p[j - 1]);
            }
        }
    }
}

/// With distinct keys, sorted keys strictly increase.
pub proof fn lemma_ordered_distinct_strict<T>(s: Seq<(Seq<char>, T)>, i: int, j: int)
    requires
        keys_ordered(s),
        0 <= i < j < s.len(),
        s[i].0 != s[j].0,
    ensures
        text_less(s[i].0, s[j].0),
{
    lemma_text_less_total(s[i].0, s[j].0);
}

/// Sorting keeps exactly the items it was given.
pub proof fn lemma_sort_same_items<T>(s: Seq<(Seq<char>, T)>)
    ensures
        forall|x: (Seq<char>, T)| #[trigger] sort_by_key(s).contains(x) <==> s.contains(x),
    decreases s.len(),
{
    if s.len() > 0 {
        let d = s.drop_last();
        lemma_sort_same_items(d);
        let p = sort_by_key(d);
        lemma_sort_by_key(d);
        let x = s.last();
        let k = insert_position(p, x.0, 0);
        lemma_insert_position_bounds(p, x.0, 0);
        let r = p.insert(k, x);
        assert(r == sort_by_key(s));
        assert forall|y: (Seq<char>, T)| #[trigger] r.contains(y) <==> s.contains(y) by {
            if r.contains(y) {
                let i = choose|i: int| 0 <= i < r.len() && r[i] == y;
                if i == k {
                    assert(s[s.len() - 1] == y);
                } else {
                    let pi = if i < k { i } else { i - 1 };
                    assert(p[pi] == y);
                    assert(p.contains(y));
                    assert(d.contains(y));
                    let j = choose|j: int| 0 <= j < d.len() && d[j] == y;
                    assert(s[j] == y);
                }
            }
            if s.contains(y) {
                let j = choose|j: int| 0 <= j < s.len() && s[j] == y;
                if j == s.len() - 1 {
                    assert(r[k] == y);
                } else {
                    assert(d[j] == y);
                    assert(d.contains(y));
                    assert(p.contains(y));
                    let pi = choose|pi: int| 0 <= pi < p.len() && p[pi] == y;
                    let i = if pi < k { pi } else { pi + 1 };
                    assert(r[i] == y);
                }
            }
        }
    }
}

/// The keys of keyed items.
pub open spec fn keys_of<T>(s: Seq<(Seq<char>, T)>) -> Seq<Seq<char>> {
    s.map_values(|e: (Seq<char>, T)| e.0)
}

/// Sorting items whose keys are distinct keeps the keys distinct.
proof fn lemma_sort_keys_distinct<T>(s: Seq<(Seq<char>, T)>)
    requires
        keys_of(s).no_duplicates(),
    ensures
        keys_of(sort_by_key(s)).no_duplicates(),
    decreases s.len(),
{
    if s.len() > 0 {
        let d = s.drop_last();
        assert(keys_of(d) =~= keys_of(s).drop_last());
        lemma_sort_keys_distinct(d);
        lemma_sort_same_items(d);
        lemma_sort_by_key(d);
        let p = sort_by_key(d);
        let x = s.last();
        let k = insert_position(p, x.0, 0);
        lemma_insert_position_bounds(p, x.0, 0);
        let r = p.insert(k, x);
        assert(r == sort_by_key(s));
        assert forall|a: int| 0 <= a < p.len() implies (#[trigger] p[a]).0 != x.0 by {
            assert(p.contains(p[a]));
            assert(d.contains(p[a]));
            let j = choose|j: int| 0 <= j < d.len() && d[j] == p[a];
            assert(keys_of(s)[j] == p[a].0);
            assert(keys_of(s)[s.len() - 1] == x.0);
        }
        let kr = keys_of(r);
        let kp = keys_of(p);
        assert forall|a: int, b: int| 0 <= a < b < kr.len() implies kr[a] != kr[b] by {
            if a == k {
                assert(kr[b] == p[b - 1].0);
            } else if b == k {
                assert(kr[a] == p[a].0);
            } else {
                let pa = if a < k { a } else { a - 1 };
                let pb = if b < k { b } else { b - 1 };
                assert(kr[a] == kp[pa]);
                assert(kr[b] == kp[pb]);
            }
        }
    }
}

/// Sorting items whose keys are distinct gives keys that strictly increase.
pub proof fn lemma_sorted_keys_increase<T>(s: Seq<(Seq<char>, T)>)
    requires
        keys_of(s).no_duplicates(),
    ensures
        forall|i: int, j: int|
            0 <= i < j < sort_by_key(s).len() ==> text_less(
                #[trigger] sort_by_key(s)[i].0,
                #[trigger] sort_by_key(s)[j].0,
            ),
{
    let r = sort_by_key(s);
    lemma_sort_by_key(s);
    lemma_sort_keys_distinct(s);
    assert forall|i: int, j: int| 0 <= i < j < r.len() implies text_less(
        #[trigger] r[i].0,
        #[trigger] r[j].0,
    ) by {
        assert(keys_of(r)[i] == r[i].0 && keys_of(r)[j] == r[j].0);
        lemma_ordered_distinct_strict(r, i, j);
    }
}

/// The same items with their payloads changed by `f`.
pub open spec fn map_payload<T, U>(s: Seq<(Seq<char>, T)>, f: spec_fn(T) -> U) -> Seq<(Seq<char>, U)> {
    s.map_values(|e: (Seq<char>, T)| (e.0, f(e.1)))
}

proof fn lemma_insert_position_payload<T, U>(
    s: Seq<(Seq<char>, T)>,
    f: spec_fn(T) -> U,
    key: Seq<char>,
    j: int,
)
    requires
        0 <= j <= s.len(),
    ensures
        insert_position(map_payload(s, f), key, j) == insert_position(s, key, j),
    decreases s.len() - j,
{
    if j < s.len() && !text_less(key, s[j].0) {
        lemma_insert_position_payload(s, f, key, j + 1);
    }
}

/// Sorting looks at the keys alone: changing the payloads before or after gives the same.
pub proof fn lemma_sort_map_payload<T, U>(s: Seq<(Seq<char>, T)>, f: spec_fn(T) -> U)
    ensures
        sort_by_key(map_payload(s, f)) == map_payload(sort_by_key(s), f),
    decreases s.len(),
{
    if s.len() > 0 {
        let m = map_payload(s, f);
        assert(m.drop_last() =~= map_payload(s.drop_last(), f));
        lemma_sort_map_payload(s.drop_last(), f);
        let p = sort_by_key(s.drop_last());
        lemma_sort_by_key(s.drop_last());
        let x = s.last();
        lemma_insert_position_bounds(p, x.0, 0);
        lemma_insert_position_payload(p, f, x.0, 0);
        let k = insert_position(p, x.0, 0);
        assert(m.last() == (x.0, f(x.1)));
        assert(map_payload(p, f).insert(k, (x.0, f(x.1))) =~= map_payload(p.insert(k, x), f));
    }
}

/// The items in key order (`sort_by_key`).
pub fn sort_keyed<T>(items: Vec<(Vec<char>, T)>) -> (r: Vec<(Vec<char>, T)>)
    ensures
        keyed_view(r@) == sort_by_key(keyed_view(items@)),
{
    let ghost all = keyed_view(items@);
    let mut sorted: Vec<(Vec<char>, T)> = Vec::new();
    let ghost mut done: int = 0;
    for item in it: items.into_iter()
        invariant
            all == keyed_view(it.seq()),
            keyed_view(sorted@) == sort_by_key(all.take(it.index() as int)),
            it.index() <= all.len(),
    {
        let ghost idx = it.index() as int;
        let ghost before = keyed_view(sorted@);
        let n = sorted.len();
        let mut pos: usize = 0;
        while pos < n && !text_lt(&item.0, &sorted[pos].0)
            invariant
                pos <= n,
                n == sorted@.len(),
                before == keyed_view(sorted@),
                insert_position(before, item.0@, 0) == insert_position(before, item.0@, pos as int),
            decreases n - pos,
        {
            pos = pos + 1;
        }
        proof {
            assert(insert_position(before, item.0@, pos as int) == pos as int);
            assert(all.take(idx + 1).drop_last() =~= all.take(idx));
            assert(all.take(idx + 1).last() == (item.0@, item.1));
        }
        let ghost kv = (item.0@, item.1);
        sorted.insert(pos, item);
        proof {
            assert(keyed_view(sorted@) =~= before.insert(pos as int, kv));
        }
    }
    proof {
        assert(all.take(all.len() as int) =~= all);
    }
    sorted
}

} // verus!
