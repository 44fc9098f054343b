//! Lists of entries keyed by text, kept in ascending key order: the shape
//! in which a `BTreeMap<String, _>` holds its entries.
use vstd::prelude::*;
use crate::text::{lemma_text_lt_irreflexive, lemma_text_lt_total, lemma_text_lt_transitive, text_lt, text_order, TextOrder};

verus! {

/// Keys strictly ascending in `text_lt` order (so no key occurs twice).
pub open spec fn ascending<V>(s: Seq<(Seq<char>, V)>) -> bool {
    forall|i: int, j: int| 0 <= i < j < s.len() ==> text_lt(#[trigger] s[i].0, #[trigger] s[j].0)
}

/// The listing after `key` is set to `value`: the pair replaces the entry
/// with that key, or goes in before the first greater key.
pub open spec fn put<V>(s: Seq<(Seq<char>, V)>, key: Seq<char>, value: V) -> Seq<(Seq<char>, V)>
    decreases s.len(),
{
    if s.len() == 0 {
        seq![(key, value)]
    } else if text_lt(key, s[0].0) {
        seq![(key, value)] + s
    } else if key == s[0].0 {
        seq![(key, value)] + s.drop_first()
    } else {
        seq![s[0]] + put(s.drop_first(), key, value)
    }
}

/// The value listed for `key`, if any.
pub open spec fn lookup<V>(s: Seq<(Seq<char>, V)>, key: Seq<char>) -> Option<V>
    decreases s.len(),
{
    if s.len() == 0 {
        None
    } else if s[0].0 == key {
        Some(s[0].1)
    } else {
        lookup(s.drop_first(), key)
    }
}

pub proof fn lemma_put_after<V>(s: Seq<(Seq<char>, V)>, key: Seq<char>, value: V)
    requires
        s.len() > 0,
        text_lt(s[0].0, key),
    ensures
        put(s, key, value) == seq![s[0]] + put(s.drop_first(), key, value),
{
    lemma_text_lt_total(s[0].0, key);
    lemma_text_lt_irreflexive(key);
}

proof fn lemma_put_ascending<V>(s: Seq<(Seq<char>, V)>, key: Seq<char>, value: V)
    requires
        ascending(s),
    ensures
        ascending(put(s, key, value)),
        forall|i: int|
            0 <= i < put(s, key, value).len() ==> (#[trigger] put(s, key, value)[i]).0 == key
                || exists|j: int| 0 <= j < s.len() && s[j].0 == put(s, key, value)[i].0,
    decreases s.len(),
{
    let r = put(s, key, value);
    if s.len() == 0 {
    } else if text_lt(key, s[0].0) {
        assert forall|i: int, j: int| 0 <= i < j < r.len() implies text_lt(
            #[trigger] r[i].0,
            #[trigger] r[j].0,
        ) by {
            if i == 0 {
                if j > 1 {
                    lemma_text_lt_transitive(key, s[0].0, s[j - 1].0);
                }
            } else {
                assert(r[i] == s[i - 1] && r[j] == s[j - 1]);
            }
        }
        assert forall|i: int| 0 <= i < r.len() implies (#[trigger] r[i]).0 == key || exists|
            j: int,
        | 0 <= j < s.len() && s[j].0 == r[i].0 by {
            if i > 0 {
                assert(s[i - 1].0 == r[i].0);
            }
        }
    } else if key == s[0].0 {
        assert forall|i: int, j: int| 0 <= i < j < r.len() implies text_lt(
            #[trigger] r[i].0,
            #[trigger] r[j].0,
        ) by {
            assert(r[j] == s[j]);
            if i > 0 {
                assert(r[i] == s[i]);
            }
        }
        assert forall|i: int| 0 <= i < r.len() implies (#[trigger] r[i]).0 == key || exists|
            j: int,
        | 0 <= j < s.len() && s[j].0 == r[i].0 by {
            if i > 0 {
                assert(s[i].0 == r[i].0);
            }
        }
    } else {
        lemma_text_lt_total(key, s[0].0);
        let t = s.drop_first();
        assert(ascending(t)) by {
            assert forall|i: int, j: int| 0 <= i < j < t.len() implies text_lt(
                #[trigger] t[i].0,
                #[trigger] t[j].0,
            ) by {
                assert(t[i] == s[i + 1] && t[j] == s[j + 1]);
            }
        }
        lemma_put_ascending(t, key, value);
        let rt = put(t, key, value);
        assert(r == seq![s[0]] + rt);
        assert forall|i: int| 0 <= i < r.len() implies (#[trigger] r[i]).0 == key || exists|
            j: int,
        | 0 <= j < s.len() && s[j].0 == r[i].0 by {
            if i > 0 {
                assert(r[i] == rt[i - 1]);
                if rt[i - 1].0 != key {
                    let j = choose|j: int| 0 <= j < t.len() && t[j].0 == rt[i - 1].0;
                    assert(s[j + 1].0 == r[i].0);
                }
            } else {
                assert(s[0].0 == r[0].0);
            }
        }
        assert forall|i: int, j: int| 0 <= i < j < r.len() implies text_lt(
            #[trigger] r[i].0,
            #[trigger] r[j].0,
        ) by {
            if i == 0 {
                assert(r[j] == rt[j - 1]);
                if rt[j - 1].0 == key {
                } else {
                    let k = choose|k: int| 0 <= k < t.len() && t[k].0 == rt[j - 1].0;
                    assert(t[k] == s[k + 1]);
                }
            } else {
                assert(r[i] == rt[i - 1] && r[j] == rt[j - 1]);
            }
        }
    }
}

/// What a read gives back of a write: after `key` is set to `value`,
/// looking `key` up gives `value`, and every other key keeps its value.
pub proof fn lemma_put_lookup<V>(s: Seq<(Seq<char>, V)>, key: Seq<char>, value: V, other: Seq<char>)
    ensures
        lookup(put(s, key, value), key) == Some(value),
        other != key ==> lookup(put(s, key, value), other) == lookup(s, other),
    decreases s.len(),
{
    let r = put(s, key, value);
    if s.len() == 0 {
        assert(r.drop_first() =~= Seq::<(Seq<char>, V)>::empty());
        assert(lookup(r.drop_first(), other) is None);
    } else if text_lt(key, s[0].0) {
        assert(r.drop_first() =~= s);
        assert(r[0] == (key, value));
        if other != key {
            assert(lookup(r, other) == lookup(r.drop_first(), other));
        }
    } else if key == s[0].0 {
        assert(r.drop_first() =~= s.drop_first());
        assert(r[0] == (key, value));
        if other != key {
            assert(lookup(r, other) == lookup(r.drop_first(), other));
            assert(lookup(s, other) == lookup(s.drop_first(), other));
        }
    } else {
        lemma_put_lookup(s.drop_first(), key, value, other);
        assert(r[0] == s[0]);
        assert(r.drop_first() =~= put(s.drop_first(), key, value));
    }
}

/// Setting a key keeps the keys ascending.
pub proof fn lemma_put_keeps_order<V>(s: Seq<(Seq<char>, V)>, key: Seq<char>, value: V)
    requires
        ascending(s),
    ensures
        ascending(put(s, key, value)),
{
    lemma_put_ascending(s, key, value);
}

/// Entry `j` is not under `key`.
pub open spec fn lookup_miss<V>(t: Seq<(Seq<char>, V)>, key: Seq<char>, j: int) -> bool {
    t[j].0 != key
}

pub proof fn lemma_lookup_missing<V>(t: Seq<(Seq<char>, V)>, key: Seq<char>)
    requires
        forall|j: int| 0 <= j < t.len() ==> lookup_miss(t, key, j),
    ensures
        lookup(t, key) is None,
    decreases t.len(),
{
    if t.len() > 0 {
        assert(lookup_miss(t, key, 0));
        let u = t.drop_first();
        assert forall|j: int| 0 <= j < u.len() implies lookup_miss(u, key, j) by {
            assert(lookup_miss(t, key, j + 1));
        }
        lemma_lookup_missing(u, key);
    }
}

/// The first entry under `key` is what `lookup` finds.
pub proof fn lemma_lookup_at<V>(s: Seq<(Seq<char>, V)>, key: Seq<char>, i: int)
    requires
        0 <= i < s.len(),
        s[i].0 == key,
        forall|j: int| 0 <= j < i ==> lookup_miss(s, key, j),
    ensures
        lookup(s, key) == Some(s[i].1),
    decreases i,
{
    if i > 0 {
        let t = s.drop_first();
        assert(lookup_miss(s, key, 0));
        assert forall|j: int| 0 <= j < i - 1 implies lookup_miss(t, key, j) by {
            assert(lookup_miss(s, key, j + 1));
        }
        lemma_lookup_at(t, key, i - 1);
    }
}

/// In an ascending listing no key occurs twice.
pub proof fn lemma_ascending_unique<V>(s: Seq<(Seq<char>, V)>, i: int, j: int)
    requires
        ascending(s),
        0 <= i < s.len(),
        0 <= j < s.len(),
        i != j,
    ensures
        s[i].0 != s[j].0,
{
    if i < j {
        assert(text_lt(s[i].0, s[j].0));
    } else {
        assert(text_lt(s[j].0, s[i].0));
    }
    lemma_text_lt_irreflexive(s[i].0);
}

/// The listing with `f` applied to the entry under key `k`.
pub open spec fn modify<V>(s: Seq<(Seq<char>, V)>, k: Seq<char>, f: spec_fn(V) -> V) -> Seq<(Seq<char>, V)> {
    s.map_values(|e: (Seq<char>, V)| if e.0 == k { (e.0, f(e.1)) } else { e })
}

/// In an ascending listing, changing the entry under `k` changes the one
/// entry that carries that key.
pub proof fn lemma_modify_at<V>(s: Seq<(Seq<char>, V)>, k: Seq<char>, f: spec_fn(V) -> V, i: int)
    requires
        ascending(s),
        0 <= i < s.len(),
        s[i].0 == k,
    ensures
        modify(s, k, f) == s.update(i, (k, f(s[i].1))),
{
    assert forall|j: int| 0 <= j < s.len() && j != i implies s[j].0 != k by {
        lemma_ascending_unique(s, i, j);
    }
    assert(modify(s, k, f) =~= s.update(i, (k, f(s[i].1))));
}

/// Changing the entry under a key that no entry carries changes nothing.
pub proof fn lemma_modify_missing<V>(s: Seq<(Seq<char>, V)>, k: Seq<char>, f: spec_fn(V) -> V)
    requires
        lookup(s, k) is None,
    ensures
        modify(s, k, f) == s,
    decreases s.len(),
{
    if s.len() > 0 {
        lemma_modify_missing(s.drop_first(), k, f);
        assert(modify(s, k, f) =~= seq![s[0]] + modify(s.drop_first(), k, f));
        assert(s =~= seq![s[0]] + s.drop_first());
    } else {
        assert(modify(s, k, f) =~= s);
    }
}

/// Where `lookup` finds a key: at the first entry that carries it.
pub proof fn lemma_lookup_index<V>(s: Seq<(Seq<char>, V)>, k: Seq<char>)
    ensures
        lookup(s, k) is None ==> forall|j: int| 0 <= j < s.len() ==> lookup_miss(s, k, j),
        lookup(s, k) matches Some(v) ==> exists|i: int|
            0 <= i < s.len() && #[trigger] s[i].0 == k && s[i].1 == v && forall|j: int|
                0 <= j < i ==> lookup_miss(s, k, j),
    decreases s.len(),
{
    if s.len() > 0 {
        let t = s.drop_first();
        lemma_lookup_index(t, k);
        if s[0].0 == k {
            assert(s[0].0 == k && s[0].1 == s[0].1);
        } else {
            assert(lookup(s, k) == lookup(t, k));
            if lookup(t, k) is None {
                assert forall|j: int| 0 <= j < s.len() implies lookup_miss(s, k, j) by {
                    if j > 0 {
                        assert(lookup_miss(t, k, j - 1));
                    }
                }
            } else {
                let i = choose|i: int|
                    0 <= i < t.len() && #[trigger] t[i].0 == k && t[i].1 == lookup(t, k)->0
                        && forall|j: int| 0 <= j < i ==> lookup_miss(t, k, j);
                assert(s[i + 1] == t[i]);
                assert forall|j: int| 0 <= j < i + 1 implies lookup_miss(s, k, j) by {
                    if j > 0 {
                        assert(lookup_miss(t, k, j - 1));
                    }
                }
            }
        }
    }
}

/// Two listings with the same keys in the same places: a key that one
/// finds at some entry, the other finds at that entry too.
pub proof fn lemma_lookup_same_keys<V, W>(s: Seq<(Seq<char>, V)>, t: Seq<(Seq<char>, W)>, k: Seq<char>)
    requires
        s.len() == t.len(),
        forall|i: int| 0 <= i < s.len() ==> #[trigger] t[i].0 == s[i].0,
    ensures
        lookup(s, k) is None ==> lookup(t, k) is None,
        lookup(s, k) is Some ==> exists|i: int|
            0 <= i < s.len() && #[trigger] s[i].0 == k && lookup(s, k) == Some(s[i].1) && lookup(t, k)
                == Some(t[i].1),
{
    lemma_lookup_index(s, k);
    if lookup(s, k) is None {
        assert forall|j: int| 0 <= j < t.len() implies lookup_miss(t, k, j) by {
            assert(lookup_miss(s, k, j));
        }
        lemma_lookup_missing(t, k);
    } else {
        let i = choose|i: int|
            0 <= i < s.len() && #[trigger] s[i].0 == k && s[i].1 == lookup(s, k)->0 && forall|j: int|
                0 <= j < i ==> lookup_miss(s, k, j);
        assert forall|j: int| 0 <= j < i implies lookup_miss(t, k, j) by {
            assert(lookup_miss(s, k, j));
        }
        lemma_lookup_at(t, k, i);
    }
}

/// What `modify` does as lookups see it: the entry under `k` changes by
/// `f`, every other key keeps its value.
pub proof fn lemma_modify_lookup<V>(s: Seq<(Seq<char>, V)>, k: Seq<char>, f: spec_fn(V) -> V, other: Seq<char>)
    ensures
        lookup(modify(s, k, f), k) == match lookup(s, k) {
            Some(v) => Some(f(v)),
            None => None,
        },
        other != k ==> lookup(modify(s, k, f), other) == lookup(s, other),
{
    let t = modify(s, k, f);
    assert forall|i: int| 0 <= i < s.len() implies #[trigger] t[i].0 == s[i].0 by {}
    lemma_lookup_same_keys(s, t, k);
    lemma_lookup_same_keys(s, t, other);
    if lookup(s, k) is Some {
        let i = choose|i: int|
            0 <= i < s.len() && #[trigger] s[i].0 == k && lookup(s, k) == Some(s[i].1) && lookup(t, k)
                == Some(t[i].1);
    }
    if other != k && lookup(s, other) is Some {
        let i = choose|i: int|
            0 <= i < s.len() && #[trigger] s[i].0 == other && lookup(s, other) == Some(s[i].1)
                && lookup(t, other) == Some(t[i].1);
    }
}

proof fn lemma_ascending_tail<V>(s: Seq<(Seq<char>, V)>)
    requires
        ascending(s),
        s.len() > 0,
    ensures
        ascending(s.drop_first()),
        forall|k: Seq<char>| k != s[0].0 ==> lookup(s, k) == #[trigger] lookup(s.drop_first(), k),
        lookup(s.drop_first(), s[0].0) is None,
{
    let t = s.drop_first();
    assert forall|i: int, j: int| 0 <= i < j < t.len() implies text_lt(
        #[trigger] t[i].0,
        #[trigger] t[j].0,
    ) by {
        assert(t[i] == s[i + 1] && t[j] == s[j + 1]);
    }
    assert forall|j: int| 0 <= j < t.len() implies lookup_miss(t, s[0].0, j) by {
        lemma_ascending_unique(s, 0, j + 1);
    }
    lemma_lookup_missing(t, s[0].0);
}

/// An ascending listing is fixed by its lookups: two that look up every
/// key alike are equal.
pub proof fn lemma_ascending_ext<V>(a: Seq<(Seq<char>, V)>, b: Seq<(Seq<char>, V)>)
    requires
        ascending(a),
        ascending(b),
        forall|k: Seq<char>| #[trigger] lookup(a, k) == lookup(b, k),
    ensures
        a == b,
    decreases a.len(),
{
    if a.len() == 0 {
        if b.len() > 0 {
            assert(lookup(b, b[0].0) is Some);
            assert(lookup(a, b[0].0) is None);
        }
        assert(a =~= b);
    } else {
        assert(lookup(a, a[0].0) is Some);
        lemma_lookup_index(b, a[0].0);
        let j = choose|j: int|
            0 <= j < b.len() && #[trigger] b[j].0 == a[0].0 && b[j].1 == lookup(b, a[0].0)->0
                && forall|m: int| 0 <= m < j ==> lookup_miss(b, a[0].0, m);
        if j > 0 {
            assert(text_lt(b[0].0, b[j].0));
            assert(lookup(b, b[0].0) is Some);
            lemma_lookup_index(a, b[0].0);
            let i = choose|i: int|
                0 <= i < a.len() && #[trigger] a[i].0 == b[0].0 && a[i].1 == lookup(a, b[0].0)->0
                    && forall|m: int| 0 <= m < i ==> lookup_miss(a, b[0].0, m);
            if i == 0 {
                lemma_text_lt_irreflexive(b[0].0);
            } else {
                assert(text_lt(a[0].0, a[i].0));
                lemma_text_lt_transitive(a[0].0, b[0].0, a[0].0);
                lemma_text_lt_irreflexive(a[0].0);
            }
        }
        assert(b[0].0 == a[0].0);
        assert(lookup(a, a[0].0) == Some(a[0].1));
        assert(b[0] == a[0]);
        lemma_ascending_tail(a);
        lemma_ascending_tail(b);
        let ta = a.drop_first();
        let tb = b.drop_first();
        assert forall|k: Seq<char>| #[trigger] lookup(ta, k) == lookup(tb, k) by {
            if k != a[0].0 {
                assert(lookup(a, k) == lookup(b, k));
            }
        }
        lemma_ascending_ext(ta, tb);
        assert(a =~= seq![a[0]] + ta);
        assert(b =~= seq![b[0]] + tb);
    }
}

/// Setting two different keys gives the same listing in either order, so
/// the listing depends on what was set and not on the order of the calls.
pub proof fn lemma_put_commutes<V>(
    s: Seq<(Seq<char>, V)>,
    k1: Seq<char>,
    v1: V,
    k2: Seq<char>,
    v2: V,
)
    requires
        ascending(s),
        k1 != k2,
    ensures
        put(put(s, k1, v1), k2, v2) == put(put(s, k2, v2), k1, v1),
{
    let a = put(put(s, k1, v1), k2, v2);
    let b = put(put(s, k2, v2), k1, v1);
    lemma_put_keeps_order(s, k1, v1);
    lemma_put_keeps_order(put(s, k1, v1), k2, v2);
    lemma_put_keeps_order(s, k2, v2);
    lemma_put_keeps_order(put(s, k2, v2), k1, v1);
    assert forall|k: Seq<char>| #[trigger] lookup(a, k) == lookup(b, k) by {
        lemma_put_lookup(s, k1, v1, k);
        lemma_put_lookup(put(s, k1, v1), k2, v2, k);
        lemma_put_lookup(s, k2, v2, k);
        lemma_put_lookup(put(s, k2, v2), k1, v1, k);
        lemma_put_lookup(s, k1, v1, k2);
        lemma_put_lookup(s, k2, v2, k1);
    }
    lemma_ascending_ext(a, b);
}

/// An element of a keyed list: a text key and a value seen through `V`.
pub trait Entry: Sized {
    type V;

    spec fn key_view(&self) -> Seq<char>;

    spec fn value_view(&self) -> Self::V;

    fn key(&self) -> (r: &str)
        ensures
            r@ == self.key_view(),
    ;
}

/// The keyed listing that a vector of entries stands for.
pub open spec fn entries_view<T: Entry>(v: Seq<T>) -> Seq<(Seq<char>, T::V)> {
    v.map_values(|e: T| (e.key_view(), e.value_view()))
}

/// The index of the entry under `key`, if any.
pub fn keyed_find<T: Entry>(v: &Vec<T>, key: &str) -> (r: Option<usize>)
    ensures
        r matches Some(i) ==> {
            &&& i < v.len()
            &&& entries_view(v@)[i as int].0 == key@
            &&& lookup(entries_view(v@), key@) == Some(entries_view(v@)[i as int].1)
        },
        r is None ==> lookup(entries_view(v@), key@) is None,
{
    let ghost s = entries_view(v@);
    let mut i: usize = 0;
    while i < v.len()
        invariant
            s == entries_view(v@),
            i <= v.len(),
            forall|j: int| 0 <= j < i ==> lookup_miss(s, key@, j),
        decreases v.len() - i,
    {
        let k = v[i].key();
        if text_order(k, key) == TextOrder::Same {
            proof {
                lemma_lookup_at(s, key@, i as int);
            }
            return Some(i);
        }
        i = i + 1;
    }
    proof {
        lemma_lookup_missing(s, key@);
    }
    None
}

/// Sets the entry under `item`'s key to `item`, as `BTreeMap::insert`
/// does, and gives back the entry it replaced.
pub fn keyed_put<T: Entry>(v: &mut Vec<T>, item: T) -> (r: Option<T>)
    requires
        ascending(entries_view(old(v)@)),
    ensures
        entries_view(final(v)@) == put(entries_view(old(v)@), item.key_view(), item.value_view()),
        ascending(entries_view(final(v)@)),
        r is Some <==> lookup(entries_view(old(v)@), item.key_view()) is Some,
        r matches Some(e) ==> lookup(entries_view(old(v)@), item.key_view()) == Some(e.value_view()),
{
    let ghost s = entries_view(v@);
    let ghost key = item.key_view();
    let ghost value = item.value_view();
    proof {
        lemma_put_keeps_order(s, key, value);
    }
    let n = v.len();
    let mut i: usize = 0;
    assert(s.skip(0) =~= s);
    while i < n
        invariant
            n == v.len(),
            s == entries_view(v@),
            s == entries_view(old(v)@),
            key == item.key_view(),
            value == item.value_view(),
            ascending(s),
            ascending(put(s, key, value)),
            i <= n,
            forall|j: int| 0 <= j < i ==> text_lt(#[trigger] s[j].0, key),
            put(s, key, value) == s.take(i as int) + put(s.skip(i as int), key, value),
            lookup(s, key) == lookup(s.skip(i as int), key),
        decreases n - i,
    {
        let ord = text_order(item.key(), v[i].key());
        let ghost t = s.skip(i as int);
        assert(t[0] == s[i as int]);
        match ord {
            TextOrder::Before => {
                proof {
                    assert(put(t, key, value) == seq![(key, value)] + t);
                    assert forall|j: int| 0 <= j < t.len() implies lookup_miss(t, key, j) by {
                        if j > 0 {
                            assert(t[j] == s[i + j]);
                            assert(text_lt(s[i as int].0, s[i + j].0));
                            lemma_text_lt_transitive(key, t[0].0, t[j].0);
                        }
                        lemma_text_lt_irreflexive(key);
                        if t[j].0 == key {
                            lemma_text_lt_total(key, t[j].0);
                        }
                    }
                    lemma_lookup_missing(t, key);
                }
                v.insert(i, item);
                assert(entries_view(v@) =~= s.take(i as int) + (seq![(key, value)] + t));
                return None;
            },
            TextOrder::Same => {
                assert(put(t, key, value) == seq![(key, value)] + t.drop_first());
                let old_item = v.remove(i);
                v.insert(i, item);
                assert(entries_view(v@) =~= s.take(i as int) + (seq![(key, value)]
                    + t.drop_first()));
                return Some(old_item);
            },
            TextOrder::After => {
                proof {
                    lemma_put_after(t, key, value);
                    assert(t.drop_first() =~= s.skip(i + 1));
                    assert(s.take(i + 1) =~= s.take(i as int).push(s[i as int]));
                    lemma_text_lt_total(s[i as int].0, key);
                }
                i = i + 1;
            },
        }
    }
    proof {
        assert(s.skip(n as int) =~= Seq::<(Seq<char>, T::V)>::empty());
        assert(s.take(n as int) =~= s);
    }
    v.push(item);
    assert(entries_view(v@) =~= s + seq![(key, value)]);
    None
}

} // verus!
