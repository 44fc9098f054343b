//! Session parameters: a map from parameter name to value, kept in ascending
//! key order, as a `BTreeMap<String, String>` keeps it.
use vstd::prelude::*;
pub use crate::keyed::{ascending, lookup, put, lemma_put_keeps_order, lemma_put_lookup};
use crate::keyed::{lemma_lookup_missing, lemma_put_after, lookup_miss};
use crate::text::{lemma_text_lt_irreflexive, lemma_text_lt_total, lemma_text_lt_transitive, text_lt, text_order, TextOrder};

verus! {

/// One parameter as plain text: its name and its value.
pub type ParamView = (Seq<char>, Seq<char>);

/// The plain-text view of a list of `(String, String)` pairs.
pub open spec fn pairs_view(v: Seq<(String, String)>) -> Seq<ParamView> {
    v.map_values(|e: (String, String)| (e.0@, e.1@))
}

pub struct Parameters {
    entries: Vec<(String, String)>,
}

impl View for Parameters {
    type V = Seq<ParamView>;

    closed spec fn view(&self) -> Seq<ParamView> {
        pairs_view(self.entries@)
    }
}

impl Parameters {
    #[verifier::type_invariant]
    spec fn keys_ascending(self) -> bool {
        ascending(self@)
    }

    /// The empty map.
    pub fn new() -> (r: Parameters)
        ensures
            r@ == Seq::<ParamView>::empty(),
    {
        let r = Parameters { entries: Vec::new() };
        assert(r@ =~= Seq::<ParamView>::empty());
        r
    }

    pub fn len(&self) -> (r: usize)
        ensures
            r == self@.len(),
    {
        self.entries.len()
    }

    pub fn is_empty(&self) -> (r: bool)
        ensures
            r == (self@.len() == 0),
    {
        self.entries.len() == 0
    }

    /// The pairs in ascending key order.
    pub fn entries(&self) -> (r: &Vec<(String, String)>)
        ensures
            pairs_view(r@) == self@,
            ascending(self@),
    {
        proof {
            use_type_invariant(self);
        }
        &self.entries
    }

    /// Sets `key` to `value`, as `BTreeMap::insert` does, and gives back
    /// the value that `key` had before, if it had one.
    pub fn insert(&mut self, key: String, value: String) -> (r: Option<String>)
        ensures
            final(self)@ == put(old(self)@, key@, value@),
            r matches Some(v) ==> lookup(old(self)@, key@) == Some(v@),
            r is None ==> lookup(old(self)@, key@) is None,
    {
        proof {
            use_type_invariant(&*self);
        }
        let ghost s = self@;
        let n = self.entries.len();
        let mut i: usize = 0;
        assert(s.skip(0) =~= s);
        while i < n
            invariant
                n == self.entries.len(),
                self@ == s,
                s == old(self)@,
                ascending(s),
                i <= n,
                forall|j: int| 0 <= j < i ==> text_lt(#[trigger] s[j].0, key@),
                put(s, key@, value@) == s.take(i as int) + put(s.skip(i as int), key@, value@),
                lookup(s, key@) == lookup(s.skip(i as int), key@),
            decreases n - i,
        {
            let ord = text_order(key.as_str(), self.entries[i].0.as_str());
            assert(self.entries@[i as int].0@ == s[i as int].0);
            let ghost t = s.skip(i as int);
            assert(t[0] == s[i as int]);
            match ord {
                TextOrder::Before => {
                    proof {
                        lemma_put_keeps_order(s, key@, value@);
                        assert(put(t, key@, value@) == seq![(key@, value@)] + t);
                        assert forall|j: int| 0 <= j < t.len() implies lookup_miss(t, key@, j) by {
                            if j > 0 {
                                assert(t[j] == s[i + j]);
                                assert(text_lt(s[i as int].0, s[i + j].0));
                                lemma_text_lt_transitive(key@, t[0].0, t[j].0);
                            }
                            lemma_text_lt_irreflexive(key@);
                            if t[j].0 == key@ {
                                lemma_text_lt_total(key@, t[j].0);
                            }
                        }
                    }
                    proof {
                        lemma_lookup_missing(t, key@);
                    }
                    let mut v: Vec<(String, String)> = Vec::new();
                    std::mem::swap(&mut v, &mut self.entries);
                    v.insert(i, (key, value));
                    assert(pairs_view(v@) =~= s.take(i as int) + (seq![(key@, value@)] + t));
                    self.entries = v;
                    assert(self@ == s.take(i as int) + (seq![(key@, value@)] + t));
                    assert(put(s, key@, value@) == s.take(i as int) + put(t, key@, value@));
                    assert(lookup(t, key@) is None);
                    assert(lookup(s, key@) is None);
                    return None;
                },
                TextOrder::Same => {
                    let old_value = self.entries[i].1.clone();
                    assert(put(t, key@, value@) == seq![(key@, value@)] + t.drop_first());
                    let mut v: Vec<(String, String)> = Vec::new();
                    std::mem::swap(&mut v, &mut self.entries);
                    v.set(i, (key, value));
                    proof {
                        assert(pairs_view(v@) =~= s.take(i as int) + (seq![(key@, value@)]
                            + t.drop_first()));
                        lemma_put_keeps_order(s, key@, value@);
                    }
                    self.entries = v;
                    proof {
                        assert(self@ =~= s.take(i as int) + (seq![(key@, value@)]
                            + t.drop_first()));
                        lemma_put_keeps_order(s, key@, value@);
                    }
                    return Some(old_value);
                },
                TextOrder::After => {
                    proof {
                        lemma_put_after(t, key@, value@);
                        assert(t.drop_first() =~= s.skip(i + 1));
                        assert(s.take(i + 1) =~= s.take(i as int).push(s[i as int]));
                        lemma_text_lt_total(s[i as int].0, key@);
                    }
                    i = i + 1;
                },
            }
        }
        proof {
            assert(s.skip(n as int) =~= Seq::<ParamView>::empty());
            assert(s.take(n as int) =~= s);
            lemma_put_keeps_order(s, key@, value@);
        }
        let mut v: Vec<(String, String)> = Vec::new();
        std::mem::swap(&mut v, &mut self.entries);
        v.push((key, value));
        assert(pairs_view(v@) =~= s + seq![(key@, value@)]);
        self.entries = v;
        None
    }

    /// Two maps with the same pairs, as `BTreeMap`'s `==` compares them.
    pub fn same_as(&self, other: &Parameters) -> (r: bool)
        ensures
            r == (self@ == other@),
    {
        if self.entries.len() != other.entries.len() {
            return false;
        }
        let mut i: usize = 0;
        while i < self.entries.len()
            invariant
                self.entries.len() == other.entries.len(),
                i <= self.entries.len(),
                forall|j: int| 0 <= j < i ==> self@[j] == other@[j],
            decreases self.entries.len() - i,
        {
            if self.entries[i].0 != other.entries[i].0 || self.entries[i].1 != other.entries[i].1 {
                assert(self@[i as int] != other@[i as int]);
                return false;
            }
            i = i + 1;
        }
        assert(self@ =~= other@);
        true
    }

    /// An equal copy.
    pub fn copy(&self) -> (r: Parameters)
        ensures
            r@ == self@,
    {
        proof {
            use_type_invariant(self);
        }
        let mut entries: Vec<(String, String)> = Vec::new();
        let mut i: usize = 0;
        while i < self.entries.len()
            invariant
                i <= self.entries.len(),
                pairs_view(entries@) == self@.take(i as int),
            decreases self.entries.len() - i,
        {
            let k = self.entries[i].0.clone();
            let v = self.entries[i].1.clone();
            entries.push((k, v));
            assert(self@.take(i + 1) =~= self@.take(i as int).push(self@[i as int]));
            assert(pairs_view(entries@) =~= self@.take(i + 1));
            i = i + 1;
        }
        assert(self@.take(i as int) =~= self@);
        Parameters { entries }
    }
}

} // verus!
