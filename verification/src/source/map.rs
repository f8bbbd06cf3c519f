//! An in-memory source whose keys are normalized to upper case.

use vstd::prelude::*;

use crate::error::SourceError;
use crate::source::{
    answer_view, bool_answer_view, entry_listing_view, lemma_collect_table, listed_entries, listing_view, Answer,
    Listing, Source,
};
use crate::table::{
    law_lookup_after_upsert, lemma_lookup_at, lemma_upsert_unique, copy_keys, copy_pairs, copy_values, keys_of, keys_unique, lookup, lookup_value, pairs_view, upsert,
    upsert_pair, values_of, Pairs,
};
use crate::text::{ascii_upper, to_ascii_uppercase, upper_seq};

verus! {

/// An in-memory source, handy for tests and programmatic configuration.
/// Keys are upper-cased on insertion and lookup, so lookups ignore ASCII case.
#[derive(Debug)]
pub struct MapSource {
    name: String,
    values: Vec<(String, String)>,
}

pub struct MapSourceView {
    pub name: Seq<char>,
    pub values: Pairs,
}

impl View for MapSource {
    type V = MapSourceView;

    closed spec fn view(&self) -> MapSourceView {
        MapSourceView { name: self.name@, values: pairs_view(self.values@) }
    }
}

impl MapSource {
    #[verifier::type_invariant]
    closed spec fn wf(&self) -> bool {
        &&& keys_unique(pairs_view(self.values@))
        &&& forall|i: int| 0 <= i < self.values@.len() ==> upper_seq(#[trigger] pairs_view(self.values@)[i].0) == pairs_view(self.values@)[i].0
    }

    pub fn new(name: &str) -> (s: Self)
        ensures
            s@.name == name@,
            s@.values == Seq::<(Seq<char>, Seq<char>)>::empty(),
    {
        let s = MapSource { name: name.to_owned(), values: Vec::new() };
        assert(pairs_view(s.values@) =~= Seq::<(Seq<char>, Seq<char>)>::empty());
        s
    }

    /// Adds or replaces a value and returns `self` for builder-style use.
    pub fn with(self, key: &str, value: &str) -> (s: Self)
        ensures
            s@.name == self@.name,
            s@.values == upsert(self@.values, upper_seq(key@), value@),
    {
        let mut s = self;
        s.insert(key, value);
        s
    }

    /// Adds or replaces the value of the upper-cased `key`.
    pub fn insert(&mut self, key: &str, value: &str)
        ensures
            final(self)@.name == old(self)@.name,
            final(self)@.values == upsert(old(self)@.values, upper_seq(key@), value@),
    {
        proof {
            use_type_invariant(&*self);
        }
        let k = to_ascii_uppercase(key);
        let mut values: Vec<(String, String)> = Vec::new();
        std::mem::swap(&mut values, &mut self.values);
        let ghost before = pairs_view(values@);
        proof {
            lemma_upper_idempotent(key@);
            lemma_upsert_unique(before, k@, value@);
        }
        upsert_pair(&mut values, k, value.to_owned());
        proof {
            let after = pairs_view(values@);
            assert forall|i: int| 0 <= i < values@.len() implies upper_seq(#[trigger] after[i].0) == after[i].0 by {
                assert(after[i].0 == keys_of(after)[i]);
                if i < before.len() {
                    assert(keys_of(before)[i] == before[i].0);
                }
            }
        }
        self.values = values;
    }
}

proof fn lemma_upper_idempotent(s: Seq<char>)
    ensures
        upper_seq(upper_seq(s)) == upper_seq(s),
{
    assert forall|i: int| 0 <= i < s.len() implies ascii_upper(ascii_upper(s[i])) == ascii_upper(s[i]) by {
        let c = s[i];
        if 'a' <= c && c <= 'z' {
            assert((c as u32) >= 97 && (c as u32) <= 122);
        }
    }
    assert(upper_seq(upper_seq(s)) =~= upper_seq(s));
}

/// What `get` finds after `insert`: the inserted value under every spelling
/// of the key that upper-cases alike, and under any other key what was there
/// before (so a later insert replaces an earlier one).
pub proof fn law_get_after_insert(values: Pairs, key: Seq<char>, value: Seq<char>, query: Seq<char>)
    ensures
        upper_seq(query) == upper_seq(key) ==> lookup(upsert(values, upper_seq(key), value), upper_seq(query))
            == Some(value),
        upper_seq(query) != upper_seq(key) ==> lookup(upsert(values, upper_seq(key), value), upper_seq(query))
            == lookup(values, upper_seq(query)),
{
    law_lookup_after_upsert(values, upper_seq(key), value, upper_seq(query));
}

impl Clone for MapSource {
    fn clone(&self) -> (s: Self)
        ensures
            s@ == self@,
    {
        proof {
            use_type_invariant(self);
        }
        MapSource { name: self.name.clone(), values: copy_pairs(&self.values) }
    }
}

impl Source for MapSource {
    open spec fn answers_by_spec(&self) -> bool {
        true
    }

    open spec fn spec_name(&self) -> Seq<char> {
        self@.name
    }

    open spec fn spec_get(&self, key: Seq<char>) -> Answer {
        Ok(lookup(self@.values, upper_seq(key)))
    }

    fn name(&self) -> (n: &str)
        ensures
            n@ == self@.name,
    {
        self.name.as_str()
    }

    fn get(&self, key: &str) -> (r: Result<Option<String>, SourceError>)
        ensures
            answer_view(r) == Ok::<Option<Seq<char>>, Seq<char>>(lookup(self@.values, upper_seq(key@))),
    {
        let k = to_ascii_uppercase(key);
        Ok(lookup_value(&self.values, k.as_str()))
    }

    fn keys(&self) -> (r: Result<Option<Vec<String>>, SourceError>)
        ensures
            listing_view(r) == Ok::<Option<Seq<Seq<char>>>, Seq<char>>(Some(keys_of(self@.values))),
    {
        Ok(Some(copy_keys(&self.values)))
    }

    fn values(&self) -> (r: Result<Option<Vec<String>>, SourceError>)
        ensures
            listing_view(r) == Ok::<Option<Seq<Seq<char>>>, Seq<char>>(Some(values_of(self@.values))),
    {
        Ok(Some(copy_values(&self.values)))
    }

    fn entries(&self) -> (r: Result<Option<Vec<(String, String)>>, SourceError>)
        ensures
            entry_listing_view(r) == Ok::<Option<Pairs>, Seq<char>>(Some(self@.values)),
    {
        proof {
            use_type_invariant(self);
            let t = self@.values;
            assert forall|i: int| 0 <= i < t.len() implies lookup(t, t[i].0) == Some(t[i].1) by {
                lemma_lookup_at(t, t[i].0, i);
            }
            assert forall|i: int| 0 <= i < t.len() implies self.spec_get(#[trigger] t[i].0) == Ok::<Option<Seq<char>>, Seq<char>>(Some(t[i].1)) by {
                assert(upper_seq(t[i].0) == t[i].0);
            }
            let get = |k: Seq<char>| self.spec_get(k);
            lemma_collect_table(t, get, 0);
            assert(keys_of(t).skip(0) =~= keys_of(t));
            assert(t.skip(0) =~= t);
            assert(listed_entries(Some(keys_of(t)), get, Ok::<Option<Pairs>, Seq<char>>(Some(t))));
        }
        Ok(Some(copy_pairs(&self.values)))
    }

    fn is_empty(&self) -> (r: Result<bool, SourceError>)
        ensures
            bool_answer_view(r) == Ok::<bool, Seq<char>>(self@.values.len() == 0),
    {
        Ok(self.values.len() == 0)
    }
}

} // verus!
