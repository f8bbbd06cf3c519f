//! A snapshot of the process environment.

use vstd::prelude::*;

use crate::error::SourceError;
use crate::source::{
    answer_view, bool_answer_view, entry_listing_view, listing_view, Answer, Source,
};
use crate::table::{
    contains_string, copy_keys, copy_pairs, copy_strings, copy_values, find_key, has_key, keys_of,
    keys_unique, lookup, lookup_value, pairs_view, strings_view, upsert, upsert_pair, values_of,
    Pairs,
};
use crate::text::push_str;

verus! {

/// The text that stands for a value that is not valid UTF-8.
pub open spec fn non_utf8_placeholder() -> Seq<char> {
    "<non-UTF-8 value>"@
}

pub open spec fn non_utf8_message(key: Seq<char>) -> Seq<char> {
    "[!] The process variable is not valid UTF-8 for key: "@ + key
}

pub open spec fn insert_unique(set: Seq<Seq<char>>, k: Seq<char>) -> Seq<Seq<char>> {
    if set.contains(k) {
        set
    } else {
        set.push(k)
    }
}

pub open spec fn no_duplicates(set: Seq<Seq<char>>) -> bool {
    forall|i: int, j: int| 0 <= i < j < set.len() ==> #[trigger] set[i] != #[trigger] set[j]
}

/// One variable of the environment: its name and value, each `None` when it
/// is not valid UTF-8.
pub type RawVar = (Option<Seq<char>>, Option<Seq<char>>);

pub open spec fn raw_var_view(v: (Option<String>, Option<String>)) -> RawVar {
    (crate::error::opt_string_view(v.0), crate::error::opt_string_view(v.1))
}

/// The snapshot built from the variables in order: a name that is not UTF-8
/// cannot be asked for and is left out; a value that is not UTF-8 is
/// remembered by its name.
pub open spec fn snapshot_of(vars: Seq<RawVar>) -> (Pairs, Seq<Seq<char>>)
    decreases vars.len(),
{
    if vars.len() == 0 {
        (seq![], seq![])
    } else {
        let (values, bad) = snapshot_of(vars.drop_last());
        match vars.last() {
            (None, _) => (values, bad),
            (Some(k), Some(v)) => (upsert(values, k, v), bad),
            (Some(k), None) => (values, insert_unique(bad, k)),
        }
    }
}

/// An immutable UTF-8 snapshot of the process environment. A value with
/// non-UTF-8 bytes is remembered and reported only when its key is asked for.
#[derive(Debug)]
pub struct ProcessEnvSource {
    values: Vec<(String, String)>,
    non_unicode_values: Vec<String>,
}

pub struct ProcessEnvView {
    pub values: Pairs,
    pub non_unicode: Seq<Seq<char>>,
}

impl View for ProcessEnvSource {
    type V = ProcessEnvView;

    closed spec fn view(&self) -> ProcessEnvView {
        ProcessEnvView {
            values: pairs_view(self.values@),
            non_unicode: strings_view(self.non_unicode_values@),
        }
    }
}

impl ProcessEnvSource {
    #[verifier::type_invariant]
    closed spec fn wf(&self) -> bool {
        &&& keys_unique(pairs_view(self.values@))
        &&& no_duplicates(strings_view(self.non_unicode_values@))
    }

    /// Builds the snapshot from the environment's variables, in the order the
    /// environment lists them.
    pub fn from_environment(vars: Vec<(Option<String>, Option<String>)>) -> (s: Self)
        ensures
            (s@.values, s@.non_unicode) == snapshot_of(vars@.map_values(|v: (Option<String>, Option<String>)| raw_var_view(v))),
    {
        let ghost all = vars@.map_values(|v: (Option<String>, Option<String>)| raw_var_view(v));
        let mut values: Vec<(String, String)> = Vec::new();
        let mut bad: Vec<String> = Vec::new();
        let mut i: usize = 0;
        let n = vars.len();
        let mut rest = vars;
        assert(all.take(0) =~= Seq::<RawVar>::empty());
        assert(pairs_view(values@) =~= Seq::<(Seq<char>, Seq<char>)>::empty());
        assert(strings_view(bad@) =~= Seq::<Seq<char>>::empty());
        // Walk the variables front to back.
        let mut j: usize = 0;
        while j < n
            invariant
                n == all.len(),
                j <= n,
                rest@.len() == n,
                all == rest@.map_values(|v: (Option<String>, Option<String>)| raw_var_view(v)),
                keys_unique(pairs_view(values@)),
                no_duplicates(strings_view(bad@)),
                (pairs_view(values@), strings_view(bad@)) == snapshot_of(all.take(j as int)),
            decreases n - j,
        {
            let ghost prefix = all.take(j + 1);
            assert(prefix.drop_last() =~= all.take(j as int));
            assert(prefix.last() == all[j as int]);
            assert(all[j as int] == raw_var_view(rest@[j as int]));
            let (key, value) = (rest[j].0.clone(), rest[j].1.clone());
            proof {
                assert(crate::error::opt_string_view(key) == all[j as int].0) by {
                    match rest@[j as int].0 { Some(_) => {}, None => {} }
                }
                assert(crate::error::opt_string_view(value) == all[j as int].1) by {
                    match rest@[j as int].1 { Some(_) => {}, None => {} }
                }
            }
            match key {
                None => {},
                Some(k) => match value {
                    Some(v) => {
                        upsert_pair(&mut values, k, v);
                    },
                    None => {
                        if !contains_string(&bad, k.as_str()) {
                            let ghost before = strings_view(bad@);
                            let ghost kv = k@;
                            bad.push(k);
                            assert(strings_view(bad@) =~= before.push(kv));
                        }
                    },
                },
            }
            j = j + 1;
        }
        assert(all.take(n as int) =~= all);
        ProcessEnvSource { values, non_unicode_values: bad }
    }
}

impl Clone for ProcessEnvSource {
    fn clone(&self) -> (s: Self)
        ensures
            s@ == self@,
    {
        proof {
            use_type_invariant(self);
        }
        ProcessEnvSource {
            values: copy_pairs(&self.values),
            non_unicode_values: copy_strings(&self.non_unicode_values),
        }
    }
}

impl Source for ProcessEnvSource {
    open spec fn spec_name(&self) -> Seq<char> {
        "process"@
    }

    open spec fn spec_get(&self, key: Seq<char>) -> Answer {
        if self@.non_unicode.contains(key) {
            Err(non_utf8_message(key))
        } else {
            Ok(lookup(self@.values, key))
        }
    }

    fn name(&self) -> (n: &str)
        ensures
            n@ == "process"@,
    {
        "process"
    }

    fn get(&self, key: &str) -> (r: Result<Option<String>, SourceError>)
        ensures
            answer_view(r) == (if self@.non_unicode.contains(key@) {
                Err::<Option<Seq<char>>, Seq<char>>(non_utf8_message(key@))
            } else {
                Ok::<Option<Seq<char>>, Seq<char>>(lookup(self@.values, key@))
            }),
    {
        if contains_string(&self.non_unicode_values, key) {
            let mut message = "[!] The process variable is not valid UTF-8 for key: ".to_owned();
            push_str(&mut message, key);
            return Err(SourceError::from_string(message));
        }
        Ok(lookup_value(&self.values, key))
    }

    fn keys(&self) -> (r: Result<Option<Vec<String>>, SourceError>)
        ensures
            listing_view(r) == Ok::<Option<Seq<Seq<char>>>, Seq<char>>(Some(keys_of(self@.values) + self@.non_unicode)),
    {
        let mut keys = copy_keys(&self.values);
        let extra = copy_strings(&self.non_unicode_values);
        let ghost a = strings_view(keys@);
        let ghost b = strings_view(extra@);
        let mut extra = extra;
        keys.append(&mut extra);
        assert(strings_view(keys@) =~= a + b);
        Ok(Some(keys))
    }

    fn entries(&self) -> (r: Result<Option<Vec<(String, String)>>, SourceError>)
        ensures
            entry_listing_view(r) == Ok::<Option<Pairs>, Seq<char>>(Some(self@.values + self@.non_unicode.map_values(|k: Seq<char>| (k, non_utf8_placeholder())))),
    {
        let mut entries = copy_pairs(&self.values);
        let ghost start = pairs_view(entries@);
        let ghost bad = strings_view(self.non_unicode_values@);
        let mut i: usize = 0;
        while i < self.non_unicode_values.len()
            invariant
                i <= bad.len(),
                bad == strings_view(self.non_unicode_values@),
                entries@.len() == start.len() + i,
                forall|m: int| 0 <= m < start.len() ==> (#[trigger] entries@[m]).0@ == start[m].0 && entries@[m].1@ == start[m].1,
                forall|m: int| start.len() <= m < start.len() + i ==> (#[trigger] entries@[m]).0@ == bad[m - start.len()] && entries@[m].1@ == non_utf8_placeholder(),
            decreases bad.len() - i,
        {
            entries.push((self.non_unicode_values[i].clone(), "<non-UTF-8 value>".to_owned()));
            i = i + 1;
        }
        assert(pairs_view(entries@) =~= start + bad.map_values(|k: Seq<char>| (k, non_utf8_placeholder()))) by {
            let target = start + bad.map_values(|k: Seq<char>| (k, non_utf8_placeholder()));
            assert forall|m: int| 0 <= m < target.len() implies pairs_view(entries@)[m] == target[m] by {
                assert(entries@[m].0@ == pairs_view(entries@)[m].0);
            }
        }
        Ok(Some(entries))
    }

    fn is_empty(&self) -> (r: Result<bool, SourceError>)
        ensures
            bool_answer_view(r) == Ok::<bool, Seq<char>>(self@.values.len() == 0 && self@.non_unicode.len() == 0),
    {
        Ok(self.values.len() == 0 && self.non_unicode_values.len() == 0)
    }

    fn has_key(&self, key: &str) -> (r: Result<bool, SourceError>)
        ensures
            bool_answer_view(r) == Ok::<bool, Seq<char>>(self@.non_unicode.contains(key@) || has_key(self@.values, key@)),
    {
        if contains_string(&self.non_unicode_values, key) {
            return Ok(true);
        }
        Ok(find_key(&self.values, key).is_some())
    }

    fn values(&self) -> (r: Result<Option<Vec<String>>, SourceError>)
        ensures
            listing_view(r) == Ok::<Option<Seq<Seq<char>>>, Seq<char>>(Some(values_of(self@.values) + self@.non_unicode.map_values(|k: Seq<char>| non_utf8_placeholder()))),
    {
        let mut values = copy_values(&self.values);
        let ghost start = strings_view(values@);
        let ghost bad = strings_view(self.non_unicode_values@);
        let mut i: usize = 0;
        while i < self.non_unicode_values.len()
            invariant
                i <= bad.len(),
                bad == strings_view(self.non_unicode_values@),
                values@.len() == start.len() + i,
                forall|m: int| 0 <= m < start.len() ==> (#[trigger] values@[m])@ == start[m],
                forall|m: int| start.len() <= m < start.len() + i ==> (#[trigger] values@[m])@ == non_utf8_placeholder(),
            decreases bad.len() - i,
        {
            values.push("<non-UTF-8 value>".to_owned());
            i = i + 1;
        }
        assert(strings_view(values@) =~= start + bad.map_values(|k: Seq<char>| non_utf8_placeholder()));
        Ok(Some(values))
    }
}

} // verus!
