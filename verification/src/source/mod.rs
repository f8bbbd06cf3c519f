//! Built-in configuration sources and the extension trait for custom sources.

pub mod dotenv;
pub mod map;
pub mod process;

pub use dotenv::{DotenvSource, ParsedDotenv};
pub use map::MapSource;
pub use process::ProcessEnvSource;

use vstd::prelude::*;

use crate::error::SourceError;
use crate::table::{keys_of, pairs_view, strings_view, Pairs};

verus! {

/// What a source answers for one key: a value, nothing, or a failure message.
pub type Answer = Result<Option<Seq<char>>, Seq<char>>;

pub open spec fn answer_view(r: Result<Option<String>, SourceError>) -> Answer {
    match r {
        Ok(Some(v)) => Ok(Some(v@)),
        Ok(None) => Ok(None),
        Err(e) => Err(e@),
    }
}

/// A listing of keys or values, if the source can list them.
pub type Listing = Result<Option<Seq<Seq<char>>>, Seq<char>>;

pub open spec fn listing_view(r: Result<Option<Vec<String>>, SourceError>) -> Listing {
    match r {
        Ok(Some(v)) => Ok(Some(strings_view(v@))),
        Ok(None) => Ok(None),
        Err(e) => Err(e@),
    }
}

pub type EntryListing = Result<Option<Pairs>, Seq<char>>;

pub open spec fn entry_listing_view(r: Result<Option<Vec<(String, String)>>, SourceError>) -> EntryListing {
    match r {
        Ok(Some(v)) => Ok(Some(pairs_view(v@))),
        Ok(None) => Ok(None),
        Err(e) => Err(e@),
    }
}

pub open spec fn bool_answer_view(r: Result<bool, SourceError>) -> Result<bool, Seq<char>> {
    match r {
        Ok(b) => Ok(b),
        Err(e) => Err(e@),
    }
}

/// The entries of `keys` that `get` has a value for, in key order; the first
/// failure of `get` ends the listing.
pub open spec fn collect_entries(keys: Seq<Seq<char>>, get: spec_fn(Seq<char>) -> Answer) -> Result<Pairs, Seq<char>>
    decreases keys.len(),
{
    if keys.len() == 0 {
        Ok(seq![])
    } else {
        match get(keys[0]) {
            Err(e) => Err(e),
            Ok(None) => collect_entries(keys.drop_first(), get),
            Ok(Some(v)) => match collect_entries(keys.drop_first(), get) {
                Ok(rest) => Ok(seq![(keys[0], v)] + rest),
                Err(e) => Err(e),
            },
        }
    }
}

/// Every collected entry is a value `get` gives; a failure is one `get` gives.
pub proof fn lemma_collected_entries_are_answers(keys: Seq<Seq<char>>, get: spec_fn(Seq<char>) -> Answer)
    ensures
        match collect_entries(keys, get) {
            Ok(es) => forall|i: int| 0 <= i < es.len() ==> get(#[trigger] es[i].0) == Ok::<Option<Seq<char>>, Seq<char>>(Some(es[i].1)),
            Err(e) => exists|k: Seq<char>| #[trigger] get(k) == Err::<Option<Seq<char>>, Seq<char>>(e),
        },
    decreases keys.len(),
{
    if keys.len() > 0 {
        lemma_collected_entries_are_answers(keys.drop_first(), get);
        match get(keys[0]) {
            Err(e) => {},
            Ok(None) => {},
            Ok(Some(v)) => {
                match collect_entries(keys.drop_first(), get) {
                    Ok(rest) => {
                        let es = seq![(keys[0], v)] + rest;
                        assert forall|i: int| 0 <= i < es.len() implies get(#[trigger] es[i].0) == Ok::<Option<Seq<char>>, Seq<char>>(Some(es[i].1)) by {
                            if i > 0 {
                                assert(es[i] == rest[i - 1]);
                            }
                        }
                    },
                    Err(e) => {},
                }
            },
        }
    }
}

/// Collecting the keys of a table whose every entry `get` gives back yields
/// the table itself.
pub proof fn lemma_collect_table(t: Pairs, get: spec_fn(Seq<char>) -> Answer, i: int)
    requires
        0 <= i <= t.len(),
        forall|j: int| 0 <= j < t.len() ==> get(#[trigger] t[j].0) == Ok::<Option<Seq<char>>, Seq<char>>(Some(t[j].1)),
    ensures
        collect_entries(keys_of(t).skip(i), get) == Ok::<Pairs, Seq<char>>(t.skip(i)),
    decreases t.len() - i,
{
    let ks = keys_of(t).skip(i);
    if i == t.len() {
        assert(ks.len() == 0);
        assert(t.skip(i) =~= Seq::<(Seq<char>, Seq<char>)>::empty());
    } else {
        lemma_collect_table(t, get, i + 1);
        assert(ks[0] == t[i].0);
        assert(ks.drop_first() =~= keys_of(t).skip(i + 1));
        assert(get(t[i].0) == Ok::<Option<Seq<char>>, Seq<char>>(Some(t[i].1)));
        assert(seq![(t[i].0, t[i].1)] + t.skip(i + 1) =~= t.skip(i));
    }
}

/// A listing that reports exactly the collected entries or failure.
pub open spec fn entries_agree(listing: EntryListing, collected: Result<Pairs, Seq<char>>) -> bool {
    match collected {
        Ok(es) => listing == Ok::<Option<Pairs>, Seq<char>>(Some(es)),
        Err(e) => listing == Err::<Option<Pairs>, Seq<char>>(e),
    }
}

/// An entry listing made from a key listing: none when no keys are listed,
/// else the entries of the listed keys that `get` finds, or its first failure.
pub open spec fn listed_entries(
    listing: Option<Seq<Seq<char>>>,
    get: spec_fn(Seq<char>) -> Answer,
    r: EntryListing,
) -> bool {
    match listing {
        None => r == Ok::<Option<Pairs>, Seq<char>>(None),
        Some(keys) => entries_agree(r, collect_entries(keys, get)),
    }
}

/// Whether an answer says that the key is present.
pub open spec fn presence(a: Answer) -> Result<bool, Seq<char>> {
    match a {
        Ok(Some(_)) => Ok(true),
        Ok(None) => Ok(false),
        Err(e) => Err(e),
    }
}

/// A named source of string values.
///
/// Type conversion does not belong here: a source only finds raw strings.
/// The map and dotenv sources answer exactly as their spec functions say
/// (`answers_by_spec`), and so do the default methods built on `get`; the
/// process snapshot states its own contracts, and nothing is assumed of
/// other implementations.
pub trait Source: Send + Sync {
    /// Whether `name`, `get` and the default methods answer as `spec_name` and
    /// `spec_get` say.
    open spec fn answers_by_spec(&self) -> bool {
        false
    }

    /// The name of a source that answers by spec. Nothing is said of the name
    /// of any other source, whatever this default gives.
    open spec fn spec_name(&self) -> Seq<char> {
        Seq::empty()
    }

    /// What `get` answers for `key`, for a source that answers by spec.
    /// Nothing is said of any other source, whatever this default gives.
    open spec fn spec_get(&self, key: Seq<char>) -> Answer {
        Ok(None)
    }

    /// A short stable name used in reports, for example `process` or `.env`.
    fn name(&self) -> (n: &str)
        ensures
            self.answers_by_spec() ==> n@ == self.spec_name(),
    ;

    fn get(&self, key: &str) -> (r: Result<Option<String>, SourceError>)
        ensures
            self.answers_by_spec() ==> answer_view(r) == self.spec_get(key@),
    ;

    /// The keys the source can list; by default it lists none. A source
    /// that answers by spec lists without failing.
    fn keys(&self) -> (r: Result<Option<Vec<String>>, SourceError>)
        ensures
            self.answers_by_spec() ==> r is Ok,
        default_ensures
            r matches Ok(None),
    {
        Ok(None)
    }

    /// The values the source can list; by default it lists none.
    fn values(&self) -> (r: Result<Option<Vec<String>>, SourceError>)
        default_ensures
            r matches Ok(None),
    {
        Ok(None)
    }

    /// The entries of the listed keys that `get` finds, in key order.
    fn entries(&self) -> (r: Result<Option<Vec<(String, String)>>, SourceError>)
        ensures
            self.answers_by_spec() ==> match entry_listing_view(r) {
                Ok(Some(es)) => forall|i: int| 0 <= i < es.len() ==> self.spec_get(#[trigger] es[i].0) == Ok::<Option<Seq<char>>, Seq<char>>(Some(es[i].1)),
                _ => true,
            },
            self.answers_by_spec() ==> exists|listing: Option<Seq<Seq<char>>>, get: spec_fn(Seq<char>) -> Answer|
                get == (|k: Seq<char>| self.spec_get(k)) && #[trigger] listed_entries(listing, get, entry_listing_view(r)),
    {
        let keys = match self.keys() {
            Ok(Some(keys)) => keys,
            Ok(None) => {
                assert(listed_entries(None, |k: Seq<char>| self.spec_get(k), Ok::<Option<Pairs>, Seq<char>>(None)));
                return Ok(None);
            },
            Err(error) => return Err(error),
        };
        let r = self.collect_listed(keys);
        proof {
            if self.answers_by_spec() {
                lemma_collected_entries_are_answers(strings_view(keys@), |k: Seq<char>| self.spec_get(k));
                assert(listed_entries(Some(strings_view(keys@)), |k: Seq<char>| self.spec_get(k), entry_listing_view(r)));
            }
        }
        r
    }

    /// Looks up every key in order and keeps the ones that have a value.
    fn collect_listed(&self, keys: Vec<String>) -> (r: Result<Option<Vec<(String, String)>>, SourceError>)
        ensures
            self.answers_by_spec() ==> entries_agree(entry_listing_view(r), collect_entries(strings_view(keys@), |k: Seq<char>| self.spec_get(k))),
    {
    let ghost ks = strings_view(keys@);
    let ghost get = |k: Seq<char>| self.spec_get(k);
    let mut out: Vec<(String, String)> = Vec::new();
    let mut i: usize = 0;
    assert(ks.skip(0) =~= ks);
    assert(pairs_view(out@) =~= Seq::<(Seq<char>, Seq<char>)>::empty());
    while i < keys.len()
        invariant
            i <= keys@.len(),
            ks == strings_view(keys@),
            get == |k: Seq<char>| self.spec_get(k),
            self.answers_by_spec() ==> collect_entries(ks, get) == match collect_entries(ks.skip(i as int), get) {
                Ok(rest) => Ok(pairs_view(out@) + rest),
                Err(e) => Err(e),
            },
        decreases keys@.len() - i,
    {
        let ghost tail = ks.skip(i as int);
        assert(tail[0] == keys@[i as int]@);
        assert(tail.drop_first() =~= ks.skip(i + 1));
        match self.get(keys[i].as_str()) {
            Ok(Some(value)) => {
                let ghost before = pairs_view(out@);
                let ghost kv = keys@[i as int]@;
                let ghost vv = value@;
                out.push((keys[i].clone(), value));
                proof {
                    assert(pairs_view(out@) =~= before.push((kv, vv)));
                    if self.answers_by_spec() {
                        match collect_entries(ks.skip(i + 1), get) {
                            Ok(rest) => {
                                assert(before + (seq![(kv, vv)] + rest) =~= pairs_view(out@) + rest);
                            },
                            Err(e) => {},
                        }
                    }
                }
            },
            Ok(None) => {},
            Err(error) => {
                return Err(error);
            },
        }
        i = i + 1;
    }
    assert(ks.skip(i as int) =~= Seq::<Seq<char>>::empty());
    assert(pairs_view(out@) + Seq::<(Seq<char>, Seq<char>)>::empty() =~= pairs_view(out@));
    Ok(Some(out))
    }

    /// Whether the listing of keys is empty; `false` when keys cannot be listed.
    fn is_empty(&self) -> (r: Result<bool, SourceError>)
        ensures
            self.answers_by_spec() ==> r is Ok,
    {
        match self.keys() {
            Ok(Some(keys)) => Ok(keys.len() == 0),
            Ok(None) => Ok(false),
            Err(error) => Err(error),
        }
    }

    /// Whether `get` finds a value for `key`.
    fn has_key(&self, key: &str) -> (r: Result<bool, SourceError>)
        ensures
            self.answers_by_spec() ==> bool_answer_view(r) == presence(self.spec_get(key@)),
    {
        match self.get(key) {
            Ok(Some(_)) => Ok(true),
            Ok(None) => Ok(false),
            Err(error) => Err(error),
        }
    }
}

} // verus!
