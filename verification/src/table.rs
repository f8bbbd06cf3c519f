//! Ordered key/value tables with unique keys, the storage behind every
//! built-in source.

use vstd::prelude::*;

use crate::text::str_eq;

verus! {

pub type Pairs = Seq<(Seq<char>, Seq<char>)>;

pub open spec fn pairs_view(v: Seq<(String, String)>) -> Pairs {
    v.map_values(|p: (String, String)| (p.0@, p.1@))
}

pub open spec fn strings_view(v: Seq<String>) -> Seq<Seq<char>> {
    v.map_values(|s: String| s@)
}

pub open spec fn keys_of(t: Pairs) -> Seq<Seq<char>> {
    t.map_values(|p: (Seq<char>, Seq<char>)| p.0)
}

pub open spec fn values_of(t: Pairs) -> Seq<Seq<char>> {
    t.map_values(|p: (Seq<char>, Seq<char>)| p.1)
}

/// The value of the first entry with key `k`.
pub open spec fn lookup(t: Pairs, k: Seq<char>) -> Option<Seq<char>>
    decreases t.len(),
{
    if t.len() == 0 {
        None
    } else if t[0].0 == k {
        Some(t[0].1)
    } else {
        lookup(t.drop_first(), k)
    }
}

pub open spec fn has_key(t: Pairs, k: Seq<char>) -> bool {
    lookup(t, k) is Some
}

pub open spec fn keys_unique(t: Pairs) -> bool {
    forall|i: int, j: int| 0 <= i < j < t.len() ==> #[trigger] t[i].0 != #[trigger] t[j].0
}

/// `t` with the value of every entry keyed `k` set to `v`.
pub open spec fn replaced(t: Pairs, k: Seq<char>, v: Seq<char>) -> Pairs {
    t.map_values(|p: (Seq<char>, Seq<char>)| if p.0 == k { (k, v) } else { p })
}

/// Inserts `k -> v`, replacing the value of an existing key in place.
pub open spec fn upsert(t: Pairs, k: Seq<char>, v: Seq<char>) -> Pairs {
    if has_key(t, k) {
        replaced(t, k, v)
    } else {
        t.push((k, v))
    }
}

pub proof fn lemma_lookup_at(t: Pairs, k: Seq<char>, j: int)
    requires
        0 <= j < t.len(),
        t[j].0 == k,
        forall|i: int| 0 <= i < j ==> t[i].0 != k,
    ensures
        lookup(t, k) == Some(t[j].1),
    decreases t.len(),
{
    if j > 0 {
        assert forall|i: int| 0 <= i < j - 1 implies t.drop_first()[i].0 != k by {
            assert(t.drop_first()[i] == t[i + 1]);
        }
        lemma_lookup_at(t.drop_first(), k, j - 1);
    }
}

pub proof fn lemma_lookup_absent(t: Pairs, k: Seq<char>)
    requires
        forall|i: int| 0 <= i < t.len() ==> t[i].0 != k,
    ensures
        lookup(t, k) is None,
    decreases t.len(),
{
    if t.len() > 0 {
        assert forall|i: int| 0 <= i < t.len() - 1 implies t.drop_first()[i].0 != k by {
            assert(t.drop_first()[i] == t[i + 1]);
        }
        lemma_lookup_absent(t.drop_first(), k);
    }
}

pub proof fn lemma_lookup_found(t: Pairs, k: Seq<char>)
    requires
        lookup(t, k) is Some,
    ensures
        exists|j: int| 0 <= j < t.len() && t[j].0 == k && lookup(t, k) == Some(t[j].1),
    decreases t.len(),
{
    if t[0].0 != k {
        lemma_lookup_found(t.drop_first(), k);
        let j = choose|j: int| 0 <= j < t.drop_first().len() && t.drop_first()[j].0 == k && lookup(t.drop_first(), k) == Some(t.drop_first()[j].1);
        assert(t[j + 1] == t.drop_first()[j]);
    }
}

pub proof fn lemma_has_key_iff(t: Pairs, k: Seq<char>)
    ensures
        has_key(t, k) <==> exists|j: int| 0 <= j < t.len() && t[j].0 == k,
{
    if has_key(t, k) {
        lemma_lookup_found(t, k);
    } else {
        if exists|j: int| 0 <= j < t.len() && t[j].0 == k {
            let j = choose|j: int| 0 <= j < t.len() && t[j].0 == k;
            let j0 = first_index(t, k, j);
            lemma_lookup_at(t, k, j0);
        }
    }
}

proof fn first_index(t: Pairs, k: Seq<char>, j: int) -> (r: int)
    requires
        0 <= j < t.len(),
        t[j].0 == k,
    ensures
        0 <= r <= j,
        t[r].0 == k,
        forall|i: int| 0 <= i < r ==> t[i].0 != k,
    decreases j,
{
    if exists|i: int| 0 <= i < j && t[i].0 == k {
        let i = choose|i: int| 0 <= i < j && t[i].0 == k;
        first_index(t, k, i)
    } else {
        j
    }
}

pub proof fn lemma_upsert_unique(t: Pairs, k: Seq<char>, v: Seq<char>)
    requires
        keys_unique(t),
    ensures
        keys_unique(upsert(t, k, v)),
        keys_of(upsert(t, k, v)) == (if has_key(t, k) { keys_of(t) } else { keys_of(t).push(k) }),
{
    lemma_has_key_iff(t, k);
    let u = upsert(t, k, v);
    if has_key(t, k) {
        assert forall|i: int| 0 <= i < t.len() implies #[trigger] u[i].0 == t[i].0 by {}
        assert(keys_of(u) =~= keys_of(t));
    } else {
        assert(keys_of(u) =~= keys_of(t).push(k));
    }
}

/// After `upsert(t, k, v)` a lookup of `k` gives `v`, and a lookup of any
/// other key gives what it gave before.
pub proof fn law_lookup_after_upsert(t: Pairs, k: Seq<char>, v: Seq<char>, other: Seq<char>)
    ensures
        lookup(upsert(t, k, v), k) == Some(v),
        other != k ==> lookup(upsert(t, k, v), other) == lookup(t, other),
{
    if has_key(t, k) {
        lemma_lookup_replaced(t, k, v, k);
        lemma_lookup_replaced(t, k, v, other);
    } else {
        lemma_lookup_pushed(t, k, v, k);
        lemma_lookup_pushed(t, k, v, other);
    }
}

proof fn lemma_lookup_replaced(t: Pairs, k: Seq<char>, v: Seq<char>, q: Seq<char>)
    ensures
        lookup(replaced(t, k, v), q) == (if q == k {
            if has_key(t, k) {
                Some(v)
            } else {
                None
            }
        } else {
            lookup(t, q)
        }),
    decreases t.len(),
{
    let m = replaced(t, k, v);
    if t.len() > 0 {
        assert(m.drop_first() =~= replaced(t.drop_first(), k, v));
        lemma_lookup_replaced(t.drop_first(), k, v, q);
    }
}

proof fn lemma_lookup_pushed(t: Pairs, k: Seq<char>, v: Seq<char>, q: Seq<char>)
    requires
        !has_key(t, k),
    ensures
        lookup(t.push((k, v)), q) == (if lookup(t, q) is Some {
            lookup(t, q)
        } else if q == k {
            Some(v)
        } else {
            None
        }),
    decreases t.len(),
{
    if t.len() > 0 {
        assert(t.push((k, v)).drop_first() =~= t.drop_first().push((k, v)));
        if t[0].0 != k {
            lemma_lookup_pushed(t.drop_first(), k, v, q);
        }
    } else {
        assert(t.push((k, v)).drop_first().len() == 0);
        assert(lookup(t.push((k, v)).drop_first(), q) is None);
    }
}

/// The position of key `k` in `v`, if any.
pub fn find_key(v: &Vec<(String, String)>, k: &str) -> (r: Option<usize>)
    ensures
        match r {
            Some(j) => j < v@.len() && v@[j as int].0@ == k@ && forall|i: int|
                0 <= i < j ==> v@[i].0@ != k@,
            None => forall|i: int| 0 <= i < v@.len() ==> v@[i].0@ != k@,
        },
        r is Some <==> has_key(pairs_view(v@), k@),
        r matches Some(j) ==> lookup(pairs_view(v@), k@) == Some(v@[j as int].1@),
{
    let mut i: usize = 0;
    while i < v.len()
        invariant
            i <= v@.len(),
            forall|m: int| 0 <= m < i ==> v@[m].0@ != k@,
        decreases v@.len() - i,
    {
        if str_eq(v[i].0.as_str(), k) {
            proof {
                let t = pairs_view(v@);
                assert forall|m: int| 0 <= m < i implies t[m].0 != k@ by {}
                lemma_lookup_at(t, k@, i as int);
            }
            return Some(i);
        }
        i = i + 1;
    }
    proof {
        let t = pairs_view(v@);
        assert forall|m: int| 0 <= m < t.len() implies t[m].0 != k@ by {}
        lemma_lookup_absent(t, k@);
    }
    None
}

/// The value stored for `k`, copied.
pub fn lookup_value(v: &Vec<(String, String)>, k: &str) -> (r: Option<String>)
    ensures
        crate::error::opt_string_view(r) == lookup(pairs_view(v@), k@),
{
    match find_key(v, k) {
        Some(j) => Some(v[j].1.clone()),
        None => None,
    }
}

/// Inserts or replaces `k -> val`; reports whether the key was present.
pub fn upsert_pair(v: &mut Vec<(String, String)>, k: String, val: String) -> (existed: bool)
    requires
        keys_unique(pairs_view(old(v)@)),
    ensures
        existed == has_key(pairs_view(old(v)@), k@),
        pairs_view(final(v)@) == upsert(pairs_view(old(v)@), k@, val@),
        keys_unique(pairs_view(final(v)@)),
{
    let ghost t = pairs_view(v@);
    proof {
        lemma_upsert_unique(t, k@, val@);
    }
    match find_key(v, k.as_str()) {
        Some(j) => {
            let ghost kv = k@;
            let ghost vv = val@;
            v.set(j, (k, val));
            proof {
                let u = upsert(t, kv, vv);
                assert forall|i: int| 0 <= i < t.len() && i != j implies t[i].0 != kv by {
                    if i < j {
                    } else {
                        assert(t[j as int].0 == kv);
                    }
                }
                assert(pairs_view(v@) =~= u);
            }
            true
        },
        None => {
            v.push((k, val));
            proof {
                assert(pairs_view(v@) =~= upsert(t, k@, val@));
            }
            false
        },
    }
}

/// Copies of the keys, in table order.
pub fn copy_keys(v: &Vec<(String, String)>) -> (r: Vec<String>)
    ensures
        strings_view(r@) == keys_of(pairs_view(v@)),
{
    let mut r: Vec<String> = Vec::new();
    let mut i: usize = 0;
    while i < v.len()
        invariant
            i <= v@.len(),
            r@.len() == i,
            forall|m: int| 0 <= m < i ==> #[trigger] r@[m]@ == v@[m].0@,
        decreases v@.len() - i,
    {
        r.push(v[i].0.clone());
        i = i + 1;
    }
    assert(strings_view(r@) =~= keys_of(pairs_view(v@)));
    r
}

/// Copies of the values, in table order.
pub fn copy_values(v: &Vec<(String, String)>) -> (r: Vec<String>)
    ensures
        strings_view(r@) == values_of(pairs_view(v@)),
{
    let mut r: Vec<String> = Vec::new();
    let mut i: usize = 0;
    while i < v.len()
        invariant
            i <= v@.len(),
            r@.len() == i,
            forall|m: int| 0 <= m < i ==> #[trigger] r@[m]@ == v@[m].1@,
        decreases v@.len() - i,
    {
        r.push(v[i].1.clone());
        i = i + 1;
    }
    assert(strings_view(r@) =~= values_of(pairs_view(v@)));
    r
}

/// Copies of the entries, in table order.
pub fn copy_pairs(v: &Vec<(String, String)>) -> (r: Vec<(String, String)>)
    ensures
        pairs_view(r@) == pairs_view(v@),
{
    let mut r: Vec<(String, String)> = Vec::new();
    let mut i: usize = 0;
    while i < v.len()
        invariant
            i <= v@.len(),
            r@.len() == i,
            forall|m: int| 0 <= m < i ==> #[trigger] r@[m].0@ == v@[m].0@ && r@[m].1@ == v@[m].1@,
        decreases v@.len() - i,
    {
        r.push((v[i].0.clone(), v[i].1.clone()));
        i = i + 1;
    }
    assert(pairs_view(r@) =~= pairs_view(v@));
    r
}

/// Whether `s` occurs in `v`.
pub fn contains_string(v: &Vec<String>, s: &str) -> (r: bool)
    ensures
        r == strings_view(v@).contains(s@),
{
    let mut i: usize = 0;
    while i < v.len()
        invariant
            i <= v@.len(),
            forall|m: int| 0 <= m < i ==> v@[m]@ != s@,
        decreases v@.len() - i,
    {
        if str_eq(v[i].as_str(), s) {
            assert(strings_view(v@)[i as int] == s@);
            return true;
        }
        i = i + 1;
    }
    assert(!strings_view(v@).contains(s@)) by {
        if strings_view(v@).contains(s@) {
            let m = choose|m: int| 0 <= m < strings_view(v@).len() && strings_view(v@)[m] == s@;
            assert(v@[m]@ == s@);
        }
    }
    false
}

/// Copies of all strings in `v`.
pub fn copy_strings(v: &Vec<String>) -> (r: Vec<String>)
    ensures
        strings_view(r@) == strings_view(v@),
{
    let mut r: Vec<String> = Vec::new();
    let mut i: usize = 0;
    while i < v.len()
        invariant
            i <= v@.len(),
            r@.len() == i,
            forall|m: int| 0 <= m < i ==> #[trigger] r@[m]@ == v@[m]@,
        decreases v@.len() - i,
    {
        r.push(v[i].clone());
        i = i + 1;
    }
    assert(strings_view(r@) =~= strings_view(v@));
    r
}

} // verus!
