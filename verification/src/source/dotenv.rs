//! The dotenv grammar: `KEY=value`, `export KEY=value`, empty values, single
//! and double quoted values, common escapes inside double quotes, and
//! comments outside quoted strings. Shell interpolation and multiline values
//! are not part of it.

use vstd::prelude::*;

use crate::error::{dotenv_error, line_label, ConfigError, ConfigErrorView, SourceError};
use crate::source::{
    answer_view, bool_answer_view, entry_listing_view, lemma_collect_table, listed_entries, listing_view, Answer,
    EntryListing, Source,
};
use crate::table::{
    lemma_lookup_at, law_lookup_after_upsert, lemma_upsert_unique, copy_keys, copy_pairs, copy_values, find_key, has_key, keys_of, keys_unique, lookup, lookup_value,
    pairs_view, strings_view, upsert, upsert_pair, values_of, Pairs,
};
use crate::text::{
    decimal, lemma_ws_prefix_len_bound, is_ascii_alpha, is_ascii_digit, is_whitespace_char, is_ws, push_char, push_str,
    string_of_range, trim, trim_end, trim_start, ws_prefix_len, ws_suffix_len, chars_of,
};

verus! {

// ---------------------------------------------------------------------
// The grammar, as mathematics over characters.
// ---------------------------------------------------------------------

/// What is wrong with a line that is neither blank nor a valid entry.
#[derive(Debug, Clone, Copy, PartialEq, Eq, Structural)]
pub enum LineIssue {
    ExpectedKeyValue,
    InvalidName,
    Unterminated,
    TrailingAfterQuote,
}

pub open spec fn issue_text(issue: LineIssue) -> Seq<char> {
    match issue {
        LineIssue::ExpectedKeyValue => "[!] Expected `KEY=value`"@,
        LineIssue::InvalidName => "[!] Invalid environment variable name"@,
        LineIssue::Unterminated => "[!] Unterminated quoted value"@,
        LineIssue::TrailingAfterQuote => "[!] Unexpected characters after quoted value"@,
    }
}

/// Index of the first `c` in `s`, or -1.
pub open spec fn index_of(s: Seq<char>, c: char) -> int
    decreases s.len(),
{
    if s.len() == 0 {
        -1
    } else if s[0] == c {
        0
    } else {
        let r = index_of(s.drop_first(), c);
        if r < 0 {
            -1
        } else {
            r + 1
        }
    }
}

pub open spec fn strip_cr(line: Seq<char>) -> Seq<char> {
    if line.len() > 0 && line.last() == '\r' {
        line.drop_last()
    } else {
        line
    }
}

/// The lines of a text, as `str::lines` yields them: split at `\n`, a `\r`
/// before the `\n` removed, and no empty line after a final `\n`.
pub open spec fn text_lines(s: Seq<char>) -> Seq<Seq<char>>
    decreases s.len(),
{
    if s.len() == 0 {
        seq![]
    } else {
        let i = index_of(s, '\n');
        if 0 <= i < s.len() {
            seq![strip_cr(s.take(i))] + text_lines(s.skip(i + 1))
        } else {
            seq![s]
        }
    }
}

pub open spec fn key_char(c: char) -> bool {
    c == '_' || is_ascii_alpha(c) || is_ascii_digit(c)
}

/// A valid environment variable name: a letter or `_`, then letters,
/// digits or `_`.
pub open spec fn valid_key(k: Seq<char>) -> bool {
    &&& k.len() > 0
    &&& (k[0] == '_' || is_ascii_alpha(k[0]))
    &&& forall|i: int| 1 <= i < k.len() ==> key_char(#[trigger] k[i])
}

/// The character an escape `\c` stands for inside double quotes.
pub open spec fn unescape(c: char) -> char {
    if c == 'n' {
        '\n'
    } else if c == 'r' {
        '\r'
    } else if c == 't' {
        '\t'
    } else {
        c
    }
}

/// Reads a quoted body up to and including the closing quote `q`.
/// Returns the decoded text and how many characters were consumed, or
/// `None` when no closing quote comes.
pub open spec fn scan_quoted(body: Seq<char>, q: char) -> Option<(Seq<char>, nat)>
    decreases body.len(),
{
    if body.len() == 0 {
        None
    } else if body[0] == q {
        Some((seq![], 1))
    } else if q == '"' && body[0] == '\\' {
        if body.len() < 2 {
            None
        } else {
            match scan_quoted(body.skip(2), q) {
                Some((d, n)) => Some((seq![unescape(body[1])] + d, n + 2)),
                None => None,
            }
        }
    } else {
        match scan_quoted(body.skip(1), q) {
            Some((d, n)) => Some((seq![body[0]] + d, n + 1)),
            None => None,
        }
    }
}

/// A quoted value `r` (whose first character is the quote `q`).
pub open spec fn quoted_value(r: Seq<char>, q: char) -> Result<Seq<char>, LineIssue> {
    match scan_quoted(r.drop_first(), q) {
        None => Err(LineIssue::Unterminated),
        Some((d, n)) => {
            let rest = trim(r.skip(n + 1 as int));
            if rest.len() > 0 && rest[0] != '#' {
                Err(LineIssue::TrailingAfterQuote)
            } else {
                Ok(d)
            }
        },
    }
}

/// A `#` at position `k` that starts a comment: first, or after whitespace.
pub open spec fn starts_comment(r: Seq<char>, k: int) -> bool {
    r[k] == '#' && (k == 0 || is_ws(r[k - 1]))
}

/// The first comment position at or after `k`, or the length.
pub open spec fn comment_from(r: Seq<char>, k: nat) -> nat
    decreases r.len() - k,
{
    if k >= r.len() {
        r.len()
    } else if starts_comment(r, k as int) {
        k
    } else {
        comment_from(r, k + 1)
    }
}

pub open spec fn unquoted_value(r: Seq<char>) -> Seq<char> {
    trim_end(r.take(comment_from(r, 0) as int))
}

/// The value after `=`.
pub open spec fn value_spec(raw: Seq<char>) -> Result<Seq<char>, LineIssue> {
    let r = trim_start(raw);
    if r.len() > 0 && (r[0] == '\'' || r[0] == '"') {
        quoted_value(r, r[0])
    } else {
        Ok(unquoted_value(r))
    }
}

pub open spec fn export_word() -> Seq<char> {
    seq!['e', 'x', 'p', 'o', 'r', 't']
}

/// Removes an `export` keyword that is followed by whitespace.
pub open spec fn strip_export(line: Seq<char>) -> Seq<char> {
    if line.len() > 6 && line.take(6) == export_word() && is_ws(line[6]) {
        trim_start(line.skip(6))
    } else {
        line
    }
}

/// What a line means.
pub enum LineSpec {
    Blank,
    Entry(Seq<char>, Seq<char>),
    Bad(LineIssue),
}

pub open spec fn line_spec(raw: Seq<char>) -> LineSpec {
    let line = trim(raw);
    if line.len() == 0 || line[0] == '#' {
        LineSpec::Blank
    } else {
        let body = strip_export(line);
        let eq = index_of(body, '=');
        if eq < 0 {
            LineSpec::Bad(LineIssue::ExpectedKeyValue)
        } else {
            let key = trim(body.take(eq));
            if !valid_key(key) {
                LineSpec::Bad(LineIssue::InvalidName)
            } else {
                match value_spec(body.skip(eq + 1)) {
                    Ok(v) => LineSpec::Entry(key, v),
                    Err(issue) => LineSpec::Bad(issue),
                }
            }
        }
    }
}

/// The outcome of parsing a whole file: the entries (unique keys, last value
/// wins) and the keys that were set again, or the first bad line.
pub enum DotenvOutcome {
    Parsed(Pairs, Seq<Seq<char>>),
    Failed(nat, LineIssue),
}

pub open spec fn fold_lines(
    lines: Seq<Seq<char>>,
    n: nat,
    entries: Pairs,
    dups: Seq<Seq<char>>,
) -> DotenvOutcome
    decreases lines.len(),
{
    if lines.len() == 0 {
        DotenvOutcome::Parsed(entries, dups)
    } else {
        match line_spec(lines[0]) {
            LineSpec::Blank => fold_lines(lines.drop_first(), n + 1, entries, dups),
            LineSpec::Bad(issue) => DotenvOutcome::Failed(n, issue),
            LineSpec::Entry(k, v) => fold_lines(
                lines.drop_first(),
                n + 1,
                upsert(entries, k, v),
                if has_key(entries, k) {
                    dups.push(k)
                } else {
                    dups
                },
            ),
        }
    }
}

pub open spec fn dotenv_spec(input: Seq<char>) -> DotenvOutcome {
    fold_lines(text_lines(input), 1, seq![], seq![])
}

/// The error reported for a bad line.
pub open spec fn line_error(source: Seq<char>, n: nat, issue: LineIssue) -> ConfigErrorView {
    dotenv_error(source, "line "@ + decimal(n) + ": "@ + issue_text(issue))
}

// ---------------------------------------------------------------------
// Lemmas.
// ---------------------------------------------------------------------

pub proof fn lemma_index_of_bounds(s: Seq<char>, c: char)
    ensures
        -1 <= index_of(s, c) < s.len(),
        index_of(s, c) >= 0 ==> s[index_of(s, c)] == c,
    decreases s.len(),
{
    if s.len() > 0 && s[0] != c {
        lemma_index_of_bounds(s.drop_first(), c);
    }
}

pub proof fn lemma_index_of_found(s: Seq<char>, c: char, j: int)
    requires
        0 <= j < s.len(),
        s[j] == c,
        forall|k: int| 0 <= k < j ==> s[k] != c,
    ensures
        index_of(s, c) == j,
    decreases s.len(),
{
    if j > 0 {
        assert forall|k: int| 0 <= k < j - 1 implies s.drop_first()[k] != c by {
            assert(s.drop_first()[k] == s[k + 1]);
        }
        lemma_index_of_found(s.drop_first(), c, j - 1);
    }
}

pub proof fn lemma_index_of_absent(s: Seq<char>, c: char)
    requires
        forall|k: int| 0 <= k < s.len() ==> s[k] != c,
    ensures
        index_of(s, c) == -1,
    decreases s.len(),
{
    if s.len() > 0 {
        assert forall|k: int| 0 <= k < s.len() - 1 implies s.drop_first()[k] != c by {
            assert(s.drop_first()[k] == s[k + 1]);
        }
        lemma_index_of_absent(s.drop_first(), c);
    }
}

proof fn lemma_ws_prefix_concat(w: Seq<char>, r: Seq<char>)
    requires
        forall|i: int| 0 <= i < w.len() ==> is_ws(#[trigger] w[i]),
    ensures
        ws_prefix_len(w + r) == w.len() + ws_prefix_len(r),
    decreases w.len(),
{
    if w.len() > 0 {
        assert((w + r)[0] == w[0]);
        assert((w + r).drop_first() =~= w.drop_first() + r);
        assert forall|i: int| 0 <= i < w.drop_first().len() implies is_ws(#[trigger] w.drop_first()[i]) by {
            assert(w.drop_first()[i] == w[i + 1]);
        }
        lemma_ws_prefix_concat(w.drop_first(), r);
    } else {
        assert(w + r =~= r);
    }
}

/// Whitespace before a value never changes it: a value that is quoted after
/// some blanks is still quoted.
pub proof fn law_whitespace_before_value_is_ignored(w: Seq<char>, raw: Seq<char>)
    requires
        forall|i: int| 0 <= i < w.len() ==> is_ws(#[trigger] w[i]),
    ensures
        value_spec(w + raw) == value_spec(raw),
{
    lemma_ws_prefix_concat(w, raw);
    lemma_ws_prefix_len_bound(raw);
    let k = ws_prefix_len(raw) as int;
    let a = trim_start(w + raw);
    let b = trim_start(raw);
    assert(a.len() == b.len());
    assert forall|j: int| 0 <= j < a.len() implies a[j] == b[j] by {
        assert(a[j] == (w + raw)[w.len() + k + j]);
        assert((w + raw)[w.len() + k + j] == raw[k + j]);
    }
    assert(a =~= b);
}

proof fn lemma_scan_plain(x: Seq<char>, q: char)
    requires
        forall|i: int| 0 <= i < x.len() ==> #[trigger] x[i] != q && (q == '"' ==> x[i] != '\\'),
    ensures
        scan_quoted(x + seq![q], q) == Some((x, (x.len() + 1) as nat)),
    decreases x.len(),
{
    let body = x + seq![q];
    if x.len() == 0 {
        assert(body[0] == q);
    } else {
        assert(body[0] == x[0]);
        assert(body.skip(1) =~= x.drop_first() + seq![q]);
        assert forall|i: int| 0 <= i < x.drop_first().len() implies #[trigger] x.drop_first()[i] != q && (q == '"' ==> x.drop_first()[i] != '\\') by {
            assert(x.drop_first()[i] == x[i + 1]);
        }
        lemma_scan_plain(x.drop_first(), q);
        assert(seq![x[0]] + x.drop_first() =~= x);
    }
}

/// A value written between quotes, with blanks before it, is the text
/// between the quotes (when that text holds neither the quote nor, inside
/// double quotes, a backslash): `KEY=  "x"` and `KEY="x"` both give `x`.
pub proof fn law_quoted_value_is_its_text(w: Seq<char>, q: char, x: Seq<char>)
    requires
        forall|i: int| 0 <= i < w.len() ==> is_ws(#[trigger] w[i]),
        q == '"' || q == '\'',
        forall|i: int| 0 <= i < x.len() ==> #[trigger] x[i] != q && (q == '"' ==> x[i] != '\\'),
    ensures
        value_spec(w + (seq![q] + x + seq![q])) == Ok::<Seq<char>, LineIssue>(x),
        value_spec(w + (seq![q] + x + seq![q])) == value_spec(seq![q] + x + seq![q]),
{
    let r = seq![q] + x + seq![q];
    law_whitespace_before_value_is_ignored(w, r);
    let e: Seq<char> = seq![];
    lemma_ws_prefix_concat(e, r);
    assert(!is_ws(r[0])) by {
        assert(r[0] == q);
    }
    assert(ws_prefix_len(r) == 0);
    assert(trim_start(r) =~= r);
    assert(r.drop_first() =~= x + seq![q]);
    lemma_scan_plain(x, q);
    let rest = r.skip((x.len() + 2) as int);
    assert(rest.len() == 0);
    assert(ws_prefix_len(rest) == 0);
    assert(trim_start(rest) =~= rest);
    assert(ws_suffix_len(rest) == 0);
    assert(trim(rest).len() == 0);
}

/// The entries that the lines define, in line order; a key may repeat.
pub open spec fn defined_entries(lines: Seq<Seq<char>>) -> Pairs
    decreases lines.len(),
{
    if lines.len() == 0 {
        seq![]
    } else {
        let rest = defined_entries(lines.drop_first());
        match line_spec(lines[0]) {
            LineSpec::Entry(k, v) => seq![(k, v)] + rest,
            _ => rest,
        }
    }
}

/// The value that the last definition of `k` in `defs` gives it.
pub open spec fn last_value(defs: Pairs, k: Seq<char>) -> Option<Seq<char>>
    decreases defs.len(),
{
    if defs.len() == 0 {
        None
    } else {
        match last_value(defs.drop_first(), k) {
            Some(v) => Some(v),
            None => if defs[0].0 == k {
                Some(defs[0].1)
            } else {
                None
            },
        }
    }
}

/// How many times `k` is defined in `defs`.
pub open spec fn times_defined(defs: Pairs, k: Seq<char>) -> nat
    decreases defs.len(),
{
    if defs.len() == 0 {
        0
    } else {
        (if defs[0].0 == k {
            1nat
        } else {
            0nat
        }) + times_defined(defs.drop_first(), k)
    }
}

proof fn lemma_fold_lines(lines: Seq<Seq<char>>, n: nat, entries: Pairs, dups: Seq<Seq<char>>)
    requires
        keys_unique(entries),
        forall|i: int| 0 <= i < entries.len() ==> valid_key(#[trigger] entries[i].0),
    ensures
        fold_lines(lines, n, entries, dups) matches DotenvOutcome::Parsed(e, d) ==> {
            &&& keys_unique(e)
            &&& forall|i: int| 0 <= i < e.len() ==> valid_key(#[trigger] e[i].0)
            &&& forall|k: Seq<char>| #[trigger] lookup(e, k) == match last_value(defined_entries(lines), k) {
                Some(v) => Some(v),
                None => lookup(entries, k),
            }
            &&& forall|k: Seq<char>| #[trigger] d.contains(k) <==> (dups.contains(k) || (has_key(entries, k)
                && times_defined(defined_entries(lines), k) >= 1) || times_defined(defined_entries(lines), k) >= 2)
        },
    decreases lines.len(),
{
    if lines.len() > 0 {
        let rest = defined_entries(lines.drop_first());
        match line_spec(lines[0]) {
            LineSpec::Blank => {
                lemma_fold_lines(lines.drop_first(), n + 1, entries, dups);
            },
            LineSpec::Bad(_) => {},
            LineSpec::Entry(k0, v0) => {
                let e2 = upsert(entries, k0, v0);
                let d2 = if has_key(entries, k0) {
                    dups.push(k0)
                } else {
                    dups
                };
                lemma_upsert_unique(entries, k0, v0);
                assert forall|i: int| 0 <= i < e2.len() implies valid_key(#[trigger] e2[i].0) by {
                    assert(e2[i].0 == keys_of(e2)[i]);
                    if i < entries.len() {
                        assert(keys_of(entries)[i] == entries[i].0);
                    }
                }
                lemma_fold_lines(lines.drop_first(), n + 1, e2, d2);
                let all = defined_entries(lines);
                assert(all == seq![(k0, v0)] + rest);
                assert(all.drop_first() =~= rest);
                match fold_lines(lines, n, entries, dups) {
                    DotenvOutcome::Parsed(e, d) => {
                        assert forall|k: Seq<char>| #[trigger] lookup(e, k) == match last_value(all, k) {
                            Some(v) => Some(v),
                            None => lookup(entries, k),
                        } by {
                            law_lookup_after_upsert(entries, k0, v0, k);
                        }
                        assert forall|k: Seq<char>| #[trigger] d.contains(k) <==> (dups.contains(k) || (has_key(entries, k)
                            && times_defined(all, k) >= 1) || times_defined(all, k) >= 2) by {
                            law_lookup_after_upsert(entries, k0, v0, k);
                            if has_key(entries, k0) {
                                assert(d2.contains(k) <==> (dups.contains(k) || k == k0)) by {
                                    if d2.contains(k) && !dups.contains(k) {
                                        let j = choose|j: int| 0 <= j < d2.len() && d2[j] == k;
                                        if j < dups.len() {
                                            assert(dups[j] == k);
                                        }
                                    }
                                    if k == k0 {
                                        assert(d2[dups.len() as int] == k0);
                                    }
                                    if dups.contains(k) {
                                        let j = choose|j: int| 0 <= j < dups.len() && dups[j] == k;
                                        assert(d2[j] == k);
                                    }
                                }
                            }
                        }
                    },
                    DotenvOutcome::Failed(_, _) => {},
                }
            },
        }
    }
}

/// Of a file that parses, every key is a valid name and occurs once, each key
/// has the value of its last definition, and a key is reported as a duplicate
/// exactly when more than one line defines it.
pub proof fn law_last_definition_wins(input: Seq<char>)
    ensures
        dotenv_spec(input) matches DotenvOutcome::Parsed(entries, dups) ==> {
            &&& keys_unique(entries)
            &&& forall|i: int| 0 <= i < entries.len() ==> valid_key(#[trigger] entries[i].0)
            &&& forall|k: Seq<char>| #[trigger] lookup(entries, k) == last_value(defined_entries(text_lines(input)), k)
            &&& forall|k: Seq<char>| #[trigger] dups.contains(k) <==> times_defined(defined_entries(text_lines(input)), k) >= 2
        },
{
    let empty: Pairs = seq![];
    lemma_fold_lines(text_lines(input), 1, empty, seq![]);
    assert forall|k: Seq<char>| lookup(empty, k) is None && !has_key(empty, k) && !Seq::<Seq<char>>::empty().contains(k) by {}
    match dotenv_spec(input) {
        DotenvOutcome::Parsed(entries, dups) => {
            let defs = defined_entries(text_lines(input));
            assert forall|k: Seq<char>| #[trigger] lookup(entries, k) == last_value(defs, k) by {
                assert(lookup(empty, k) is None);
            }
            assert forall|k: Seq<char>| #[trigger] dups.contains(k) <==> times_defined(defs, k) >= 2 by {
                assert(!has_key(empty, k));
                assert(!Seq::<Seq<char>>::empty().contains(k));
            }
        },
        DotenvOutcome::Failed(_, _) => {},
    }
}

// ---------------------------------------------------------------------
// Scanning helpers over a character vector.
// ---------------------------------------------------------------------

fn skip_ws_forward(v: &Vec<char>, lo: usize, hi: usize) -> (a: usize)
    requires
        lo <= hi <= v@.len(),
    ensures
        lo <= a <= hi,
        v@.subrange(a as int, hi as int) == trim_start(v@.subrange(lo as int, hi as int)),
{
    let mut i = lo;
    while i < hi && is_whitespace_char(v[i])
        invariant
            lo <= i <= hi <= v@.len(),
            ws_prefix_len(v@.subrange(lo as int, hi as int)) == (i - lo) + ws_prefix_len(
                v@.subrange(i as int, hi as int),
            ),
        decreases hi - i,
    {
        proof {
            let s = v@.subrange(i as int, hi as int);
            assert(s[0] == v@[i as int]);
            assert(s.drop_first() =~= v@.subrange(i + 1, hi as int));
        }
        i = i + 1;
    }
    proof {
        let s = v@.subrange(i as int, hi as int);
        if i < hi {
            assert(s[0] == v@[i as int]);
        }
        assert(ws_prefix_len(s) == 0);
        assert(v@.subrange(lo as int, hi as int).skip(i - lo) =~= s);
    }
    i
}

fn skip_ws_backward(v: &Vec<char>, lo: usize, hi: usize) -> (b: usize)
    requires
        lo <= hi <= v@.len(),
    ensures
        lo <= b <= hi,
        v@.subrange(lo as int, b as int) == trim_end(v@.subrange(lo as int, hi as int)),
{
    let mut j = hi;
    while j > lo && is_whitespace_char(v[j - 1])
        invariant
            lo <= j <= hi <= v@.len(),
            ws_suffix_len(v@.subrange(lo as int, hi as int)) == (hi - j) + ws_suffix_len(
                v@.subrange(lo as int, j as int),
            ),
        decreases j - lo,
    {
        proof {
            let s = v@.subrange(lo as int, j as int);
            assert(s.last() == v@[j - 1]);
            assert(s.drop_last() =~= v@.subrange(lo as int, j - 1));
        }
        j = j - 1;
    }
    proof {
        let s = v@.subrange(lo as int, j as int);
        if j > lo {
            assert(s.last() == v@[j - 1]);
        }
        assert(ws_suffix_len(s) == 0);
        let t = v@.subrange(lo as int, hi as int);
        assert(t.take(t.len() - ws_suffix_len(t)) =~= s);
    }
    j
}

fn find_char_in(v: &Vec<char>, lo: usize, hi: usize, c: char) -> (r: Option<usize>)
    requires
        lo <= hi <= v@.len(),
    ensures
        match r {
            Some(j) => lo <= j < hi && v@[j as int] == c && index_of(
                v@.subrange(lo as int, hi as int),
                c,
            ) == j - lo,
            None => index_of(v@.subrange(lo as int, hi as int), c) == -1,
        },
{
    let mut i = lo;
    while i < hi
        invariant
            lo <= i <= hi <= v@.len(),
            forall|k: int| lo <= k < i ==> v@[k] != c,
        decreases hi - i,
    {
        if v[i] == c {
            proof {
                let s = v@.subrange(lo as int, hi as int);
                assert forall|k: int| 0 <= k < i - lo implies s[k] != c by {
                    assert(s[k] == v@[lo + k]);
                }
                lemma_index_of_found(s, c, i - lo);
            }
            return Some(i);
        }
        i = i + 1;
    }
    proof {
        let s = v@.subrange(lo as int, hi as int);
        assert forall|k: int| 0 <= k < s.len() implies s[k] != c by {
            assert(s[k] == v@[lo + k]);
        }
        lemma_index_of_absent(s, c);
    }
    None
}

fn is_ascii_alpha_char(c: char) -> (b: bool)
    ensures
        b == is_ascii_alpha(c),
{
    ('a' <= c && c <= 'z') || ('A' <= c && c <= 'Z')
}

fn is_key_char(c: char) -> (b: bool)
    ensures
        b == key_char(c),
{
    c == '_' || is_ascii_alpha_char(c) || ('0' <= c && c <= '9')
}

fn key_is_valid(v: &Vec<char>, lo: usize, hi: usize) -> (b: bool)
    requires
        lo <= hi <= v@.len(),
    ensures
        b == valid_key(v@.subrange(lo as int, hi as int)),
{
    let ghost k = v@.subrange(lo as int, hi as int);
    if lo == hi {
        return false;
    }
    if !(v[lo] == '_' || is_ascii_alpha_char(v[lo])) {
        assert(k[0] == v@[lo as int]);
        return false;
    }
    let mut i = lo + 1;
    while i < hi
        invariant
            lo < i <= hi <= v@.len(),
            k == v@.subrange(lo as int, hi as int),
            forall|m: int| 1 <= m < i - lo ==> key_char(#[trigger] k[m]),
        decreases hi - i,
    {
        if !is_key_char(v[i]) {
            assert(k[i - lo] == v@[i as int]);
            return false;
        }
        assert(k[i - lo] == v@[i as int]);
        i = i + 1;
    }
    assert(k[0] == v@[lo as int]);
    true
}

/// Whether `key` is a valid environment variable name.
pub fn is_valid_key(key: &str) -> (b: bool)
    ensures
        b == valid_key(key@),
{
    let v = chars_of(key);
    assert(v@.subrange(0, v@.len() as int) =~= v@);
    key_is_valid(&v, 0, v.len())
}

fn unescape_char(c: char) -> (u: char)
    ensures
        u == unescape(c),
{
    if c == 'n' {
        '\n'
    } else if c == 'r' {
        '\r'
    } else if c == 't' {
        '\t'
    } else {
        c
    }
}

pub open spec fn prefix_with(
    acc: Seq<char>,
    k: nat,
    r: Option<(Seq<char>, nat)>,
) -> Option<(Seq<char>, nat)> {
    match r {
        Some((d, n)) => Some((acc + d, k + n)),
        None => None,
    }
}

/// Decodes the quoted value that starts with the quote `v[lo] == q`.
fn parse_quoted(v: &Vec<char>, lo: usize, hi: usize, q: char) -> (r: Result<String, LineIssue>)
    requires
        lo < hi <= v@.len(),
        v@[lo as int] == q,
    ensures
        match r {
            Ok(s) => quoted_value(v@.subrange(lo as int, hi as int), q) == Ok::<Seq<char>, LineIssue>(s@),
            Err(issue) => quoted_value(v@.subrange(lo as int, hi as int), q) == Err::<Seq<char>, LineIssue>(issue),
        },
{
    let ghost r0 = v@.subrange(lo as int, hi as int);
    let ghost body = r0.drop_first();
    assert(body =~= v@.subrange(lo + 1, hi as int));
    let mut out = String::new();
    let mut i = lo + 1;
    while i < hi
        invariant
            lo < i <= hi <= v@.len(),
            r0 == v@.subrange(lo as int, hi as int),
            body == r0.drop_first(),
            body == v@.subrange(lo + 1, hi as int),
            scan_quoted(body, q) == prefix_with(
                out@,
                (i - lo - 1) as nat,
                scan_quoted(v@.subrange(i as int, hi as int), q),
            ),
        decreases hi - i,
    {
        let c = v[i];
        let ghost s = v@.subrange(i as int, hi as int);
        assert(s[0] == c);
        if c == q {
            assert(scan_quoted(s, q) == Some::<(Seq<char>, nat)>((seq![], 1)));
            assert(out@ + seq![] =~= out@);
            let close = i + 1;
            let ra = skip_ws_forward(v, close, hi);
            let rb = skip_ws_backward(v, ra, hi);
            proof {
                let n = (i - lo) as nat;
                assert(r0.skip(n + 1 as int) =~= v@.subrange(close as int, hi as int));
            }
            if ra < rb && v[ra] != '#' {
                assert(v@.subrange(ra as int, rb as int)[0] == v@[ra as int]);
                return Err(LineIssue::TrailingAfterQuote);
            }
            if ra < rb {
                assert(v@.subrange(ra as int, rb as int)[0] == v@[ra as int]);
            }
            return Ok(out);
        } else if q == '"' && c == '\\' {
            if i + 1 < hi {
                let d = unescape_char(v[i + 1]);
                proof {
                    assert(s[1] == v@[i + 1]);
                    assert(s.skip(2) =~= v@.subrange(i + 2, hi as int));
                }
                let ghost old_out = out@;
                push_char(&mut out, d);
                proof {
                    let rest = scan_quoted(v@.subrange(i + 2, hi as int), q);
                    match rest {
                        Some((dd, nn)) => {
                            assert(old_out + (seq![d] + dd) =~= out@ + dd);
                        },
                        None => {},
                    }
                }
                i = i + 2;
            } else {
                return Err(LineIssue::Unterminated);
            }
        } else {
            proof {
                assert(s.skip(1) =~= v@.subrange(i + 1, hi as int));
            }
            let ghost old_out = out@;
            push_char(&mut out, c);
            proof {
                let rest = scan_quoted(v@.subrange(i + 1, hi as int), q);
                match rest {
                    Some((dd, nn)) => {
                        assert(old_out + (seq![c] + dd) =~= out@ + dd);
                    },
                    None => {},
                }
            }
            i = i + 1;
        }
    }
    assert(v@.subrange(i as int, hi as int).len() == 0);
    Err(LineIssue::Unterminated)
}

/// The unquoted value `v[lo..hi]`: up to a comment, trailing whitespace removed.
fn parse_unquoted(v: &Vec<char>, lo: usize, hi: usize) -> (s: String)
    requires
        lo <= hi <= v@.len(),
    ensures
        s@ == unquoted_value(v@.subrange(lo as int, hi as int)),
{
    let ghost r = v@.subrange(lo as int, hi as int);
    let mut i = lo;
    while i < hi && !starts_comment_here(v, lo, hi, i)
        invariant
            lo <= i <= hi <= v@.len(),
            r == v@.subrange(lo as int, hi as int),
            comment_from(r, 0) == comment_from(r, (i - lo) as nat),
        decreases hi - i,
    {
        i = i + 1;
    }
    assert(comment_from(r, (i - lo) as nat) == i - lo);
    let b = skip_ws_backward(v, lo, i);
    assert(r.take(i - lo) =~= v@.subrange(lo as int, i as int));
    string_of_range(v, lo, b)
}

fn starts_comment_here(v: &Vec<char>, lo: usize, hi: usize, i: usize) -> (b: bool)
    requires
        lo <= i < hi <= v@.len(),
    ensures
        b == starts_comment(v@.subrange(lo as int, hi as int), i - lo),
{
    let ghost r = v@.subrange(lo as int, hi as int);
    assert(r[i - lo] == v@[i as int]);
    if i > lo {
        assert(r[i - lo - 1] == v@[i - 1]);
    }
    v[i] == '#' && (i == lo || is_whitespace_char(v[i - 1]))
}

/// The value after `=`, in `v[lo..hi]`.
fn parse_value(v: &Vec<char>, lo: usize, hi: usize) -> (r: Result<String, LineIssue>)
    requires
        lo <= hi <= v@.len(),
    ensures
        match r {
            Ok(s) => value_spec(v@.subrange(lo as int, hi as int)) == Ok::<Seq<char>, LineIssue>(s@),
            Err(issue) => value_spec(v@.subrange(lo as int, hi as int)) == Err::<Seq<char>, LineIssue>(issue),
        },
{
    let a = skip_ws_forward(v, lo, hi);
    if a < hi && (v[a] == '\'' || v[a] == '"') {
        assert(v@.subrange(a as int, hi as int)[0] == v@[a as int]);
        parse_quoted(v, a, hi, v[a])
    } else {
        if a < hi {
            assert(v@.subrange(a as int, hi as int)[0] == v@[a as int]);
        }
        Ok(parse_unquoted(v, a, hi))
    }
}

/// What one line holds.
pub enum LineResult {
    Blank,
    Entry(String, String),
    Bad(LineIssue),
}

pub open spec fn line_result_view(r: LineResult) -> LineSpec {
    match r {
        LineResult::Blank => LineSpec::Blank,
        LineResult::Entry(k, v) => LineSpec::Entry(k@, v@),
        LineResult::Bad(issue) => LineSpec::Bad(issue),
    }
}

fn is_export_at(v: &Vec<char>, a: usize, b: usize) -> (r: bool)
    requires
        a <= b <= v@.len(),
    ensures
        r == {
            let line = v@.subrange(a as int, b as int);
            line.len() > 6 && line.take(6) == export_word() && is_ws(line[6])
        },
{
    let ghost line = v@.subrange(a as int, b as int);
    if b - a > 6 && v[a] == 'e' && v[a + 1] == 'x' && v[a + 2] == 'p' && v[a + 3] == 'o' && v[a + 4]
        == 'r' && v[a + 5] == 't' && is_whitespace_char(v[a + 6]) {
        assert(line.take(6) =~= export_word());
        assert(line[6] == v@[a + 6]);
        true
    } else {
        proof {
            if line.len() > 6 && line.take(6) == export_word() && is_ws(line[6]) {
                assert(line.take(6)[0] == v@[a as int]);
                assert(line.take(6)[1] == v@[a + 1]);
                assert(line.take(6)[2] == v@[a + 2]);
                assert(line.take(6)[3] == v@[a + 3]);
                assert(line.take(6)[4] == v@[a + 4]);
                assert(line.take(6)[5] == v@[a + 5]);
                assert(line[6] == v@[a + 6]);
            }
        }
        false
    }
}

/// Interprets the line `v[lo..hi]`.
fn parse_line(v: &Vec<char>, lo: usize, hi: usize) -> (r: LineResult)
    requires
        lo <= hi <= v@.len(),
    ensures
        line_result_view(r) == line_spec(v@.subrange(lo as int, hi as int)),
{
    let ghost raw = v@.subrange(lo as int, hi as int);
    let a = skip_ws_forward(v, lo, hi);
    let b = skip_ws_backward(v, a, hi);
    let ghost line = v@.subrange(a as int, b as int);
    assert(line == trim(raw));
    if a == b || v[a] == '#' {
        if a < b {
            assert(line[0] == v@[a as int]);
        }
        return LineResult::Blank;
    }
    assert(line[0] == v@[a as int]);
    let c0 = if is_export_at(v, a, b) {
        let c = skip_ws_forward(v, a + 6, b);
        assert(line.skip(6) =~= v@.subrange(a + 6, b as int));
        c
    } else {
        a
    };
    let ghost body = v@.subrange(c0 as int, b as int);
    assert(body == strip_export(line));
    match find_char_in(v, c0, b, '=') {
        None => LineResult::Bad(LineIssue::ExpectedKeyValue),
        Some(e) => {
            let ka = skip_ws_forward(v, c0, e);
            let kb = skip_ws_backward(v, ka, e);
            assert(body.take(e - c0) =~= v@.subrange(c0 as int, e as int));
            if !key_is_valid(v, ka, kb) {
                return LineResult::Bad(LineIssue::InvalidName);
            }
            assert(body.skip(e - c0 + 1) =~= v@.subrange(e + 1, b as int));
            match parse_value(v, e + 1, b) {
                Ok(val) => LineResult::Entry(string_of_range(v, ka, kb), val),
                Err(issue) => LineResult::Bad(issue),
            }
        },
    }
}

/// Parses a dotenv text. The first bad line stops the parse with a
/// `DotenvSyntax` error naming the source and the line number.
pub fn parse(input: &str, source_name: &str) -> (r: Result<(Vec<(String, String)>, Vec<String>), ConfigError>)
    ensures
        match dotenv_spec(input@) {
            DotenvOutcome::Parsed(entries, dups) => r matches Ok((values, duplicates)) && pairs_view(values@) == entries && strings_view(duplicates@) == dups,
            DotenvOutcome::Failed(n, issue) => r matches Err(e) && e@ == line_error(source_name@, n, issue),
        },
        r matches Ok((values, duplicates)) ==> keys_unique(pairs_view(values@)),
{
    let v = chars_of(input);
    let n = v.len();
    let mut values: Vec<(String, String)> = Vec::new();
    let mut duplicates: Vec<String> = Vec::new();
    let mut pos: usize = 0;
    let mut line_index: usize = 0;
    assert(v@.skip(0) =~= v@);
    assert(pairs_view(values@) =~= Seq::<(Seq<char>, Seq<char>)>::empty());
    assert(strings_view(duplicates@) =~= Seq::<Seq<char>>::empty());
    while pos < n
        invariant
            n == v@.len(),
            v@ == input@,
            pos <= n,
            line_index <= pos,
            keys_unique(pairs_view(values@)),
            dotenv_spec(input@) == fold_lines(
                text_lines(v@.skip(pos as int)),
                (line_index + 1) as nat,
                pairs_view(values@),
                strings_view(duplicates@),
            ),
        decreases n - pos,
    {
        let ghost rest = v@.skip(pos as int);
        let found = find_char_in(&v, pos, n, '\n');
        assert(v@.subrange(pos as int, n as int) =~= rest);
        let line_end: usize;
        let next: usize;
        match found {
            Some(j) => {
                if j > pos && v[j - 1] == '\r' {
                    line_end = j - 1;
                } else {
                    line_end = j;
                }
                next = j + 1;
                proof {
                    lemma_index_of_bounds(rest, '\n');
                    let i = j - pos;
                    assert(rest.skip(i + 1) =~= v@.skip(next as int));
                    assert(rest.take(i) =~= v@.subrange(pos as int, j as int));
                    if j > pos && v@[j - 1] == '\r' {
                        assert(strip_cr(rest.take(i)) =~= v@.subrange(pos as int, line_end as int));
                    } else {
                        assert(strip_cr(rest.take(i)) =~= v@.subrange(pos as int, line_end as int));
                    }
                }
            },
            None => {
                line_end = n;
                next = n;
                proof {
                    assert(v@.skip(n as int).len() == 0);
                }
            },
        }
        let ghost lines = text_lines(rest);
        proof {
            assert(lines[0] == v@.subrange(pos as int, line_end as int));
            assert(lines.drop_first() =~= text_lines(v@.skip(next as int)));
        }
        let outcome = parse_line(&v, pos, line_end);
        match outcome {
            LineResult::Blank => {},
            LineResult::Entry(k, val) => {
                let ghost before = pairs_view(values@);
                let key_copy = k.clone();
                let existed = upsert_pair(&mut values, k, val);
                if existed {
                    let ghost before_d = duplicates@;
                    let ghost kv = key_copy@;
                    duplicates.push(key_copy);
                    assert(strings_view(duplicates@) =~= strings_view(before_d).push(kv));
                }
            },
            LineResult::Bad(issue) => {
                let label = line_label(line_index + 1);
                let mut message = label;
                push_str(&mut message, ": ");
                push_str(&mut message, issue_str(issue));
                return Err(ConfigError::dotenv(source_name, message));
            },
        }
        pos = next;
        line_index = line_index + 1;
    }
    assert(text_lines(v@.skip(n as int)) =~= Seq::<Seq<char>>::empty());
    Ok((values, duplicates))
}

/// The values of one dotenv file. Keys are matched exactly.
#[derive(Debug)]
pub struct DotenvSource {
    name: String,
    values: Vec<(String, String)>,
}

pub struct DotenvSourceView {
    pub name: Seq<char>,
    pub values: Pairs,
}

impl View for DotenvSource {
    type V = DotenvSourceView;

    closed spec fn view(&self) -> DotenvSourceView {
        DotenvSourceView { name: self.name@, values: pairs_view(self.values@) }
    }
}

impl DotenvSource {
    #[verifier::type_invariant]
    closed spec fn wf(&self) -> bool {
        keys_unique(pairs_view(self.values@))
    }
}

impl Source for DotenvSource {
    open spec fn answers_by_spec(&self) -> bool {
        true
    }

    open spec fn spec_name(&self) -> Seq<char> {
        self@.name
    }

    open spec fn spec_get(&self, key: Seq<char>) -> Answer {
        Ok(lookup(self@.values, key))
    }

    fn name(&self) -> (n: &str)
        ensures
            n@ == self@.name,
    {
        self.name.as_str()
    }

    fn get(&self, key: &str) -> (r: Result<Option<String>, SourceError>)
        ensures
            answer_view(r) == Ok::<Option<Seq<char>>, Seq<char>>(lookup(self@.values, key@)),
    {
        Ok(lookup_value(&self.values, key))
    }

    fn keys(&self) -> (r: Result<Option<Vec<String>>, SourceError>)
        ensures
            listing_view(r) == Ok::<Option<Seq<Seq<char>>>, Seq<char>>(Some(keys_of(self@.values))),
    {
        Ok(Some(copy_keys(&self.values)))
    }

    fn values(&self) -> (r: Result<Option<Vec<String>>, SourceError>)
        ensures
            listing_view(r) == Ok::<Option<Seq<Seq<char>>>, Seq<char>>(Some(values_of(self@.values))),
    {
        Ok(Some(copy_values(&self.values)))
    }

    fn entries(&self) -> (r: Result<Option<Vec<(String, String)>>, SourceError>)
        ensures
            entry_listing_view(r) == Ok::<Option<Pairs>, Seq<char>>(Some(self@.values)),
    {
        proof {
            use_type_invariant(self);
            let t = self@.values;
            assert forall|i: int| 0 <= i < t.len() implies self.spec_get(#[trigger] t[i].0) == Ok::<Option<Seq<char>>, Seq<char>>(Some(t[i].1)) by {
                lemma_lookup_at(t, t[i].0, i);
            }
            let get = |k: Seq<char>| self.spec_get(k);
            lemma_collect_table(t, get, 0);
            assert(keys_of(t).skip(0) =~= keys_of(t));
            assert(t.skip(0) =~= t);
            assert(listed_entries(Some(keys_of(t)), get, Ok::<Option<Pairs>, Seq<char>>(Some(t))));
        }
        Ok(Some(copy_pairs(&self.values)))
    }

    fn has_key(&self, key: &str) -> (r: Result<bool, SourceError>)
        ensures
            bool_answer_view(r) == Ok::<bool, Seq<char>>(has_key(self@.values, key@)),
    {
        Ok(find_key(&self.values, key).is_some())
    }

    fn is_empty(&self) -> (r: Result<bool, SourceError>)
        ensures
            bool_answer_view(r) == Ok::<bool, Seq<char>>(self@.values.len() == 0),
    {
        Ok(self.values.len() == 0)
    }
}

/// A parsed dotenv file: its source and the keys that were set twice.
#[derive(Debug)]
pub struct ParsedDotenv {
    pub source: DotenvSource,
    pub duplicate_keys: Vec<String>,
}

impl ParsedDotenv {
    /// Parses the text of the dotenv file called `name`.
    pub fn from_text(name: &str, text: &str) -> (r: Result<ParsedDotenv, ConfigError>)
        ensures
            match dotenv_spec(text@) {
                DotenvOutcome::Parsed(entries, dups) => r matches Ok(p) && p.source@.name == name@
                    && p.source@.values == entries && strings_view(p.duplicate_keys@) == dups,
                DotenvOutcome::Failed(n, issue) => r matches Err(e) && e@ == line_error(name@, n, issue),
            },
    {
        match parse(text, name) {
            Ok((values, duplicate_keys)) => Ok(ParsedDotenv {
                source: DotenvSource { name: name.to_owned(), values },
                duplicate_keys,
            }),
            Err(e) => Err(e),
        }
    }
}

fn issue_str(issue: LineIssue) -> (s: &'static str)
    ensures
        s@ == issue_text(issue),
{
    match issue {
        LineIssue::ExpectedKeyValue => "[!] Expected `KEY=value`",
        LineIssue::InvalidName => "[!] Invalid environment variable name",
        LineIssue::Unterminated => "[!] Unterminated quoted value",
        LineIssue::TrailingAfterQuote => "[!] Unexpected characters after quoted value",
    }
}

} // verus!
