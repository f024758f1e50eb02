//! Character-level helpers shared by the card table: conversion between
//! `String` and character vectors, search-key normalization and substring
//! containment.
use vstd::prelude::*;

verus! {

/// What `str::to_lowercase` makes of a character sequence.
pub uninterp spec fn lower_of(s: Seq<char>) -> Seq<char>;

/// The characters of `s`, in order.
pub fn chars_of(s: &str) -> (r: Vec<char>)
    ensures
        r@ == s@,
{
    let mut out: Vec<char> = Vec::new();
    for c in it: s.chars()
        invariant
            out@ == it.seq().take(it.index() as int),
    {
        out.push(c);
    }
    out
}

/// Relies on `String: FromIterator<&char>`: the string holds the given
/// characters in order.
#[verifier::external_body]
pub(crate) fn string_of(v: &Vec<char>) -> (r: String)
    ensures
        r@ == v@,
{
    v.iter().collect()
}

/// Relies on `str::to_lowercase`: the result depends on the characters alone.
#[verifier::external_body]
pub(crate) fn lowercase(s: &str) -> (r: String)
    ensures
        r@ == lower_of(s@),
{
    s.to_lowercase()
}

pub open spec fn is_article_at(s: Seq<char>, i: int) -> bool {
    &&& 0 <= i
    &&& i + 4 <= s.len()
    &&& s[i] == 't'
    &&& s[i + 1] == 'h'
    &&& s[i + 2] == 'e'
    &&& s[i + 3] == ' '
}

/// `s` with every occurrence of the article "the " removed, scanning left to
/// right without overlap.
pub open spec fn strip_article(s: Seq<char>) -> Seq<char>
    decreases s.len(),
{
    if s.len() == 0 {
        s
    } else if is_article_at(s, 0) {
        strip_article(s.subrange(4, s.len() as int))
    } else {
        seq![s[0]] + strip_article(s.subrange(1, s.len() as int))
    }
}

pub open spec fn is_separator(c: char) -> bool {
    c == ' ' || c == '_' || c == '-'
}

/// `s` without spaces, underscores and hyphens.
pub open spec fn strip_separators(s: Seq<char>) -> Seq<char>
    decreases s.len(),
{
    if s.len() == 0 {
        s
    } else if is_separator(s[0]) {
        strip_separators(s.subrange(1, s.len() as int))
    } else {
        seq![s[0]] + strip_separators(s.subrange(1, s.len() as int))
    }
}

/// The search key of a name: lower case, the article "the " removed, then
/// spaces, underscores and hyphens removed.
pub open spec fn normalized(s: Seq<char>) -> Seq<char> {
    strip_separators(strip_article(lower_of(s)))
}

/// `needle` occurs in `hay` as a contiguous run (the empty sequence occurs
/// everywhere).
pub open spec fn occurs_in(needle: Seq<char>, hay: Seq<char>) -> bool {
    exists|i: int|
        0 <= i && i + needle.len() <= hay.len() && #[trigger] hay.subrange(i, i + needle.len())
            == needle
}

proof fn lemma_strip_article_step(s: Seq<char>, i: int)
    requires
        0 <= i < s.len(),
    ensures
        is_article_at(s, i) ==> strip_article(s.subrange(i, s.len() as int)) == strip_article(
            s.subrange(i + 4, s.len() as int),
        ),
        !is_article_at(s, i) ==> strip_article(s.subrange(i, s.len() as int)) == seq![s[i]]
            + strip_article(s.subrange(i + 1, s.len() as int)),
{
    let t = s.subrange(i, s.len() as int);
    assert(t.len() > 0);
    assert(is_article_at(s, i) == is_article_at(t, 0));
    if is_article_at(s, i) {
        assert(t.subrange(4, t.len() as int) =~= s.subrange(i + 4, s.len() as int));
    }
    assert(t.subrange(1, t.len() as int) =~= s.subrange(i + 1, s.len() as int));
}

/// Removes every "the " from `s`, left to right.
fn remove_article(s: &Vec<char>) -> (r: Vec<char>)
    ensures
        r@ == strip_article(s@),
{
    let n = s.len();
    let mut out: Vec<char> = Vec::new();
    let mut i: usize = 0;
    assert(s@.subrange(0, n as int) =~= s@);
    assert(out@ + strip_article(s@) =~= strip_article(s@));
    while i < n
        invariant
            n == s@.len(),
            i <= n,
            strip_article(s@) == out@ + strip_article(s@.subrange(i as int, n as int)),
        decreases n - i,
    {
        proof {
            lemma_strip_article_step(s@, i as int);
        }
        if n - i >= 4 && s[i] == 't' && s[i + 1] == 'h' && s[i + 2] == 'e' && s[i + 3] == ' ' {
            i = i + 4;
        } else {
            let ghost prev = out@;
            out.push(s[i]);
            assert(out@ == prev + seq![s@[i as int]]);
            assert(strip_article(s@) == out@ + strip_article(s@.subrange(i + 1, n as int))) by {
                assert((prev + seq![s@[i as int]]) + strip_article(s@.subrange(i + 1, n as int))
                    =~= prev + (seq![s@[i as int]] + strip_article(
                    s@.subrange(i + 1, n as int),
                )));
            };
            i = i + 1;
        }
    }
    assert(s@.subrange(n as int, n as int) =~= Seq::<char>::empty());
    assert(out@ + Seq::<char>::empty() =~= out@);
    out
}

proof fn lemma_strip_separators_step(s: Seq<char>, i: int)
    requires
        0 <= i < s.len(),
    ensures
        strip_separators(s.subrange(i, s.len() as int)) == if is_separator(s[i]) {
            strip_separators(s.subrange(i + 1, s.len() as int))
        } else {
            seq![s[i]] + strip_separators(s.subrange(i + 1, s.len() as int))
        },
{
    let t = s.subrange(i, s.len() as int);
    assert(t.subrange(1, t.len() as int) =~= s.subrange(i + 1, s.len() as int));
}

/// Removes spaces, underscores and hyphens from `s`.
fn remove_separators(s: &Vec<char>) -> (r: Vec<char>)
    ensures
        r@ == strip_separators(s@),
{
    let n = s.len();
    let mut out: Vec<char> = Vec::new();
    let mut i: usize = 0;
    assert(s@.subrange(0, n as int) =~= s@);
    assert(out@ + strip_separators(s@) =~= strip_separators(s@));
    while i < n
        invariant
            n == s@.len(),
            i <= n,
            strip_separators(s@) == out@ + strip_separators(s@.subrange(i as int, n as int)),
        decreases n - i,
    {
        proof {
            lemma_strip_separators_step(s@, i as int);
        }
        let c = s[i];
        if !(c == ' ' || c == '_' || c == '-') {
            let ghost prev = out@;
            out.push(c);
            assert(prev + (seq![c] + strip_separators(s@.subrange(i + 1, n as int))) =~= out@
                + strip_separators(s@.subrange(i + 1, n as int)));
        }
        i = i + 1;
    }
    assert(out@ + strip_separators(s@.subrange(n as int, n as int)) =~= out@);
    out
}

/// The search key of a card name or title: lower case, the article "the "
/// removed, then spaces, underscores and hyphens removed.
pub fn normalize_card_name(name: &str) -> (r: String)
    ensures
        r@ == normalized(name@),
{
    let lower = lowercase(name);
    key_of_lowered(lower.as_str())
}

/// The search key of text that is already in lower case: the article "the "
/// removed, then spaces, underscores and hyphens removed.
pub fn key_of_lowered(lower: &str) -> (r: String)
    ensures
        r@ == strip_separators(strip_article(lower@)),
{
    let chars = chars_of(lower);
    let stripped = remove_article(&chars);
    let key = remove_separators(&stripped);
    string_of(&key)
}

/// Whether `needle` occurs in `hay` at `start`.
fn occurs_at(needle: &Vec<char>, hay: &Vec<char>, start: usize) -> (r: bool)
    requires
        start + needle@.len() <= hay@.len(),
    ensures
        r == (hay@.subrange(start as int, start + needle@.len()) == needle@),
{
    let m = needle.len();
    let hl = hay.len();
    let mut j: usize = 0;
    while j < m
        invariant
            m == needle@.len(),
            hl == hay@.len(),
            start + m <= hay@.len(),
            j <= m,
            forall|k: int| 0 <= k < j ==> hay@[start + k] == needle@[k],
        decreases m - j,
    {
        if hay[start + j] != needle[j] {
            assert(hay@.subrange(start as int, start + m)[j as int] != needle@[j as int]);
            return false;
        }
        j = j + 1;
    }
    assert(hay@.subrange(start as int, start + m) =~= needle@);
    true
}

/// Whether `needle` occurs in `hay` as a contiguous run.
pub fn contains_chars(hay: &Vec<char>, needle: &Vec<char>) -> (r: bool)
    ensures
        r == occurs_in(needle@, hay@),
{
    let n = hay.len();
    let m = needle.len();
    if m > n {
        return false;
    }
    let mut i: usize = 0;
    while i <= n - m
        invariant
            n == hay@.len(),
            m == needle@.len(),
            m <= n,
            i <= n - m + 1,
            forall|k: int| 0 <= k < i ==> #[trigger] hay@.subrange(k, k + m) != needle@,
        decreases n - m + 1 - i,
    {
        if occurs_at(needle, hay, i) {
            return true;
        }
        if i == n - m {
            return false;
        }
        i = i + 1;
    }
    false
}

} // verus!
