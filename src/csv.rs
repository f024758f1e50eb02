//! The card table's text format: a header line, then one card per line with
//! comma-separated fields. Double quotes protect commas, a doubled quote
//! inside quotes stands for one quote character, and whitespace outside
//! quotes at either end of a field is trimmed.
use vstd::prelude::*;

use crate::cards::{inserted, CardRepository, TarotCard};
use crate::text::{chars_of, string_of};

verus! {

/// A character with the Unicode `White_Space` property, as
/// `char::is_whitespace` classifies it.
pub open spec fn is_space(c: char) -> bool {
    ('\u{9}' <= c && c <= '\u{d}') || c == ' ' || c == '\u{85}' || c == '\u{a0}' || c
        == '\u{1680}' || ('\u{2000}' <= c && c <= '\u{200a}') || c == '\u{2028}' || c
        == '\u{2029}' || c == '\u{202f}' || c == '\u{205f}' || c == '\u{3000}'
}

fn space(c: char) -> (r: bool)
    ensures
        r == is_space(c),
{
    ('\u{9}' <= c && c <= '\u{d}') || c == ' ' || c == '\u{85}' || c == '\u{a0}' || c
        == '\u{1680}' || ('\u{2000}' <= c && c <= '\u{200a}') || c == '\u{2028}' || c
        == '\u{2029}' || c == '\u{202f}' || c == '\u{205f}' || c == '\u{3000}'
}

/// A character of a field together with whether it stood inside quotes.
pub type Marked = (char, bool);

/// Whitespace that stood outside quotes.
pub open spec fn loose_space(m: Marked) -> bool {
    !m.1 && is_space(m.0)
}

/// Scans `s` from position `i`, with `in_quotes` the quoting state, `cur` the
/// field being read and `done` the fields already closed, every character
/// marked with whether it was quoted.
pub open spec fn scan_fields(
    s: Seq<char>,
    i: int,
    in_quotes: bool,
    cur: Seq<Marked>,
    done: Seq<Seq<Marked>>,
) -> Seq<Seq<Marked>>
    decreases s.len() - i,
{
    if i < 0 || i >= s.len() {
        done.push(cur)
    } else if s[i] == '"' {
        if in_quotes && i + 1 < s.len() && s[i + 1] == '"' {
            scan_fields(s, i + 2, in_quotes, cur.push(('"', true)), done)
        } else {
            scan_fields(s, i + 1, !in_quotes, cur, done)
        }
    } else if s[i] == ',' && !in_quotes {
        scan_fields(s, i + 1, in_quotes, Seq::empty(), done.push(cur))
    } else {
        scan_fields(s, i + 1, in_quotes, cur.push((s[i], in_quotes)), done)
    }
}

/// The fields of one line, before trimming.
pub open spec fn raw_fields(line: Seq<char>) -> Seq<Seq<Marked>> {
    scan_fields(line, 0, false, Seq::empty(), Seq::empty())
}

/// A field without its leading whitespace from outside quotes.
pub open spec fn strip_leading(f: Seq<Marked>) -> Seq<Marked>
    decreases f.len(),
{
    if f.len() > 0 && loose_space(f[0]) {
        strip_leading(f.subrange(1, f.len() as int))
    } else {
        f
    }
}

/// A field without its trailing whitespace from outside quotes.
pub open spec fn strip_trailing(f: Seq<Marked>) -> Seq<Marked>
    decreases f.len(),
{
    if f.len() > 0 && loose_space(f.last()) {
        strip_trailing(f.drop_last())
    } else {
        f
    }
}

/// The text of a field: its characters once the whitespace outside quotes at
/// either end is trimmed.
pub open spec fn field_text(f: Seq<Marked>) -> Seq<char> {
    strip_trailing(strip_leading(f)).map_values(|m: Marked| m.0)
}

/// The fields of one line, each trimmed.
pub open spec fn csv_fields(line: Seq<char>) -> Seq<Seq<char>> {
    raw_fields(line).map_values(|f: Seq<Marked>| field_text(f))
}

pub open spec fn views_of(v: Seq<String>) -> Seq<Seq<char>> {
    v.map_values(|f: String| f@)
}

/// The text of a field (see `field_text`).
fn field_value(f: &Vec<Marked>) -> (r: String)
    ensures
        r@ == field_text(f@),
{
    let n = f.len();
    let mut start: usize = 0;
    assert(f@.subrange(0, n as int) =~= f@);
    while start < n && !f[start].1 && space(f[start].0)
        invariant
            n == f@.len(),
            start <= n,
            strip_leading(f@) == strip_leading(f@.subrange(start as int, n as int)),
        decreases n - start,
    {
        let ghost g = f@.subrange(start as int, n as int);
        assert(g.subrange(1, g.len() as int) =~= f@.subrange(start + 1, n as int));
        start = start + 1;
    }
    let ghost g = f@.subrange(start as int, n as int);
    assert(strip_leading(g) == g);
    let mut end: usize = n;
    assert(g.subrange(0, (n - start) as int) =~= g);
    while end > start && !f[end - 1].1 && space(f[end - 1].0)
        invariant
            n == f@.len(),
            start <= end <= n,
            g == f@.subrange(start as int, n as int),
            strip_trailing(g) == strip_trailing(g.subrange(0, end - start)),
        decreases end,
    {
        let ghost h = g.subrange(0, end - start);
        assert(h.drop_last() =~= g.subrange(0, end - 1 - start));
        end = end - 1;
    }
    let ghost kept = g.subrange(0, end - start);
    assert(strip_trailing(kept) == kept);
    let mut out: Vec<char> = Vec::new();
    let mut i: usize = start;
    while i < end
        invariant
            start <= i <= end <= n,
            n == f@.len(),
            kept == f@.subrange(start as int, end as int),
            out@ == kept.take(i - start).map_values(|m: Marked| m.0),
        decreases end - i,
    {
        out.push(f[i].0);
        assert(kept.take(i + 1 - start) =~= kept.take(i - start).push(f@[i as int]));
        i = i + 1;
    }
    assert(kept.take(end - start) =~= kept);
    string_of(&out)
}

/// Splits one line into its fields, trimming whitespace outside quotes.
pub fn parse_csv_line(line: &str) -> (r: Vec<String>)
    ensures
        views_of(r@) == csv_fields(line@),
{
    let s = chars_of(line);
    let n = s.len();
    let mut fields: Vec<String> = Vec::new();
    let mut cur: Vec<Marked> = Vec::new();
    let mut in_quotes = false;
    let mut i: usize = 0;
    let ghost done: Seq<Seq<Marked>> = Seq::empty();
    while i < n
        invariant
            n == s@.len(),
            s@ == line@,
            i <= n,
            raw_fields(line@) == scan_fields(s@, i as int, in_quotes, cur@, done),
            views_of(fields@) == done.map_values(|f: Seq<Marked>| field_text(f)),
        decreases n - i,
    {
        let c = s[i];
        if c == '"' {
            if in_quotes && n - i >= 2 && s[i + 1] == '"' {
                cur.push(('"', true));
                i = i + 2;
            } else {
                in_quotes = !in_quotes;
                i = i + 1;
            }
        } else if c == ',' && !in_quotes {
            let t = field_value(&cur);
            proof {
                assert(views_of(fields@.push(t)) =~= views_of(fields@).push(t@));
                assert(done.push(cur@).map_values(|f: Seq<Marked>| field_text(f)) =~= done.map_values(
                    |f: Seq<Marked>| field_text(f),
                ).push(field_text(cur@)));
                done = done.push(cur@);
            }
            fields.push(t);
            cur = Vec::new();
            i = i + 1;
        } else {
            cur.push((c, in_quotes));
            i = i + 1;
        }
    }
    let t = field_value(&cur);
    proof {
        assert(views_of(fields@.push(t)) =~= views_of(fields@).push(t@));
        assert(done.push(cur@).map_values(|f: Seq<Marked>| field_text(f)) =~= done.map_values(
            |f: Seq<Marked>| field_text(f),
        ).push(field_text(cur@)));
    }
    fields.push(t);
    fields
}

/// A line without the carriage return that ends it, if any.
pub open spec fn without_cr(l: Seq<char>) -> Seq<char> {
    if l.len() > 0 && l.last() == '\r' {
        l.drop_last()
    } else {
        l
    }
}

/// Splits `s` into lines from position `i`, with `cur` the line being read and
/// `done` the lines already closed. A line ends at a line feed, and a carriage
/// return just before it belongs to the line ending; a last line with no line
/// feed is kept when it is not empty.
pub open spec fn scan_lines(s: Seq<char>, i: int, cur: Seq<char>, done: Seq<Seq<char>>) -> Seq<
    Seq<char>,
>
    decreases s.len() - i,
{
    if i < 0 || i >= s.len() {
        if cur.len() == 0 {
            done
        } else {
            done.push(cur)
        }
    } else if s[i] == '\n' {
        scan_lines(s, i + 1, Seq::empty(), done.push(without_cr(cur)))
    } else {
        scan_lines(s, i + 1, cur.push(s[i]), done)
    }
}

/// The lines of a text.
pub open spec fn lines_of(s: Seq<char>) -> Seq<Seq<char>> {
    scan_lines(s, 0, Seq::empty(), Seq::empty())
}

/// The lines after the header line.
pub open spec fn data_lines(s: Seq<char>) -> Seq<Seq<char>> {
    let l = lines_of(s);
    if l.len() == 0 {
        l
    } else {
        l.subrange(1, l.len() as int)
    }
}

/// Splits a text into lines.
fn split_lines(text: &str) -> (r: Vec<Vec<char>>)
    ensures
        r@.map_values(|l: Vec<char>| l@) == lines_of(text@),
{
    let s = chars_of(text);
    let n = s.len();
    let mut lines: Vec<Vec<char>> = Vec::new();
    let mut cur: Vec<char> = Vec::new();
    let mut i: usize = 0;
    assert(lines@.map_values(|l: Vec<char>| l@) =~= Seq::<Seq<char>>::empty());
    assert(cur@ =~= Seq::<char>::empty());
    while i < n
        invariant
            n == s@.len(),
            s@ == text@,
            i <= n,
            lines_of(text@) == scan_lines(s@, i as int, cur@, lines@.map_values(
                |l: Vec<char>| l@,
            )),
        decreases n - i,
    {
        let c = s[i];
        if c == '\n' {
            let ghost line = cur@;
            let len = cur.len();
            if len > 0 && cur[len - 1] == '\r' {
                cur.pop();
                assert(cur@ =~= line.drop_last());
            }
            assert(cur@ == without_cr(line));
            let ghost before = lines@.map_values(|l: Vec<char>| l@);
            lines.push(cur);
            assert(lines@.map_values(|l: Vec<char>| l@) =~= before.push(lines@.last()@));
            cur = Vec::new();
        } else {
            cur.push(c);
        }
        i = i + 1;
    }
    if cur.len() > 0 {
        let ghost before = lines@.map_values(|l: Vec<char>| l@);
        lines.push(cur);
        assert(lines@.map_values(|l: Vec<char>| l@) =~= before.push(lines@.last()@));
    }
    lines
}

/// The optional column `k` of a row: absent when the row is shorter or the
/// field is empty.
pub open spec fn optional_field(o: Option<String>, f: Seq<Seq<char>>, k: int) -> bool {
    if k < f.len() && f[k].len() > 0 {
        o is Some && o->0@ == f[k]
    } else {
        o is None
    }
}

/// Card `c` is the one that the fields `f` of a row describe, in column order:
/// name, image file, title, planet (orb), planet (house), three signs, two
/// suits, path, sephira, two elements, info and deep info.
pub open spec fn card_from(c: TarotCard, f: Seq<Seq<char>>) -> bool {
    &&& f.len() >= 2
    &&& c.card@ == f[0]
    &&& c.image@ == f[1]
    &&& optional_field(c.title, f, 2)
    &&& optional_field(c.planet_orb, f, 3)
    &&& optional_field(c.planet_house, f, 4)
    &&& optional_field(c.sign_1, f, 5)
    &&& optional_field(c.sign_2, f, 6)
    &&& optional_field(c.sign_3, f, 7)
    &&& optional_field(c.suit_1, f, 8)
    &&& optional_field(c.suit_2, f, 9)
    &&& optional_field(c.path, f, 10)
    &&& optional_field(c.sephira, f, 11)
    &&& optional_field(c.element_1, f, 12)
    &&& optional_field(c.element_2, f, 13)
    &&& optional_field(c.info, f, 14)
    &&& optional_field(c.deepinfo, f, 15)
}

/// A data line yields a card when it has at least two fields, and nothing
/// otherwise.
pub open spec fn row_yields(line: Seq<char>, c: Option<TarotCard>) -> bool {
    let f = csv_fields(line);
    if f.len() >= 2 {
        c is Some && card_from(c->0, f)
    } else {
        c is None
    }
}

/// The table that results from inserting, in order, the cards that rows
/// yielded.
pub open spec fn insert_rows(rows: Seq<Option<TarotCard>>) -> Seq<TarotCard>
    decreases rows.len(),
{
    if rows.len() == 0 {
        Seq::empty()
    } else {
        let prev = insert_rows(rows.drop_last());
        match rows.last() {
            Some(c) => inserted(prev, c),
            None => prev,
        }
    }
}

fn optional(fields: &Vec<String>, k: usize) -> (r: Option<String>)
    ensures
        optional_field(r, views_of(fields@), k as int),
{
    if k < fields.len() && !fields[k].as_str().is_empty() {
        Some(fields[k].clone())
    } else {
        None
    }
}

/// The card that a row's fields describe.
fn card_from_fields(fields: &Vec<String>) -> (r: TarotCard)
    requires
        fields@.len() >= 2,
    ensures
        card_from(r, views_of(fields@)),
{
    TarotCard {
        card: fields[0].clone(),
        image: fields[1].clone(),
        title: optional(fields, 2),
        planet_orb: optional(fields, 3),
        planet_house: optional(fields, 4),
        sign_1: optional(fields, 5),
        sign_2: optional(fields, 6),
        sign_3: optional(fields, 7),
        suit_1: optional(fields, 8),
        suit_2: optional(fields, 9),
        path: optional(fields, 10),
        sephira: optional(fields, 11),
        element_1: optional(fields, 12),
        element_2: optional(fields, 13),
        info: optional(fields, 14),
        deepinfo: optional(fields, 15),
    }
}

/// Builds the card table from its text: the first line is a header; every
/// later line with at least two fields becomes a card, which replaces an
/// earlier card with the same search key.
pub fn load_cards_from_csv(content: &str) -> (r: CardRepository)
    ensures
        r.wf(),
        exists|rows: Seq<Option<TarotCard>>|
            rows.len() == data_lines(content@).len() && (forall|k: int|
                0 <= k < rows.len() ==> row_yields(#[trigger] data_lines(content@)[k], rows[k]))
                && r@ == insert_rows(rows),
{
    let lines = split_lines(content);
    let ghost all = lines@.map_values(|l: Vec<char>| l@);
    let ghost data = data_lines(content@);
    let mut repo = CardRepository::new();
    let ghost mut rows: Seq<Option<TarotCard>> = Seq::empty();
    let n = lines.len();
    if n == 0 {
        assert(rows.len() == data.len());
        assert(repo@ =~= insert_rows(rows));
        return repo;
    }
    let mut i: usize = 1;
    assert(repo@ =~= insert_rows(rows));
    while i < n
        invariant
            n == lines@.len(),
            all == lines@.map_values(|l: Vec<char>| l@),
            all == lines_of(content@),
            data == data_lines(content@),
            n >= 1,
            1 <= i <= n,
            repo.wf(),
            rows.len() == i - 1,
            forall|k: int| 0 <= k < rows.len() ==> row_yields(#[trigger] data[k], rows[k]),
            repo@ == insert_rows(rows),
        decreases n - i,
    {
        let line = string_of(&lines[i]);
        let fields = parse_csv_line(line.as_str());
        assert(data[i - 1] == lines@[i as int]@);
        if fields.len() >= 2 {
            let card = card_from_fields(&fields);
            let ghost c = card;
            repo.insert(card);
            proof {
                let next = rows.push(Some(c));
                assert(next.drop_last() =~= rows);
                rows = next;
            }
        } else {
            proof {
                let next = rows.push(None);
                assert(next.drop_last() =~= rows);
                rows = next;
            }
        }
        i = i + 1;
    }
    repo
}

} // verus!
