//! Records of past readings as the reading-history service returns them, and
//! the text that presents them.
use vstd::prelude::*;

use std::collections::HashMap;

use crate::info::{decimal, decimal_string, signed_decimal, signed_decimal_string};
use crate::text::{chars_of, string_of};

verus! {

/// A card as listed in a reading's summary.
pub struct CardInReading {
    pub position: i32,
    pub card_name: String,
    pub label: Option<String>,
}

/// One past reading in a user's history.
pub struct ReadingHistoryItem {
    pub reading_id: i32,
    pub spread_type: String,
    pub reading_date: String,
    pub card_count: usize,
    pub cards: Vec<CardInReading>,
    pub notes: Option<String>,
}

/// A user's reading history.
pub struct HistoryResponse {
    pub total_readings: usize,
    pub readings: Vec<ReadingHistoryItem>,
}

/// A card of a reading, with its descriptions.
pub struct CardDetail {
    pub position: i32,
    pub card_name: String,
    pub label: Option<String>,
    pub info: Option<String>,
    pub deepinfo: Option<String>,
}

/// One reading in full.
pub struct ReadingDetails {
    pub reading_id: i32,
    pub spread_type: String,
    pub reading_date: String,
    pub notes: Option<String>,
    pub cards: Vec<CardDetail>,
    pub attributes: HashMap<String, HashMap<String, i32>>,
}

/// The date part of a timestamp: its first ten characters.
pub open spec fn date_part(s: Seq<char>) -> Seq<char> {
    if s.len() <= 10 {
        s
    } else {
        s.take(10)
    }
}

/// Card names separated by a comma and a space.
pub open spec fn joined_names(cards: Seq<CardInReading>) -> Seq<char>
    decreases cards.len(),
{
    if cards.len() == 0 {
        Seq::empty()
    } else if cards.len() == 1 {
        cards[0].card_name@
    } else {
        joined_names(cards.drop_last()) + ", "@ + cards.last().card_name@
    }
}

/// The entry of the `k`-th reading (counting from one) in the history list.
pub open spec fn history_entry(k: nat, r: ReadingHistoryItem) -> Seq<char> {
    decimal(k) + ". "@ + date_part(r.reading_date@) + " - "@ + decimal(r.card_count as nat)
        + "-card spread\n"@ + "   "@ + joined_names(r.cards@) + "\n\n"@
}

/// The entries of the first readings of `rs`, numbered from one.
pub open spec fn history_entries(rs: Seq<ReadingHistoryItem>) -> Seq<char>
    decreases rs.len(),
{
    if rs.len() == 0 {
        Seq::empty()
    } else {
        history_entries(rs.drop_last()) + history_entry(rs.len(), rs.last())
    }
}

/// The history list: a bold heading with the total, one entry per reading,
/// and two usage hints.
pub open spec fn history_text(h: HistoryResponse) -> Seq<char> {
    "**Tarot Reading History ("@ + decimal(h.total_readings as nat) + " total readings)**\n\n"@
        + history_entries(h.readings@) + "Use :tarothistory <number> to see details\n"@
        + "Use :tarothistory suits/sephira/etc for analytics"@
}

/// The first ten characters of `s`, or all of it when it is shorter.
fn date_prefix(s: &String) -> (r: String)
    ensures
        r@ == date_part(s@),
{
    let chars = chars_of(s.as_str());
    if chars.len() <= 10 {
        return s.clone();
    }
    let mut out: Vec<char> = Vec::new();
    let mut i: usize = 0;
    while i < 10
        invariant
            chars@.len() > 10,
            i <= 10,
            out@ == chars@.take(i as int),
        decreases 10 - i,
    {
        out.push(chars[i]);
        assert(chars@.take(i + 1) =~= chars@.take(i as int).push(chars@[i as int]));
        i = i + 1;
    }
    string_of(&out)
}

fn join_names(cards: &Vec<CardInReading>) -> (r: String)
    ensures
        r@ == joined_names(cards@),
{
    let n = cards.len();
    let mut text = String::new();
    let mut i: usize = 0;
    assert(cards@.take(0) =~= Seq::<CardInReading>::empty());
    while i < n
        invariant
            n == cards@.len(),
            i <= n,
            text@ == joined_names(cards@.take(i as int)),
        decreases n - i,
    {
        let ghost prefix = cards@.take(i + 1);
        assert(prefix.drop_last() =~= cards@.take(i as int));
        if i > 0 {
            text.append(", ");
        }
        text.append(cards[i].card_name.as_str());
        assert(text@ =~= joined_names(prefix));
        i = i + 1;
    }
    assert(cards@.take(n as int) =~= cards@);
    text
}

/// The history list, or `None` when the user has no readings yet.
pub fn history_list_text(history: &HistoryResponse) -> (r: Option<String>)
    ensures
        history.total_readings == 0 <==> r is None,
        r matches Some(t) ==> t@ == history_text(*history),
{
    if history.total_readings == 0 {
        return None;
    }
    let mut text = String::from_str("**Tarot Reading History (");
    let total = decimal_string(history.total_readings);
    text.append(total.as_str());
    text.append(" total readings)**\n\n");
    let ghost heading = text@;
    let n = history.readings.len();
    let mut i: usize = 0;
    assert(history.readings@.take(0) =~= Seq::<ReadingHistoryItem>::empty());
    assert(text@ =~= heading + history_entries(history.readings@.take(0)));
    while i < n
        invariant
            n == history.readings@.len(),
            i <= n,
            text@ == heading + history_entries(history.readings@.take(i as int)),
        decreases n - i,
    {
        let r = &history.readings[i];
        let ghost before = text@;
        let number = decimal_string(i + 1);
        text.append(number.as_str());
        text.append(". ");
        let date = date_prefix(&r.reading_date);
        text.append(date.as_str());
        text.append(" - ");
        let count = decimal_string(r.card_count);
        text.append(count.as_str());
        text.append("-card spread\n");
        text.append("   ");
        let names = join_names(&r.cards);
        text.append(names.as_str());
        text.append("\n\n");
        proof {
            let prefix = history.readings@.take(i + 1);
            assert(prefix.drop_last() =~= history.readings@.take(i as int));
            assert(prefix.last() == *r);
            assert(text@ =~= before + history_entry((i + 1) as nat, *r));
        }
        i = i + 1;
    }
    assert(history.readings@.take(n as int) =~= history.readings@);
    text.append("Use :tarothistory <number> to see details\n");
    text.append("Use :tarothistory suits/sephira/etc for analytics");
    proof {
        assert(text@ =~= history_text(*history));
    }
    Some(text)
}

/// The reading that the user numbered `reading_num` (counting from one) in
/// the history list, or the message that explains the valid range.
pub fn reading_id_for(history: &HistoryResponse, reading_num: usize) -> (r: Result<i32, String>)
    ensures
        (1 <= reading_num <= history.readings@.len()) <==> r is Ok,
        r matches Ok(id) ==> id == history.readings@[reading_num - 1].reading_id,
        r matches Err(m) ==> m@ == "Invalid reading number. Valid range: 1-"@ + decimal(
            history.readings@.len(),
        ),
{
    let n = history.readings.len();
    if reading_num == 0 || reading_num > n {
        let mut m = String::from_str("Invalid reading number. Valid range: 1-");
        let count = decimal_string(n);
        m.append(count.as_str());
        return Err(m);
    }
    Ok(history.readings[reading_num - 1].reading_id)
}

pub open spec fn optional_line(o: Option<String>) -> Seq<char> {
    match o {
        Some(t) => t@ + "\n"@,
        None => Seq::empty(),
    }
}

/// One card of a detailed reading: its position (counting from one), its
/// label in parentheses if any, its name, then its descriptions when asked
/// for, and a blank line.
pub open spec fn detail_card_text(c: CardDetail, show_info: bool) -> Seq<char> {
    "**Card "@ + signed_decimal(c.position as int + 1) + match c.label {
        Some(l) => " ("@ + l@ + ")"@,
        None => Seq::empty(),
    } + ":** "@ + c.card_name@ + "\n"@ + (if show_info {
        optional_line(c.info) + optional_line(c.deepinfo)
    } else {
        Seq::empty()
    }) + "\n"@
}

pub open spec fn detail_cards_text(cards: Seq<CardDetail>, show_info: bool) -> Seq<char>
    decreases cards.len(),
{
    if cards.len() == 0 {
        Seq::empty()
    } else {
        detail_cards_text(cards.drop_last(), show_info) + detail_card_text(cards.last(), show_info)
    }
}

/// A reading in full: a bold heading with its number and date, the spread
/// type, each card, and the notes if any.
pub open spec fn details_text(reading_num: nat, d: ReadingDetails, show_info: bool) -> Seq<char> {
    "**Reading #"@ + decimal(reading_num) + " - "@ + date_part(d.reading_date@) + "**\n"@
        + "Spread: "@ + d.spread_type@ + "\n\n"@ + detail_cards_text(d.cards@, show_info)
        + match d.notes {
        Some(n) => "Notes: "@ + n@ + "\n"@,
        None => Seq::empty(),
    }
}

fn append_optional_line(text: &mut String, o: &Option<String>)
    ensures
        final(text)@ == old(text)@ + optional_line(*o),
{
    match o {
        Some(t) => {
            text.append(t.as_str());
            text.append("\n");
        },
        None => {
            assert(old(text)@ + Seq::<char>::empty() =~= old(text)@);
        },
    }
}

fn append_detail_card(text: &mut String, c: &CardDetail, show_info: bool)
    ensures
        final(text)@ == old(text)@ + detail_card_text(*c, show_info),
{
    text.append("**Card ");
    let number = signed_decimal_string(c.position as i64 + 1);
    text.append(number.as_str());
    match &c.label {
        Some(l) => {
            text.append(" (");
            text.append(l.as_str());
            text.append(")");
        },
        None => {},
    }
    text.append(":** ");
    text.append(c.card_name.as_str());
    text.append("\n");
    if show_info {
        append_optional_line(text, &c.info);
        append_optional_line(text, &c.deepinfo);
    }
    text.append("\n");
    assert(text@ =~= old(text)@ + detail_card_text(*c, show_info));
}

/// The text of a reading in full (see `details_text`).
pub fn reading_details_text(reading_num: usize, details: &ReadingDetails, show_info: bool) -> (r:
    String)
    ensures
        r@ == details_text(reading_num as nat, *details, show_info),
{
    let mut text = String::from_str("**Reading #");
    let number = decimal_string(reading_num);
    text.append(number.as_str());
    text.append(" - ");
    let date = date_prefix(&details.reading_date);
    text.append(date.as_str());
    text.append("**\n");
    text.append("Spread: ");
    text.append(details.spread_type.as_str());
    text.append("\n\n");
    let ghost heading = text@;
    let n = details.cards.len();
    let mut i: usize = 0;
    assert(details.cards@.take(0) =~= Seq::<CardDetail>::empty());
    assert(text@ =~= heading + detail_cards_text(details.cards@.take(0), show_info));
    while i < n
        invariant
            n == details.cards@.len(),
            i <= n,
            text@ == heading + detail_cards_text(details.cards@.take(i as int), show_info),
        decreases n - i,
    {
        append_detail_card(&mut text, &details.cards[i], show_info);
        proof {
            let prefix = details.cards@.take(i + 1);
            assert(prefix.drop_last() =~= details.cards@.take(i as int));
            assert(text@ =~= heading + detail_cards_text(prefix, show_info));
        }
        i = i + 1;
    }
    assert(details.cards@.take(n as int) =~= details.cards@);
    match &details.notes {
        Some(notes) => {
            text.append("Notes: ");
            text.append(notes.as_str());
            text.append("\n");
        },
        None => {},
    }
    assert(text@ =~= details_text(reading_num as nat, *details, show_info));
    text
}

} // verus!
