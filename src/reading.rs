//! Readings: one card named by a query, or a spread of distinct cards drawn
//! from the table, with the images to show and the optional caption.
use vstd::prelude::*;

use crate::cards::{find_card_index, joined_path, loosely_matches, resolved_at, CardRepository, TarotCard};
use crate::error::SpreadError;
use crate::info::{card_info_text, decimal, decimal_string, format_card_info};
use crate::layout::MAX_CARDS;
use crate::sampler::{below, sample, sample_of};
use crate::text::{chars_of, normalized};

verus! {

/// What to show for a reading: the image (a single card's file, or the files
/// to compose for a spread) and the caption, if one was asked for.
pub struct Reading {
    pub image_paths: Vec<String>,
    pub caption: Option<String>,
    /// Positions in the card table of the cards shown, in order.
    pub cards: Vec<usize>,
}

/// An argument names an image file directly when it holds a slash or starts
/// with a tilde.
pub open spec fn names_file(arg: Seq<char>) -> bool {
    (exists|i: int| 0 <= i < arg.len() && arg[i] == '/') || (arg.len() > 0 && arg[0] == '~')
}

/// Whether the argument names an image file directly.
pub fn is_file_argument(arg: &str) -> (r: bool)
    ensures
        r == names_file(arg@),
{
    let s = chars_of(arg);
    let n = s.len();
    if n > 0 && s[0] == '~' {
        return true;
    }
    let mut i: usize = 0;
    while i < n
        invariant
            n == s@.len(),
            s@ == arg@,
            i <= n,
            forall|k: int| 0 <= k < i ==> s@[k] != '/',
        decreases n - i,
    {
        if s[i] == '/' {
            return true;
        }
        i = i + 1;
    }
    false
}

/// The reading for one card: a file argument is shown as it is, with no
/// caption; otherwise the card that the query resolves to is shown from
/// `deck_dir`, with its text when info or deep info is asked for.
pub fn single_card_reading(
    repo: &CardRepository,
    card_arg: &str,
    show_info: bool,
    show_deepinfo: bool,
    deck_dir: &str,
) -> (r: Result<Reading, SpreadError>)
    requires
        repo.wf(),
    ensures
        names_file(card_arg@) ==> (r matches Ok(rd) && rd.image_paths@.len() == 1
            && rd.image_paths@[0]@ == card_arg@ && rd.caption is None && rd.cards@.len() == 0),
        !names_file(card_arg@) ==> match r {
            Err(e) => (e matches SpreadError::NotFound(q) && q@ == card_arg@ && forall|j: int|
                0 <= j < repo@.len() ==> !loosely_matches(
                    #[trigger] repo@[j],
                    normalized(card_arg@),
                )),
            Ok(rd) => rd.cards@.len() == 1 && resolved_at(
                repo@,
                normalized(card_arg@),
                rd.cards@[0] as int,
            ) && rd.image_paths@.len() == 1 && rd.image_paths@[0]@ == joined_path(
                deck_dir@,
                repo@[rd.cards@[0] as int].image@,
            ) && if show_info || show_deepinfo {
                (rd.caption matches Some(c) && c@ == card_info_text(
                    repo@[rd.cards@[0] as int],
                    show_info,
                    show_deepinfo,
                ))
            } else {
                rd.caption is None
            },
        },
{
    if is_file_argument(card_arg) {
        let mut paths: Vec<String> = Vec::new();
        paths.push(String::from_str(card_arg));
        return Ok(Reading { image_paths: paths, caption: None, cards: Vec::new() });
    }
    match find_card_index(repo, card_arg) {
        None => Err(SpreadError::NotFound(String::from_str(card_arg))),
        Some(i) => {
            let card = repo.get(i);
            let mut paths: Vec<String> = Vec::new();
            paths.push(card.image_path(deck_dir));
            let caption = if show_info || show_deepinfo {
                Some(format_card_info(card, show_info, show_deepinfo))
            } else {
                None
            };
            let mut cards: Vec<usize> = Vec::new();
            cards.push(i);
            Ok(Reading { image_paths: paths, caption, cards })
        },
    }
}

/// The caption of a spread: for each drawn card, in order, a bold "Card k:"
/// line (counting from one), the card's text, and a line break.
pub open spec fn spread_caption_text(
    cards: Seq<TarotCard>,
    picks: Seq<usize>,
    show_info: bool,
    show_deepinfo: bool,
) -> Seq<char>
    decreases picks.len(),
{
    if picks.len() == 0 {
        Seq::empty()
    } else {
        spread_caption_text(cards, picks.drop_last(), show_info, show_deepinfo) + "**Card "@
            + decimal(picks.len()) + ":**\n"@ + card_info_text(
            cards[picks.last() as int],
            show_info,
            show_deepinfo,
        ) + "\n"@
    }
}

/// Formats the caption of a spread (see `spread_caption_text`).
pub fn spread_caption(
    repo: &CardRepository,
    picks: &Vec<usize>,
    show_info: bool,
    show_deepinfo: bool,
) -> (r: String)
    requires
        repo.wf(),
        below(picks@, repo@.len() as usize),
    ensures
        r@ == spread_caption_text(repo@, picks@, show_info, show_deepinfo),
{
    let n = picks.len();
    let mut text = String::new();
    let mut i: usize = 0;
    while i < n
        invariant
            repo.wf(),
            n == picks@.len(),
            below(picks@, repo@.len() as usize),
            i <= n,
            text@ == spread_caption_text(repo@, picks@.take(i as int), show_info, show_deepinfo),
        decreases n - i,
    {
        let card = repo.get(picks[i]);
        let ghost before = text@;
        text.append("**Card ");
        let number = decimal_string(i + 1);
        text.append(number.as_str());
        text.append(":**\n");
        let body = format_card_info(card, show_info, show_deepinfo);
        text.append(body.as_str());
        text.append("\n");
        proof {
            let taken = picks@.take(i + 1);
            assert(taken.drop_last() =~= picks@.take(i as int));
            assert(taken.last() == picks@[i as int]);
            assert(text@ =~= spread_caption_text(repo@, taken, show_info, show_deepinfo));
        }
        i = i + 1;
    }
    assert(picks@.take(n as int) =~= picks@);
    text
}

/// A spread of `num_cards` distinct cards, drawn with `sample` from `seed`
/// over the whole table, with the image path of each drawn card in `deck_dir`
/// and, when info or deep info is asked for, the spread's caption. A size
/// outside `1..=10` is invalid; a size larger than the table is refused with
/// both numbers.
pub fn spread_reading(
    repo: &CardRepository,
    num_cards: usize,
    seed: u64,
    show_info: bool,
    show_deepinfo: bool,
    deck_dir: &str,
) -> (r: Result<Reading, SpreadError>)
    requires
        repo.wf(),
    ensures
        (1 <= num_cards <= MAX_CARDS && num_cards <= repo@.len()) <==> r is Ok,
        !(1 <= num_cards <= MAX_CARDS) <==> r matches Err(SpreadError::InvalidCount),
        (1 <= num_cards <= MAX_CARDS && num_cards > repo@.len()) <==> (r matches Err(
            SpreadError::NotEnoughCards { need, have },
        ) && need == num_cards && have == repo@.len()),
        r matches Ok(rd) ==> {
            &&& rd.cards@ == sample_of(num_cards, repo@.len() as usize, seed)
            &&& rd.image_paths@.len() == rd.cards@.len()
            &&& forall|k: int|
                0 <= k < rd.cards@.len() ==> (#[trigger] rd.image_paths@[k])@ == joined_path(
                    deck_dir@,
                    repo@[rd.cards@[k] as int].image@,
                )
            &&& if show_info || show_deepinfo {
                (rd.caption matches Some(c) && c@ == spread_caption_text(
                    repo@,
                    rd.cards@,
                    show_info,
                    show_deepinfo,
                ))
            } else {
                rd.caption is None
            }
        },
{
    let total = repo.len();
    if num_cards < 1 || num_cards > MAX_CARDS {
        return Err(SpreadError::InvalidCount);
    }
    if num_cards > total {
        return Err(SpreadError::NotEnoughCards { need: num_cards, have: total });
    }
    let picks = sample(num_cards, total, seed);
    let mut paths: Vec<String> = Vec::new();
    let mut k: usize = 0;
    while k < num_cards
        invariant
            repo.wf(),
            total == repo@.len(),
            picks@.len() == num_cards,
            below(picks@, total),
            k <= num_cards,
            paths@.len() == k,
            forall|j: int|
                0 <= j < k ==> (#[trigger] paths@[j])@ == joined_path(
                    deck_dir@,
                    repo@[picks@[j] as int].image@,
                ),
        decreases num_cards - k,
    {
        let card = repo.get(picks[k]);
        paths.push(card.image_path(deck_dir));
        k = k + 1;
    }
    let caption = if show_info || show_deepinfo {
        Some(spread_caption(repo, &picks, show_info, show_deepinfo))
    } else {
        None
    };
    Ok(Reading { image_paths: paths, caption, cards: picks })
}

} // verus!
