//! Text that accompanies a reading: a card's header and descriptions, and the
//! caption of a spread.
use vstd::prelude::*;

use crate::cards::TarotCard;
use crate::text::string_of;

verus! {

/// The decimal digits of `n`, most significant first.
pub open spec fn decimal(n: nat) -> Seq<char>
    decreases n,
{
    if n < 10 {
        seq![digit_char(n)]
    } else {
        decimal(n / 10).push(digit_char(n % 10))
    }
}

pub open spec fn digit_char(d: nat) -> char {
    if d < 10 {
        ((d + 48) as u8) as char
    } else {
        '0'
    }
}

/// Writes `n` in decimal.
pub fn decimal_string(n: usize) -> (r: String)
    ensures
        r@ == decimal(n as nat),
{
    decimal_u64(n as u64)
}

/// `x` in decimal, with a leading minus sign when it is negative.
pub open spec fn signed_decimal(x: int) -> Seq<char> {
    if x < 0 {
        "-"@ + decimal((-x) as nat)
    } else {
        decimal(x as nat)
    }
}

/// Writes `x` in decimal, with a leading minus sign when it is negative.
pub fn signed_decimal_string(x: i64) -> (r: String)
    ensures
        r@ == signed_decimal(x as int),
{
    if x < 0 {
        let magnitude = (0 - (x as i128)) as u64;
        let digits = decimal_u64(magnitude);
        let mut s = String::from_str("-");
        s.append(digits.as_str());
        s
    } else {
        decimal_u64(x as u64)
    }
}

/// Writes `n` in decimal.
pub fn decimal_u64(n: u64) -> (r: String)
    ensures
        r@ == decimal(n as nat),
{
    let mut digits: Vec<char> = Vec::new();
    let mut m = n;
    assert(decimal(n as nat) == decimal(m as nat) + digits@);
    loop
        invariant
            decimal(n as nat) == decimal(m as nat) + digits@,
        decreases m,
    {
        if m < 10 {
            let c = ((m as u8) + 48) as char;
            let ghost old_digits = digits@;
            digits.insert(0, c);
            assert(digits@ =~= seq![c] + old_digits);
            assert(decimal(n as nat) =~= digits@);
            return string_of(&digits);
        }
        let d = m % 10;
        let c = ((d as u8) + 48) as char;
        let ghost old_digits = digits@;
        digits.insert(0, c);
        assert(digits@ =~= seq![c] + old_digits);
        assert(decimal(m as nat) == decimal((m / 10) as nat).push(c));
        assert(decimal((m / 10) as nat).push(c) + old_digits =~= decimal((m / 10) as nat) + digits@);
        m = m / 10;
    }
}

/// A card's text: its name in bold, its title in parentheses when it has a
/// non-empty one, then its info and deep info when asked for and present,
/// each paragraph followed by a blank line.
pub open spec fn card_info_text(c: TarotCard, show_info: bool, show_deepinfo: bool) -> Seq<char> {
    let header = "**"@ + c.card@ + "**"@ + match c.title {
        Some(t) => if t@.len() > 0 {
            " ("@ + t@ + ")"@
        } else {
            Seq::empty()
        },
        None => Seq::empty(),
    } + "\n\n"@;
    let info = if show_info && c.info is Some {
        c.info->0@ + "\n\n"@
    } else {
        Seq::empty()
    };
    let deep = if show_deepinfo && c.deepinfo is Some {
        c.deepinfo->0@ + "\n\n"@
    } else {
        Seq::empty()
    };
    header + info + deep
}

/// Formats a card's text (see `card_info_text`).
pub fn format_card_info(card: &TarotCard, show_info: bool, show_deepinfo: bool) -> (r: String)
    ensures
        r@ == card_info_text(*card, show_info, show_deepinfo),
{
    let mut text = String::from_str("**");
    text.append(card.card.as_str());
    text.append("**");
    match &card.title {
        Some(t) => {
            if !t.as_str().is_empty() {
                text.append(" (");
                text.append(t.as_str());
                text.append(")");
            }
        },
        None => {},
    }
    text.append("\n\n");
    if show_info {
        match &card.info {
            Some(info) => {
                text.append(info.as_str());
                text.append("\n\n");
            },
            None => {},
        }
    }
    if show_deepinfo {
        match &card.deepinfo {
            Some(deep) => {
                text.append(deep.as_str());
                text.append("\n\n");
            },
            None => {},
        }
    }
    let ghost c = *card;
    assert(text@ =~= card_info_text(c, show_info, show_deepinfo));
    text
}

} // verus!
