//! The arguments of the tarot command: trailing `info` / `deepinfo` flags,
//! then either a spread size or the words of a card query.
use vstd::prelude::*;

use crate::text::chars_of;

verus! {

/// What the user asked for.
pub enum TarotRequest {
    /// A spread of `count` cards.
    Spread { count: usize, show_info: bool, show_deepinfo: bool },
    /// One card, named by `query` (or an image file given directly).
    Card { query: String, show_info: bool, show_deepinfo: bool },
}

pub open spec fn usage_text() -> Seq<char> {
    "Usage: :tarot <card-name-or-number> [info] [deepinfo]\nExamples:\n  :tarot fool\n  :tarot fool info\n  :tarot six of swords deepinfo\n  :tarot 3 info\n  :tarot 5 info deepinfo"@
}

/// Trailing flag words: how many arguments come before them, and whether
/// `info` and `deepinfo` were among them.
pub open spec fn trailing_flags(args: Seq<Seq<char>>) -> (int, bool, bool)
    decreases args.len(),
{
    if args.len() == 0 {
        (0, false, false)
    } else if args.last() == "info"@ || args.last() == "deepinfo"@ {
        let rest = trailing_flags(args.drop_last());
        (rest.0, rest.1 || args.last() == "info"@, rest.2 || args.last() == "deepinfo"@)
    } else {
        (args.len() as int, false, false)
    }
}

pub open spec fn is_digit(c: char) -> bool {
    '0' <= c && c <= '9'
}

/// The value of a run of decimal digits.
pub open spec fn digits_value(s: Seq<char>) -> int
    decreases s.len(),
{
    if s.len() == 0 {
        0
    } else {
        digits_value(s.drop_last()) * 10 + (s.last() as int - '0' as int)
    }
}

/// The digits of a number: what follows an optional leading plus sign.
pub open spec fn count_digits(s: Seq<char>) -> Seq<char> {
    if s.len() > 0 && s[0] == '+' {
        s.subrange(1, s.len() as int)
    } else {
        s
    }
}

/// An unsigned number as `usize` parsing reads it: an optional plus sign,
/// then one or more decimal digits, with a value that fits in `usize`.
pub open spec fn parsed_count(s: Seq<char>) -> Option<int> {
    let body = count_digits(s);
    if body.len() > 0 && (forall|i: int| 0 <= i < body.len() ==> is_digit(#[trigger] body[i]))
        && digits_value(body) <= usize::MAX {
        Some(digits_value(body))
    } else {
        None
    }
}

/// Words separated by single spaces.
pub open spec fn joined_words(ws: Seq<Seq<char>>) -> Seq<char>
    decreases ws.len(),
{
    if ws.len() == 0 {
        Seq::empty()
    } else if ws.len() == 1 {
        ws[0]
    } else {
        joined_words(ws.drop_last()) + " "@ + ws.last()
    }
}

pub open spec fn string_views(v: Seq<String>) -> Seq<Seq<char>> {
    v.map_values(|s: String| s@)
}

/// `r` is what the arguments ask for: an error message when there are none
/// or only flags; a spread when a single argument is a number (which must lie
/// in `1..=10`) or when the words name the three-card spread; otherwise a card
/// query made of the words joined by spaces. The trailing flags apply in every
/// case.
pub open spec fn request_of(args: Seq<Seq<char>>, r: Result<TarotRequest, String>) -> bool {
    let (k, info, deep) = trailing_flags(args);
    let words = args.take(k);
    if args.len() == 0 {
        r matches Err(m) && m@ == usage_text()
    } else if k == 0 {
        r matches Err(m) && m@ == "No card specified"@
    } else if k == 1 && parsed_count(words[0]) is Some {
        let n = parsed_count(words[0])->0;
        if 1 <= n <= 10 {
            r == Ok::<TarotRequest, String>(
                TarotRequest::Spread { count: n as usize, show_info: info, show_deepinfo: deep },
            )
        } else {
            r matches Err(m) && m@ == "Card count must be between 1 and 10"@
        }
    } else if joined_words(words) == "threecard"@ || joined_words(words) == "three-card"@ {
        r == Ok::<TarotRequest, String>(
            TarotRequest::Spread { count: 3, show_info: info, show_deepinfo: deep },
        )
    } else {
        r matches Ok(TarotRequest::Card { query, show_info, show_deepinfo }) && query@
            == joined_words(words) && show_info == info && show_deepinfo == deep
    }
}

/// Whether two strings hold the same characters.
pub fn same_text(a: &str, b: &str) -> (r: bool)
    ensures
        r == (a@ == b@),
{
    let x = chars_of(a);
    let y = chars_of(b);
    if x.len() != y.len() {
        return false;
    }
    let n = x.len();
    let mut i: usize = 0;
    while i < n
        invariant
            n == x@.len(),
            n == y@.len(),
            x@ == a@,
            y@ == b@,
            i <= n,
            forall|k: int| 0 <= k < i ==> x@[k] == y@[k],
        decreases n - i,
    {
        if x[i] != y[i] {
            return false;
        }
        i = i + 1;
    }
    assert(x@ =~= y@);
    true
}

/// Reads a spread size the way `usize` parsing does.
pub fn parse_count(s: &str) -> (r: Option<usize>)
    ensures
        match parsed_count(s@) {
            Some(v) => r is Some && r->0 == v,
            None => r is None,
        },
{
    let chars = chars_of(s);
    let n = chars.len();
    let start: usize = if n > 0 && chars[0] == '+' {
        1
    } else {
        0
    };
    let ghost body = count_digits(s@);
    assert(body =~= chars@.subrange(start as int, n as int));
    if start == n {
        return None;
    }
    let mut value: usize = 0;
    let mut i: usize = start;
    while i < n
        invariant
            n == chars@.len(),
            chars@ == s@,
            start <= i <= n,
            start < n,
            body == chars@.subrange(start as int, n as int),
            body == count_digits(s@),
            forall|k: int| start <= k < i ==> is_digit(#[trigger] chars@[k]),
            value == digits_value(chars@.subrange(start as int, i as int)),
        decreases n - i,
    {
        let c = chars[i];
        if !('0' <= c && c <= '9') {
            assert(!is_digit(body[i - start]));
            assert(parsed_count(s@) is None);
            return None;
        }
        let d = (c as u32 - '0' as u32) as usize;
        proof {
            let p = chars@.subrange(start as int, i + 1);
            assert(p.drop_last() =~= chars@.subrange(start as int, i as int));
        }
        if value > (usize::MAX - d) / 10 {
            proof {
                let p = chars@.subrange(start as int, i + 1);
                assert(digits_value(p) > usize::MAX);
                if forall|j: int| 0 <= j < body.len() ==> is_digit(#[trigger] body[j]) {
                    lemma_digits_grow(body, (i - start + 1) as int);
                    assert(body.take((i - start + 1) as int) =~= p);
                }
                assert(parsed_count(s@) is None);
            }
            return None;
        }
        value = value * 10 + d;
        i = i + 1;
    }
    assert(chars@.subrange(start as int, n as int) == body);
    Some(value)
}

/// The value of a digit run is at least that of each of its prefixes.
proof fn lemma_digits_grow(s: Seq<char>, k: int)
    requires
        0 <= k <= s.len(),
        forall|i: int| 0 <= i < s.len() ==> is_digit(#[trigger] s[i]),
    ensures
        digits_value(s) >= digits_value(s.take(k)),
    decreases s.len(),
{
    if k < s.len() {
        assert(s.drop_last().take(k) =~= s.take(k));
        lemma_digits_grow(s.drop_last(), k);
        lemma_digits_nonneg(s.drop_last());
    } else {
        assert(s.take(k) =~= s);
    }
}

proof fn lemma_digits_nonneg(s: Seq<char>)
    requires
        forall|i: int| 0 <= i < s.len() ==> is_digit(#[trigger] s[i]),
    ensures
        digits_value(s) >= 0,
    decreases s.len(),
{
    if s.len() > 0 {
        lemma_digits_nonneg(s.drop_last());
    }
}

fn is_flag(w: &String) -> (r: bool)
    ensures
        r == (w@ == "info"@ || w@ == "deepinfo"@),
{
    same_text(w.as_str(), "info") || same_text(w.as_str(), "deepinfo")
}

/// Joins the first `k` arguments with single spaces.
fn join_words(args: &Vec<String>, k: usize) -> (r: String)
    requires
        k <= args@.len(),
    ensures
        r@ == joined_words(string_views(args@).take(k as int)),
{
    let ghost views = string_views(args@);
    let mut text = String::new();
    let mut i: usize = 0;
    assert(views.take(0) =~= Seq::<Seq<char>>::empty());
    while i < k
        invariant
            k <= args@.len(),
            views == string_views(args@),
            i <= k,
            text@ == joined_words(views.take(i as int)),
        decreases k - i,
    {
        let ghost prefix = views.take(i + 1);
        assert(prefix.drop_last() =~= views.take(i as int));
        assert(prefix.last() == args@[i as int]@);
        if i > 0 {
            text.append(" ");
        }
        text.append(args[i].as_str());
        assert(text@ =~= joined_words(prefix));
        i = i + 1;
    }
    text
}

/// Reads the tarot command's arguments (see `request_of`).
pub fn parse_tarot_args(args: &Vec<String>) -> (r: Result<TarotRequest, String>)
    ensures
        request_of(string_views(args@), r),
{
    let ghost views = string_views(args@);
    let n = args.len();
    if n == 0 {
        return Err(String::from_str(
            "Usage: :tarot <card-name-or-number> [info] [deepinfo]\nExamples:\n  :tarot fool\n  :tarot fool info\n  :tarot six of swords deepinfo\n  :tarot 3 info\n  :tarot 5 info deepinfo",
        ));
    }
    let mut show_info = false;
    let mut show_deepinfo = false;
    let mut k: usize = n;
    assert(views.take(n as int) =~= views);
    while k > 0 && is_flag(&args[k - 1])
        invariant
            n == args@.len(),
            views == string_views(args@),
            k <= n,
            trailing_flags(views) == (
                trailing_flags(views.take(k as int)).0,
                trailing_flags(views.take(k as int)).1 || show_info,
                trailing_flags(views.take(k as int)).2 || show_deepinfo,
            ),
        decreases k,
    {
        let ghost prefix = views.take(k as int);
        assert(prefix.drop_last() =~= views.take(k - 1));
        assert(prefix.last() == args@[k - 1]@);
        let ghost rest = trailing_flags(views.take(k - 1));
        proof {
            reveal_strlit("info");
            reveal_strlit("deepinfo");
            assert("info"@.len() != "deepinfo"@.len());
        }
        assert(trailing_flags(prefix) == (
            rest.0,
            rest.1 || prefix.last() == "info"@,
            rest.2 || prefix.last() == "deepinfo"@,
        ));
        if same_text(args[k - 1].as_str(), "info") {
            show_info = true;
        } else {
            show_deepinfo = true;
        }
        k = k - 1;
    }
    proof {
        if k > 0 {
            assert(views.take(k as int).last() == args@[k - 1]@);
        }
        assert(views.take(0) =~= Seq::<Seq<char>>::empty());
    }
    assert(trailing_flags(views) == (k as int, show_info, show_deepinfo));
    if k == 0 {
        return Err(String::from_str("No card specified"));
    }
    if k == 1 {
        assert(views.take(1)[0] == args@[0]@);
        match parse_count(args[0].as_str()) {
            Some(count) => {
                if count >= 1 && count <= 10 {
                    return Ok(TarotRequest::Spread { count, show_info, show_deepinfo });
                } else {
                    return Err(String::from_str("Card count must be between 1 and 10"));
                }
            },
            None => {},
        }
    }
    let query = join_words(args, k);
    if same_text(query.as_str(), "threecard") || same_text(query.as_str(), "three-card") {
        return Ok(TarotRequest::Spread { count: 3, show_info, show_deepinfo });
    }
    Ok(TarotRequest::Card { query, show_info, show_deepinfo })
}

} // verus!
