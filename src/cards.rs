//! Card records and the card table, with layered lookup by free-text query.
use vstd::prelude::*;

use crate::text::{
    chars_of, contains_chars, lower_of, lowercase, normalize_card_name, normalized, occurs_in,
};

verus! {

/// One physical card of the deck.
#[derive(Debug, Clone)]
pub struct TarotCard {
    pub card: String,
    pub image: String,
    pub title: Option<String>,
    pub planet_orb: Option<String>,
    pub planet_house: Option<String>,
    pub sign_1: Option<String>,
    pub sign_2: Option<String>,
    pub sign_3: Option<String>,
    pub suit_1: Option<String>,
    pub suit_2: Option<String>,
    pub path: Option<String>,
    pub sephira: Option<String>,
    pub element_1: Option<String>,
    pub element_2: Option<String>,
    pub info: Option<String>,
    pub deepinfo: Option<String>,
}

/// The search key of a card: its normalized name.
pub open spec fn name_key(c: TarotCard) -> Seq<char> {
    normalized(c.card@)
}

/// The card has a title whose normalized form is `q`.
pub open spec fn title_is(c: TarotCard, q: Seq<char>) -> bool {
    match c.title {
        Some(t) => normalized(t@) == q,
        None => false,
    }
}

/// `a` occurs in `b` or `b` occurs in `a`.
pub open spec fn overlaps(a: Seq<char>, b: Seq<char>) -> bool {
    occurs_in(a, b) || occurs_in(b, a)
}

/// The normalized query and the card's normalized name or title contain one
/// another.
pub open spec fn loosely_matches(c: TarotCard, q: Seq<char>) -> bool {
    overlaps(q, name_key(c)) || match c.title {
        Some(t) => overlaps(q, normalized(t@)),
        None => false,
    }
}

/// No two cards share a search key.
pub open spec fn keys_unique(cards: Seq<TarotCard>) -> bool {
    forall|i: int, j: int|
        0 <= i < cards.len() && 0 <= j < cards.len() && i != j ==> name_key(cards[i]) != name_key(
            cards[j],
        )
}

pub open spec fn some_name_is(cards: Seq<TarotCard>, q: Seq<char>) -> bool {
    exists|j: int| 0 <= j < cards.len() && name_key(#[trigger] cards[j]) == q
}

pub open spec fn some_title_is(cards: Seq<TarotCard>, q: Seq<char>) -> bool {
    exists|j: int| 0 <= j < cards.len() && title_is(#[trigger] cards[j], q)
}

/// Lookup of the normalized query `q` settles on card `i`: an exact name match
/// first; else the first exact title match; else the first card whose name or
/// title contains, or is contained in, the query.
pub open spec fn resolved_at(cards: Seq<TarotCard>, q: Seq<char>, i: int) -> bool {
    &&& 0 <= i < cards.len()
    &&& if some_name_is(cards, q) {
        name_key(cards[i]) == q
    } else if some_title_is(cards, q) {
        title_is(cards[i], q) && forall|j: int| 0 <= j < i ==> !title_is(#[trigger] cards[j], q)
    } else {
        loosely_matches(cards[i], q) && forall|j: int|
            0 <= j < i ==> !loosely_matches(#[trigger] cards[j], q)
    }
}

/// Whether a card carries `suit` (already in lower case) in either suit field,
/// compared in lower case.
pub open spec fn has_suit(c: TarotCard, suit: Seq<char>) -> bool {
    (match c.suit_1 {
        Some(s) => lower_of(s@) == suit,
        None => false,
    }) || (match c.suit_2 {
        Some(s) => lower_of(s@) == suit,
        None => false,
    })
}

/// Major arcana carry no suit.
pub open spec fn is_major(c: TarotCard) -> bool {
    c.suit_1 is None && c.suit_2 is None
}

pub open spec fn display_name_of(c: TarotCard) -> Seq<char> {
    match c.title {
        Some(t) => if t@.len() > 0 {
            c.card@ + " ("@ + t@ + ")"@
        } else {
            c.card@
        },
        None => c.card@,
    }
}

/// A file name joined to a directory as `Path::join` does on Unix: an absolute
/// file name replaces the directory; otherwise a `/` goes between the two,
/// unless the directory is empty or already ends with one.
pub open spec fn joined_path(dir: Seq<char>, file: Seq<char>) -> Seq<char> {
    if file.len() > 0 && file[0] == '/' {
        file
    } else if dir.len() > 0 && dir.last() != '/' {
        dir + "/"@ + file
    } else {
        dir + file
    }
}

/// Joins a file name to a directory (see `joined_path`).
pub fn join_path(dir: &str, file: &str) -> (r: String)
    ensures
        r@ == joined_path(dir@, file@),
{
    let d = chars_of(dir);
    let f = chars_of(file);
    if f.len() > 0 && f[0] == '/' {
        return String::from_str(file);
    }
    let mut r = String::from_str(dir);
    if d.len() > 0 && d[d.len() - 1] != '/' {
        r.append("/");
    }
    r.append(file);
    r
}

/// Whether two character vectors are equal.
fn same_chars(a: &Vec<char>, b: &Vec<char>) -> (r: bool)
    ensures
        r == (a@ == b@),
{
    if a.len() != b.len() {
        return false;
    }
    let n = a.len();
    let mut i: usize = 0;
    while i < n
        invariant
            n == a@.len(),
            n == b@.len(),
            i <= n,
            forall|k: int| 0 <= k < i ==> a@[k] == b@[k],
        decreases n - i,
    {
        if a[i] != b[i] {
            return false;
        }
        i = i + 1;
    }
    assert(a@ =~= b@);
    true
}

impl TarotCard {
    /// Path of the card's image file inside `deck_dir`.
    pub fn image_path(&self, deck_dir: &str) -> (r: String)
        ensures
            r@ == joined_path(deck_dir@, self.image@),
    {
        join_path(deck_dir, self.image.as_str())
    }

    /// The normalized search key of this card.
    pub fn search_key(&self) -> (r: String)
        ensures
            r@ == name_key(*self),
    {
        normalize_card_name(self.card.as_str())
    }

    /// The name, followed by the title in parentheses when there is a
    /// non-empty one.
    pub fn display_name(&self) -> (r: String)
        ensures
            r@ == display_name_of(*self),
    {
        let mut r = self.card.clone();
        match &self.title {
            Some(t) => {
                if !t.as_str().is_empty() {
                    r.append(" (");
                    r.append(t.as_str());
                    r.append(")");
                }
            },
            None => {},
        }
        r
    }
}

/// The card table: every card once per search key, in insertion order.
pub struct CardRepository {
    cards: Vec<TarotCard>,
    keys: Vec<Vec<char>>,
    title_keys: Vec<Vec<char>>,
}

impl View for CardRepository {
    type V = Seq<TarotCard>;

    closed spec fn view(&self) -> Seq<TarotCard> {
        self.cards@
    }
}

/// The table after inserting `c`: a card with the same search key is replaced
/// in place; otherwise `c` is appended.
pub open spec fn inserted(cards: Seq<TarotCard>, c: TarotCard) -> Seq<TarotCard> {
    if some_name_is(cards, name_key(c)) {
        let i = choose|i: int| 0 <= i < cards.len() && name_key(#[trigger] cards[i]) == name_key(c);
        cards.update(i, c)
    } else {
        cards.push(c)
    }
}

impl CardRepository {
    /// The cached keys agree with the cards, and search keys are unique.
    pub closed spec fn wf(&self) -> bool {
        &&& self.keys@.len() == self.cards@.len()
        &&& self.title_keys@.len() == self.cards@.len()
        &&& forall|i: int|
            0 <= i < self.cards@.len() ==> #[trigger] self.keys@[i]@ == name_key(self.cards@[i])
        &&& forall|i: int|
            0 <= i < self.cards@.len() ==> match #[trigger] self.cards@[i].title {
                Some(t) => self.title_keys@[i]@ == normalized(t@),
                None => true,
            }
        &&& keys_unique(self.cards@)
    }

    /// An empty table.
    pub fn new() -> (r: CardRepository)
        ensures
            r.wf(),
            r@ == Seq::<TarotCard>::empty(),
    {
        CardRepository { cards: Vec::new(), keys: Vec::new(), title_keys: Vec::new() }
    }

    /// Number of cards.
    pub fn len(&self) -> (r: usize)
        requires
            self.wf(),
        ensures
            r == self@.len(),
    {
        self.cards.len()
    }

    /// The card at `i`.
    pub fn get(&self, i: usize) -> (r: &TarotCard)
        requires
            self.wf(),
            i < self@.len(),
        ensures
            *r == self@[i as int],
    {
        &self.cards[i]
    }

    /// Search keys are unique in a well-formed table.
    pub proof fn lemma_keys_unique(&self)
        requires
            self.wf(),
        ensures
            keys_unique(self@),
    {
    }

    /// Adds `card`, replacing the card with the same search key if there is
    /// one.
    pub fn insert(&mut self, card: TarotCard)
        requires
            old(self).wf(),
        ensures
            final(self).wf(),
            final(self)@ == inserted(old(self)@, card),
    {
        let key_string = card.search_key();
        let key = chars_of(key_string.as_str());
        let title_key = match &card.title {
            Some(t) => {
                let k = normalize_card_name(t.as_str());
                chars_of(k.as_str())
            },
            None => Vec::new(),
        };
        assert(match card.title {
            Some(t) => title_key@ == normalized(t@),
            None => true,
        });
        let n = self.cards.len();
        let mut i: usize = 0;
        while i < n
            invariant
                self.wf(),
                self.cards@ == old(self).cards@,
                match card.title {
                    Some(t) => title_key@ == normalized(t@),
                    None => true,
                },
                n == self.cards@.len(),
                i <= n,
                key@ == name_key(card),
                forall|j: int| 0 <= j < i ==> name_key(#[trigger] self.cards@[j]) != key@,
            decreases n - i,
        {
            if same_chars(&self.keys[i], &key) {
                let ghost before = self.cards@;
                assert(name_key(before[i as int]) == name_key(card));
                assert(some_name_is(before, name_key(card)));
                proof {
                    let c = choose|c: int|
                        0 <= c < before.len() && name_key(#[trigger] before[c]) == name_key(card);
                    assert(c == i);
                }
                self.cards.set(i, card);
                self.keys.set(i, key);
                self.title_keys.set(i, title_key);
                assert(self.cards@ == before.update(i as int, card));
                return;
            }
            i = i + 1;
        }
        let ghost before = self.cards@;
        assert(!some_name_is(before, name_key(card)));
        self.cards.push(card);
        self.keys.push(key);
        self.title_keys.push(title_key);
        assert(self.cards@ == before.push(card));
        assert(keys_unique(self.cards@)) by {
            assert forall|a: int, b: int|
                0 <= a < self.cards@.len() && 0 <= b < self.cards@.len() && a != b implies name_key(
                self.cards@[a],
            ) != name_key(self.cards@[b]) by {
                if a < n && b < n {
                } else if a == n {
                    assert(name_key(before[b]) != key@);
                } else {
                    assert(name_key(before[a]) != key@);
                }
            }
        }
    }
}

/// Finds the position of the card that a free-text query names: by exact normalized name,
/// else by the first exact normalized title, else by the first card whose
/// normalized name or title contains the normalized query or is contained in
/// it.
pub fn find_card_index(repo: &CardRepository, query: &str) -> (r: Option<usize>)
    requires
        repo.wf(),
    ensures
        ({
            let q = normalized(query@);
            match r {
                None => forall|j: int| 0 <= j < repo@.len() ==> !loosely_matches(#[trigger] repo@[j], q),
                Some(i) => resolved_at(repo@, q, i as int),
            }
        }),
{
    let q_string = normalize_card_name(query);
    let q = chars_of(q_string.as_str());
    let ghost cards = repo.cards@;
    assert(cards == repo@);
    let n = repo.cards.len();
    let mut i: usize = 0;
    while i < n
        invariant
            repo.wf(),
            cards == repo.cards@,
            n == cards.len(),
            q@ == normalized(query@),
            i <= n,
            forall|j: int| 0 <= j < i ==> name_key(#[trigger] cards[j]) != q@,
        decreases n - i,
    {
        if same_chars(&repo.keys[i], &q) {
            assert(resolved_at(cards, q@, i as int));
            return Some(i);
        }
        i = i + 1;
    }
    assert(!some_name_is(cards, q@));
    i = 0;
    while i < n
        invariant
            repo.wf(),
            cards == repo.cards@,
            n == cards.len(),
            q@ == normalized(query@),
            !some_name_is(cards, q@),
            i <= n,
            forall|j: int| 0 <= j < i ==> !title_is(#[trigger] cards[j], q@),
        decreases n - i,
    {
        if repo.cards[i].title.is_some() && same_chars(&repo.title_keys[i], &q) {
            assert(title_is(cards[i as int], q@));
            assert(resolved_at(cards, q@, i as int));
            return Some(i);
        }
        i = i + 1;
    }
    assert(!some_title_is(cards, q@));
    i = 0;
    while i < n
        invariant
            repo.wf(),
            cards == repo.cards@,
            n == cards.len(),
            q@ == normalized(query@),
            !some_name_is(cards, q@),
            !some_title_is(cards, q@),
            i <= n,
            forall|j: int| 0 <= j < i ==> !loosely_matches(#[trigger] cards[j], q@),
        decreases n - i,
    {
        let key = &repo.keys[i];
        let name_hit = contains_chars(key, &q) || contains_chars(&q, key);
        let title_hit = repo.cards[i].title.is_some() && (contains_chars(&repo.title_keys[i], &q)
            || contains_chars(&q, &repo.title_keys[i]));
        if name_hit || title_hit {
            assert(loosely_matches(cards[i as int], q@));
            assert(resolved_at(cards, q@, i as int));
            return Some(i);
        }
        assert(!loosely_matches(cards[i as int], q@));
        i = i + 1;
    }
    None
}

/// Finds the card that a free-text query names (see `find_card_index`).
pub fn find_card<'a>(repo: &'a CardRepository, query: &str) -> (r: Option<&'a TarotCard>)
    requires
        repo.wf(),
    ensures
        ({
            let q = normalized(query@);
            match r {
                None => forall|j: int| 0 <= j < repo@.len() ==> !loosely_matches(#[trigger] repo@[j], q),
                Some(c) => exists|i: int| resolved_at(repo@, q, i) && *c == repo@[i],
            }
        }),
{
    match find_card_index(repo, query) {
        None => None,
        Some(i) => {
            let c = &repo.cards[i];
            assert(*c == repo@[i as int]);
            Some(c)
        },
    }
}

/// Every card, in table order.
pub fn get_all_cards(repo: &CardRepository) -> (r: Vec<&TarotCard>)
    requires
        repo.wf(),
    ensures
        r@.len() == repo@.len(),
        forall|i: int| 0 <= i < r@.len() ==> *r@[i] == repo@[i],
{
    let n = repo.cards.len();
    let mut out: Vec<&TarotCard> = Vec::new();
    let mut i: usize = 0;
    while i < n
        invariant
            n == repo@.len(),
            repo@ == repo.cards@,
            i <= n,
            out@.len() == i,
            forall|k: int| 0 <= k < i ==> *out@[k] == repo@[k],
        decreases n - i,
    {
        out.push(&repo.cards[i]);
        i = i + 1;
    }
    out
}

/// The cards, in table order, that satisfy `p`.
pub open spec fn cards_where(cards: Seq<TarotCard>, p: spec_fn(TarotCard) -> bool) -> Seq<TarotCard>
    decreases cards.len(),
{
    if cards.len() == 0 {
        Seq::empty()
    } else {
        let rest = cards_where(cards.drop_last(), p);
        if p(cards.last()) {
            rest.push(cards.last())
        } else {
            rest
        }
    }
}

/// The references in `v` point to the cards of `s`, in order.
pub open spec fn refers_to(v: Seq<&TarotCard>, s: Seq<TarotCard>) -> bool {
    v.len() == s.len() && forall|i: int| 0 <= i < v.len() ==> *v[i] == s[i]
}

proof fn lemma_cards_where_step(cards: Seq<TarotCard>, p: spec_fn(TarotCard) -> bool, i: int)
    requires
        0 <= i < cards.len(),
    ensures
        cards_where(cards.take(i + 1), p) == if p(cards[i]) {
            cards_where(cards.take(i), p).push(cards[i])
        } else {
            cards_where(cards.take(i), p)
        },
{
    assert(cards.take(i + 1).drop_last() =~= cards.take(i));
    assert(cards.take(i + 1).last() == cards[i]);
}

/// Cards with a suit field equal to `suit`, ignoring case.
pub fn get_cards_by_suit<'a>(repo: &'a CardRepository, suit: &str) -> (r: Vec<&'a TarotCard>)
    requires
        repo.wf(),
    ensures
        refers_to(r@, cards_where(repo@, |c: TarotCard| has_suit(c, lower_of(suit@)))),
{
    let ghost p = |c: TarotCard| has_suit(c, lower_of(suit@));
    let wanted_string = lowercase(suit);
    let wanted = chars_of(wanted_string.as_str());
    let n = repo.cards.len();
    let mut out: Vec<&TarotCard> = Vec::new();
    let mut i: usize = 0;
    assert(repo.cards@.take(0) =~= Seq::<TarotCard>::empty());
    while i < n
        invariant
            n == repo@.len(),
            repo@ == repo.cards@,
            wanted@ == lower_of(suit@),
            p == (|c: TarotCard| has_suit(c, lower_of(suit@))),
            i <= n,
            refers_to(out@, cards_where(repo@.take(i as int), p)),
        decreases n - i,
    {
        proof {
            lemma_cards_where_step(repo@, p, i as int);
        }
        let c = &repo.cards[i];
        let first = match &c.suit_1 {
            Some(s) => {
                let l = lowercase(s.as_str());
                same_chars(&chars_of(l.as_str()), &wanted)
            },
            None => false,
        };
        let second = match &c.suit_2 {
            Some(s) => {
                let l = lowercase(s.as_str());
                same_chars(&chars_of(l.as_str()), &wanted)
            },
            None => false,
        };
        assert(p(repo@[i as int]) == has_suit(*c, lower_of(suit@)));
        if first || second {
            out.push(c);
        }
        i = i + 1;
    }
    assert(repo@.take(n as int) =~= repo@);
    out
}

/// Cards, in table order, whose major-arcana status is `major`.
fn cards_by_arcana(repo: &CardRepository, major: bool) -> (r: Vec<&TarotCard>)
    requires
        repo.wf(),
    ensures
        refers_to(r@, cards_where(repo@, |c: TarotCard| is_major(c) == major)),
{
    let ghost p = |c: TarotCard| is_major(c) == major;
    let n = repo.cards.len();
    let mut out: Vec<&TarotCard> = Vec::new();
    let mut i: usize = 0;
    assert(repo.cards@.take(0) =~= Seq::<TarotCard>::empty());
    while i < n
        invariant
            n == repo@.len(),
            repo@ == repo.cards@,
            p == (|c: TarotCard| is_major(c) == major),
            i <= n,
            refers_to(out@, cards_where(repo@.take(i as int), p)),
        decreases n - i,
    {
        proof {
            lemma_cards_where_step(repo@, p, i as int);
        }
        let c = &repo.cards[i];
        assert(p(repo@[i as int]) == (is_major(*c) == major));
        if (c.suit_1.is_none() && c.suit_2.is_none()) == major {
            out.push(c);
        }
        i = i + 1;
    }
    assert(repo@.take(n as int) =~= repo@);
    out
}

/// The major arcana: cards with no suit field, in table order.
pub fn get_major_arcana(repo: &CardRepository) -> (r: Vec<&TarotCard>)
    requires
        repo.wf(),
    ensures
        refers_to(r@, cards_where(repo@, |c: TarotCard| is_major(c))),
{
    let r = cards_by_arcana(repo, true);
    assert(cards_where(repo@, |c: TarotCard| is_major(c) == true) == cards_where(
        repo@,
        |c: TarotCard| is_major(c),
    )) by {
        assert((|c: TarotCard| is_major(c) == true) =~= (|c: TarotCard| is_major(c)));
    }
    r
}

/// The minor arcana: cards with at least one suit field, in table order.
pub fn get_minor_arcana(repo: &CardRepository) -> (r: Vec<&TarotCard>)
    requires
        repo.wf(),
    ensures
        refers_to(r@, cards_where(repo@, |c: TarotCard| !is_major(c))),
{
    let r = cards_by_arcana(repo, false);
    assert(cards_where(repo@, |c: TarotCard| is_major(c) == false) == cards_where(
        repo@,
        |c: TarotCard| !is_major(c),
    )) by {
        assert((|c: TarotCard| is_major(c) == false) =~= (|c: TarotCard| !is_major(c)));
    }
    r
}

/// Every card is either major or minor arcana: the two selections together
/// are as long as the table.
pub proof fn lemma_arcana_partition(cards: Seq<TarotCard>)
    ensures
        cards_where(cards, |c: TarotCard| is_major(c)).len() + cards_where(
            cards,
            |c: TarotCard| !is_major(c),
        ).len() == cards.len(),
    decreases cards.len(),
{
    if cards.len() > 0 {
        lemma_arcana_partition(cards.drop_last());
    }
}

/// Search keys are computed the same way for the table and for queries, so
/// looking a card up by its own name settles on that card.
pub proof fn lemma_own_name_resolves(repo: &CardRepository, i: int, j: int)
    requires
        repo.wf(),
        0 <= i < repo@.len(),
        resolved_at(repo@, name_key(repo@[i]), j),
    ensures
        j == i,
{
    repo.lemma_keys_unique();
    assert(some_name_is(repo@, name_key(repo@[i])));
}

} // verus!
