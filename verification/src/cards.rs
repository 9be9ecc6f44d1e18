//! Card identity, the 52-card deck, shuffling and drawing.

use vstd::prelude::*;

verus! {

/// One of the four French suits.
#[derive(Debug, Clone, Copy, PartialEq, Eq, Structural, Hash)]
pub enum Suit {
    Hearts,
    Diamonds,
    Clubs,
    Spades,
}

/// Card rank from Two up to Ace (Ace is high except in the wheel straight).
#[derive(Debug, Clone, Copy, PartialEq, Eq, Structural, Hash)]
pub enum Rank {
    Two,
    Three,
    Four,
    Five,
    Six,
    Seven,
    Eight,
    Nine,
    Ten,
    Jack,
    Queen,
    King,
    Ace,
}

/// Ordinal value of a rank, 2 through 14, so that rank comparisons and
/// straight detection are exact integer arithmetic.
pub open spec fn rank_ord(r: Rank) -> int {
    match r {
        Rank::Two => 2,
        Rank::Three => 3,
        Rank::Four => 4,
        Rank::Five => 5,
        Rank::Six => 6,
        Rank::Seven => 7,
        Rank::Eight => 8,
        Rank::Nine => 9,
        Rank::Ten => 10,
        Rank::Jack => 11,
        Rank::Queen => 12,
        Rank::King => 13,
        Rank::Ace => 14,
    }
}

/// Executable counterpart of `rank_ord`.
pub fn rank_value(r: Rank) -> (v: u8)
    ensures
        v as int == rank_ord(r),
{
    match r {
        Rank::Two => 2,
        Rank::Three => 3,
        Rank::Four => 4,
        Rank::Five => 5,
        Rank::Six => 6,
        Rank::Seven => 7,
        Rank::Eight => 8,
        Rank::Nine => 9,
        Rank::Ten => 10,
        Rank::Jack => 11,
        Rank::Queen => 12,
        Rank::King => 13,
        Rank::Ace => 14,
    }
}

/// The rank whose ordinal value is `v`.
pub fn rank_from_value(v: u8) -> (r: Rank)
    requires
        2 <= v <= 14,
    ensures
        rank_ord(r) == v as int,
{
    match v {
        2 => Rank::Two,
        3 => Rank::Three,
        4 => Rank::Four,
        5 => Rank::Five,
        6 => Rank::Six,
        7 => Rank::Seven,
        8 => Rank::Eight,
        9 => Rank::Nine,
        10 => Rank::Ten,
        11 => Rank::Jack,
        12 => Rank::Queen,
        13 => Rank::King,
        _ => Rank::Ace,
    }
}

/// A playing card. A placeholder card stands for an undealt or unrevealed
/// slot and is excluded from hand evaluation.
#[derive(Debug, Clone, Copy, PartialEq, Eq, Structural, Hash)]
pub struct Card {
    pub rank: Rank,
    pub suit: Suit,
    pub is_placeholder: bool,
}

/// The real (non-placeholder) card of the given rank and suit.
pub open spec fn spec_card(rank: Rank, suit: Suit) -> Card {
    Card { rank, suit, is_placeholder: false }
}

impl Card {
    /// A real card of the given rank and suit.
    pub fn new(rank: Rank, suit: Suit) -> (c: Card)
        ensures
            c == spec_card(rank, suit),
    {
        Card { rank, suit, is_placeholder: false }
    }

    /// Short display form of the rank.
    pub fn rank_str(&self) -> (s: &'static str)
        ensures
            self.rank == Rank::Two ==> s@ == "2"@,
            self.rank == Rank::Three ==> s@ == "3"@,
            self.rank == Rank::Four ==> s@ == "4"@,
            self.rank == Rank::Five ==> s@ == "5"@,
            self.rank == Rank::Six ==> s@ == "6"@,
            self.rank == Rank::Seven ==> s@ == "7"@,
            self.rank == Rank::Eight ==> s@ == "8"@,
            self.rank == Rank::Nine ==> s@ == "9"@,
            self.rank == Rank::Ten ==> s@ == "10"@,
            self.rank == Rank::Jack ==> s@ == "J"@,
            self.rank == Rank::Queen ==> s@ == "Q"@,
            self.rank == Rank::King ==> s@ == "K"@,
            self.rank == Rank::Ace ==> s@ == "A"@,
    {
        match self.rank {
            Rank::Two => "2",
            Rank::Three => "3",
            Rank::Four => "4",
            Rank::Five => "5",
            Rank::Six => "6",
            Rank::Seven => "7",
            Rank::Eight => "8",
            Rank::Nine => "9",
            Rank::Ten => "10",
            Rank::Jack => "J",
            Rank::Queen => "Q",
            Rank::King => "K",
            Rank::Ace => "A",
        }
    }

    /// Display symbol of the suit.
    pub fn suit_str(&self) -> (s: &'static str)
        ensures
            self.suit == Suit::Hearts ==> s@ == "\u{2665}"@,
            self.suit == Suit::Diamonds ==> s@ == "\u{2666}"@,
            self.suit == Suit::Clubs ==> s@ == "\u{2663}"@,
            self.suit == Suit::Spades ==> s@ == "\u{2660}"@,
    {
        match self.suit {
            Suit::Hearts => "\u{2665}",
            Suit::Diamonds => "\u{2666}",
            Suit::Clubs => "\u{2663}",
            Suit::Spades => "\u{2660}",
        }
    }

    /// Whether the card is drawn in red (hearts and diamonds).
    pub fn is_red(&self) -> (r: bool)
        ensures
            r == (self.suit == Suit::Hearts || self.suit == Suit::Diamonds),
    {
        match self.suit {
            Suit::Hearts => true,
            Suit::Diamonds => true,
            Suit::Clubs => false,
            Suit::Spades => false,
        }
    }
}

impl Default for Card {
    /// The placeholder card that marks an undealt slot.
    fn default() -> (c: Card)
        ensures
            c.is_placeholder,
    {
        Card { rank: Rank::Two, suit: Suit::Hearts, is_placeholder: true }
    }
}

/// How many cards of the sequence satisfy `p`. Every quantity the hand
/// evaluator cares about (rank histograms, suit histograms, card
/// multiplicities) is an instance of this count.
pub open spec fn count_matching(s: Seq<Card>, p: spec_fn(Card) -> bool) -> nat
    decreases s.len(),
{
    if s.len() == 0 {
        0
    } else {
        count_matching(s.drop_last(), p) + (if p(s.last()) { 1nat } else { 0nat })
    }
}

/// How many cards of `s` equal `c` exactly.
pub open spec fn card_count(s: Seq<Card>, c: Card) -> nat
    decreases s.len(),
{
    if s.len() == 0 {
        0
    } else {
        card_count(s.drop_last(), c) + (if s.last() == c { 1nat } else { 0nat })
    }
}

/// `card_count` is the instance of `count_matching` for the predicate
/// "equals `c`", for any predicate extensionally equal to it.
pub proof fn lemma_card_count_as_matching(s: Seq<Card>, p: spec_fn(Card) -> bool, c: Card)
    requires
        forall|x: Card| #[trigger] p(x) <==> x == c,
    ensures
        count_matching(s, p) == card_count(s, c),
    decreases s.len(),
{
    if s.len() > 0 {
        lemma_card_count_as_matching(s.drop_last(), p, c);
    }
}

/// Appending one card changes `card_count` by that card's contribution.
pub proof fn lemma_card_count_push(s: Seq<Card>, c0: Card, c: Card)
    ensures
        card_count(s.push(c), c0) == card_count(s, c0) + (if c == c0 { 1int } else { 0int }),
{
    assert(s.push(c).drop_last() =~= s);
    assert(s.push(c).last() == c);
}

/// `card_count` is invariant under permutation.
pub proof fn lemma_card_count_permutation(s1: Seq<Card>, s2: Seq<Card>, c: Card)
    requires
        s1.to_multiset() == s2.to_multiset(),
    ensures
        card_count(s1, c) == card_count(s2, c),
{
    let p = |x: Card| x == c;
    lemma_count_permutation(s1, s2, p);
    lemma_card_count_as_matching(s1, p, c);
    lemma_card_count_as_matching(s2, p, c);
}

/// Appending one card changes a count by exactly that card's contribution.
pub proof fn lemma_count_push(s: Seq<Card>, p: spec_fn(Card) -> bool, c: Card)
    ensures
        count_matching(s.push(c), p) == count_matching(s, p) + (if p(c) { 1int } else { 0int }),
{
    assert(s.push(c).drop_last() =~= s);
    assert(s.push(c).last() == c);
}

/// Removing the element at index `i` changes a count by that element's
/// contribution.
pub proof fn lemma_count_remove(s: Seq<Card>, p: spec_fn(Card) -> bool, i: int)
    requires
        0 <= i < s.len(),
    ensures
        count_matching(s, p) == count_matching(s.remove(i), p)
            + (if p(s[i]) { 1int } else { 0int }),
    decreases s.len(),
{
    if i == s.len() - 1 {
        assert(s.remove(i) =~= s.drop_last());
    } else {
        assert(s.remove(i).drop_last() =~= s.drop_last().remove(i));
        assert(s.remove(i).last() == s.last());
        lemma_count_remove(s.drop_last(), p, i);
    }
}

/// Counts depend only on the multiset of cards: two sequences that are
/// permutations of one another have the same count for every predicate.
pub proof fn lemma_count_permutation(s1: Seq<Card>, s2: Seq<Card>, p: spec_fn(Card) -> bool)
    requires
        s1.to_multiset() == s2.to_multiset(),
    ensures
        count_matching(s1, p) == count_matching(s2, p),
    decreases s1.len(),
{
    broadcast use vstd::seq_lib::group_to_multiset_ensures;

    if s1.len() == 0 {
        assert(s2.to_multiset().len() == 0);
        assert(s2.len() == 0);
    } else {
        let x = s1.last();
        assert(s1 =~= s1.drop_last().push(x));
        assert(s1.to_multiset() =~= s1.drop_last().to_multiset().insert(x));
        assert(s2.to_multiset().count(x) > 0);
        assert(s2.contains(x));
        let i = choose|i: int| 0 <= i < s2.len() && s2[i] == x;
        assert(s2.remove(i).to_multiset() =~= s2.to_multiset().remove(x));
        assert(s1.drop_last().to_multiset() =~= s2.remove(i).to_multiset());
        lemma_count_permutation(s1.drop_last(), s2.remove(i), p);
        lemma_count_remove(s2, p, i);
    }
}

/// A shuffled deck. Cards are consumed from the end of the vector.
#[derive(Debug, Clone, PartialEq, Eq)]
pub struct Deck {
    cards: Vec<Card>,
}

/// Relies on rand's `SliceRandom::shuffle` (a Fisher-Yates shuffle): it
/// permutes the slice in place by swaps, so the multiset of cards is
/// unchanged. Which permutation comes out depends on the thread-local
/// generator, so nothing more is promised.
#[verifier::external_body]
fn shuffle_cards(cards: &mut Vec<Card>)
    ensures
        final(cards)@.to_multiset() == old(cards)@.to_multiset(),
{
    rand::seq::SliceRandom::shuffle(cards.as_mut_slice(), &mut rand::thread_rng());
}

/// What a well-formed deck holds: real cards only, each at most once.
pub open spec fn deck_cards_wf(s: Seq<Card>) -> bool {
    &&& forall|i: int| 0 <= i < s.len() ==> !(#[trigger] s[i]).is_placeholder
    &&& forall|r: Rank, su: Suit| #[trigger] card_count(s, spec_card(r, su)) <= 1
}

impl Deck {
    /// The cards still in the deck, in draw order (last is drawn first).
    pub closed spec fn view(&self) -> Seq<Card> {
        self.cards@
    }

    /// A full deck invariant: exactly the 52 distinct (rank, suit) cards.
    pub open spec fn is_full(&self) -> bool {
        &&& self@.len() == 52
        &&& forall|r: Rank, su: Suit| #[trigger] card_count(self@, spec_card(r, su)) == 1
        &&& forall|i: int| 0 <= i < self@.len() ==> !(#[trigger] self@[i]).is_placeholder
    }

    /// Whether the deck still satisfies the no-duplicates invariant.
    pub open spec fn wf(&self) -> bool {
        deck_cards_wf(self@)
    }

    /// Builds the 52 distinct cards and shuffles them uniformly.
    pub fn new() -> (d: Deck)
        ensures
            d.is_full(),
            d.wf(),
    {
        let mut cards: Vec<Card> = Vec::new();
        let mut si: u8 = 0;
        while si < 4
            invariant
                si <= 4,
                cards@.len() == 13 * si,
                forall|i: int| 0 <= i < cards@.len() ==> !(#[trigger] cards@[i]).is_placeholder,
                forall|r: Rank, su: Suit| #[trigger] card_count(cards@, spec_card(r, su))
                    == (if suit_index(su) < si as int { 1int } else { 0int }),
            decreases 4 - si,
        {
            let suit = suit_from_index(si);
            let mut v: u8 = 2;
            while v <= 14
                invariant
                    si < 4,
                    2 <= v <= 15,
                    suit_index(suit) == si as int,
                    cards@.len() == 13 * si + (v - 2),
                    forall|i: int| 0 <= i < cards@.len() ==> !(#[trigger] cards@[i]).is_placeholder,
                    forall|r: Rank, su: Suit| #[trigger] card_count(cards@, spec_card(r, su))
                        == (if suit_index(su) < si as int
                                || (suit_index(su) == si as int && rank_ord(r) < v as int) {
                                1int
                            } else {
                                0int
                            }),
                decreases 15 - v,
            {
                let rank = rank_from_value(v);
                let c = Card::new(rank, suit);
                let ghost old_cards = cards@;
                cards.push(c);
                proof {
                    assert forall|r: Rank, su: Suit| #[trigger] card_count(cards@, spec_card(r, su))
                        == (if suit_index(su) < si as int
                                || (suit_index(su) == si as int && rank_ord(r) < v as int + 1) {
                                1int
                            } else {
                                0int
                            }) by {
                        assert(cards@ =~= old_cards.push(c));
                        lemma_card_count_push(old_cards, spec_card(r, su), c);
                        lemma_rank_ord_injective(r, rank);
                        lemma_suit_index_injective(su, suit);
                    }
                }
                v = v + 1;
            }
            si = si + 1;
        }
        let ghost pre = cards@;
        shuffle_cards(&mut cards);
        proof {
            let shuffled = cards@;
            assert(shuffled.len() == pre.len()) by {
                broadcast use vstd::seq_lib::group_to_multiset_ensures;

                assert(shuffled.to_multiset().len() == pre.to_multiset().len());
            }
            assert forall|r: Rank, su: Suit| #[trigger] card_count(shuffled, spec_card(r, su)) == 1
                by {
                lemma_card_count_permutation(shuffled, pre, spec_card(r, su));
            }
            assert forall|i: int| 0 <= i < shuffled.len()
                implies !(#[trigger] shuffled[i]).is_placeholder by {
                broadcast use vstd::seq_lib::group_to_multiset_ensures;

                assert(shuffled.to_multiset().count(shuffled[i]) > 0);
                assert(pre.to_multiset().count(shuffled[i]) > 0);
                assert(pre.contains(shuffled[i]));
            }
        }
        Deck { cards }
    }

    /// Removes and returns the card at the drawing end in O(1); `None` when
    /// the deck is empty.
    pub fn draw(&mut self) -> (c: Option<Card>)
        ensures
            old(self)@.len() == 0 ==> c is None && final(self)@ == old(self)@,
            old(self)@.len() > 0 ==> {
                &&& c == Some(old(self)@.last())
                &&& final(self)@ == old(self)@.drop_last()
            },
            old(self).wf() ==> final(self).wf(),
    {
        proof {
            if old(self)@.len() > 0 && old(self).wf() {
                assert forall|r: Rank, su: Suit|
                    #[trigger] card_count(old(self)@.drop_last(), spec_card(r, su)) <= 1 by {
                    assert(card_count(old(self)@, spec_card(r, su)) <= 1);
                }
            }
        }
        self.cards.pop()
    }

    /// The number of cards remaining in the deck.
    pub fn cards_remaining(&self) -> (n: usize)
        ensures
            n == self@.len(),
    {
        self.cards.len()
    }
}

impl Default for Deck {
    /// A freshly built, shuffled full deck.
    fn default() -> (d: Deck)
        ensures
            d.is_full(),
            d.wf(),
    {
        Deck::new()
    }
}

/// Index of a suit in deck construction order.
pub open spec fn suit_index(s: Suit) -> int {
    match s {
        Suit::Hearts => 0,
        Suit::Diamonds => 1,
        Suit::Clubs => 2,
        Suit::Spades => 3,
    }
}

/// The suit at the given construction index.
fn suit_from_index(i: u8) -> (s: Suit)
    requires
        i < 4,
    ensures
        suit_index(s) == i as int,
{
    match i {
        0 => Suit::Hearts,
        1 => Suit::Diamonds,
        2 => Suit::Clubs,
        _ => Suit::Spades,
    }
}

/// Distinct ranks have distinct ordinals.
pub proof fn lemma_rank_ord_injective(a: Rank, b: Rank)
    ensures
        rank_ord(a) == rank_ord(b) ==> a == b,
{
}

/// Distinct suits have distinct indices.
pub proof fn lemma_suit_index_injective(a: Suit, b: Suit)
    ensures
        suit_index(a) == suit_index(b) ==> a == b,
{
}

} // verus!
