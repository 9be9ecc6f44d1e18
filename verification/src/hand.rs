//! Hand evaluation: the mathematical model of a poker hand (rank and suit
//! histograms, straight detection, category selection) and the verified
//! evaluator producing a category plus tiebreak values.

use vstd::prelude::*;
use crate::cards::{Card, Rank, Suit, rank_ord, rank_value, rank_from_value, count_matching,
    lemma_count_permutation};

verus! {

/// The nine hand categories, ordered from weakest to strongest.
#[derive(Debug, Clone, Copy, PartialEq, Eq, Structural)]
pub enum HandRank {
    HighCard,
    Pair,
    TwoPair,
    ThreeOfAKind,
    Straight,
    Flush,
    FullHouse,
    FourOfAKind,
    StraightFlush,
}

/// Position of a category in the strength order: HighCard is 0 and
/// StraightFlush is 8.
pub open spec fn hand_rank_ord(h: HandRank) -> int {
    match h {
        HandRank::HighCard => 0,
        HandRank::Pair => 1,
        HandRank::TwoPair => 2,
        HandRank::ThreeOfAKind => 3,
        HandRank::Straight => 4,
        HandRank::Flush => 5,
        HandRank::FullHouse => 6,
        HandRank::FourOfAKind => 7,
        HandRank::StraightFlush => 8,
    }
}

/// Executable counterpart of `hand_rank_ord`.
pub fn hand_rank_value(h: HandRank) -> (v: u8)
    ensures
        v as int == hand_rank_ord(h),
{
    match h {
        HandRank::HighCard => 0,
        HandRank::Pair => 1,
        HandRank::TwoPair => 2,
        HandRank::ThreeOfAKind => 3,
        HandRank::Straight => 4,
        HandRank::Flush => 5,
        HandRank::FullHouse => 6,
        HandRank::FourOfAKind => 7,
        HandRank::StraightFlush => 8,
    }
}

// ---------------------------------------------------------------------------
// Histograms. Placeholder cards never count.
// ---------------------------------------------------------------------------

/// How many real cards of `s` have rank ordinal `r`.
pub open spec fn rank_count(s: Seq<Card>, r: int) -> nat
    decreases s.len(),
{
    if s.len() == 0 {
        0
    } else {
        rank_count(s.drop_last(), r)
            + (if !s.last().is_placeholder && rank_ord(s.last().rank) == r { 1nat } else { 0nat })
    }
}

/// How many real cards of `s` have suit `su`.
pub open spec fn suit_count(s: Seq<Card>, su: Suit) -> nat
    decreases s.len(),
{
    if s.len() == 0 {
        0
    } else {
        suit_count(s.drop_last(), su)
            + (if !s.last().is_placeholder && s.last().suit == su { 1nat } else { 0nat })
    }
}

/// How many real cards of `s` have rank ordinal `r` and suit `su`.
pub open spec fn rank_suit_count(s: Seq<Card>, r: int, su: Suit) -> nat
    decreases s.len(),
{
    if s.len() == 0 {
        0
    } else {
        rank_suit_count(s.drop_last(), r, su)
            + (if !s.last().is_placeholder && rank_ord(s.last().rank) == r && s.last().suit == su {
                1nat
            } else {
                0nat
            })
    }
}

/// How many real (non-placeholder) cards `s` holds.
pub open spec fn real_count(s: Seq<Card>) -> nat
    decreases s.len(),
{
    if s.len() == 0 {
        0
    } else {
        real_count(s.drop_last()) + (if !s.last().is_placeholder { 1nat } else { 0nat })
    }
}

/// Step lemma for counting loops: extending a prefix of the input by one
/// card changes every histogram by exactly that card's contribution.
pub proof fn lemma_counts_take_step(s: Seq<Card>, i: int)
    requires
        0 <= i < s.len(),
    ensures
        forall|r: int| #[trigger] rank_count(s.take(i + 1), r) == rank_count(s.take(i), r)
            + (if !s[i].is_placeholder && rank_ord(s[i].rank) == r { 1int } else { 0int }),
        forall|su: Suit| #[trigger] suit_count(s.take(i + 1), su) == suit_count(s.take(i), su)
            + (if !s[i].is_placeholder && s[i].suit == su { 1int } else { 0int }),
        forall|r: int, su: Suit| #[trigger] rank_suit_count(s.take(i + 1), r, su)
            == rank_suit_count(s.take(i), r, su)
            + (if !s[i].is_placeholder && rank_ord(s[i].rank) == r && s[i].suit == su {
                1int
            } else {
                0int
            }),
        real_count(s.take(i + 1)) == real_count(s.take(i))
            + (if !s[i].is_placeholder { 1int } else { 0int }),
{
    assert(s.take(i + 1).drop_last() =~= s.take(i));
    assert(s.take(i + 1).last() == s[i]);
}

/// A sequence is its own full prefix.
pub proof fn lemma_take_all(s: Seq<Card>)
    ensures
        s.take(s.len() as int) =~= s,
{
}

// ---------------------------------------------------------------------------
// Executable histogram queries.
// ---------------------------------------------------------------------------

/// Number of real cards of rank ordinal `r`.
fn count_rank_in(cards: &[Card], r: u8) -> (n: usize)
    ensures
        n == rank_count(cards@, r as int),
{
    let ghost s = cards@;
    let mut n: usize = 0;
    let mut i: usize = 0;
    while i < cards.len()
        invariant
            s == cards@,
            i <= s.len(),
            n <= i,
            n == rank_count(s.take(i as int), r as int),
        decreases s.len() - i,
    {
        let c = cards[i];
        proof {
            lemma_counts_take_step(s, i as int);
        }
        if !c.is_placeholder && rank_value(c.rank) == r {
            n = n + 1;
        }
        i = i + 1;
    }
    proof {
        lemma_take_all(s);
    }
    n
}

/// Number of real cards of suit `su`.
fn count_suit_in(cards: &[Card], su: Suit) -> (n: usize)
    ensures
        n == suit_count(cards@, su),
{
    let ghost s = cards@;
    let mut n: usize = 0;
    let mut i: usize = 0;
    while i < cards.len()
        invariant
            s == cards@,
            i <= s.len(),
            n <= i,
            n == suit_count(s.take(i as int), su),
        decreases s.len() - i,
    {
        let c = cards[i];
        proof {
            lemma_counts_take_step(s, i as int);
        }
        if !c.is_placeholder && c.suit == su {
            n = n + 1;
        }
        i = i + 1;
    }
    proof {
        lemma_take_all(s);
    }
    n
}

/// Number of real cards of rank ordinal `r` and suit `su`.
fn count_rank_suit_in(cards: &[Card], r: u8, su: Suit) -> (n: usize)
    ensures
        n == rank_suit_count(cards@, r as int, su),
{
    let ghost s = cards@;
    let mut n: usize = 0;
    let mut i: usize = 0;
    while i < cards.len()
        invariant
            s == cards@,
            i <= s.len(),
            n <= i,
            n == rank_suit_count(s.take(i as int), r as int, su),
        decreases s.len() - i,
    {
        let c = cards[i];
        proof {
            lemma_counts_take_step(s, i as int);
        }
        if !c.is_placeholder && rank_value(c.rank) == r && c.suit == su {
            n = n + 1;
        }
        i = i + 1;
    }
    proof {
        lemma_take_all(s);
    }
    n
}

/// Number of real cards.
fn count_real(cards: &[Card]) -> (n: usize)
    ensures
        n == real_count(cards@),
{
    let ghost s = cards@;
    let mut n: usize = 0;
    let mut i: usize = 0;
    while i < cards.len()
        invariant
            s == cards@,
            i <= s.len(),
            n <= i,
            n == real_count(s.take(i as int)),
        decreases s.len() - i,
    {
        let c = cards[i];
        proof {
            lemma_counts_take_step(s, i as int);
        }
        if !c.is_placeholder {
            n = n + 1;
        }
        i = i + 1;
    }
    proof {
        lemma_take_all(s);
    }
    n
}

// ---------------------------------------------------------------------------
// Straight detection.
// ---------------------------------------------------------------------------

/// At least one real card of rank ordinal `r` is present.
pub open spec fn rank_present(s: Seq<Card>, r: int) -> bool {
    rank_count(s, r) > 0
}

/// Five consecutive ranks ending at `hi` are all present.
pub open spec fn straight_at(s: Seq<Card>, hi: int) -> bool {
    forall|k: int| 0 <= k < 5 ==> #[trigger] rank_present(s, hi - k)
}

/// The wheel: Ace together with 2, 3, 4, 5.
pub open spec fn wheel_present(s: Seq<Card>) -> bool {
    rank_present(s, 14) && rank_present(s, 2) && rank_present(s, 3) && rank_present(s, 4)
        && rank_present(s, 5)
}

/// The top rank of the best straight whose high card is at most `hi`;
/// the wheel counts with top rank 5; 0 when no straight exists.
pub open spec fn straight_high_from(s: Seq<Card>, hi: int) -> int
    decreases hi,
{
    if hi < 6 {
        if wheel_present(s) {
            5
        } else {
            0
        }
    } else if straight_at(s, hi) {
        hi
    } else {
        straight_high_from(s, hi - 1)
    }
}

/// The top rank of the best straight present, or 0.
pub open spec fn straight_high(s: Seq<Card>) -> int {
    straight_high_from(s, 14)
}

/// Whether a real card of rank ordinal `r` is present.
fn has_rank(cards: &[Card], r: u8) -> (b: bool)
    ensures
        b == rank_present(cards@, r as int),
{
    count_rank_in(cards, r) > 0
}

/// Finds the highest straight among the given cards: checks the windows
/// from Ace-high down to 6-high, then the wheel. Returns the straight's
/// top rank.
pub fn find_straight_high(cards: &[Card]) -> (res: Option<Rank>)
    ensures
        match res {
            Some(r) => rank_ord(r) == straight_high(cards@) && straight_high(cards@) > 0,
            None => straight_high(cards@) == 0,
        },
{
    let ghost s = cards@;
    let mut hi: u8 = 14;
    while hi >= 6
        invariant
            s == cards@,
            5 <= hi <= 14,
            straight_high(s) == straight_high_from(s, hi as int),
        decreases hi,
    {
        let w0 = has_rank(cards, hi);
        let w1 = has_rank(cards, hi - 1);
        let w2 = has_rank(cards, hi - 2);
        let w3 = has_rank(cards, hi - 3);
        let w4 = has_rank(cards, hi - 4);
        if w0 && w1 && w2 && w3 && w4 {
            proof {
                assert forall|k: int| 0 <= k < 5 implies #[trigger] rank_present(s, hi as int - k)
                    by {
                    if k == 0 {
                    } else if k == 1 {
                        assert(rank_present(s, (hi - 1) as int));
                    } else if k == 2 {
                        assert(rank_present(s, (hi - 2) as int));
                    } else if k == 3 {
                        assert(rank_present(s, (hi - 3) as int));
                    } else {
                        assert(rank_present(s, (hi - 4) as int));
                    }
                }
                assert(straight_at(s, hi as int));
            }
            return Some(rank_from_value(hi));
        }
        proof {
            assert(!straight_at(s, hi as int)) by {
                if straight_at(s, hi as int) {
                    assert(rank_present(s, hi as int - 0));
                    assert(rank_present(s, hi as int - 1));
                    assert(rank_present(s, hi as int - 2));
                    assert(rank_present(s, hi as int - 3));
                    assert(rank_present(s, hi as int - 4));
                }
            }
        }
        hi = hi - 1;
    }
    let a = has_rank(cards, 14);
    let c2 = has_rank(cards, 2);
    let c3 = has_rank(cards, 3);
    let c4 = has_rank(cards, 4);
    let c5 = has_rank(cards, 5);
    if a && c2 && c3 && c4 && c5 {
        Some(Rank::Five)
    } else {
        None
    }
}

// ---------------------------------------------------------------------------
// Rank extraction: highest rank with a given multiplicity, highest rank
// present apart from given exclusions.
// ---------------------------------------------------------------------------

/// The highest rank ordinal at most `hi` whose multiplicity is exactly `c`;
/// 0 when there is none.
pub open spec fn top_with_count_from(s: Seq<Card>, c: nat, hi: int) -> int
    decreases hi,
{
    if hi < 2 {
        0
    } else if rank_count(s, hi) == c {
        hi
    } else {
        top_with_count_from(s, c, hi - 1)
    }
}

/// The highest rank ordinal at most `hi`, other than `e1` and `e2`, of
/// which at least one card is present; 0 when there is none.
pub open spec fn top_present_from(s: Seq<Card>, hi: int, e1: int, e2: int) -> int
    decreases hi,
{
    if hi < 2 {
        0
    } else if hi != e1 && hi != e2 && rank_present(s, hi) {
        hi
    } else {
        top_present_from(s, hi - 1, e1, e2)
    }
}

/// The result of `top_with_count_from` is 0 or a rank in range with the
/// requested multiplicity.
pub proof fn lemma_top_with_count_props(s: Seq<Card>, c: nat, hi: int)
    ensures
        top_with_count_from(s, c, hi) == 0 || (2 <= top_with_count_from(s, c, hi) <= hi
            && rank_count(s, top_with_count_from(s, c, hi)) == c),
    decreases hi,
{
    if hi >= 2 && rank_count(s, hi) != c {
        lemma_top_with_count_props(s, c, hi - 1);
    }
}

/// The result of `top_present_from` is 0 or a present rank in range,
/// distinct from both exclusions.
pub proof fn lemma_top_present_props(s: Seq<Card>, hi: int, e1: int, e2: int)
    ensures
        top_present_from(s, hi, e1, e2) == 0 || (2 <= top_present_from(s, hi, e1, e2) <= hi
            && top_present_from(s, hi, e1, e2) != e1 && top_present_from(s, hi, e1, e2) != e2
            && rank_present(s, top_present_from(s, hi, e1, e2))),
    decreases hi,
{
    if hi >= 2 && !(hi != e1 && hi != e2 && rank_present(s, hi)) {
        lemma_top_present_props(s, hi - 1, e1, e2);
    }
}

/// Highest rank, at most `hi`, held by exactly `c` cards; 0 when none is.
fn top_with_count(cards: &[Card], c: usize, hi: u8) -> (r: u8)
    requires
        hi <= 14,
    ensures
        r as int == top_with_count_from(cards@, c as nat, hi as int),
{
    let ghost s = cards@;
    let mut v: u8 = hi;
    while v >= 2
        invariant
            s == cards@,
            v <= hi,
            top_with_count_from(s, c as nat, hi as int) == top_with_count_from(
                s,
                c as nat,
                v as int,
            ),
        decreases v,
    {
        if count_rank_in(cards, v) == c {
            return v;
        }
        v = v - 1;
    }
    0
}

/// The real cards of suit `su`, in input order.
pub open spec fn suit_cards(s: Seq<Card>, su: Suit) -> Seq<Card>
    decreases s.len(),
{
    if s.len() == 0 {
        Seq::empty()
    } else {
        let rest = suit_cards(s.drop_last(), su);
        if !s.last().is_placeholder && s.last().suit == su {
            rest.push(s.last())
        } else {
            rest
        }
    }
}

/// Step lemma for the loop that collects the cards of one suit.
pub proof fn lemma_suit_cards_take_step(s: Seq<Card>, su: Suit, i: int)
    requires
        0 <= i < s.len(),
    ensures
        suit_cards(s.take(i + 1), su) == if !s[i].is_placeholder && s[i].suit == su {
            suit_cards(s.take(i), su).push(s[i])
        } else {
            suit_cards(s.take(i), su)
        },
{
    assert(s.take(i + 1).drop_last() =~= s.take(i));
    assert(s.take(i + 1).last() == s[i]);
}

/// Within the cards of one suit, the rank histogram is the full hand's
/// rank-and-suit histogram.
pub proof fn lemma_suit_cards_rank_count(s: Seq<Card>, su: Suit, r: int)
    ensures
        rank_count(suit_cards(s, su), r) == rank_suit_count(s, r, su),
    decreases s.len(),
{
    if s.len() > 0 {
        lemma_suit_cards_rank_count(s.drop_last(), su, r);
        let rest = suit_cards(s.drop_last(), su);
        if !s.last().is_placeholder && s.last().suit == su {
            assert(rest.push(s.last()).drop_last() =~= rest);
        }
    }
}

// ---------------------------------------------------------------------------
// Category selection and tiebreak values.
// ---------------------------------------------------------------------------

/// The suit holding five or more cards, if any, probed in a fixed order.
/// With at most seven cards, at most one suit can qualify.
pub open spec fn spec_flush_suit(s: Seq<Card>) -> Option<Suit> {
    if suit_count(s, Suit::Hearts) >= 5 {
        Some(Suit::Hearts)
    } else if suit_count(s, Suit::Diamonds) >= 5 {
        Some(Suit::Diamonds)
    } else if suit_count(s, Suit::Clubs) >= 5 {
        Some(Suit::Clubs)
    } else if suit_count(s, Suit::Spades) >= 5 {
        Some(Suit::Spades)
    } else {
        None
    }
}

/// The top rank of a straight made entirely of flush-suit cards, or 0.
pub open spec fn spec_sf_high(s: Seq<Card>) -> int {
    match spec_flush_suit(s) {
        Some(su) => straight_high(suit_cards(s, su)),
        None => 0,
    }
}

/// The unique rank held by exactly four cards, or 0.
pub open spec fn quad_rank(s: Seq<Card>) -> int {
    top_with_count_from(s, 4, 14)
}

/// The highest rank held by exactly three cards, or 0.
pub open spec fn trip_rank(s: Seq<Card>) -> int {
    top_with_count_from(s, 3, 14)
}

/// The second-highest rank held by exactly three cards, or 0.
pub open spec fn second_trip_rank(s: Seq<Card>) -> int {
    top_with_count_from(s, 3, trip_rank(s) - 1)
}

/// The highest rank held by exactly two cards, or 0.
pub open spec fn top_pair_rank(s: Seq<Card>) -> int {
    top_with_count_from(s, 2, 14)
}

/// The second-highest rank held by exactly two cards, or 0.
pub open spec fn second_pair_rank(s: Seq<Card>) -> int {
    top_with_count_from(s, 2, top_pair_rank(s) - 1)
}

/// The pair component of a full house: the best separate pair, where a
/// second three-of-a-kind counts as a pair using its own rank.
pub open spec fn full_house_pair(s: Seq<Card>) -> int {
    if top_pair_rank(s) >= second_trip_rank(s) {
        top_pair_rank(s)
    } else {
        second_trip_rank(s)
    }
}

/// The category of the best five-card hand among the real cards of `s`,
/// evaluated in strict descending priority. Fewer than five real cards
/// yield the degenerate HighCard result.
pub open spec fn spec_category(s: Seq<Card>) -> HandRank {
    if real_count(s) < 5 {
        HandRank::HighCard
    } else if spec_sf_high(s) > 0 {
        HandRank::StraightFlush
    } else if quad_rank(s) > 0 {
        HandRank::FourOfAKind
    } else if trip_rank(s) > 0 && full_house_pair(s) > 0 {
        HandRank::FullHouse
    } else if spec_flush_suit(s) is Some {
        HandRank::Flush
    } else if straight_high(s) > 0 {
        HandRank::Straight
    } else if trip_rank(s) > 0 {
        HandRank::ThreeOfAKind
    } else if second_pair_rank(s) > 0 {
        HandRank::TwoPair
    } else if top_pair_rank(s) > 0 {
        HandRank::Pair
    } else {
        HandRank::HighCard
    }
}

/// The rank ordinals of a list of ranks.
pub open spec fn ranks_of(q: Seq<Rank>) -> Seq<int> {
    q.map_values(|x: Rank| rank_ord(x))
}

/// All rank ordinals at most `hi` present in `s`, listed in descending
/// order with their multiplicities.
pub open spec fn ranks_desc_from(s: Seq<Card>, hi: int) -> Seq<int>
    decreases hi,
{
    if hi < 2 {
        Seq::empty()
    } else {
        Seq::new(rank_count(s, hi), |i: int| hi) + ranks_desc_from(s, hi - 1)
    }
}

/// The ordered tiebreak values that distinguish hands within the category.
pub open spec fn spec_primary(s: Seq<Card>) -> Seq<int> {
    if real_count(s) < 5 {
        Seq::empty()
    } else if spec_sf_high(s) > 0 {
        seq![spec_sf_high(s)]
    } else if quad_rank(s) > 0 {
        seq![quad_rank(s)]
    } else if trip_rank(s) > 0 && full_house_pair(s) > 0 {
        seq![trip_rank(s), full_house_pair(s)]
    } else if spec_flush_suit(s) is Some {
        match spec_flush_suit(s) {
            Some(su) => ranks_desc_from(suit_cards(s, su), 14),
            None => Seq::empty(),
        }
    } else if straight_high(s) > 0 {
        seq![straight_high(s)]
    } else if trip_rank(s) > 0 {
        seq![trip_rank(s)]
    } else if second_pair_rank(s) > 0 {
        seq![top_pair_rank(s), second_pair_rank(s)]
    } else if top_pair_rank(s) > 0 {
        seq![top_pair_rank(s)]
    } else {
        ranks_desc_from(s, 14)
    }
}

/// The display-only kicker ranks accompanying the category.
pub open spec fn spec_kickers(s: Seq<Card>) -> Seq<int> {
    if real_count(s) < 5 {
        Seq::empty()
    } else if spec_sf_high(s) > 0 {
        Seq::empty()
    } else if quad_rank(s) > 0 {
        let k = top_present_from(s, 14, quad_rank(s), quad_rank(s));
        if k > 0 {
            seq![k]
        } else {
            Seq::empty()
        }
    } else if trip_rank(s) > 0 && full_house_pair(s) > 0 {
        Seq::empty()
    } else if spec_flush_suit(s) is Some {
        Seq::empty()
    } else if straight_high(s) > 0 {
        Seq::empty()
    } else if trip_rank(s) > 0 {
        let k0 = top_present_from(s, 14, trip_rank(s), trip_rank(s));
        let k1 = top_present_from(s, k0 - 1, trip_rank(s), trip_rank(s));
        if k0 == 0 {
            Seq::empty()
        } else if k1 == 0 {
            seq![k0]
        } else {
            seq![k0, k1]
        }
    } else if second_pair_rank(s) > 0 {
        let k = top_present_from(s, 14, top_pair_rank(s), second_pair_rank(s));
        if k > 0 {
            seq![k]
        } else {
            Seq::empty()
        }
    } else if top_pair_rank(s) > 0 {
        let p = top_pair_rank(s);
        let k0 = top_present_from(s, 14, p, p);
        let k1 = top_present_from(s, k0 - 1, p, p);
        let k2 = top_present_from(s, k1 - 1, p, p);
        if k0 == 0 {
            Seq::empty()
        } else if k1 == 0 {
            seq![k0]
        } else if k2 == 0 {
            seq![k0, k1]
        } else {
            seq![k0, k1, k2]
        }
    } else {
        Seq::empty()
    }
}

/// Highest rank, at most `hi`, other than `e1` and `e2`, of which a card
/// is present; 0 when none is.
fn top_present(cards: &[Card], hi: u8, e1: u8, e2: u8) -> (r: u8)
    requires
        hi <= 14,
    ensures
        r as int == top_present_from(cards@, hi as int, e1 as int, e2 as int),
{
    let ghost s = cards@;
    let mut v: u8 = hi;
    while v >= 2
        invariant
            s == cards@,
            v <= hi,
            top_present_from(s, hi as int, e1 as int, e2 as int) == top_present_from(
                s,
                v as int,
                e1 as int,
                e2 as int,
            ),
        decreases v,
    {
        if v != e1 && v != e2 && has_rank(cards, v) {
            return v;
        }
        v = v - 1;
    }
    0
}

/// Mapping ranks to ordinals commutes with appending.
pub proof fn lemma_ranks_of_push(q: Seq<Rank>, x: Rank)
    ensures
        ranks_of(q.push(x)) =~= ranks_of(q).push(rank_ord(x)),
{
}

/// Rank lists with the same ordinal values are the same lists; together
/// with `lemma_evaluate_permutation_invariant` this pins the whole
/// `evaluate_hand` result down to the multiset of input cards.
pub proof fn lemma_ranks_of_injective(a: Seq<Rank>, b: Seq<Rank>)
    requires
        ranks_of(a) == ranks_of(b),
    ensures
        a == b,
{
    assert(ranks_of(a).len() == a.len());
    assert(ranks_of(b).len() == b.len());
    assert(a.len() == b.len());
    assert forall|i: int| 0 <= i < a.len() implies a[i] == b[i] by {
        assert(ranks_of(a)[i] == rank_ord(a[i]));
        assert(ranks_of(b)[i] == rank_ord(b[i]));
        crate::cards::lemma_rank_ord_injective(a[i], b[i]);
    }
    assert(a =~= b);
}

/// Suit whose cards form a flush, if any; probes the four suits in a
/// fixed order.
fn flush_suit_of(cards: &[Card]) -> (o: Option<Suit>)
    ensures
        o == spec_flush_suit(cards@),
{
    if count_suit_in(cards, Suit::Hearts) >= 5 {
        Some(Suit::Hearts)
    } else if count_suit_in(cards, Suit::Diamonds) >= 5 {
        Some(Suit::Diamonds)
    } else if count_suit_in(cards, Suit::Clubs) >= 5 {
        Some(Suit::Clubs)
    } else if count_suit_in(cards, Suit::Spades) >= 5 {
        Some(Suit::Spades)
    } else {
        None
    }
}

/// The real cards of suit `su`, in input order.
fn collect_suit_cards(cards: &[Card], su: Suit) -> (out: Vec<Card>)
    ensures
        out@ == suit_cards(cards@, su),
{
    let ghost s = cards@;
    let mut out: Vec<Card> = Vec::new();
    let mut i: usize = 0;
    while i < cards.len()
        invariant
            s == cards@,
            i <= s.len(),
            out@ == suit_cards(s.take(i as int), su),
        decreases s.len() - i,
    {
        let c = cards[i];
        proof {
            lemma_suit_cards_take_step(s, su, i as int);
        }
        if !c.is_placeholder && c.suit == su {
            out.push(c);
        }
        i = i + 1;
    }
    proof {
        lemma_take_all(s);
    }
    out
}

/// Appends rank `v` to `out` once for each card counted by `count`, where
/// `count` must be the rank's multiplicity in the ghost target histogram.
fn push_rank_times(out: &mut Vec<Rank>, v: u8, count: usize)
    requires
        2 <= v <= 14,
    ensures
        ranks_of(final(out)@) =~= ranks_of(old(out)@) + Seq::new(count as nat, |i: int| v as int),
{
    let ghost base = out@;
    let mut j: usize = 0;
    while j < count
        invariant
            2 <= v <= 14,
            j <= count,
            ranks_of(out@) =~= ranks_of(base) + Seq::new(j as nat, |i: int| v as int),
        decreases count - j,
    {
        let ghost before = out@;
        out.push(rank_from_value(v));
        proof {
            lemma_ranks_of_push(before, out@.last());
            assert((ranks_of(base) + Seq::new(j as nat, |i: int| v as int)).push(v as int)
                =~= ranks_of(base) + Seq::new((j + 1) as nat, |i: int| v as int));
        }
        j = j + 1;
    }
}

/// All ranks of the real cards, in descending order with multiplicity.
fn desc_rank_list(cards: &[Card]) -> (out: Vec<Rank>)
    ensures
        ranks_of(out@) == ranks_desc_from(cards@, 14),
{
    let ghost s = cards@;
    let mut out: Vec<Rank> = Vec::new();
    let mut v: u8 = 14;
    while v >= 2
        invariant
            s == cards@,
            1 <= v <= 14,
            ranks_of(out@) + ranks_desc_from(s, v as int) =~= ranks_desc_from(s, 14),
        decreases v,
    {
        let c = count_rank_in(cards, v);
        let ghost before = out@;
        push_rank_times(&mut out, v, c);
        proof {
            assert(ranks_desc_from(s, v as int)
                =~= Seq::new(rank_count(s, v as int), |i: int| v as int)
                    + ranks_desc_from(s, (v - 1) as int));
            assert(ranks_of(out@) + ranks_desc_from(s, (v - 1) as int)
                =~= (ranks_of(before) + Seq::new(rank_count(s, v as int), |i: int| v as int))
                    + ranks_desc_from(s, (v - 1) as int));
            assert((ranks_of(before) + Seq::new(rank_count(s, v as int), |i: int| v as int))
                + ranks_desc_from(s, (v - 1) as int)
                =~= ranks_of(before) + ranks_desc_from(s, v as int));
        }
        v = v - 1;
    }
    proof {
        assert(ranks_of(out@) + ranks_desc_from(s, 1) =~= ranks_of(out@));
    }
    out
}

/// All ranks of the flush suit's cards, in descending order with
/// multiplicity.
fn desc_suit_rank_list(cards: &[Card], su: Suit) -> (out: Vec<Rank>)
    ensures
        ranks_of(out@) == ranks_desc_from(suit_cards(cards@, su), 14),
{
    let ghost s = cards@;
    let ghost fs = suit_cards(s, su);
    let mut out: Vec<Rank> = Vec::new();
    let mut v: u8 = 14;
    while v >= 2
        invariant
            s == cards@,
            fs == suit_cards(s, su),
            1 <= v <= 14,
            ranks_of(out@) + ranks_desc_from(fs, v as int) =~= ranks_desc_from(fs, 14),
        decreases v,
    {
        let c = count_rank_suit_in(cards, v, su);
        proof {
            lemma_suit_cards_rank_count(s, su, v as int);
        }
        let ghost before = out@;
        push_rank_times(&mut out, v, c);
        proof {
            assert(ranks_desc_from(fs, v as int)
                =~= Seq::new(rank_count(fs, v as int), |i: int| v as int)
                    + ranks_desc_from(fs, (v - 1) as int));
            assert(ranks_of(out@) + ranks_desc_from(fs, (v - 1) as int)
                =~= (ranks_of(before) + Seq::new(rank_count(fs, v as int), |i: int| v as int))
                    + ranks_desc_from(fs, (v - 1) as int));
            assert((ranks_of(before) + Seq::new(rank_count(fs, v as int), |i: int| v as int))
                + ranks_desc_from(fs, (v - 1) as int)
                =~= ranks_of(before) + ranks_desc_from(fs, v as int));
        }
        v = v - 1;
    }
    proof {
        assert(ranks_of(out@) + ranks_desc_from(fs, 1) =~= ranks_of(out@));
    }
    out
}

/// A one-element rank list.
fn rank_vec1(a: u8) -> (v: Vec<Rank>)
    requires
        2 <= a <= 14,
    ensures
        ranks_of(v@) == seq![a as int],
{
    let mut v: Vec<Rank> = Vec::new();
    v.push(rank_from_value(a));
    proof {
        assert(ranks_of(v@) =~= seq![a as int]);
    }
    v
}

/// A two-element rank list.
fn rank_vec2(a: u8, b: u8) -> (v: Vec<Rank>)
    requires
        2 <= a <= 14,
        2 <= b <= 14,
    ensures
        ranks_of(v@) == seq![a as int, b as int],
{
    let mut v: Vec<Rank> = Vec::new();
    v.push(rank_from_value(a));
    v.push(rank_from_value(b));
    proof {
        assert(ranks_of(v@) =~= seq![a as int, b as int]);
    }
    v
}

/// Up to three kicker ranks; a zero ends the list.
fn kicker_vec(k0: u8, k1: u8, k2: u8) -> (v: Vec<Rank>)
    requires
        k0 != 0 ==> 2 <= k0 <= 14,
        k1 != 0 ==> 2 <= k1 <= 14 && k0 != 0,
        k2 != 0 ==> 2 <= k2 <= 14 && k1 != 0,
    ensures
        ranks_of(v@) == (if k0 == 0 {
            Seq::<int>::empty()
        } else if k1 == 0 {
            seq![k0 as int]
        } else if k2 == 0 {
            seq![k0 as int, k1 as int]
        } else {
            seq![k0 as int, k1 as int, k2 as int]
        }),
{
    let mut v: Vec<Rank> = Vec::new();
    if k0 > 0 {
        v.push(rank_from_value(k0));
        if k1 > 0 {
            v.push(rank_from_value(k1));
            if k2 > 0 {
                v.push(rank_from_value(k2));
            }
        }
    }
    proof {
        if k0 == 0 {
            assert(ranks_of(v@) =~= Seq::<int>::empty());
        } else if k1 == 0 {
            assert(ranks_of(v@) =~= seq![k0 as int]);
        } else if k2 == 0 {
            assert(ranks_of(v@) =~= seq![k0 as int, k1 as int]);
        } else {
            assert(ranks_of(v@) =~= seq![k0 as int, k1 as int, k2 as int]);
        }
    }
    v
}

/// A ranked hand: the category, the ordered values that break ties inside
/// the category, and display-only kickers.
#[derive(Debug, Clone, PartialEq, Eq)]
pub struct EvaluatedHand {
    pub hand_rank: HandRank,
    pub primary_values: Vec<Rank>,
    pub kickers: Vec<Rank>,
}

impl EvaluatedHand {
    /// The part of the evaluation that winner comparison uses: kickers are
    /// deliberately excluded.
    pub fn score(&self) -> (r: (HandRank, &[Rank]))
        ensures
            r.0 == self.hand_rank,
            r.1@ == self.primary_values@,
    {
        (self.hand_rank, self.primary_values.as_slice())
    }
}

/// Evaluates the best five-card poker hand among the real cards of the
/// input, in strict descending category priority. Placeholder cards are
/// ignored; fewer than five real cards give the degenerate
/// `(HighCard, [], [])` result.
pub fn evaluate_hand(cards: &[Card]) -> (ev: EvaluatedHand)
    ensures
        ev.hand_rank == spec_category(cards@),
        ranks_of(ev.primary_values@) == spec_primary(cards@),
        ranks_of(ev.kickers@) == spec_kickers(cards@),
{
    let ghost s = cards@;
    let n_real = count_real(cards);
    if n_real < 5 {
        let ev = EvaluatedHand {
            hand_rank: HandRank::HighCard,
            primary_values: Vec::new(),
            kickers: Vec::new(),
        };
        proof {
            assert(ranks_of(ev.primary_values@) =~= Seq::<int>::empty());
        }
        return ev;
    }
    let flush_suit = flush_suit_of(cards);

    // Straight flush: a straight restricted to the flush suit's cards.
    if let Some(su) = flush_suit {
        let fc = collect_suit_cards(cards, su);
        let sf = find_straight_high(fc.as_slice());
        if let Some(r) = sf {
            assert(spec_sf_high(s) == straight_high(suit_cards(s, su)));
            return EvaluatedHand {
                hand_rank: HandRank::StraightFlush,
                primary_values: rank_vec1(rank_value(r)),
                kickers: Vec::new(),
            };
        }
        assert(spec_sf_high(s) == 0);
    } else {
        assert(spec_sf_high(s) == 0);
    }
    assert(spec_sf_high(s) == 0);

    let quad = top_with_count(cards, 4, 14);
    if quad > 0 {
        proof {
            lemma_top_with_count_props(s, 4, 14);
            lemma_top_present_props(s, 14, quad as int, quad as int);
        }
        let k = top_present(cards, 14, quad, quad);
        return EvaluatedHand {
            hand_rank: HandRank::FourOfAKind,
            primary_values: rank_vec1(quad),
            kickers: kicker_vec(k, 0, 0),
        };
    }

    let trip = top_with_count(cards, 3, 14);
    let top_pair = top_with_count(cards, 2, 14);
    if trip > 0 {
        proof {
            lemma_top_with_count_props(s, 3, 14);
            lemma_top_with_count_props(s, 2, 14);
            lemma_top_with_count_props(s, 3, trip as int - 1);
        }
        let second_trip = top_with_count(cards, 3, trip - 1);
        let fh_pair = if top_pair >= second_trip {
            top_pair
        } else {
            second_trip
        };
        if fh_pair > 0 {
            return EvaluatedHand {
                hand_rank: HandRank::FullHouse,
                primary_values: rank_vec2(trip, fh_pair),
                kickers: Vec::new(),
            };
        }
        assert(full_house_pair(s) == 0);
    }

    if let Some(su) = flush_suit {
        return EvaluatedHand {
            hand_rank: HandRank::Flush,
            primary_values: desc_suit_rank_list(cards, su),
            kickers: Vec::new(),
        };
    }

    if let Some(r) = find_straight_high(cards) {
        return EvaluatedHand {
            hand_rank: HandRank::Straight,
            primary_values: rank_vec1(rank_value(r)),
            kickers: Vec::new(),
        };
    }

    if trip > 0 {
        proof {
            lemma_top_with_count_props(s, 3, 14);
            lemma_top_present_props(s, 14, trip as int, trip as int);
        }
        let k0 = top_present(cards, 14, trip, trip);
        let k1 = if k0 > 0 {
            proof {
                lemma_top_present_props(s, k0 as int - 1, trip as int, trip as int);
            }
            top_present(cards, k0 - 1, trip, trip)
        } else {
            0
        };
        return EvaluatedHand {
            hand_rank: HandRank::ThreeOfAKind,
            primary_values: rank_vec1(trip),
            kickers: kicker_vec(k0, k1, 0),
        };
    }

    if top_pair > 0 {
        proof {
            lemma_top_with_count_props(s, 2, 14);
            lemma_top_with_count_props(s, 2, top_pair as int - 1);
        }
        let second_pair = top_with_count(cards, 2, top_pair - 1);
        if second_pair > 0 {
            proof {
                lemma_top_present_props(s, 14, top_pair as int, second_pair as int);
            }
            let k = top_present(cards, 14, top_pair, second_pair);
            return EvaluatedHand {
                hand_rank: HandRank::TwoPair,
                primary_values: rank_vec2(top_pair, second_pair),
                kickers: kicker_vec(k, 0, 0),
            };
        }
        proof {
            lemma_top_present_props(s, 14, top_pair as int, top_pair as int);
        }
        let k0 = top_present(cards, 14, top_pair, top_pair);
        let k1 = if k0 > 0 {
            proof {
                lemma_top_present_props(s, k0 as int - 1, top_pair as int, top_pair as int);
            }
            top_present(cards, k0 - 1, top_pair, top_pair)
        } else {
            0
        };
        let k2 = if k1 > 0 {
            proof {
                lemma_top_present_props(s, k1 as int - 1, top_pair as int, top_pair as int);
            }
            top_present(cards, k1 - 1, top_pair, top_pair)
        } else {
            0
        };
        return EvaluatedHand {
            hand_rank: HandRank::Pair,
            primary_values: rank_vec1(top_pair),
            kickers: kicker_vec(k0, k1, k2),
        };
    }

    let ev = EvaluatedHand {
        hand_rank: HandRank::HighCard,
        primary_values: desc_rank_list(cards),
        kickers: Vec::new(),
    };
    proof {
        assert(ranks_of(ev.kickers@) =~= Seq::<int>::empty());
    }
    ev
}

// ---------------------------------------------------------------------------
// Permutation invariance: the evaluation depends only on which cards are
// in the hand, never on their order.
// ---------------------------------------------------------------------------

/// `rank_count` as an instance of the generic predicate count.
proof fn lemma_rank_count_as_matching(s: Seq<Card>, p: spec_fn(Card) -> bool, r: int)
    requires
        forall|x: Card| #[trigger] p(x) <==> (!x.is_placeholder && rank_ord(x.rank) == r),
    ensures
        count_matching(s, p) == rank_count(s, r),
    decreases s.len(),
{
    if s.len() > 0 {
        lemma_rank_count_as_matching(s.drop_last(), p, r);
    }
}

/// `suit_count` as an instance of the generic predicate count.
proof fn lemma_suit_count_as_matching(s: Seq<Card>, p: spec_fn(Card) -> bool, su: Suit)
    requires
        forall|x: Card| #[trigger] p(x) <==> (!x.is_placeholder && x.suit == su),
    ensures
        count_matching(s, p) == suit_count(s, su),
    decreases s.len(),
{
    if s.len() > 0 {
        lemma_suit_count_as_matching(s.drop_last(), p, su);
    }
}

/// `rank_suit_count` as an instance of the generic predicate count.
proof fn lemma_rank_suit_count_as_matching(
    s: Seq<Card>,
    p: spec_fn(Card) -> bool,
    r: int,
    su: Suit,
)
    requires
        forall|x: Card| #[trigger] p(x) <==> (!x.is_placeholder && rank_ord(x.rank) == r
            && x.suit == su),
    ensures
        count_matching(s, p) == rank_suit_count(s, r, su),
    decreases s.len(),
{
    if s.len() > 0 {
        lemma_rank_suit_count_as_matching(s.drop_last(), p, r, su);
    }
}

/// `real_count` as an instance of the generic predicate count.
proof fn lemma_real_count_as_matching(s: Seq<Card>, p: spec_fn(Card) -> bool)
    requires
        forall|x: Card| #[trigger] p(x) <==> !x.is_placeholder,
    ensures
        count_matching(s, p) == real_count(s),
    decreases s.len(),
{
    if s.len() > 0 {
        lemma_real_count_as_matching(s.drop_last(), p);
    }
}

/// Two hands that are permutations of one another have identical
/// histograms.
pub proof fn lemma_histograms_permutation(s1: Seq<Card>, s2: Seq<Card>)
    requires
        s1.to_multiset() == s2.to_multiset(),
    ensures
        forall|r: int| #[trigger] rank_count(s1, r) == rank_count(s2, r),
        forall|su: Suit| #[trigger] suit_count(s1, su) == suit_count(s2, su),
        forall|r: int, su: Suit| #[trigger] rank_suit_count(s1, r, su)
            == rank_suit_count(s2, r, su),
        real_count(s1) == real_count(s2),
{
    assert forall|r: int| #[trigger] rank_count(s1, r) == rank_count(s2, r) by {
        let p = |x: Card| !x.is_placeholder && rank_ord(x.rank) == r;
        lemma_rank_count_as_matching(s1, p, r);
        lemma_rank_count_as_matching(s2, p, r);
        lemma_count_permutation(s1, s2, p);
    }
    assert forall|su: Suit| #[trigger] suit_count(s1, su) == suit_count(s2, su) by {
        let p = |x: Card| !x.is_placeholder && x.suit == su;
        lemma_suit_count_as_matching(s1, p, su);
        lemma_suit_count_as_matching(s2, p, su);
        lemma_count_permutation(s1, s2, p);
    }
    assert forall|r: int, su: Suit| #[trigger] rank_suit_count(s1, r, su)
        == rank_suit_count(s2, r, su) by {
        let p = |x: Card| !x.is_placeholder && rank_ord(x.rank) == r && x.suit == su;
        lemma_rank_suit_count_as_matching(s1, p, r, su);
        lemma_rank_suit_count_as_matching(s2, p, r, su);
        lemma_count_permutation(s1, s2, p);
    }
    let p = |x: Card| !x.is_placeholder;
    lemma_real_count_as_matching(s1, p);
    lemma_real_count_as_matching(s2, p);
    lemma_count_permutation(s1, s2, p);
}

/// With equal rank histograms, straight detection agrees.
proof fn lemma_straight_high_from_eq(s1: Seq<Card>, s2: Seq<Card>, hi: int)
    requires
        forall|r: int| #[trigger] rank_count(s1, r) == rank_count(s2, r),
    ensures
        straight_high_from(s1, hi) == straight_high_from(s2, hi),
    decreases hi,
{
    if hi >= 6 {
        assert(straight_at(s1, hi) == straight_at(s2, hi)) by {
            if straight_at(s1, hi) {
                assert forall|k: int| 0 <= k < 5 implies #[trigger] rank_present(s2, hi - k) by {
                    assert(rank_present(s1, hi - k));
                }
            }
            if straight_at(s2, hi) {
                assert forall|k: int| 0 <= k < 5 implies #[trigger] rank_present(s1, hi - k) by {
                    assert(rank_present(s2, hi - k));
                }
            }
        }
        lemma_straight_high_from_eq(s1, s2, hi - 1);
    }
}

/// With equal rank histograms, rank extraction agrees.
proof fn lemma_top_with_count_from_eq(s1: Seq<Card>, s2: Seq<Card>, c: nat, hi: int)
    requires
        forall|r: int| #[trigger] rank_count(s1, r) == rank_count(s2, r),
    ensures
        top_with_count_from(s1, c, hi) == top_with_count_from(s2, c, hi),
    decreases hi,
{
    if hi >= 2 {
        lemma_top_with_count_from_eq(s1, s2, c, hi - 1);
    }
}

/// With equal rank histograms, kicker extraction agrees.
proof fn lemma_top_present_from_eq(s1: Seq<Card>, s2: Seq<Card>, hi: int, e1: int, e2: int)
    requires
        forall|r: int| #[trigger] rank_count(s1, r) == rank_count(s2, r),
    ensures
        top_present_from(s1, hi, e1, e2) == top_present_from(s2, hi, e1, e2),
    decreases hi,
{
    if hi >= 2 {
        lemma_top_present_from_eq(s1, s2, hi - 1, e1, e2);
    }
}

/// With equal rank histograms, the descending rank lists agree.
proof fn lemma_ranks_desc_from_eq(s1: Seq<Card>, s2: Seq<Card>, hi: int)
    requires
        forall|r: int| #[trigger] rank_count(s1, r) == rank_count(s2, r),
    ensures
        ranks_desc_from(s1, hi) == ranks_desc_from(s2, hi),
    decreases hi,
{
    if hi >= 2 {
        lemma_ranks_desc_from_eq(s1, s2, hi - 1);
        assert(Seq::new(rank_count(s1, hi), |i: int| hi)
            =~= Seq::new(rank_count(s2, hi), |i: int| hi));
    }
}

/// The suit-restricted rank histograms of two permuted hands agree.
proof fn lemma_suit_cards_counts_eq(s1: Seq<Card>, s2: Seq<Card>, su: Suit)
    requires
        forall|r: int, su0: Suit| #[trigger] rank_suit_count(s1, r, su0)
            == rank_suit_count(s2, r, su0),
    ensures
        forall|r: int| #[trigger] rank_count(suit_cards(s1, su), r)
            == rank_count(suit_cards(s2, su), r),
{
    assert forall|r: int| #[trigger] rank_count(suit_cards(s1, su), r)
        == rank_count(suit_cards(s2, su), r) by {
        lemma_suit_cards_rank_count(s1, su, r);
        lemma_suit_cards_rank_count(s2, su, r);
    }
}

/// Hand evaluation is invariant under permutation of the input card list:
/// two inputs holding the same cards in any order get the same category,
/// the same primary values and the same kickers.
pub proof fn lemma_evaluate_permutation_invariant(s1: Seq<Card>, s2: Seq<Card>)
    requires
        s1.to_multiset() == s2.to_multiset(),
    ensures
        spec_category(s1) == spec_category(s2),
        spec_primary(s1) == spec_primary(s2),
        spec_kickers(s1) == spec_kickers(s2),
{
    lemma_histograms_permutation(s1, s2);
    assert(spec_flush_suit(s1) == spec_flush_suit(s2));
    assert(spec_sf_high(s1) == spec_sf_high(s2)) by {
        match spec_flush_suit(s1) {
            Some(su) => {
                lemma_suit_cards_counts_eq(s1, s2, su);
                lemma_straight_high_from_eq(suit_cards(s1, su), suit_cards(s2, su), 14);
            },
            None => {},
        }
    }
    lemma_top_with_count_from_eq(s1, s2, 4, 14);
    lemma_top_with_count_from_eq(s1, s2, 3, 14);
    lemma_top_with_count_from_eq(s1, s2, 2, 14);
    assert(trip_rank(s1) == trip_rank(s2));
    lemma_top_with_count_from_eq(s1, s2, 3, trip_rank(s1) - 1);
    assert(top_pair_rank(s1) == top_pair_rank(s2));
    lemma_top_with_count_from_eq(s1, s2, 2, top_pair_rank(s1) - 1);
    lemma_straight_high_from_eq(s1, s2, 14);
    lemma_top_present_from_eq(s1, s2, 14, quad_rank(s1), quad_rank(s1));
    lemma_top_present_from_eq(s1, s2, 14, trip_rank(s1), trip_rank(s1));
    let tk0 = top_present_from(s1, 14, trip_rank(s1), trip_rank(s1));
    lemma_top_present_from_eq(s1, s2, tk0 - 1, trip_rank(s1), trip_rank(s1));
    lemma_top_present_from_eq(s1, s2, 14, top_pair_rank(s1), second_pair_rank(s1));
    lemma_top_present_from_eq(s1, s2, 14, top_pair_rank(s1), top_pair_rank(s1));
    let pk0 = top_present_from(s1, 14, top_pair_rank(s1), top_pair_rank(s1));
    lemma_top_present_from_eq(s1, s2, pk0 - 1, top_pair_rank(s1), top_pair_rank(s1));
    let pk1 = top_present_from(s1, pk0 - 1, top_pair_rank(s1), top_pair_rank(s1));
    lemma_top_present_from_eq(s1, s2, pk1 - 1, top_pair_rank(s1), top_pair_rank(s1));
    assert(spec_primary(s1) == spec_primary(s2)) by {
        match spec_flush_suit(s1) {
            Some(su) => {
                lemma_suit_cards_counts_eq(s1, s2, su);
                lemma_ranks_desc_from_eq(suit_cards(s1, su), suit_cards(s2, su), 14);
            },
            None => {},
        }
        lemma_ranks_desc_from_eq(s1, s2, 14);
    }
}

} // verus!
