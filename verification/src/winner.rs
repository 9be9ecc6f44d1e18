//! Winner resolution: compares two players' best hands over the shared
//! community cards by `(category, primary values)` lexicographically.
//! Kickers are deliberately excluded from the comparison, so two hands
//! equal in category and primary values tie even with different kickers.

use vstd::prelude::*;
use crate::cards::{Card, Rank, rank_ord, rank_value};
use crate::hand::{evaluate_hand, hand_rank_ord, hand_rank_value, ranks_of, spec_category,
    spec_primary};

verus! {

/// Lexicographic comparison of two rank-value lists; a strict prefix
/// compares below the longer list. Returns -1, 0 or 1.
pub open spec fn spec_cmp_ranks(a: Seq<int>, b: Seq<int>) -> int
    decreases a.len(),
{
    if a.len() == 0 && b.len() == 0 {
        0
    } else if a.len() == 0 {
        -1
    } else if b.len() == 0 {
        1
    } else if a[0] > b[0] {
        1
    } else if a[0] < b[0] {
        -1
    } else {
        spec_cmp_ranks(a.drop_first(), b.drop_first())
    }
}

/// Full hand comparison: category first, then the primary values; kickers
/// never take part. Returns -1, 0 or 1.
pub open spec fn spec_cmp_score(s1: Seq<Card>, s2: Seq<Card>) -> int {
    if hand_rank_ord(spec_category(s1)) > hand_rank_ord(spec_category(s2)) {
        1
    } else if hand_rank_ord(spec_category(s1)) < hand_rank_ord(spec_category(s2)) {
        -1
    } else {
        spec_cmp_ranks(spec_primary(s1), spec_primary(s2))
    }
}

/// The code `determine_winner` reports: 0 when the first hand wins, 1 when
/// the second does, -1 on a tie.
pub open spec fn spec_winner_code(s1: Seq<Card>, s2: Seq<Card>) -> int {
    if spec_cmp_score(s1, s2) > 0 {
        0
    } else if spec_cmp_score(s1, s2) < 0 {
        1
    } else {
        -1
    }
}

/// Lexicographic comparison of two rank lists.
fn cmp_rank_lists(a: &Vec<Rank>, b: &Vec<Rank>) -> (c: i8)
    ensures
        c as int == spec_cmp_ranks(ranks_of(a@), ranks_of(b@)),
{
    let ghost ga = ranks_of(a@);
    let ghost gb = ranks_of(b@);
    proof {
        assert(ga.skip(0) =~= ga);
        assert(gb.skip(0) =~= gb);
    }
    let mut i: usize = 0;
    while i < a.len() && i < b.len()
        invariant
            ga == ranks_of(a@),
            gb == ranks_of(b@),
            i <= ga.len(),
            i <= gb.len(),
            ga.len() == a@.len(),
            gb.len() == b@.len(),
            spec_cmp_ranks(ga, gb) == spec_cmp_ranks(ga.skip(i as int), gb.skip(i as int)),
        decreases ga.len() - i,
    {
        let va = rank_value(a[i]);
        let vb = rank_value(b[i]);
        proof {
            assert(ga.skip(i as int)[0] == ga[i as int]);
            assert(gb.skip(i as int)[0] == gb[i as int]);
        }
        if va > vb {
            return 1;
        }
        if va < vb {
            return -1;
        }
        proof {
            assert(ga.skip(i as int).drop_first() =~= ga.skip(i as int + 1));
            assert(gb.skip(i as int).drop_first() =~= gb.skip(i as int + 1));
        }
        i = i + 1;
    }
    if a.len() == b.len() {
        0
    } else if a.len() < b.len() {
        -1
    } else {
        1
    }
}

/// Evaluates both players' seven-card hands (two hole cards plus all five
/// community cards) and compares them. Returns 0 when the first player's
/// hand is strictly better, 1 when the second player's is, and -1 on a tie.
pub fn determine_winner(p1_hole: &[Card; 2], p2_hole: &[Card; 2], community_cards: &[Card; 5])
    -> (w: i32)
    ensures
        w as int == spec_winner_code(p1_hole@ + community_cards@, p2_hole@ + community_cards@),
{
    let ghost s1 = p1_hole@ + community_cards@;
    let ghost s2 = p2_hole@ + community_cards@;
    let mut hand1: Vec<Card> = Vec::new();
    hand1.push(p1_hole[0]);
    hand1.push(p1_hole[1]);
    let mut hand2: Vec<Card> = Vec::new();
    hand2.push(p2_hole[0]);
    hand2.push(p2_hole[1]);
    let mut i: usize = 0;
    while i < 5
        invariant
            i <= 5,
            hand1@.len() == 2 + i,
            hand2@.len() == 2 + i,
            hand1@ == (p1_hole@ + community_cards@).take(2 + i as int),
            hand2@ == (p2_hole@ + community_cards@).take(2 + i as int),
        decreases 5 - i,
    {
        let c = community_cards[i];
        let ghost pre1 = hand1@;
        let ghost pre2 = hand2@;
        hand1.push(c);
        hand2.push(c);
        proof {
            assert(hand1@ =~= (p1_hole@ + community_cards@).take(2 + i as int + 1));
            assert(hand2@ =~= (p2_hole@ + community_cards@).take(2 + i as int + 1));
        }
        i = i + 1;
    }
    proof {
        assert(hand1@ =~= s1);
        assert(hand2@ =~= s2);
    }

    let eval1 = evaluate_hand(hand1.as_slice());
    let eval2 = evaluate_hand(hand2.as_slice());

    let v1 = hand_rank_value(eval1.hand_rank);
    let v2 = hand_rank_value(eval2.hand_rank);
    if v1 > v2 {
        0
    } else if v1 < v2 {
        1
    } else {
        let c = cmp_rank_lists(&eval1.primary_values, &eval2.primary_values);
        if c > 0 {
            0
        } else if c < 0 {
            1
        } else {
            -1
        }
    }
}

// ---------------------------------------------------------------------------
// Laws of the comparison.
// ---------------------------------------------------------------------------

/// A hand of a strictly higher category outranks any hand of a lower one,
/// whatever the primary values of either.
pub proof fn lemma_higher_category_outranks(s1: Seq<Card>, s2: Seq<Card>)
    requires
        hand_rank_ord(spec_category(s1)) > hand_rank_ord(spec_category(s2)),
    ensures
        spec_cmp_score(s1, s2) == 1,
        spec_winner_code(s1, s2) == 0,
{
}

/// Lexicographic comparison is antisymmetric.
proof fn lemma_cmp_ranks_antisym(a: Seq<int>, b: Seq<int>)
    ensures
        spec_cmp_ranks(a, b) == -spec_cmp_ranks(b, a),
    decreases a.len(),
{
    if a.len() > 0 && b.len() > 0 && a[0] == b[0] {
        lemma_cmp_ranks_antisym(a.drop_first(), b.drop_first());
    }
}

/// Winner determination is antisymmetric under swapping the two players'
/// hole cards: if one side wins, the swapped match is won by the other
/// side, and a tie stays a tie.
pub proof fn lemma_determine_winner_antisymmetric(s1: Seq<Card>, s2: Seq<Card>)
    ensures
        spec_cmp_score(s1, s2) == -spec_cmp_score(s2, s1),
        spec_winner_code(s1, s2) == 0 <==> spec_winner_code(s2, s1) == 1,
        spec_winner_code(s1, s2) == -1 <==> spec_winner_code(s2, s1) == -1,
{
    lemma_cmp_ranks_antisym(spec_primary(s1), spec_primary(s2));
}

} // verus!
