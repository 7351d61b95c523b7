//! The capture rule of a turn: a dropped card takes one table card of the
//! same value, or else two, or else three table cards whose values add up to
//! it; among combinations of one size the first in index order is taken.

use vstd::prelude::*;
use vstd::multiset::Multiset;
use itertools::Itertools;
use crate::card::{Card, card_value};

verus! {

/// `c` lists `k` strictly increasing positions below `n`.
pub open spec fn is_combination(c: Seq<usize>, n: int, k: int) -> bool {
    &&& c.len() == k
    &&& forall|i: int| 0 <= i < c.len() ==> #[trigger] c[i] < n
    &&& forall|i: int, j: int| 0 <= i < j < c.len() ==> c[i] < c[j]
}

/// Lexicographic order on position lists of equal length.
pub open spec fn lex_lt(a: Seq<usize>, b: Seq<usize>) -> bool
    decreases a.len(),
{
    if a.len() == 0 || b.len() == 0 {
        false
    } else {
        a[0] < b[0] || (a[0] == b[0] && lex_lt(a.drop_first(), b.drop_first()))
    }
}

/// The sum of the values of the table cards at positions `c`.
pub open spec fn positions_sum(t: Seq<Card>, c: Seq<usize>) -> int
    decreases c.len(),
{
    if c.len() == 0 {
        0
    } else {
        positions_sum(t, c.drop_last()) + card_value(t[c.last() as int])
    }
}

/// `c` names `k` distinct table cards whose values add up to `target`.
pub open spec fn is_capture(t: Seq<Card>, target: int, c: Seq<usize>, k: int) -> bool {
    is_combination(c, t.len() as int, k) && positions_sum(t, c) == target
}

/// `c` is the first capture of size `k` in lexicographic order.
pub open spec fn is_first_capture(t: Seq<Card>, target: int, c: Seq<usize>, k: int) -> bool {
    &&& is_capture(t, target, c, k)
    &&& forall|d: Seq<usize>| is_capture(t, target, d, k) ==> d == c || lex_lt(c, d)
}

/// Strict lexicographic order never holds both ways.
pub proof fn lemma_lex_lt_asymmetric(a: Seq<usize>, b: Seq<usize>)
    ensures
        !(lex_lt(a, b) && lex_lt(b, a)),
    decreases a.len(),
{
    if a.len() > 0 && b.len() > 0 {
        lemma_lex_lt_asymmetric(a.drop_first(), b.drop_first());
    }
}

/// There is at most one first capture of a given size.
pub proof fn lemma_first_capture_unique(t: Seq<Card>, target: int, c: Seq<usize>, d: Seq<usize>, k: int)
    requires
        is_first_capture(t, target, c, k),
        is_first_capture(t, target, d, k),
    ensures
        c == d,
{
    lemma_lex_lt_asymmetric(c, d);
}

/// All combinations of `k` positions below `n`, as itertools' `combinations`
/// enumerates them on `0..n`: its source shows that it yields every
/// `k`-combination exactly once, each in increasing order, and that it
/// advances them "in lexicographic order by increasing sequence".
#[verifier::external_body]
fn index_combinations(n: usize, k: usize) -> (res: Vec<Vec<usize>>)
    ensures
        forall|i: int| 0 <= i < res@.len() ==> is_combination(#[trigger] res@[i]@, n as int, k as int),
        forall|i: int, j: int| 0 <= i < j < res@.len() ==> lex_lt(res@[i]@, res@[j]@),
        forall|c: Seq<usize>| is_combination(c, n as int, k as int) ==> exists|i: int| 0 <= i < res@.len() && #[trigger] res@[i]@ == c,
{
    (0..n).combinations(k).collect()
}

/// The sum of the values of the table cards at the positions of `combo`,
/// or `None` when it does not fit in a `usize`.
fn combination_sum(table: &[Card], combo: &Vec<usize>) -> (sum: Option<usize>)
    requires
        forall|i: int| 0 <= i < combo@.len() ==> #[trigger] combo@[i] < table@.len(),
    ensures
        sum matches Some(s) ==> s == positions_sum(table@, combo@),
        sum is None ==> positions_sum(table@, combo@) > usize::MAX,
{
    let mut sum: Option<usize> = Some(0);
    let mut m: usize = 0;
    while m < combo.len()
        invariant
            forall|i: int| 0 <= i < combo@.len() ==> #[trigger] combo@[i] < table@.len(),
            m <= combo@.len(),
            sum matches Some(s) ==> s == positions_sum(table@, combo@.take(m as int)),
            sum is None ==> positions_sum(table@, combo@.take(m as int)) > usize::MAX,
        decreases combo@.len() - m,
    {
        assert(combo@.take(m + 1).drop_last() =~= combo@.take(m as int));
        let value = table[combo[m]].rank.value();
        sum = match sum {
            Some(s) => s.checked_add(value),
            None => None,
        };
        m = m + 1;
    }
    assert(combo@.take(m as int) =~= combo@);
    sum
}

/// Looks for `combo_size` table cards whose values add up to `target_value`,
/// trying combinations in lexicographic order of their positions. On success
/// returns the positions of the first such combination, padded with zeros to
/// three slots, and the number of slots used. (A match of more than three
/// cards does not fit the three slots.)
pub fn find_combination_match(target_value: usize, table: &[Card], combo_size: usize) -> (r: Option<([usize; 3], usize)>)
    requires
        combo_size <= 3 || forall|c: Seq<usize>| !is_capture(table@, target_value as int, c, combo_size as int),
    ensures
        match r {
            Some((idx, len)) => {
                &&& len == combo_size
                &&& is_first_capture(table@, target_value as int, idx@.take(len as int), len as int)
                &&& forall|i: int| len <= i < 3 ==> idx@[i] == 0
            },
            None => forall|c: Seq<usize>| !is_capture(table@, target_value as int, c, combo_size as int),
        },
{
    let combos = index_combinations(table.len(), combo_size);
    let mut p: usize = 0;
    while p < combos.len()
        invariant
            combo_size <= 3 || forall|c: Seq<usize>| !is_capture(table@, target_value as int, c, combo_size as int),
            p <= combos@.len(),
            forall|i: int| 0 <= i < combos@.len() ==> is_combination(#[trigger] combos@[i]@, table@.len() as int, combo_size as int),
            forall|i: int, j: int| 0 <= i < j < combos@.len() ==> lex_lt(combos@[i]@, combos@[j]@),
            forall|c: Seq<usize>| is_combination(c, table@.len() as int, combo_size as int) ==> exists|i: int| 0 <= i < combos@.len() && #[trigger] combos@[i]@ == c,
            forall|q: int| 0 <= q < p ==> positions_sum(table@, #[trigger] combos@[q]@) != target_value,
        decreases combos@.len() - p,
    {
        let combo = &combos[p];
        assert(is_combination(combos@[p as int]@, table@.len() as int, combo_size as int));
        let sum = combination_sum(table, combo);
        if sum == Some(target_value) {
            assert(is_capture(table@, target_value as int, combo@, combo_size as int));
            let a0 = if combo.len() > 0 { combo[0] } else { 0 };
            let a1 = if combo.len() > 1 { combo[1] } else { 0 };
            let a2 = if combo.len() > 2 { combo[2] } else { 0 };
            let idx = [a0, a1, a2];
            proof {
                assert(idx@.take(combo_size as int) =~= combo@);
                assert forall|d: Seq<usize>| is_capture(table@, target_value as int, d, combo_size as int)
                    implies d == combo@ || lex_lt(combo@, d) by {
                    let i = choose|i: int| 0 <= i < combos@.len() && #[trigger] combos@[i]@ == d;
                    if i < p {
                    } else if i > p {
                    }
                }
            }
            return Some((idx, combo_size));
        }
        p = p + 1;
    }
    proof {
        assert forall|c: Seq<usize>| !is_capture(table@, target_value as int, c, combo_size as int) by {
            if is_combination(c, table@.len() as int, combo_size as int) {
                let i = choose|i: int| 0 <= i < combos@.len() && #[trigger] combos@[i]@ == c;
            }
        }
    }
    None
}


/// Some `k` table cards add up to `target`.
pub open spec fn has_capture(t: Seq<Card>, target: int, k: int) -> bool {
    exists|c: Seq<usize>| is_capture(t, target, c, k)
}

/// The first capture of size `k`, where there is one.
pub open spec fn first_capture(t: Seq<Card>, target: int, k: int) -> Seq<usize> {
    choose|c: Seq<usize>| is_first_capture(t, target, c, k)
}

/// The positions that a card of value `target` captures from table `t`:
/// the first single card of that value, or else the first pair, or else the
/// first triple adding up to it; `None` when there is none of these.
pub open spec fn capture_taken(t: Seq<Card>, target: int) -> Option<Seq<usize>> {
    if has_capture(t, target, 1) {
        Some(first_capture(t, target, 1))
    } else if has_capture(t, target, 2) {
        Some(first_capture(t, target, 2))
    } else if has_capture(t, target, 3) {
        Some(first_capture(t, target, 3))
    } else {
        None
    }
}

/// The table left after taking the cards at the increasing positions `c`.
pub open spec fn without_positions(s: Seq<Card>, c: Seq<usize>) -> Seq<Card>
    decreases c.len(),
{
    if c.len() == 0 {
        s
    } else {
        without_positions(s.remove(c.last() as int), c.drop_last())
    }
}

/// The cards that join the capturer's pile, in the order they are added:
/// the captured cards then the dropped card for one or two captured cards,
/// the dropped card then the three captured cards for a triple.
pub open spec fn won_cards(t: Seq<Card>, c: Seq<usize>, dropped: Card) -> Seq<Card> {
    if c.len() == 3 {
        seq![dropped, t[c[0] as int], t[c[1] as int], t[c[2] as int]]
    } else if c.len() == 2 {
        seq![t[c[0] as int], t[c[1] as int], dropped]
    } else {
        seq![t[c[0] as int], dropped]
    }
}

/// What a turn did with the dropped card: nothing matched, or it captured
/// one, two or three table cards (listed in table order).
#[derive(Clone, Copy, PartialEq, Eq, Debug, Structural)]
pub enum TurnOutcome {
    NoMatch,
    Direct(Card),
    Pair(Card, Card),
    Triple(Card, Card, Card),
}

/// The outcome that reports a capture of the positions `c` of table `t`.
pub open spec fn capture_outcome(t: Seq<Card>, c: Seq<usize>) -> TurnOutcome {
    if c.len() == 3 {
        TurnOutcome::Triple(t[c[0] as int], t[c[1] as int], t[c[2] as int])
    } else if c.len() == 2 {
        TurnOutcome::Pair(t[c[0] as int], t[c[1] as int])
    } else {
        TurnOutcome::Direct(t[c[0] as int])
    }
}

/// The multiset of all cards in two piles.
pub open spec fn pile_cards(a: Seq<Card>, b: Seq<Card>) -> Multiset<Card> {
    a.to_multiset().add(b.to_multiset())
}

proof fn lemma_pile_remove(s: Seq<Card>, w: Seq<Card>, i: int)
    requires
        0 <= i < s.len(),
    ensures
        pile_cards(s.remove(i), w) == pile_cards(s, w).remove(s[i]),
        pile_cards(s, w).count(s[i]) > 0,
{
    broadcast use vstd::seq_lib::group_to_multiset_ensures;
    broadcast use vstd::multiset::group_multiset_axioms;

    assert(s.to_multiset().count(s[i]) > 0);
    assert(pile_cards(s.remove(i), w) =~= pile_cards(s, w).remove(s[i]));
}

proof fn lemma_pile_push_won(s: Seq<Card>, w: Seq<Card>, x: Card)
    ensures
        pile_cards(s, w.push(x)) == pile_cards(s, w).insert(x),
{
    broadcast use vstd::seq_lib::group_to_multiset_ensures;
    broadcast use vstd::multiset::group_multiset_axioms;

    assert(pile_cards(s, w.push(x)) =~= pile_cards(s, w).insert(x));
}

proof fn lemma_pile_push_table(s: Seq<Card>, w: Seq<Card>, x: Card)
    ensures
        pile_cards(s.push(x), w) == pile_cards(s, w).insert(x),
{
    broadcast use vstd::seq_lib::group_to_multiset_ensures;
    broadcast use vstd::multiset::group_multiset_axioms;

    assert(pile_cards(s.push(x), w) =~= pile_cards(s, w).insert(x));
}

proof fn lemma_remove_insert(m: Multiset<Card>, x: Card)
    requires
        m.count(x) > 0,
    ensures
        m.remove(x).insert(x) == m,
{
    broadcast use vstd::multiset::group_multiset_axioms;

    assert(m.remove(x).insert(x) =~= m);
}

/// Captures the single table card at position `idx[0]`.
fn take_one(dropped: Card, table: &mut Vec<Card>, won_pile: &mut Vec<Card>, idx: [usize; 3]) -> (r: TurnOutcome)
    requires
        is_combination(idx@.take(1), old(table)@.len() as int, 1),
    ensures
        final(table)@ == without_positions(old(table)@, idx@.take(1)),
        final(won_pile)@ == old(won_pile)@ + won_cards(old(table)@, idx@.take(1), dropped),
        r == capture_outcome(old(table)@, idx@.take(1)),
        pile_cards(final(table)@, final(won_pile)@) == pile_cards(old(table)@, old(won_pile)@).insert(dropped),
{
    let ghost t = table@;
    let ghost w = won_pile@;
    let ghost c = idx@.take(1);
    assert(c[0] == idx@[0]);
    proof {
        assert(c.drop_last().len() == 0);
        assert(without_positions(t, c) == without_positions(t.remove(c[0] as int), c.drop_last()));
        lemma_pile_remove(t, w, c[0] as int);
        let x = t[c[0] as int];
        lemma_pile_push_won(t.remove(c[0] as int), w, x);
        lemma_pile_push_won(t.remove(c[0] as int), w.push(x), dropped);
        lemma_remove_insert(pile_cards(t, w), x);
    }
    let captured = table.remove(idx[0]);
    won_pile.push(captured);
    won_pile.push(dropped);
    assert(won_pile@ =~= w + won_cards(t, c, dropped));
    TurnOutcome::Direct(captured)
}

/// Captures the two table cards at positions `idx[0] < idx[1]`.
fn take_two(dropped: Card, table: &mut Vec<Card>, won_pile: &mut Vec<Card>, idx: [usize; 3]) -> (r: TurnOutcome)
    requires
        is_combination(idx@.take(2), old(table)@.len() as int, 2),
    ensures
        final(table)@ == without_positions(old(table)@, idx@.take(2)),
        final(won_pile)@ == old(won_pile)@ + won_cards(old(table)@, idx@.take(2), dropped),
        r == capture_outcome(old(table)@, idx@.take(2)),
        pile_cards(final(table)@, final(won_pile)@) == pile_cards(old(table)@, old(won_pile)@).insert(dropped),
{
    let ghost t = table@;
    let ghost w = won_pile@;
    let ghost c = idx@.take(2);
    assert(c[0] == idx@[0] && c[1] == idx@[1]);
    proof {
        let t1 = t.remove(c[1] as int);
        let t0 = t1.remove(c[0] as int);
        assert(c.drop_last().last() == c[0]);
        assert(c.drop_last().drop_last().len() == 0);
        assert(without_positions(t, c) == without_positions(t1, c.drop_last()));
        assert(without_positions(t1, c.drop_last()) == without_positions(t0, c.drop_last().drop_last()));
        let x0 = t[c[0] as int];
        let x1 = t[c[1] as int];
        assert(t1[c[0] as int] == x0);
        lemma_pile_remove(t, w, c[1] as int);
        lemma_pile_remove(t1, w, c[0] as int);
        lemma_pile_push_won(t0, w, x0);
        lemma_pile_push_won(t0, w.push(x0), x1);
        lemma_pile_push_won(t0, w.push(x0).push(x1), dropped);
        lemma_remove_insert(pile_cards(t1, w), x0);
        lemma_remove_insert(pile_cards(t, w), x1);
    }
    let card2 = table.remove(idx[1]);
    let card1 = table.remove(idx[0]);
    won_pile.push(card1);
    won_pile.push(card2);
    won_pile.push(dropped);
    assert(won_pile@ =~= w + won_cards(t, c, dropped));
    TurnOutcome::Pair(card1, card2)
}

/// Captures the three table cards at positions `idx[0] < idx[1] < idx[2]`.
fn take_three(dropped: Card, table: &mut Vec<Card>, won_pile: &mut Vec<Card>, idx: [usize; 3]) -> (r: TurnOutcome)
    requires
        is_combination(idx@.take(3), old(table)@.len() as int, 3),
    ensures
        final(table)@ == without_positions(old(table)@, idx@.take(3)),
        final(won_pile)@ == old(won_pile)@ + won_cards(old(table)@, idx@.take(3), dropped),
        r == capture_outcome(old(table)@, idx@.take(3)),
        pile_cards(final(table)@, final(won_pile)@) == pile_cards(old(table)@, old(won_pile)@).insert(dropped),
{
    let ghost t = table@;
    let ghost w = won_pile@;
    let ghost c = idx@.take(3);
    assert(c[0] == idx@[0] && c[1] == idx@[1] && c[2] == idx@[2]);
    proof {
        let t2 = t.remove(c[2] as int);
        let t1 = t2.remove(c[1] as int);
        let t0 = t1.remove(c[0] as int);
        let c2 = c.drop_last();
        let c1 = c2.drop_last();
        assert(c2.last() == c[1]);
        assert(c1.last() == c[0]);
        assert(c1.drop_last().len() == 0);
        assert(without_positions(t, c) == without_positions(t2, c2));
        assert(without_positions(t2, c2) == without_positions(t1, c1));
        assert(without_positions(t1, c1) == without_positions(t0, c1.drop_last()));
        let x0 = t[c[0] as int];
        let x1 = t[c[1] as int];
        let x2 = t[c[2] as int];
        assert(t2[c[1] as int] == x1);
        assert(t1[c[0] as int] == x0);
        lemma_pile_remove(t, w, c[2] as int);
        lemma_pile_remove(t2, w, c[1] as int);
        lemma_pile_remove(t1, w, c[0] as int);
        lemma_pile_push_won(t0, w, dropped);
        lemma_pile_push_won(t0, w.push(dropped), x0);
        lemma_pile_push_won(t0, w.push(dropped).push(x0), x1);
        lemma_pile_push_won(t0, w.push(dropped).push(x0).push(x1), x2);
        lemma_remove_insert(pile_cards(t1, w), x0);
        lemma_remove_insert(pile_cards(t2, w), x1);
        lemma_remove_insert(pile_cards(t, w), x2);
        assert(pile_cards(t0, w.push(dropped).push(x0).push(x1).push(x2)) =~= pile_cards(t, w).insert(dropped));
    }
    let captured3 = table.remove(idx[2]);
    let captured2 = table.remove(idx[1]);
    let captured1 = table.remove(idx[0]);
    won_pile.push(dropped);
    won_pile.push(captured1);
    won_pile.push(captured2);
    won_pile.push(captured3);
    assert(won_pile@ =~= w + won_cards(t, c, dropped));
    TurnOutcome::Triple(captured1, captured2, captured3)
}

/// The effect of dropping `dropped` on table `t` with won pile `w`, giving
/// table `t2`, won pile `w2` and outcome `r`: if it captures (see
/// `capture_taken`), the captured cards leave the table and join the pile
/// together with the dropped card; otherwise the dropped card joins the table.
pub open spec fn turn_effect(
    t: Seq<Card>,
    w: Seq<Card>,
    dropped: Card,
    t2: Seq<Card>,
    w2: Seq<Card>,
    r: TurnOutcome,
) -> bool {
    match capture_taken(t, card_value(dropped)) {
        None => {
            &&& t2 == t.push(dropped)
            &&& w2 == w
            &&& r == TurnOutcome::NoMatch
        },
        Some(c) => {
            &&& t2 == without_positions(t, c)
            &&& w2 == w + won_cards(t, c, dropped)
            &&& r == capture_outcome(t, c)
        },
    }
}

/// Plays `dropped` onto `table`: if it captures (see `capture_taken`), the
/// captured cards leave the table and join `won_pile` together with the
/// dropped card; otherwise the dropped card stays on the table.
pub fn process_turn(dropped: Card, table: &mut Vec<Card>, won_pile: &mut Vec<Card>) -> (r: TurnOutcome)
    ensures
        turn_effect(old(table)@, old(won_pile)@, dropped, final(table)@, final(won_pile)@, r),
        capture_taken(old(table)@, card_value(dropped)) matches Some(c) ==> {
            &&& 1 <= c.len() <= 3
            &&& is_first_capture(old(table)@, card_value(dropped), c, c.len() as int)
            &&& forall|k: int| 1 <= k < c.len() ==> !has_capture(old(table)@, card_value(dropped), k)
        },
        pile_cards(final(table)@, final(won_pile)@) == pile_cards(old(table)@, old(won_pile)@).insert(dropped),
{
    let ghost t = table@;
    let ghost v = card_value(dropped);
    let target = dropped.rank.value();
    if let Some((idx, len)) = find_combination_match(target, table.as_slice(), 1) {
        proof {
            assert(is_capture(t, v, idx@.take(1), 1));
            lemma_first_capture_unique(t, v, idx@.take(1), first_capture(t, v, 1), 1);
        }
        return take_one(dropped, table, won_pile, idx);
    }
    if let Some((idx, len)) = find_combination_match(target, table.as_slice(), 2) {
        proof {
            assert(is_capture(t, v, idx@.take(2), 2));
            lemma_first_capture_unique(t, v, idx@.take(2), first_capture(t, v, 2), 2);
        }
        return take_two(dropped, table, won_pile, idx);
    }
    if let Some((idx, len)) = find_combination_match(target, table.as_slice(), 3) {
        proof {
            assert(is_capture(t, v, idx@.take(3), 3));
            lemma_first_capture_unique(t, v, idx@.take(3), first_capture(t, v, 3), 3);
        }
        return take_three(dropped, table, won_pile, idx);
    }
    let ghost w = won_pile@;
    table.push(dropped);
    proof {
        lemma_pile_push_table(t, w, dropped);
    }
    TurnOutcome::NoMatch
}

} // verus!
