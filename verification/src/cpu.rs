//! The CPU opponent: which card it drops, and whether it keeps the cut card.

use vstd::prelude::*;
use crate::card::{Card, Rank, Suit, card_value};
use crate::capture::{
    capture_taken, first_capture, has_capture, is_capture, is_first_capture, lemma_first_capture_unique, lex_lt,
    positions_sum,
};

verus! {

/// A combination of table positions that a hand card can capture.
#[derive(Clone, Copy, PartialEq, Eq, Debug, Structural)]
pub enum CaptureOption {
    /// One table card of the same value.
    Direct(usize),
    /// Two table positions (first < second) whose values add up to the card's.
    Pair(usize, usize),
    /// Three table positions (increasing) whose values add up to the card's.
    Triplet(usize, usize, usize),
}

/// The value of the table card at position `i`.
pub open spec fn value_at(t: Seq<Card>, i: int) -> int {
    card_value(t[i])
}

/// Direct captures of value `v` among the first `n` table positions, in order.
pub open spec fn direct_options(t: Seq<Card>, v: int, n: int) -> Seq<CaptureOption>
    decreases n,
{
    if n <= 0 {
        seq![]
    } else {
        direct_options(t, v, n - 1) + if value_at(t, n - 1) == v {
            seq![CaptureOption::Direct((n - 1) as usize)]
        } else {
            seq![]
        }
    }
}

/// Pairs `(i, j)` with `i < j < j_end` adding up to `v`, in order of `j`.
pub open spec fn pair_row(t: Seq<Card>, v: int, i: int, j_end: int) -> Seq<CaptureOption>
    decreases j_end - i,
{
    if j_end <= i + 1 {
        seq![]
    } else {
        pair_row(t, v, i, j_end - 1) + if value_at(t, i) + value_at(t, j_end - 1) == v {
            seq![CaptureOption::Pair(i as usize, (j_end - 1) as usize)]
        } else {
            seq![]
        }
    }
}

/// Pairs adding up to `v` whose first position is below `i_end`, in lexicographic order.
pub open spec fn pair_options(t: Seq<Card>, v: int, i_end: int) -> Seq<CaptureOption>
    decreases i_end,
{
    if i_end <= 0 {
        seq![]
    } else {
        pair_options(t, v, i_end - 1) + pair_row(t, v, i_end - 1, t.len() as int)
    }
}

/// Triplets `(i, j, k)` with `j < k < k_end` adding up to `v`, in order of `k`.
pub open spec fn triplet_cell(t: Seq<Card>, v: int, i: int, j: int, k_end: int) -> Seq<CaptureOption>
    decreases k_end - j,
{
    if k_end <= j + 1 {
        seq![]
    } else {
        triplet_cell(t, v, i, j, k_end - 1) + if value_at(t, i) + value_at(t, j) + value_at(t, k_end - 1) == v {
            seq![CaptureOption::Triplet(i as usize, j as usize, (k_end - 1) as usize)]
        } else {
            seq![]
        }
    }
}

/// Triplets with first position `i` and second position below `j_end`, in lexicographic order.
pub open spec fn triplet_row(t: Seq<Card>, v: int, i: int, j_end: int) -> Seq<CaptureOption>
    decreases j_end - i,
{
    if j_end <= i + 1 {
        seq![]
    } else {
        triplet_row(t, v, i, j_end - 1) + triplet_cell(t, v, i, j_end - 1, t.len() as int)
    }
}

/// Triplets adding up to `v` whose first position is below `i_end`, in lexicographic order.
pub open spec fn triplet_options(t: Seq<Card>, v: int, i_end: int) -> Seq<CaptureOption>
    decreases i_end,
{
    if i_end <= 0 {
        seq![]
    } else {
        triplet_options(t, v, i_end - 1) + triplet_row(t, v, i_end - 1, t.len() as int)
    }
}

/// Every capture a card of value `v` can make on table `t`: the direct
/// matches if there are any; otherwise all pairs then all triplets, each in
/// lexicographic order of positions.
pub open spec fn all_options(t: Seq<Card>, v: int) -> Seq<CaptureOption> {
    let direct = direct_options(t, v, t.len() as int);
    if direct.len() > 0 {
        direct
    } else {
        pair_options(t, v, t.len() as int) + triplet_options(t, v, t.len() as int)
    }
}

proof fn lemma_singleton_contains(x: CaptureOption, o: CaptureOption)
    ensures
        seq![x].contains(o) <==> x == o,
{
    if x == o {
        assert(seq![x][0] == o);
    }
}

proof fn lemma_direct_options_contains(t: Seq<Card>, v: int, n: int, o: CaptureOption)
    requires
        0 <= n <= t.len() <= usize::MAX,
    ensures
        direct_options(t, v, n).contains(o) <==> (o matches CaptureOption::Direct(i) && i < n && value_at(
            t,
            i as int,
        ) == v),
    decreases n,
{
    broadcast use vstd::seq_lib::lemma_seq_concat_contains_all_elements;
    broadcast use vstd::seq_lib::lemma_seq_empty_contains_nothing;

    if n > 0 {
        lemma_direct_options_contains(t, v, n - 1, o);
        lemma_singleton_contains(CaptureOption::Direct((n - 1) as usize), o);
    }
}

proof fn lemma_pair_row_contains(t: Seq<Card>, v: int, i: int, j_end: int, o: CaptureOption)
    requires
        0 <= i,
        j_end <= t.len() <= usize::MAX,
    ensures
        pair_row(t, v, i, j_end).contains(o) <==> (o matches CaptureOption::Pair(a, b) && a == i && i < b < j_end
            && value_at(t, a as int) + value_at(t, b as int) == v),
    decreases j_end - i,
{
    broadcast use vstd::seq_lib::lemma_seq_concat_contains_all_elements;
    broadcast use vstd::seq_lib::lemma_seq_empty_contains_nothing;

    if j_end > i + 1 {
        lemma_pair_row_contains(t, v, i, j_end - 1, o);
        lemma_singleton_contains(CaptureOption::Pair(i as usize, (j_end - 1) as usize), o);
    }
}

proof fn lemma_pair_options_contains(t: Seq<Card>, v: int, i_end: int, o: CaptureOption)
    requires
        0 <= i_end <= t.len() <= usize::MAX,
    ensures
        pair_options(t, v, i_end).contains(o) <==> (o matches CaptureOption::Pair(a, b) && a < i_end && a < b
            < t.len() && value_at(t, a as int) + value_at(t, b as int) == v),
    decreases i_end,
{
    broadcast use vstd::seq_lib::lemma_seq_concat_contains_all_elements;
    broadcast use vstd::seq_lib::lemma_seq_empty_contains_nothing;

    if i_end > 0 {
        lemma_pair_options_contains(t, v, i_end - 1, o);
        lemma_pair_row_contains(t, v, i_end - 1, t.len() as int, o);
    }
}

proof fn lemma_triplet_cell_contains(t: Seq<Card>, v: int, i: int, j: int, k_end: int, o: CaptureOption)
    requires
        0 <= i < j,
        k_end <= t.len() <= usize::MAX,
    ensures
        triplet_cell(t, v, i, j, k_end).contains(o) <==> (o matches CaptureOption::Triplet(a, b, c) && a == i
            && b == j && j < c < k_end && value_at(t, a as int) + value_at(t, b as int) + value_at(t, c as int)
            == v),
    decreases k_end - j,
{
    broadcast use vstd::seq_lib::lemma_seq_concat_contains_all_elements;
    broadcast use vstd::seq_lib::lemma_seq_empty_contains_nothing;

    if k_end > j + 1 {
        lemma_triplet_cell_contains(t, v, i, j, k_end - 1, o);
        lemma_singleton_contains(CaptureOption::Triplet(i as usize, j as usize, (k_end - 1) as usize), o);
    }
}

proof fn lemma_triplet_row_contains(t: Seq<Card>, v: int, i: int, j_end: int, o: CaptureOption)
    requires
        0 <= i,
        j_end <= t.len() <= usize::MAX,
    ensures
        triplet_row(t, v, i, j_end).contains(o) <==> (o matches CaptureOption::Triplet(a, b, c) && a == i && i
            < b < j_end && b < c < t.len() && value_at(t, a as int) + value_at(t, b as int) + value_at(
            t,
            c as int,
        ) == v),
    decreases j_end - i,
{
    broadcast use vstd::seq_lib::lemma_seq_concat_contains_all_elements;
    broadcast use vstd::seq_lib::lemma_seq_empty_contains_nothing;

    if j_end > i + 1 {
        lemma_triplet_row_contains(t, v, i, j_end - 1, o);
        lemma_triplet_cell_contains(t, v, i, j_end - 1, t.len() as int, o);
    }
}

proof fn lemma_triplet_options_contains(t: Seq<Card>, v: int, i_end: int, o: CaptureOption)
    requires
        0 <= i_end <= t.len() <= usize::MAX,
    ensures
        triplet_options(t, v, i_end).contains(o) <==> (o matches CaptureOption::Triplet(a, b, c) && a < i_end
            && a < b < c < t.len() && value_at(t, a as int) + value_at(t, b as int) + value_at(t, c as int)
            == v),
    decreases i_end,
{
    broadcast use vstd::seq_lib::lemma_seq_concat_contains_all_elements;
    broadcast use vstd::seq_lib::lemma_seq_empty_contains_nothing;

    if i_end > 0 {
        lemma_triplet_options_contains(t, v, i_end - 1, o);
        lemma_triplet_row_contains(t, v, i_end - 1, t.len() as int, o);
    }
}

/// The option names increasing positions of table `t` whose values add up to `v`.
pub open spec fn option_captures(t: Seq<Card>, v: int, o: CaptureOption) -> bool {
    match o {
        CaptureOption::Direct(i) => i < t.len() && value_at(t, i as int) == v,
        CaptureOption::Pair(i, j) => i < j < t.len() && value_at(t, i as int) + value_at(t, j as int) == v,
        CaptureOption::Triplet(i, j, k) => i < j < k < t.len() && value_at(t, i as int) + value_at(t, j as int)
            + value_at(t, k as int) == v,
    }
}

/// Some table card has value `v`.
pub open spec fn has_direct_match(t: Seq<Card>, v: int) -> bool {
    exists|i: int| 0 <= i < t.len() && value_at(t, i) == v
}

/// The options listed for a card of value `v` are exactly its captures: the
/// direct matches when the table holds a card of that value, otherwise every
/// pair and every triplet of table cards whose values add up to `v`.
pub proof fn options_are_the_captures(t: Seq<Card>, v: int, o: CaptureOption)
    requires
        t.len() <= usize::MAX,
    ensures
        all_options(t, v).contains(o) <==> (option_captures(t, v, o) && (o is Direct || !has_direct_match(t, v))),
{
    broadcast use vstd::seq_lib::lemma_seq_concat_contains_all_elements;

    let n = t.len() as int;
    let direct = direct_options(t, v, n);
    lemma_direct_options_contains(t, v, n, o);
    lemma_pair_options_contains(t, v, n, o);
    lemma_triplet_options_contains(t, v, n, o);
    if has_direct_match(t, v) {
        let i = choose|i: int| 0 <= i < t.len() && value_at(t, i) == v;
        lemma_direct_options_contains(t, v, n, CaptureOption::Direct(i as usize));
        assert(direct.len() > 0);
    } else if direct.len() > 0 {
        lemma_direct_options_contains(t, v, n, direct[0]);
        assert(direct.contains(direct[0]));
    }
}

/// Two tables whose cards have the same values, position by position.
pub open spec fn same_values(t: Seq<Card>, t2: Seq<Card>) -> bool {
    t.len() == t2.len() && forall|i: int| 0 <= i < t.len() ==> #[trigger] value_at(t, i) == value_at(t2, i)
}

proof fn lemma_direct_same(t: Seq<Card>, t2: Seq<Card>, v: int, n: int)
    requires
        same_values(t, t2),
        n <= t.len(),
    ensures
        direct_options(t, v, n) == direct_options(t2, v, n),
    decreases n,
{
    if n > 0 {
        lemma_direct_same(t, t2, v, n - 1);
        assert(value_at(t, n - 1) == value_at(t2, n - 1));
    }
}

proof fn lemma_pair_row_same(t: Seq<Card>, t2: Seq<Card>, v: int, i: int, j_end: int)
    requires
        same_values(t, t2),
        0 <= i,
        j_end <= t.len(),
    ensures
        pair_row(t, v, i, j_end) == pair_row(t2, v, i, j_end),
    decreases j_end - i,
{
    if j_end > i + 1 {
        lemma_pair_row_same(t, t2, v, i, j_end - 1);
        assert(value_at(t, i) == value_at(t2, i));
        assert(value_at(t, j_end - 1) == value_at(t2, j_end - 1));
    }
}

proof fn lemma_pair_options_same(t: Seq<Card>, t2: Seq<Card>, v: int, i_end: int)
    requires
        same_values(t, t2),
        i_end <= t.len(),
    ensures
        pair_options(t, v, i_end) == pair_options(t2, v, i_end),
    decreases i_end,
{
    if i_end > 0 {
        lemma_pair_options_same(t, t2, v, i_end - 1);
        lemma_pair_row_same(t, t2, v, i_end - 1, t.len() as int);
    }
}

proof fn lemma_triplet_cell_same(t: Seq<Card>, t2: Seq<Card>, v: int, i: int, j: int, k_end: int)
    requires
        same_values(t, t2),
        0 <= i < j,
        k_end <= t.len(),
    ensures
        triplet_cell(t, v, i, j, k_end) == triplet_cell(t2, v, i, j, k_end),
    decreases k_end - j,
{
    if k_end > j + 1 {
        lemma_triplet_cell_same(t, t2, v, i, j, k_end - 1);
        assert(value_at(t, i) == value_at(t2, i));
        assert(value_at(t, j) == value_at(t2, j));
        assert(value_at(t, k_end - 1) == value_at(t2, k_end - 1));
    }
}

proof fn lemma_triplet_row_same(t: Seq<Card>, t2: Seq<Card>, v: int, i: int, j_end: int)
    requires
        same_values(t, t2),
        0 <= i,
        j_end <= t.len(),
    ensures
        triplet_row(t, v, i, j_end) == triplet_row(t2, v, i, j_end),
    decreases j_end - i,
{
    if j_end > i + 1 {
        lemma_triplet_row_same(t, t2, v, i, j_end - 1);
        lemma_triplet_cell_same(t, t2, v, i, j_end - 1, t.len() as int);
    }
}

proof fn lemma_triplet_options_same(t: Seq<Card>, t2: Seq<Card>, v: int, i_end: int)
    requires
        same_values(t, t2),
        i_end <= t.len(),
    ensures
        triplet_options(t, v, i_end) == triplet_options(t2, v, i_end),
    decreases i_end,
{
    if i_end > 0 {
        lemma_triplet_options_same(t, t2, v, i_end - 1);
        lemma_triplet_row_same(t, t2, v, i_end - 1, t.len() as int);
    }
}

/// Only ranks matter to the capture options: a card of the same rank on a
/// table with the same ranks, position by position, has the same options in
/// the same order, whatever the suits.
pub proof fn options_depend_only_on_ranks(card: Card, t: Seq<Card>, card2: Card, t2: Seq<Card>)
    requires
        card2.rank == card.rank,
        t2.len() == t.len(),
        forall|i: int| 0 <= i < t.len() ==> #[trigger] t2[i].rank == t[i].rank,
    ensures
        all_options(t2, card_value(card2)) == all_options(t, card_value(card)),
{
    let v = card_value(card);
    assert(same_values(t, t2)) by {
        assert forall|i: int| 0 <= i < t.len() implies #[trigger] value_at(t, i) == value_at(t2, i) by {
            assert(t2[i].rank == t[i].rank);
        }
    }
    let n = t.len() as int;
    lemma_direct_same(t, t2, v, n);
    lemma_pair_options_same(t, t2, v, n);
    lemma_triplet_options_same(t, t2, v, n);
}

/// The table positions an option names, in increasing order.
pub open spec fn option_positions(o: CaptureOption) -> Seq<usize> {
    match o {
        CaptureOption::Direct(i) => seq![i],
        CaptureOption::Pair(i, j) => seq![i, j],
        CaptureOption::Triplet(i, j, k) => seq![i, j, k],
    }
}

/// The option naming the one, two or three positions of `c`.
spec fn option_of(c: Seq<usize>) -> CaptureOption {
    if c.len() == 1 {
        CaptureOption::Direct(c[0])
    } else if c.len() == 2 {
        CaptureOption::Pair(c[0], c[1])
    } else {
        CaptureOption::Triplet(c[0], c[1], c[2])
    }
}

/// `a` comes before `b`: it captures fewer cards, or as many at
/// lexicographically smaller positions.
pub open spec fn option_lt(a: CaptureOption, b: CaptureOption) -> bool {
    match a {
        CaptureOption::Direct(i1) => match b {
            CaptureOption::Direct(i2) => i1 < i2,
            _ => true,
        },
        CaptureOption::Pair(i1, j1) => match b {
            CaptureOption::Direct(_) => false,
            CaptureOption::Pair(i2, j2) => i1 < i2 || (i1 == i2 && j1 < j2),
            CaptureOption::Triplet(_, _, _) => true,
        },
        CaptureOption::Triplet(i1, j1, k1) => match b {
            CaptureOption::Triplet(i2, j2, k2) => i1 < i2 || (i1 == i2 && (j1 < j2 || (j1 == j2 && k1 < k2))),
            _ => false,
        },
    }
}

/// Each option comes before every later one.
pub open spec fn sorted_options(s: Seq<CaptureOption>) -> bool {
    forall|a: int, b: int| 0 <= a < b < s.len() ==> option_lt(#[trigger] s[a], #[trigger] s[b])
}

proof fn lemma_option_lt_is_lex(a: CaptureOption, b: CaptureOption)
    requires
        option_size(a) == option_size(b),
    ensures
        lex_lt(option_positions(a), option_positions(b)) == option_lt(a, b),
{
    reveal_with_fuel(lex_lt, 4);
    let pa = option_positions(a);
    let pb = option_positions(b);
    match (a, b) {
        (CaptureOption::Triplet(i1, j1, k1), CaptureOption::Triplet(i2, j2, k2)) => {
            assert(pa.drop_first() =~= seq![j1, k1]);
            assert(pb.drop_first() =~= seq![j2, k2]);
            assert(pa.drop_first().drop_first() =~= seq![k1]);
            assert(pb.drop_first().drop_first() =~= seq![k2]);
            assert(pa.drop_first().drop_first().drop_first() =~= Seq::<usize>::empty());
        },
        (CaptureOption::Pair(i1, j1), CaptureOption::Pair(i2, j2)) => {
            assert(pa.drop_first() =~= seq![j1]);
            assert(pb.drop_first() =~= seq![j2]);
            assert(pa.drop_first().drop_first() =~= Seq::<usize>::empty());
        },
        (CaptureOption::Direct(i1), CaptureOption::Direct(i2)) => {
            assert(pa.drop_first() =~= Seq::<usize>::empty());
        },
        _ => {},
    }
}

proof fn lemma_option_capture_bridge(t: Seq<Card>, v: int, o: CaptureOption)
    ensures
        option_captures(t, v, o) <==> is_capture(t, v, option_positions(o), option_size(o)),
{
    reveal_with_fuel(positions_sum, 4);
    let p = option_positions(o);
    match o {
        CaptureOption::Triplet(i, j, k) => {
            assert(p.drop_last() =~= seq![i, j]);
            assert(p.drop_last().drop_last() =~= seq![i]);
            assert(p.drop_last().drop_last().drop_last() =~= Seq::<usize>::empty());
            if is_capture(t, v, p, 3) {
                assert(p[0] < p[1]);
                assert(p[1] < p[2]);
                assert(p[2] < t.len());
            }
        },
        CaptureOption::Pair(i, j) => {
            assert(p.drop_last() =~= seq![i]);
            assert(p.drop_last().drop_last() =~= Seq::<usize>::empty());
            if is_capture(t, v, p, 2) {
                assert(p[0] < p[1]);
                assert(p[1] < t.len());
            }
        },
        CaptureOption::Direct(i) => {
            assert(p.drop_last() =~= Seq::<usize>::empty());
            if is_capture(t, v, p, 1) {
                assert(p[0] < t.len());
            }
        },
    }
}

proof fn lemma_option_of(c: Seq<usize>)
    requires
        1 <= c.len() <= 3,
    ensures
        option_positions(option_of(c)) == c,
        option_size(option_of(c)) == c.len(),
{
    assert(option_positions(option_of(c)) =~= c);
}

proof fn lemma_sorted_concat(x: Seq<CaptureOption>, y: Seq<CaptureOption>)
    requires
        sorted_options(x),
        sorted_options(y),
        forall|p: CaptureOption, q: CaptureOption| #[trigger] x.contains(p) && #[trigger] y.contains(q) ==> option_lt(p, q),
    ensures
        sorted_options(x + y),
{
    let s = x + y;
    assert forall|a: int, b: int| 0 <= a < b < s.len() implies option_lt(#[trigger] s[a], #[trigger] s[b]) by {
        if b < x.len() {
            assert(s[a] == x[a] && s[b] == x[b]);
        } else if a >= x.len() {
            assert(s[a] == y[a - x.len()] && s[b] == y[b - x.len()]);
        } else {
            assert(s[a] == x[a] && s[b] == y[b - x.len()]);
            assert(x.contains(x[a]));
            assert(y.contains(y[b - x.len()]));
        }
    }
}

proof fn lemma_sorted_single(o: CaptureOption)
    ensures
        sorted_options(seq![o]),
        sorted_options(Seq::<CaptureOption>::empty()),
{
}

proof fn lemma_direct_sorted(t: Seq<Card>, v: int, n: int)
    requires
        0 <= n <= t.len() <= usize::MAX,
    ensures
        sorted_options(direct_options(t, v, n)),
    decreases n,
{
    if n > 0 {
        lemma_direct_sorted(t, v, n - 1);
        let x = direct_options(t, v, n - 1);
        let last = CaptureOption::Direct((n - 1) as usize);
        let y: Seq<CaptureOption> = if value_at(t, n - 1) == v { seq![last] } else { seq![] };
        lemma_sorted_single(last);
        assert forall|p: CaptureOption, q: CaptureOption| #[trigger] x.contains(p) && #[trigger] y.contains(q)
            implies option_lt(p, q) by {
            lemma_direct_options_contains(t, v, n - 1, p);
            lemma_singleton_contains(last, q);
        }
        lemma_sorted_concat(x, y);
    }
}

proof fn lemma_pair_row_sorted(t: Seq<Card>, v: int, i: int, j_end: int)
    requires
        0 <= i,
        j_end <= t.len() <= usize::MAX,
    ensures
        sorted_options(pair_row(t, v, i, j_end)),
    decreases j_end - i,
{
    if j_end > i + 1 {
        lemma_pair_row_sorted(t, v, i, j_end - 1);
        let x = pair_row(t, v, i, j_end - 1);
        let last = CaptureOption::Pair(i as usize, (j_end - 1) as usize);
        let y: Seq<CaptureOption> = if value_at(t, i) + value_at(t, j_end - 1) == v { seq![last] } else { seq![] };
        lemma_sorted_single(last);
        assert forall|p: CaptureOption, q: CaptureOption| #[trigger] x.contains(p) && #[trigger] y.contains(q)
            implies option_lt(p, q) by {
            lemma_pair_row_contains(t, v, i, j_end - 1, p);
            lemma_singleton_contains(last, q);
        }
        lemma_sorted_concat(x, y);
    }
}

proof fn lemma_pair_options_sorted(t: Seq<Card>, v: int, i_end: int)
    requires
        0 <= i_end <= t.len() <= usize::MAX,
    ensures
        sorted_options(pair_options(t, v, i_end)),
    decreases i_end,
{
    if i_end > 0 {
        lemma_pair_options_sorted(t, v, i_end - 1);
        lemma_pair_row_sorted(t, v, i_end - 1, t.len() as int);
        let x = pair_options(t, v, i_end - 1);
        let y = pair_row(t, v, i_end - 1, t.len() as int);
        assert forall|p: CaptureOption, q: CaptureOption| #[trigger] x.contains(p) && #[trigger] y.contains(q)
            implies option_lt(p, q) by {
            lemma_pair_options_contains(t, v, i_end - 1, p);
            lemma_pair_row_contains(t, v, i_end - 1, t.len() as int, q);
        }
        lemma_sorted_concat(x, y);
    }
}

proof fn lemma_triplet_cell_sorted(t: Seq<Card>, v: int, i: int, j: int, k_end: int)
    requires
        0 <= i < j,
        k_end <= t.len() <= usize::MAX,
    ensures
        sorted_options(triplet_cell(t, v, i, j, k_end)),
    decreases k_end - j,
{
    if k_end > j + 1 {
        lemma_triplet_cell_sorted(t, v, i, j, k_end - 1);
        let x = triplet_cell(t, v, i, j, k_end - 1);
        let last = CaptureOption::Triplet(i as usize, j as usize, (k_end - 1) as usize);
        let y: Seq<CaptureOption> = if value_at(t, i) + value_at(t, j) + value_at(t, k_end - 1) == v {
            seq![last]
        } else {
            seq![]
        };
        lemma_sorted_single(last);
        assert forall|p: CaptureOption, q: CaptureOption| #[trigger] x.contains(p) && #[trigger] y.contains(q)
            implies option_lt(p, q) by {
            lemma_triplet_cell_contains(t, v, i, j, k_end - 1, p);
            lemma_singleton_contains(last, q);
        }
        lemma_sorted_concat(x, y);
    }
}

proof fn lemma_triplet_row_sorted(t: Seq<Card>, v: int, i: int, j_end: int)
    requires
        0 <= i,
        j_end <= t.len() <= usize::MAX,
    ensures
        sorted_options(triplet_row(t, v, i, j_end)),
    decreases j_end - i,
{
    if j_end > i + 1 {
        lemma_triplet_row_sorted(t, v, i, j_end - 1);
        lemma_triplet_cell_sorted(t, v, i, j_end - 1, t.len() as int);
        let x = triplet_row(t, v, i, j_end - 1);
        let y = triplet_cell(t, v, i, j_end - 1, t.len() as int);
        assert forall|p: CaptureOption, q: CaptureOption| #[trigger] x.contains(p) && #[trigger] y.contains(q)
            implies option_lt(p, q) by {
            lemma_triplet_row_contains(t, v, i, j_end - 1, p);
            lemma_triplet_cell_contains(t, v, i, j_end - 1, t.len() as int, q);
        }
        lemma_sorted_concat(x, y);
    }
}

proof fn lemma_triplet_options_sorted(t: Seq<Card>, v: int, i_end: int)
    requires
        0 <= i_end <= t.len() <= usize::MAX,
    ensures
        sorted_options(triplet_options(t, v, i_end)),
    decreases i_end,
{
    if i_end > 0 {
        lemma_triplet_options_sorted(t, v, i_end - 1);
        lemma_triplet_row_sorted(t, v, i_end - 1, t.len() as int);
        let x = triplet_options(t, v, i_end - 1);
        let y = triplet_row(t, v, i_end - 1, t.len() as int);
        assert forall|p: CaptureOption, q: CaptureOption| #[trigger] x.contains(p) && #[trigger] y.contains(q)
            implies option_lt(p, q) by {
            lemma_triplet_options_contains(t, v, i_end - 1, p);
            lemma_triplet_row_contains(t, v, i_end - 1, t.len() as int, q);
        }
        lemma_sorted_concat(x, y);
    }
}

/// A sorted list holding exactly the captures of size `k` decides the
/// capture engine's choice of that size: there is one exactly when the list
/// is not empty, and the first one is the list's first option.
proof fn lemma_list_decides(t: Seq<Card>, v: int, s: Seq<CaptureOption>, k: int)
    requires
        1 <= k <= 3,
        sorted_options(s),
        forall|o: CaptureOption| #[trigger] s.contains(o) <==> (option_captures(t, v, o) && option_size(o) == k),
    ensures
        has_capture(t, v, k) <==> s.len() > 0,
        s.len() > 0 ==> first_capture(t, v, k) == option_positions(s[0]),
{
    if has_capture(t, v, k) {
        let c = choose|c: Seq<usize>| is_capture(t, v, c, k);
        lemma_option_of(c);
        lemma_option_capture_bridge(t, v, option_of(c));
        assert(s.contains(option_of(c)));
    }
    if s.len() > 0 {
        let f = s[0];
        assert(s.contains(f));
        lemma_option_capture_bridge(t, v, f);
        let pf = option_positions(f);
        assert forall|d: Seq<usize>| is_capture(t, v, d, k) implies d == pf || lex_lt(pf, d) by {
            lemma_option_of(d);
            let o = option_of(d);
            lemma_option_capture_bridge(t, v, o);
            assert(s.contains(o));
            let j = choose|j: int| 0 <= j < s.len() && s[j] == o;
            if j > 0 {
                assert(option_lt(s[0], s[j]));
                lemma_option_lt_is_lex(f, o);
            }
        }
        assert(is_first_capture(t, v, pf, k));
        lemma_first_capture_unique(t, v, first_capture(t, v, k), pf, k);
    }
}

/// The options of a card are listed in strictly increasing order (fewer
/// captured cards first, then by positions), so none is listed twice.
pub proof fn options_come_in_order(t: Seq<Card>, v: int)
    requires
        t.len() <= usize::MAX,
    ensures
        sorted_options(all_options(t, v)),
        forall|a: int, b: int| 0 <= a < b < all_options(t, v).len() ==> #[trigger] all_options(t, v)[a]
            != #[trigger] all_options(t, v)[b],
{
    let n = t.len() as int;
    let p = pair_options(t, v, n);
    let tr = triplet_options(t, v, n);
    lemma_direct_sorted(t, v, n);
    lemma_pair_options_sorted(t, v, n);
    lemma_triplet_options_sorted(t, v, n);
    assert forall|x: CaptureOption, y: CaptureOption| #[trigger] p.contains(x) && #[trigger] tr.contains(y)
        implies option_lt(x, y) by {
        lemma_pair_options_contains(t, v, n, x);
        lemma_triplet_options_contains(t, v, n, y);
    }
    lemma_sorted_concat(p, tr);
    let s = all_options(t, v);
    assert forall|a: int, b: int| 0 <= a < b < s.len() implies #[trigger] s[a] != #[trigger] s[b] by {
        assert(option_lt(s[a], s[b]));
    }
}

/// The CPU's first listed option is the capture the turn engine makes: a card
/// of value `v` has no option exactly when it captures nothing, and otherwise
/// the positions of its first option are the ones the capture takes.
pub proof fn cpu_options_agree_with_capture(t: Seq<Card>, v: int)
    requires
        t.len() <= usize::MAX,
    ensures
        all_options(t, v).len() == 0 <==> capture_taken(t, v) is None,
        all_options(t, v).len() > 0 ==> capture_taken(t, v) == Some(option_positions(all_options(t, v)[0])),
{
    let n = t.len() as int;
    let d = direct_options(t, v, n);
    let p = pair_options(t, v, n);
    let tr = triplet_options(t, v, n);
    lemma_direct_sorted(t, v, n);
    lemma_pair_options_sorted(t, v, n);
    lemma_triplet_options_sorted(t, v, n);
    assert forall|o: CaptureOption| #[trigger] d.contains(o) <==> (option_captures(t, v, o) && option_size(o) == 1) by {
        lemma_direct_options_contains(t, v, n, o);
    }
    assert forall|o: CaptureOption| #[trigger] p.contains(o) <==> (option_captures(t, v, o) && option_size(o) == 2) by {
        lemma_pair_options_contains(t, v, n, o);
    }
    assert forall|o: CaptureOption| #[trigger] tr.contains(o) <==> (option_captures(t, v, o) && option_size(o) == 3) by {
        lemma_triplet_options_contains(t, v, n, o);
    }
    lemma_list_decides(t, v, d, 1);
    lemma_list_decides(t, v, p, 2);
    lemma_list_decides(t, v, tr, 3);
    if d.len() == 0 {
        if p.len() == 0 {
            assert(p + tr =~= tr);
        } else {
            assert((p + tr)[0] == p[0]);
        }
    }
}

/// Lists every capture of `card` on `table`: all direct matches when there is
/// at least one, otherwise every pair and then every triplet of table cards
/// whose values add up to the card's value.
pub fn find_all_options_for_card(card: &Card, table: &[Card]) -> (options: Vec<CaptureOption>)
    ensures
        options@ == all_options(table@, card_value(*card)),
        forall|k: int| 0 <= k < options@.len() ==> option_captures(table@, card_value(*card), #[trigger] options@[k]),
{
    let ghost t = table@;
    let ghost v = card_value(*card);
    let mut options: Vec<CaptureOption> = Vec::new();
    let target = card.rank.value();
    let n = table.len();

    let mut i: usize = 0;
    while i < n
        invariant
            n == t.len(),
            t == table@,
            v == target,
            i <= n,
            options@ == direct_options(t, v, i as int),
            forall|k: int| 0 <= k < options@.len() ==> option_captures(t, v, #[trigger] options@[k]),
        decreases n - i,
    {
        if table[i].rank.value() == target {
            options.push(CaptureOption::Direct(i));
        }
        i = i + 1;
        assert(options@ =~= direct_options(t, v, i as int));
    }
    if options.len() > 0 {
        return options;
    }

    let mut i: usize = 0;
    while i < n
        invariant
            n == t.len(),
            t == table@,
            v == target,
            i <= n,
            direct_options(t, v, n as int).len() == 0,
            options@ == pair_options(t, v, i as int),
            forall|k: int| 0 <= k < options@.len() ==> option_captures(t, v, #[trigger] options@[k]),
        decreases n - i,
    {
        let mut j: usize = i + 1;
        while j < n
            invariant
                n == t.len(),
                t == table@,
                v == target,
                i < n,
                i + 1 <= j <= n,
                options@ == pair_options(t, v, i as int) + pair_row(t, v, i as int, j as int),
                forall|k: int| 0 <= k < options@.len() ==> option_captures(t, v, #[trigger] options@[k]),
            decreases n - j,
        {
            if table[i].rank.value() + table[j].rank.value() == target {
                options.push(CaptureOption::Pair(i, j));
            }
            j = j + 1;
            assert(options@ =~= pair_options(t, v, i as int) + pair_row(t, v, i as int, j as int));
        }
        i = i + 1;
        assert(options@ =~= pair_options(t, v, i as int));
    }

    let ghost pairs = options@;
    let mut i: usize = 0;
    while i < n
        invariant
            n == t.len(),
            t == table@,
            v == target,
            i <= n,
            direct_options(t, v, n as int).len() == 0,
            pairs == pair_options(t, v, n as int),
            options@ == pairs + triplet_options(t, v, i as int),
            forall|k: int| 0 <= k < options@.len() ==> option_captures(t, v, #[trigger] options@[k]),
        decreases n - i,
    {
        let mut j: usize = i + 1;
        while j < n
            invariant
                n == t.len(),
                t == table@,
                v == target,
                i < n,
                i + 1 <= j <= n,
                pairs == pair_options(t, v, n as int),
                options@ == pairs + triplet_options(t, v, i as int) + triplet_row(t, v, i as int, j as int),
                forall|k: int| 0 <= k < options@.len() ==> option_captures(t, v, #[trigger] options@[k]),
            decreases n - j,
        {
            let mut k: usize = j + 1;
            while k < n
                invariant
                    n == t.len(),
                    t == table@,
                    v == target,
                    i < j < n,
                    j + 1 <= k <= n,
                    pairs == pair_options(t, v, n as int),
                    options@ == pairs + triplet_options(t, v, i as int) + triplet_row(t, v, i as int, j as int)
                        + triplet_cell(t, v, i as int, j as int, k as int),
                    forall|m: int| 0 <= m < options@.len() ==> option_captures(t, v, #[trigger] options@[m]),
                decreases n - k,
            {
                if table[i].rank.value() + table[j].rank.value() + table[k].rank.value() == target {
                    options.push(CaptureOption::Triplet(i, j, k));
                }
                k = k + 1;
                assert(options@ =~= pairs + triplet_options(t, v, i as int) + triplet_row(t, v, i as int, j as int)
                    + triplet_cell(t, v, i as int, j as int, k as int));
            }
            j = j + 1;
            assert(options@ =~= pairs + triplet_options(t, v, i as int) + triplet_row(t, v, i as int, j as int));
        }
        i = i + 1;
        assert(options@ =~= pairs + triplet_options(t, v, i as int));
    }
    options
}


/// The seven of diamonds (Sab'a l-hayya).
pub open spec fn is_haya_card(c: Card) -> bool {
    c.suit == Suit::Diamonds && c.rank == Rank::Seven
}

/// Whether a card is the seven of diamonds.
fn is_haya(card: &Card) -> (r: bool)
    ensures
        r == is_haya_card(*card),
{
    card.suit == Suit::Diamonds && card.rank == Rank::Seven
}

/// Ten points for a seven, nothing otherwise.
pub open spec fn seven_bonus(c: Card) -> int {
    if c.rank == Rank::Seven {
        10
    } else {
        0
    }
}

/// The number of table cards an option captures.
pub open spec fn option_size(o: CaptureOption) -> int {
    match o {
        CaptureOption::Direct(_) => 1,
        CaptureOption::Pair(_, _) => 2,
        CaptureOption::Triplet(_, _, _) => 3,
    }
}

/// The CPU's score for capturing option `o` with `card` on table `t`:
/// 20 for taking several cards; 100 if the seven of diamonds is among the
/// cards involved; for a direct match 10 if the table card or the hand card
/// is a seven, for a combination 10 per seven among them; and 50 when the
/// capture clears the table (a Chkobba).
pub open spec fn capture_score(card: Card, t: Seq<Card>, o: CaptureOption) -> int {
    let several = if option_size(o) > 1 { 20int } else { 0int };
    let items = match o {
        CaptureOption::Direct(i) => {
            (if is_haya_card(t[i as int]) || is_haya_card(card) { 100int } else { 0int })
                + (if t[i as int].rank == Rank::Seven || card.rank == Rank::Seven { 10int } else { 0int })
        },
        CaptureOption::Pair(i, j) => {
            (if is_haya_card(t[i as int]) || is_haya_card(t[j as int]) || is_haya_card(card) { 100int } else { 0int })
                + seven_bonus(t[i as int]) + seven_bonus(t[j as int]) + seven_bonus(card)
        },
        CaptureOption::Triplet(i, j, k) => {
            (if is_haya_card(t[i as int]) || is_haya_card(t[j as int]) || is_haya_card(t[k as int])
                || is_haya_card(card) { 100int } else { 0int })
                + seven_bonus(t[i as int]) + seven_bonus(t[j as int]) + seven_bonus(t[k as int])
                + seven_bonus(card)
        },
    };
    let sweep = if option_size(o) == t.len() { 50int } else { 0int };
    several + items + sweep
}

/// The sum of the values of all cards of `t`.
pub open spec fn table_sum(t: Seq<Card>) -> int
    decreases t.len(),
{
    if t.len() == 0 {
        0
    } else {
        table_sum(t.drop_last()) + card_value(t.last())
    }
}

/// The CPU's score for dropping `card` without a capture: -10 when the table
/// would then add up to 7 or less (easy for the opponent to clear), else 0.
pub open spec fn drop_score(card: Card, t: Seq<Card>) -> int {
    if table_sum(t) + card_value(card) <= 7 {
        -10
    } else {
        0
    }
}

/// A capture that clears the table (a Chkobba) is worth exactly 50 more than
/// the same capture on a table that holds one more card, while a capture
/// that leaves cards behind scores the same on both; a Chkobba therefore
/// scores at least 50, more than any plain drop, which never scores above 0.
pub proof fn chkobba_bonus_is_fifty(card: Card, t: Seq<Card>, o: CaptureOption, extra: Card)
    requires
        forall|k: int| 0 <= k < option_positions(o).len() ==> #[trigger] option_positions(o)[k] < t.len(),
    ensures
        option_size(o) == t.len() ==> capture_score(card, t, o) == capture_score(card, t.push(extra), o) + 50,
        option_size(o) < t.len() ==> capture_score(card, t, o) == capture_score(card, t.push(extra), o),
        option_size(o) == t.len() ==> capture_score(card, t, o) >= 50,
        drop_score(card, t) <= 0,
{
    let t2 = t.push(extra);
    let p = option_positions(o);
    match o {
        CaptureOption::Direct(i) => {
            assert(p[0] == i);
            assert(t2[i as int] == t[i as int]);
        },
        CaptureOption::Pair(i, j) => {
            assert(p[0] == i && p[1] == j);
            assert(t2[i as int] == t[i as int]);
            assert(t2[j as int] == t[j as int]);
        },
        CaptureOption::Triplet(i, j, k) => {
            assert(p[0] == i && p[1] == j && p[2] == k);
            assert(t2[i as int] == t[i as int]);
            assert(t2[j as int] == t[j as int]);
            assert(t2[k as int] == t[k as int]);
        },
    }
}

/// The CPU keeps exactly the sevens, sixes and aces, and the diamonds from
/// two to five: a face card (queen, jack, king) is never kept, whatever its
/// suit, and neither is any other card of hearts, clubs or spades.
pub proof fn cut_card_rule(c: Card)
    ensures
        keeps_cut_card(c) <==> (c.rank == Rank::Seven || c.rank == Rank::Six || c.rank == Rank::Ace || (c.suit
            == Suit::Diamonds && (c.rank == Rank::Two || c.rank == Rank::Three || c.rank == Rank::Four || c.rank
            == Rank::Five))),
        (c.rank == Rank::Queen || c.rank == Rank::Jack || c.rank == Rank::King) ==> !keeps_cut_card(c),
{
}

/// The candidate moves (hand position, score) of the card at hand position
/// `h`: one per capture option, or a single drop when it captures nothing.
pub open spec fn card_candidates(h: int, card: Card, t: Seq<Card>) -> Seq<(int, int)> {
    let opts = all_options(t, card_value(card));
    if opts.len() == 0 {
        seq![(h, drop_score(card, t))]
    } else {
        opts.map_values(|o: CaptureOption| (h, capture_score(card, t, o)))
    }
}

/// The candidate moves of the first `n` cards of the hand, card by card.
pub open spec fn hand_candidates(hand: Seq<Card>, t: Seq<Card>, n: int) -> Seq<(int, int)>
    decreases n,
{
    if n <= 0 {
        seq![]
    } else {
        hand_candidates(hand, t, n - 1) + card_candidates(n - 1, hand[n - 1], t)
    }
}

/// Position `p` holds a highest score of `c`, and no later candidate ties it.
pub open spec fn is_last_best(c: Seq<(int, int)>, p: int) -> bool {
    &&& 0 <= p < c.len()
    &&& forall|q: int| 0 <= q < c.len() ==> (#[trigger] c[q]).1 <= c[p].1
    &&& forall|q: int| p < q < c.len() ==> (#[trigger] c[q]).1 < c[p].1
}

/// A fully calculated candidate move for the CPU to rank.
struct CandidateMove {
    hand_index: usize,
    capture: Option<CaptureOption>,
    score: i32,
}

spec fn candidate_view(m: CandidateMove) -> (int, int) {
    (m.hand_index as int, m.score as int)
}

/// The score of a capture option, computed.
fn score_capture(card: &Card, table: &[Card], capture: CaptureOption) -> (score: i32)
    requires
        option_captures(table@, card_value(*card), capture),
    ensures
        score == capture_score(*card, table@, capture),
{
    let mut score: i32 = 0;
    let total_cards_to_capture: usize = match capture {
        CaptureOption::Direct(_) => 1,
        CaptureOption::Pair(_, _) => 2,
        CaptureOption::Triplet(_, _, _) => 3,
    };
    if total_cards_to_capture > 1 {
        score += 20;
    }
    match capture {
        CaptureOption::Direct(i) => {
            let target_card = &table[i];
            if is_haya(target_card) || is_haya(card) {
                score += 100;
            }
            if target_card.rank == Rank::Seven || card.rank == Rank::Seven {
                score += 10;
            }
        },
        CaptureOption::Pair(i, j) => {
            let c1 = &table[i];
            let c2 = &table[j];
            if is_haya(c1) || is_haya(c2) || is_haya(card) {
                score += 100;
            }
            if c1.rank == Rank::Seven {
                score += 10;
            }
            if c2.rank == Rank::Seven {
                score += 10;
            }
            if card.rank == Rank::Seven {
                score += 10;
            }
        },
        CaptureOption::Triplet(i, j, k) => {
            let c1 = &table[i];
            let c2 = &table[j];
            let c3 = &table[k];
            if is_haya(c1) || is_haya(c2) || is_haya(c3) || is_haya(card) {
                score += 100;
            }
            if c1.rank == Rank::Seven {
                score += 10;
            }
            if c2.rank == Rank::Seven {
                score += 10;
            }
            if c3.rank == Rank::Seven {
                score += 10;
            }
            if card.rank == Rank::Seven {
                score += 10;
            }
        },
    }
    if total_cards_to_capture == table.len() {
        score += 50;
    }
    score
}

/// The sum of the table's values, capped at 100 (a table worth more than 7
/// is all that matters to the drop heuristic).
fn capped_table_sum(table: &[Card]) -> (sum: usize)
    ensures
        sum <= 100,
        sum == table_sum(table@) || (sum == 100 && table_sum(table@) >= 100),
{
    let mut sum: usize = 0;
    let mut i: usize = 0;
    while i < table.len()
        invariant
            i <= table@.len(),
            sum <= 100,
            sum == table_sum(table@.take(i as int)) || (sum == 100 && table_sum(table@.take(i as int)) >= 100),
            table_sum(table@.take(i as int)) >= 0,
        decreases table@.len() - i,
    {
        assert(table@.take(i + 1).drop_last() =~= table@.take(i as int));
        let v = table[i].rank.value();
        if sum + v > 100 {
            sum = 100;
        } else {
            sum = sum + v;
        }
        i = i + 1;
    }
    assert(table@.take(i as int) =~= table@);
    sum
}

/// Main entry point for the AI brain: the position, in the CPU's hand, of the
/// card to drop. Every capture option of every card is scored, a card with no
/// capture is scored as a drop, and the last of the highest-scored candidates
/// wins; 0 when the hand is empty.
pub fn choose_best_move(cpu_hand: &[Card], table: &[Card]) -> (r: usize)
    ensures
        ({
            let c = hand_candidates(cpu_hand@, table@, cpu_hand@.len() as int);
            &&& c.len() == 0 ==> r == 0
            &&& c.len() > 0 ==> exists|p: int| is_last_best(c, p) && r == c[p].0
        }),
        cpu_hand@.len() == 0 ==> r == 0,
        cpu_hand@.len() > 0 ==> r < cpu_hand@.len(),
{
    let ghost t = table@;
    let ghost hand = cpu_hand@;
    let mut candidates: Vec<CandidateMove> = Vec::new();
    let mut hand_idx: usize = 0;
    while hand_idx < cpu_hand.len()
        invariant
            t == table@,
            hand == cpu_hand@,
            hand_idx <= hand.len(),
            candidates@.map_values(|m: CandidateMove| candidate_view(m)) == hand_candidates(hand, t, hand_idx as int),
            forall|k: int| 0 <= k < candidates@.len() ==> (#[trigger] candidates@[k]).hand_index < hand_idx,
            hand_idx > 0 ==> candidates@.len() > 0,
        decreases hand.len() - hand_idx,
    {
        let card = &cpu_hand[hand_idx];
        let possible_captures = find_all_options_for_card(card, table);
        let ghost before = candidates@;
        if possible_captures.len() == 0 {
            let mut score: i32 = 0;
            let table_sum = capped_table_sum(table);
            let future_sum = table_sum + card.rank.value();
            if future_sum <= 7 {
                score -= 10;
            }
            candidates.push(CandidateMove { hand_index: hand_idx, capture: None, score });
            proof {
                assert(candidates@.map_values(|m: CandidateMove| candidate_view(m)) =~= before.map_values(
                    |m: CandidateMove| candidate_view(m),
                ) + card_candidates(hand_idx as int, *card, t));
            }
        } else {
            let ghost opts = possible_captures@;
            let mut m: usize = 0;
            while m < possible_captures.len()
                invariant
                    t == table@,
                    hand == cpu_hand@,
                    hand_idx < hand.len(),
                    *card == hand[hand_idx as int],
                    opts == possible_captures@,
                    opts == all_options(t, card_value(*card)),
                    opts.len() > 0,
                    forall|k: int| 0 <= k < opts.len() ==> option_captures(t, card_value(*card), #[trigger] opts[k]),
                    m <= opts.len(),
                    candidates@.len() == before.len() + m,
                    candidates@.map_values(|x: CandidateMove| candidate_view(x)) == before.map_values(
                        |x: CandidateMove| candidate_view(x),
                    ) + opts.take(m as int).map_values(|o: CaptureOption| (hand_idx as int, capture_score(*card, t, o))),
                    forall|k: int| 0 <= k < candidates@.len() ==> (#[trigger] candidates@[k]).hand_index <= hand_idx,
                decreases opts.len() - m,
            {
                let ghost old_cands = candidates@;
                let ghost prev_r = before.map_values(|x: CandidateMove| candidate_view(x)) + opts.take(m as int).map_values(
                    |o: CaptureOption| (hand_idx as int, capture_score(*card, t, o)),
                );
                assert(old_cands.map_values(|x: CandidateMove| candidate_view(x)) == prev_r);
                let capture = possible_captures[m];
                let score = score_capture(card, table, capture);
                candidates.push(CandidateMove { hand_index: hand_idx, capture: Some(capture), score });
                m = m + 1;
                proof {
                    assert(opts.take(m as int).drop_last() =~= opts.take(m - 1));
                    assert(candidate_view(candidates@[candidates@.len() - 1]) == (hand_idx as int, capture_score(*card, t, opts[m - 1])));
                    let lhs = candidates@.map_values(|x: CandidateMove| candidate_view(x));
                    let rhs = before.map_values(|x: CandidateMove| candidate_view(x)) + opts.take(m as int).map_values(
                        |o: CaptureOption| (hand_idx as int, capture_score(*card, t, o)),
                    );
                    assert(lhs.len() == rhs.len());
                    assert forall|q: int| 0 <= q < lhs.len() implies lhs[q] == rhs[q] by {
                        if q < lhs.len() - 1 {
                            assert(candidates@[q] == old_cands[q]);
                            assert(lhs[q] == old_cands.map_values(|x: CandidateMove| candidate_view(x))[q]);
                            assert(lhs[q] == prev_r[q]);
                            if q >= before.len() {
                                assert(opts.take(m as int)[q - before.len()] == opts.take(m - 1)[q - before.len()]);
                            }
                        }
                    }
                    assert(candidates@.map_values(|x: CandidateMove| candidate_view(x)) =~= before.map_values(
                        |x: CandidateMove| candidate_view(x),
                    ) + opts.take(m as int).map_values(|o: CaptureOption| (hand_idx as int, capture_score(*card, t, o))));
                }
            }
            proof {
                assert(opts.take(m as int) =~= opts);
            }
        }
        hand_idx = hand_idx + 1;
        proof {
            assert(candidates@.map_values(|m: CandidateMove| candidate_view(m)) =~= hand_candidates(hand, t, hand_idx as int));
        }
    }

    let ghost c = hand_candidates(hand, t, hand.len() as int);
    let mut best_index: usize = 0;
    let mut best_score: i32 = 0;
    let ghost mut bp: int = 0;
    let mut k: usize = 0;
    while k < candidates.len()
        invariant
            c == hand_candidates(hand, t, hand.len() as int),
            candidates@.map_values(|m: CandidateMove| candidate_view(m)) == c,
            forall|q: int| 0 <= q < candidates@.len() ==> (#[trigger] candidates@[q]).hand_index < hand.len(),
            k <= candidates@.len(),
            k == 0 ==> best_index == 0,
            k > 0 ==> is_last_best(c.take(k as int), bp) && best_index == c[bp].0 && best_score == c[bp].1,
        decreases candidates@.len() - k,
    {
        let ghost prev = c.take(k as int);
        assert(c[k as int] == candidate_view(candidates@[k as int]));
        if k == 0 || candidates[k].score >= best_score {
            best_index = candidates[k].hand_index;
            best_score = candidates[k].score;
            proof {
                bp = k as int;
            }
        }
        k = k + 1;
        proof {
            let cur = c.take(k as int);
            assert forall|q: int| 0 <= q < cur.len() implies (#[trigger] cur[q]).1 <= cur[bp].1 by {
                if q < k - 1 {
                    assert(cur[q] == prev[q]);
                }
            }
            assert forall|q: int| bp < q < cur.len() implies (#[trigger] cur[q]).1 < cur[bp].1 by {
                if q < k - 1 {
                    assert(cur[q] == prev[q]);
                }
            }
        }
    }
    proof {
        assert(c.take(k as int) =~= c);
        if k > 0 {
            assert(c[bp] == candidate_view(candidates@[bp]));
        }
    }
    best_index
}


/// Whether the CPU keeps a cut card it has not yet seen the table for: the
/// seven of diamonds, any seven or six, any ace, and diamonds of value 5 or less.
pub open spec fn keeps_cut_card(c: Card) -> bool {
    ||| is_haya_card(c)
    ||| c.rank == Rank::Seven
    ||| c.rank == Rank::Six
    ||| c.rank == Rank::Ace
    ||| (c.suit == Suit::Diamonds && card_value(c) <= 5)
}

/// Evaluates whether a cut card is worth keeping before the table is dealt.
pub fn evaluate_blind_cut_card(first_card: &Card) -> (keep: bool)
    ensures
        keep == keeps_cut_card(*first_card),
{
    if first_card.suit == Suit::Diamonds && first_card.rank == Rank::Seven {
        return true;
    }
    if first_card.rank == Rank::Seven || first_card.rank == Rank::Six {
        return true;
    }
    if first_card.rank == Rank::Ace {
        return true;
    }
    if first_card.suit == Suit::Diamonds && first_card.rank.value() <= 5 {
        return true;
    }
    false
}

} // verus!
