//! Laying out a new game: a shuffled deck dealt in pairs onto shuffled cells.

use rand::rngs::ThreadRng;
use rand::seq::SliceRandom;
use vstd::prelude::*;
use crate::board::{Board, BoardModel};
use crate::cards::{all, deck_names, Card, CardModel};

verus! {

/// The random number generator of the `rand` crate that belongs to the
/// running thread. The library sees nothing inside it.
#[verifier::external_type_specification]
#[verifier::external_body]
pub struct ExThreadRng(rand::rngs::ThreadRng);

/// Shuffles `items` with `rand::seq::SliceRandom::shuffle`, which swaps
/// items of the slice among themselves: afterwards the vector holds the same
/// items, each as often as before. In which order is left to chance.
#[verifier::external_body]
fn shuffle<T>(items: &mut Vec<T>, rng: &mut ThreadRng)
    ensures
        final(items)@.to_multiset() == old(items)@.to_multiset(),
{
    items.shuffle(rng);
}

/// The cells of a grid, column by column and from the top down in each
/// column, each as a pair of a row and a column.
pub open spec fn grid(row_count: nat, col_count: nat) -> Seq<(u32, u32)> {
    Seq::new(
        row_count * col_count,
        |i: int| ((i % row_count as int) as u32, (i / row_count as int) as u32),
    )
}

/// The cells of a grid of `row_count` rows and `col_count` columns.
pub fn grid_cells(row_count: u32, col_count: u32) -> (cells: Vec<(u32, u32)>)
    ensures
        cells@ == grid(row_count as nat, col_count as nat),
{
    let mut cells: Vec<(u32, u32)> = Vec::new();
    let mut col: u32 = 0;
    while col < col_count
        invariant
            0 <= col <= col_count,
            cells@ == grid(row_count as nat, col as nat),
        decreases col_count - col,
    {
        let mut row: u32 = 0;
        while row < row_count
            invariant
                0 <= row <= row_count,
                0 <= col < col_count,
                cells@.len() == row_count * col + row,
                forall|i: int|
                    0 <= i < cells@.len() ==> #[trigger] cells@[i] == (
                        (i % row_count as int) as u32,
                        (i / row_count as int) as u32,
                    ),
            decreases row_count - row,
        {
            proof {
                let i = row_count * col + row;
                assert(i / row_count as int == col && i % row_count as int == row)
                    by (nonlinear_arith)
                    requires
                        i == row_count * col + row,
                        0 <= row < row_count,
                        0 <= col,
                ;
            }
            cells.push((row, col));
            row += 1;
        }
        proof {
            assert(row_count * col + row_count == row_count * (col + 1)) by (nonlinear_arith);
        }
        col += 1;
        assert(cells@ =~= grid(row_count as nat, col as nat));
    }
    cells
}

/// The cells of a grid in an order left to chance: each cell of
/// `grid(row_count, col_count)` once.
pub fn shuffled_cells(row_count: u32, col_count: u32, rng: &mut ThreadRng) -> (cells: Vec<
    (u32, u32),
>)
    ensures
        cells@.to_multiset() == grid(row_count as nat, col_count as nat).to_multiset(),
{
    let mut cells = grid_cells(row_count, col_count);
    shuffle(&mut cells, rng);
    cells
}

/// The models of the cards of the full deck, in the deck's order.
pub open spec fn deck_models() -> Seq<CardModel> {
    deck_names().map_values(|name: Seq<char>| CardModel::fresh(name))
}

/// The models of a sequence of cards.
pub open spec fn models(cards: Seq<Card>) -> Seq<CardModel> {
    cards.map_values(|card: Card| card@)
}

/// The full deck in an order left to chance: each card of the deck once.
pub fn shuffled_deck(rng: &mut ThreadRng) -> (deck: Vec<Card>)
    ensures
        models(deck@).to_multiset() == deck_models().to_multiset(),
        forall|i: int| 0 <= i < deck@.len() ==> (#[trigger] deck@[i]).wf(),
{
    let mut deck = all();
    let ghost sorted = deck@;
    shuffle(&mut deck, rng);
    proof {
        assert(models(sorted) =~= deck_models());
        lemma_map_keeps_multiset(deck@, sorted, |card: Card| card@);
        assert forall|i: int| 0 <= i < deck@.len() implies (#[trigger] deck@[i]).wf() by {
            lemma_same_items(deck@, sorted, deck@[i]);
        }
    }
    deck
}

/// The cell that a pair of a row and a column names.
pub open spec fn cell_of(pair: (u32, u32)) -> (int, int) {
    (pair.0 as int, pair.1 as int)
}

/// The board after `pairs` pairs have been dealt: each time the last card of
/// the deck leaves it and is put on the last cell and then on the cell before
/// it, and both cells leave the sequence of cells.
pub open spec fn dealt(
    board: BoardModel,
    deck: Seq<CardModel>,
    cells: Seq<(u32, u32)>,
    pairs: nat,
) -> BoardModel
    decreases pairs,
{
    if pairs == 0 || deck.len() < 1 || cells.len() < 2 {
        board
    } else {
        let card = deck.last();
        let first = cell_of(cells[cells.len() - 1]);
        let second = cell_of(cells[cells.len() - 2]);
        dealt(
            board.with_card(first, card).with_card(second, card),
            deck.drop_last(),
            cells.take(cells.len() - 2),
            (pairs - 1) as nat,
        )
    }
}

/// The card of the pair that is dealt as number `k`, counting from 0.
pub open spec fn pair_card(deck: Seq<CardModel>, k: int) -> CardModel {
    deck[deck.len() - 1 - k]
}

/// The two cells of the pair that is dealt as number `k`, counting from 0.
pub open spec fn pair_cells(cells: Seq<(u32, u32)>, k: int) -> ((int, int), (int, int)) {
    (cell_of(cells[cells.len() - 1 - 2 * k]), cell_of(cells[cells.len() - 2 - 2 * k]))
}

/// `cell` is none of the `2 * pairs` cells at the end of `cells`.
pub open spec fn untouched(cells: Seq<(u32, u32)>, pairs: nat, cell: (int, int)) -> bool {
    forall|i: int| cells.len() - 2 * pairs <= i < cells.len() ==> cell_of(#[trigger] cells[i]) != cell
}

/// Where no cell occurs twice, dealing leaves each dealt card on both cells
/// of its pair, and every cell that belongs to no pair as it was.
pub proof fn lemma_dealt_pairs(
    board: BoardModel,
    deck: Seq<CardModel>,
    cells: Seq<(u32, u32)>,
    pairs: nat,
)
    requires
        cells.no_duplicates(),
        pairs <= deck.len(),
        2 * pairs <= cells.len(),
    ensures
        ({
            let after = dealt(board, deck, cells, pairs);
            &&& after.row_count == board.row_count
            &&& after.col_count == board.col_count
            &&& after.width == board.width
            &&& after.height == board.height
            &&& forall|k: int|
                0 <= k < pairs ==> {
                    let card = #[trigger] pair_card(deck, k);
                    let (first, second) = pair_cells(cells, k);
                    &&& after.cards.contains_key(first)
                    &&& after.cards.contains_key(second)
                    &&& after.cards[first] == card
                    &&& after.cards[second] == card
                }
            &&& forall|cell: (int, int)| #[trigger]
                untouched(cells, pairs, cell) ==> {
                    &&& after.cards.contains_key(cell) <==> board.cards.contains_key(cell)
                    &&& after.cards[cell] == board.cards[cell]
                }
        }),
    decreases pairs,
{
    if pairs > 0 {
        let after = dealt(board, deck, cells, pairs);
        let card = deck.last();
        let (first, second) = pair_cells(cells, 0);
        let placed = board.with_card(first, card).with_card(second, card);
        let deck_left = deck.drop_last();
        let cells_left = cells.take(cells.len() - 2);
        let pairs_left = (pairs - 1) as nat;
        lemma_dealt_pairs(placed, deck_left, cells_left, pairs_left);
        assert(untouched(cells_left, pairs_left, first)) by {
            assert forall|i: int| cells_left.len() - 2 * pairs_left <= i < cells_left.len() implies cell_of(
                #[trigger] cells_left[i],
            ) != first by {
                assert(cells_left[i] == cells[i]);
                assert(cells[i] != cells[cells.len() - 1]);
            }
        }
        assert(untouched(cells_left, pairs_left, second)) by {
            assert forall|i: int| cells_left.len() - 2 * pairs_left <= i < cells_left.len() implies cell_of(
                #[trigger] cells_left[i],
            ) != second by {
                assert(cells_left[i] == cells[i]);
                assert(cells[i] != cells[cells.len() - 2]);
            }
        }
        assert forall|k: int| 0 <= k < pairs implies ({
            let card = #[trigger] pair_card(deck, k);
            let (first, second) = pair_cells(cells, k);
            &&& after.cards.contains_key(first)
            &&& after.cards.contains_key(second)
            &&& after.cards[first] == card
            &&& after.cards[second] == card
        }) by {
            if k > 0 {
                assert(pair_card(deck_left, k - 1) == pair_card(deck, k));
                assert(pair_cells(cells_left, k - 1) == pair_cells(cells, k));
            }
        }
        assert forall|cell: (int, int)| #[trigger] untouched(cells, pairs, cell) implies ({
            &&& after.cards.contains_key(cell) <==> board.cards.contains_key(cell)
            &&& after.cards[cell] == board.cards[cell]
        }) by {
            assert(cell_of(cells[cells.len() - 1]) != cell);
            assert(cell_of(cells[cells.len() - 2]) != cell);
            assert(untouched(cells_left, pairs_left, cell)) by {
                assert forall|i: int| cells_left.len() - 2 * pairs_left <= i
                    < cells_left.len() implies cell_of(#[trigger] cells_left[i]) != cell by {
                    assert(cells_left[i] == cells[i]);
                }
            }
        }
    }
}

/// Deals `pairs` pairs of cards onto the board, from the end of the deck and
/// onto the cells at the end of `cells`.
pub fn deal_pairs(board: &mut Board, deck: Vec<Card>, cells: Vec<(u32, u32)>, pairs: usize)
    requires
        old(board).inv(),
        pairs <= deck@.len(),
        2 * pairs <= cells@.len(),
    ensures
        final(board).inv(),
        final(board)@ == dealt(old(board)@, models(deck@), cells@, pairs as nat),
        old(board).wf() && (forall|i: int| 0 <= i < deck@.len() ==> (#[trigger] deck@[i]).wf())
            ==> final(board).wf(),
{
    let ghost all_wf = old(board).wf() && (forall|i: int|
        0 <= i < deck@.len() ==> (#[trigger] deck@[i]).wf());
    let ghost target = dealt(old(board)@, models(deck@), cells@, pairs as nat);
    let mut deck = deck;
    let mut cells = cells;
    let mut done: usize = 0;
    while done < pairs
        invariant
            0 <= done <= pairs,
            board.inv(),
            pairs - done <= deck@.len(),
            2 * (pairs - done) <= cells@.len(),
            dealt(board@, models(deck@), cells@, (pairs - done) as nat) == target,
            all_wf ==> board.wf() && (forall|i: int|
                0 <= i < deck@.len() ==> (#[trigger] deck@[i]).wf()),
        decreases pairs - done,
    {
        let ghost deck_before = deck@;
        let ghost cells_before = cells@;
        let card = deck.pop().unwrap();
        let first = cells.pop().unwrap();
        let second = cells.pop().unwrap();
        proof {
            assert(models(deck@) =~= models(deck_before).drop_last());
            assert(cells@ =~= cells_before.take(cells_before.len() - 2));
            assert(models(deck_before).last() == card@);
        }
        board.set_card(first.0, first.1, card.clone());
        board.set_card(second.0, second.1, card);
        done += 1;
    }
}

/// Two sequences with the same items, each as often in the one as in the
/// other, have an item in common wherever one of them has it.
proof fn lemma_same_items<A>(s1: Seq<A>, s2: Seq<A>, a: A)
    requires
        s1.to_multiset() == s2.to_multiset(),
        s1.contains(a),
    ensures
        s2.contains(a),
{
    broadcast use vstd::seq_lib::to_multiset_contains;

    assert(s1.to_multiset().count(a) > 0);
}

/// Two sequences with the same items, each as often in the one as in the
/// other, still have the same items after a function is applied to each.
proof fn lemma_map_keeps_multiset<A, B>(s1: Seq<A>, s2: Seq<A>, f: spec_fn(A) -> B)
    requires
        s1.to_multiset() == s2.to_multiset(),
    ensures
        s1.map_values(f).to_multiset() == s2.map_values(f).to_multiset(),
    decreases s1.len(),
{
    vstd::seq_lib::to_multiset_len(s1);
    vstd::seq_lib::to_multiset_len(s2);
    if s1.len() == 0 {
        assert(s1.map_values(f) =~= s2.map_values(f));
    } else {
        let a = s1.last();
        assert(s1.contains(a)) by {
            assert(s1[s1.len() - 1] == a);
        }
        lemma_same_items(s1, s2, a);
        let j = choose|j: int| 0 <= j < s2.len() && s2[j] == a;
        let t1 = s1.drop_last();
        let t2 = s2.remove(j);
        assert(t1 =~= s1.remove(s1.len() - 1));
        vstd::seq_lib::to_multiset_remove(s1, s1.len() - 1);
        vstd::seq_lib::to_multiset_remove(s2, j);
        lemma_map_keeps_multiset(t1, t2, f);
        assert(s1.map_values(f) =~= t1.map_values(f).push(f(a)));
        assert(s2.map_values(f) =~= t2.map_values(f).insert(j, f(a)));
        vstd::seq_lib::to_multiset_build(t1.map_values(f), f(a));
        vstd::seq_lib::to_multiset_insert(t2.map_values(f), j, f(a));
    }
}

} // verus!
