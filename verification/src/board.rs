//! The grid of cards, and the way from a pointer position to a card.

use std::collections::HashMap;
use vstd::prelude::*;
use vstd::std_specs::hash::group_hash_axioms;
use crate::cards::{sprite_view, Card, CardModel, Sprite, SpriteModel};
use crate::ratio::{Fraction, Ratio};

verus! {

broadcast use group_hash_axioms;

/// The mathematical state of a board: its geometry and the card of each
/// occupied cell, a cell being a pair of a row and a column.
pub ghost struct BoardModel {
    pub row_count: nat,
    pub col_count: nat,
    /// Width of the playable area in pixels.
    pub width: nat,
    /// Height of the playable area in pixels.
    pub height: nat,
    pub cards: Map<(int, int), CardModel>,
}

impl BoardModel {
    /// A board without cards.
    pub open spec fn empty(row_count: nat, col_count: nat, width: nat, height: nat) -> BoardModel {
        BoardModel { row_count, col_count, width, height, cards: Map::empty() }
    }

    /// Every card on the board is well-formed.
    pub open spec fn wf(self) -> bool {
        forall|cell: (int, int)| #[trigger]
            self.cards.contains_key(cell) ==> self.cards[cell].wf()
    }

    /// The cell under the pixel `(x, y)`: the row is `y` divided by the
    /// height of a row, `height / row_count`, and rounded down, which is
    /// `y * row_count / height` rounded down; the column likewise. A board
    /// without area has no cells.
    pub open spec fn cell_at(self, x: int, y: int) -> Option<(int, int)> {
        if self.width == 0 || self.height == 0 {
            None
        } else {
            Some(
                (
                    (y * self.row_count) / (self.height as int),
                    (x * self.col_count) / (self.width as int),
                ),
            )
        }
    }

    /// The card under the pixel `(x, y)`, if its cell is occupied.
    pub open spec fn card_at(self, x: int, y: int) -> Option<CardModel> {
        match self.cell_at(x, y) {
            Some(cell) => if self.cards.contains_key(cell) {
                Some(self.cards[cell])
            } else {
                None
            },
            None => None,
        }
    }

    /// The middle of the cell `(row, col)`: its column's left edge,
    /// `col * width / col_count`, and half the width of a column more, which
    /// is `(2 * col + 1) * width / (2 * col_count)`; its row likewise.
    pub open spec fn cell_center(self, cell: (int, int)) -> (Fraction, Fraction) {
        (
            Fraction {
                num: ((2 * cell.1 + 1) * self.width) as nat,
                den: 2 * self.col_count,
            },
            Fraction {
                num: ((2 * cell.0 + 1) * self.height) as nat,
                den: 2 * self.row_count,
            },
        )
    }

    /// The drawing of the card at an occupied cell, in the middle of the
    /// cell.
    pub open spec fn sprite_at(self, cell: (int, int)) -> Option<SpriteModel> {
        self.cards[cell].sprite(self.cell_center(cell).0, self.cell_center(cell).1)
    }

    /// The board with `card` at `cell`, in place of what was there.
    pub open spec fn with_card(self, cell: (int, int), card: CardModel) -> BoardModel {
        BoardModel { cards: self.cards.insert(cell, card), ..self }
    }

    /// The board after the card at `cell`, if there is one, has advanced by
    /// `dt` microseconds.
    pub open spec fn step_cell(self, cell: (int, int), dt: nat) -> BoardModel {
        if self.cards.contains_key(cell) {
            self.with_card(cell, self.cards[cell].step(dt))
        } else {
            self
        }
    }

    /// The board after the cards at `cells` have advanced by `dt`
    /// microseconds, one after the other in the order of `cells`.
    pub open spec fn step_cells(self, cells: Seq<(int, int)>, dt: nat) -> BoardModel
        decreases cells.len(),
    {
        if cells.len() == 0 {
            self
        } else {
            self.step_cells(cells.drop_last(), dt).step_cell(cells.last(), dt)
        }
    }

    /// The board after `dt` more microseconds: every card advances.
    pub open spec fn step(self, dt: nat) -> BoardModel {
        BoardModel { cards: self.cards.map_values(|card: CardModel| card.step(dt)), ..self }
    }
}

/// The key under which the board files the cell `(row, col)`.
spec fn cell_key(row: int, col: int) -> int {
    row * 0x1_0000_0000 + col
}

/// The drawing of the card of one cell.
#[derive(Debug, Clone, Copy, PartialEq, Eq, Structural)]
pub struct Placement {
    pub row: u32,
    pub col: u32,
    /// Nothing while the image of the card's visible face is not loaded.
    pub sprite: Option<Sprite>,
}

impl Placement {
    /// The cell that the drawing belongs to.
    pub open spec fn cell(self) -> (int, int) {
        (self.row as int, self.col as int)
    }
}

/// A cell that holds a card.
#[derive(Debug)]
struct Slot {
    row: u32,
    col: u32,
    card: Card,
}

/// The grid of cards.
#[derive(Debug)]
pub struct Board {
    row_count: u32,
    col_count: u32,
    width: u32,
    height: u32,
    /// For each occupied cell, by its key, the place of its slot.
    index: HashMap<u64, usize>,
    slots: Vec<Slot>,
}

impl View for Board {
    type V = BoardModel;

    closed spec fn view(&self) -> BoardModel {
        BoardModel {
            row_count: self.row_count as nat,
            col_count: self.col_count as nat,
            width: self.width as nat,
            height: self.height as nat,
            cards: Map::new(
                |cell: (int, int)| self.occupied(cell),
                |cell: (int, int)| self.slots@[self.place(cell)].card@,
            ),
        }
    }
}

impl Board {
    /// The cell is one that the index knows.
    spec fn occupied(&self, cell: (int, int)) -> bool {
        &&& 0 <= cell.0 <= u32::MAX
        &&& 0 <= cell.1 <= u32::MAX
        &&& self.index@.contains_key(cell_key(cell.0, cell.1) as u64)
    }

    /// The place of an occupied cell's slot.
    spec fn place(&self, cell: (int, int)) -> int {
        self.index@[cell_key(cell.0, cell.1) as u64] as int
    }

    /// The key of the cell of the slot at place `i`.
    spec fn slot_key(&self, i: int) -> u64 {
        cell_key(self.slots@[i].row as int, self.slots@[i].col as int) as u64
    }

    /// The index and the slots agree: each slot is filed under its cell's
    /// key, and each key leads to the slot of its cell.
    pub closed spec fn inv(&self) -> bool {
        &&& forall|i: int|
            0 <= i < self.slots@.len() ==> self.index@.contains_key(#[trigger] self.slot_key(i))
                && self.index@[self.slot_key(i)] == i
        &&& forall|key: u64| #[trigger]
            self.index@.contains_key(key) ==> 0 <= self.index@[key] < self.slots@.len()
                && self.slot_key(self.index@[key] as int) == key
    }

    /// The board keeps its own books in order, and every card on it is
    /// well-formed.
    pub open spec fn wf(&self) -> bool {
        self.inv() && self@.wf()
    }

    /// A board of the given geometry, without cards.
    pub fn new(row_count: u32, col_count: u32, width: u32, height: u32) -> (board: Board)
        ensures
            board@ == BoardModel::empty(row_count as nat, col_count as nat, width as nat, height as nat),
            board.wf(),
    {
        let board = Board {
            row_count,
            col_count,
            width,
            height,
            index: HashMap::new(),
            slots: Vec::new(),
        };
        assert(board@.cards =~= Map::empty());
        board
    }

    /// The place of the slot of the cell `(row, col)`, if the cell is occupied.
    fn find(&self, row: u32, col: u32) -> (found: Option<usize>)
        requires
            self.inv(),
        ensures
            match found {
                Some(i) => self.occupied((row as int, col as int)) && self.place(
                    (row as int, col as int),
                ) == i && i < self.slots@.len(),
                None => !self.occupied((row as int, col as int)),
            },
    {
        let key = key_of(row, col);
        match self.index.get(&key) {
            Some(place) => Some(*place),
            None => None,
        }
    }

    /// Puts `card` on the cell `(row, col)`, in place of the card that was
    /// there, if any.
    pub fn set_card(&mut self, row: u32, col: u32, card: Card)
        requires
            old(self).inv(),
        ensures
            final(self).inv(),
            final(self)@ == old(self)@.with_card((row as int, col as int), card@),
            old(self).wf() && card.wf() ==> final(self).wf(),
    {
        match self.find(row, col) {
            Some(i) => {
                self.slots[i].card = card;
                proof {
                    assert forall|j: int| 0 <= j < self.slots@.len() implies #[trigger] self.slot_key(j)
                        == old(self).slot_key(j) by {}
                }
            },
            None => {
                self.index.insert(key_of(row, col), self.slots.len());
                self.slots.push(Slot { row, col, card });
                proof {
                    lemma_cell_key_injective();
                    assert forall|j: int| 0 <= j < old(self).slots@.len() implies #[trigger] self.slot_key(j)
                        == old(self).slot_key(j) by {}
                    assert(self.slot_key(old(self).slots@.len() as int) == cell_key(
                        row as int,
                        col as int,
                    ));
                }
            },
        }
        proof {
            lemma_cell_key_injective();
            assert(self@.cards =~= old(self)@.cards.insert((row as int, col as int), card@));
        }
    }

    /// The cell under the pixel `(x, y)`, where its row and column can be
    /// those of a card.
    pub fn cell_at(&self, x: i64, y: i64) -> (cell: Option<(u32, u32)>)
        ensures
            match cell {
                Some((row, col)) => self@.cell_at(x as int, y as int) == Some(
                    (row as int, col as int),
                ),
                None => match self@.cell_at(x as int, y as int) {
                    Some((row, col)) => !(0 <= row <= u32::MAX && 0 <= col <= u32::MAX),
                    None => true,
                },
            },
    {
        if self.width == 0 || self.height == 0 {
            return None;
        }
        let row = floor_of_share(y, self.row_count, self.height);
        let col = floor_of_share(x, self.col_count, self.width);
        match (row, col) {
            (Some(row), Some(col)) => Some((row, col)),
            _ => None,
        }
    }

    /// The card under the pixel `(x, y)`, or nothing where its cell holds
    /// none.
    pub fn interact_with_card(&mut self, x: i64, y: i64) -> (card: Option<&mut Card>)
        requires
            old(self).inv(),
        ensures
            final(self).inv(),
            match card {
                Some(card) => {
                    &&& old(self)@.card_at(x as int, y as int) == Some(card@)
                    &&& final(self)@ == old(self)@.with_card(
                        old(self)@.cell_at(x as int, y as int).unwrap(),
                        final(card)@,
                    )
                    &&& old(self).wf() ==> card.wf()
                    &&& old(self).wf() && final(card).wf() ==> final(self).wf()
                },
                None => {
                    &&& old(self)@.card_at(x as int, y as int) is None
                    &&& final(self)@ == old(self)@
                },
            },
    {
        let found = match self.cell_at(x, y) {
            Some((row, col)) => self.find(row, col),
            None => None,
        };
        match found {
            Some(i) => {
                let ghost after = *final(self);
                let card = &mut self.slots[i].card;
                proof {
                    lemma_cell_key_injective();
                    let cell = old(self)@.cell_at(x as int, y as int).unwrap();
                    assert(after.slots@.len() == old(self).slots@.len());
                    assert forall|j: int| 0 <= j < old(self).slots@.len() implies
                        #[trigger] after.slot_key(j) == old(self).slot_key(j) by {}
                    assert(after@.cards =~= old(self)@.cards.insert(cell, final(card)@));
                }
                Some(card)
            },
            None => None,
        }
    }

    /// Advances every card on the board by `dt` microseconds.
    pub fn update(&mut self, dt: u64)
        requires
            old(self).wf(),
        ensures
            final(self).wf(),
            final(self)@ == old(self)@.step(dt as nat),
    {
        proof {
            lemma_cell_key_injective();
            assert forall|j: int| 0 <= j < self.slots@.len() implies (#[trigger] self.slots@[j]).card.wf() by {
                let cell = (self.slots@[j].row as int, self.slots@[j].col as int);
                assert(self.index@.contains_key(self.slot_key(j)));
                assert(self@.cards.contains_key(cell));
            }
        }
        let mut i: usize = 0;
        while i < self.slots.len()
            invariant
                0 <= i <= self.slots@.len(),
                self.slots@.len() == old(self).slots@.len(),
                self.index == old(self).index,
                self.row_count == old(self).row_count,
                self.col_count == old(self).col_count,
                self.width == old(self).width,
                self.height == old(self).height,
                forall|j: int|
                    0 <= j < self.slots@.len() ==> {
                        &&& (#[trigger] self.slots@[j]).row == old(self).slots@[j].row
                        &&& self.slots@[j].col == old(self).slots@[j].col
                        &&& self.slots@[j].card.wf()
                        &&& self.slots@[j].card@ == if j < i {
                            old(self).slots@[j].card@.step(dt as nat)
                        } else {
                            old(self).slots@[j].card@
                        }
                    },
            decreases self.slots@.len() - i,
        {
            self.slots[i].card.update(dt);
            i += 1;
        }
        proof {
            assert forall|j: int| 0 <= j < self.slots@.len() implies #[trigger] self.slot_key(j)
                == old(self).slot_key(j) by {}
            assert(self@.cards =~= old(self)@.step(dt as nat).cards);
        }
    }

    /// The middle of the cell `(row, col)`, in pixels.
    pub fn cell_center(&self, row: u32, col: u32) -> (center: (Ratio, Ratio))
        ensures
            (center.0@, center.1@) == self@.cell_center((row as int, col as int)),
    {
        assert((2 * col + 1) * self.width <= 0x2_0000_0000 * 0x1_0000_0000) by (nonlinear_arith)
            requires
                0 <= col <= u32::MAX,
                0 <= self.width <= u32::MAX,
        ;
        assert((2 * row + 1) * self.height <= 0x2_0000_0000 * 0x1_0000_0000) by (nonlinear_arith)
            requires
                0 <= row <= u32::MAX,
                0 <= self.height <= u32::MAX,
        ;
        (
            Ratio {
                num: (2 * (col as u128) + 1) * (self.width as u128),
                den: 2 * (self.col_count as u128),
            },
            Ratio {
                num: (2 * (row as u128) + 1) * (self.height as u128),
                den: 2 * (self.row_count as u128),
            },
        )
    }

    /// The drawings of the cards on the board: one for each occupied cell,
    /// with the card in the middle of its cell.
    pub fn draw(&self) -> (drawn: Vec<Placement>)
        requires
            self.wf(),
        ensures
            drawn@.map_values(|p: Placement| p.cell()).no_duplicates(),
            forall|cell: (int, int)|
                self@.cards.contains_key(cell) <==> drawn@.map_values(|p: Placement| p.cell()).contains(
                    cell,
                ),
            forall|i: int|
                0 <= i < drawn@.len() ==> sprite_view((#[trigger] drawn@[i]).sprite)
                    == self@.sprite_at(drawn@[i].cell()),
    {
        let mut drawn: Vec<Placement> = Vec::new();
        let mut i: usize = 0;
        proof {
            lemma_cell_key_injective();
        }
        while i < self.slots.len()
            invariant
                self.wf(),
                0 <= i <= self.slots@.len(),
                drawn@.len() == i,
                forall|j: int|
                    0 <= j < i ==> {
                        &&& (#[trigger] drawn@[j]).row == self.slots@[j].row
                        &&& drawn@[j].col == self.slots@[j].col
                        &&& sprite_view(drawn@[j].sprite) == self@.sprite_at(drawn@[j].cell())
                    },
            decreases self.slots@.len() - i,
        {
            let slot = &self.slots[i];
            proof {
                let cell = (slot.row as int, slot.col as int);
                assert(self.index@.contains_key(self.slot_key(i as int)));
                assert(self@.cards.contains_key(cell));
                assert(self.place(cell) == i);
            }
            let center = self.cell_center(slot.row, slot.col);
            let sprite = slot.card.draw(center.0, center.1);
            drawn.push(Placement { row: slot.row, col: slot.col, sprite });
            i += 1;
        }
        proof {
            let cells = drawn@.map_values(|p: Placement| p.cell());
            assert forall|j: int, k: int| 0 <= j < cells.len() && 0 <= k < cells.len() && j
                != k implies cells[j] != cells[k] by {
                assert(self.index@[self.slot_key(j)] == j);
                assert(self.index@[self.slot_key(k)] == k);
            }
            assert forall|cell: (int, int)| self@.cards.contains_key(cell) implies cells.contains(
                cell,
            ) by {
                let j = self.place(cell);
                assert(self.slot_key(j) == cell_key(cell.0, cell.1));
                assert(cells[j] == cell);
            }
            assert forall|cell: (int, int)| cells.contains(cell) implies self@.cards.contains_key(
                cell,
            ) by {
                let j = choose|j: int| 0 <= j < cells.len() && cells[j] == cell;
                assert(self.index@.contains_key(self.slot_key(j)));
            }
        }
        drawn
    }
}

/// `coordinate * count / extent`, rounded down, where that is the number of
/// a row or a column.
fn floor_of_share(coordinate: i64, count: u32, extent: u32) -> (share: Option<u32>)
    requires
        extent > 0,
    ensures
        match share {
            Some(n) => n == (coordinate * count) / (extent as int),
            None => !(0 <= (coordinate * count) / (extent as int) <= u32::MAX),
        },
{
    if coordinate < 0 {
        if count == 0 {
            Some(0)
        } else {
            proof {
                assert(coordinate * count < 0) by (nonlinear_arith)
                    requires
                        coordinate < 0,
                        count > 0,
                ;
                lemma_floor_of_negative(coordinate * count, extent as int);
            }
            None
        }
    } else {
        assert(0 <= coordinate * count <= i64::MAX * u32::MAX) by (nonlinear_arith)
            requires
                0 <= coordinate <= i64::MAX,
                0 <= count <= u32::MAX,
        ;
        let product: u128 = (coordinate as u128) * (count as u128);
        let quotient: u128 = product / (extent as u128);
        if quotient > u32::MAX as u128 {
            None
        } else {
            Some(quotient as u32)
        }
    }
}

/// A negative number divided by a positive one, rounded down, is negative.
proof fn lemma_floor_of_negative(a: int, d: int)
    requires
        a < 0,
        d > 0,
    ensures
        a / d < 0,
{
    assert(a / d < 0) by (nonlinear_arith)
        requires
            a < 0,
            d > 0,
    ;
}

/// The key of a cell, computed.
fn key_of(row: u32, col: u32) -> (key: u64)
    ensures
        key == cell_key(row as int, col as int),
{
    (row as u64) * 0x1_0000_0000 + (col as u64)
}

/// Cells of rows and columns below 2^32 have keys below 2^64, and no two of
/// them the same key.
proof fn lemma_cell_key_injective()
    ensures
        forall|row: int, col: int|
            0 <= row <= u32::MAX && 0 <= col <= u32::MAX ==> 0 <= #[trigger] cell_key(row, col)
                <= u64::MAX,
        forall|r1: int, c1: int, r2: int, c2: int|
            0 <= r1 <= u32::MAX && 0 <= c1 <= u32::MAX && 0 <= r2 <= u32::MAX && 0 <= c2
                <= u32::MAX && #[trigger] cell_key(r1, c1) == #[trigger] cell_key(r2, c2) ==> r1
                == r2 && c1 == c2,
{
}

/// Two cards of a board may be advanced in either order: the board that
/// results is the same.
pub proof fn lemma_step_cells_commute(board: BoardModel, a: (int, int), b: (int, int), dt: nat)
    ensures
        board.step_cell(a, dt).step_cell(b, dt) == board.step_cell(b, dt).step_cell(a, dt),
{
    if a != b {
        assert(board.step_cell(a, dt).step_cell(b, dt).cards =~= board.step_cell(b, dt).step_cell(
            a,
            dt,
        ).cards);
    }
}

/// Advancing some of the cards of a board, each once and in whatever order,
/// leaves the board with those cards advanced and the others as they were.
pub proof fn lemma_step_cells_by_card(board: BoardModel, cells: Seq<(int, int)>, dt: nat)
    requires
        cells.no_duplicates(),
    ensures
        board.step_cells(cells, dt) == (BoardModel {
            cards: Map::new(
                |cell: (int, int)| board.cards.contains_key(cell),
                |cell: (int, int)|
                    if cells.contains(cell) {
                        board.cards[cell].step(dt)
                    } else {
                        board.cards[cell]
                    },
            ),
            ..board
        }),
    decreases cells.len(),
{
    let stepped = Map::new(
        |cell: (int, int)| board.cards.contains_key(cell),
        |cell: (int, int)|
            if cells.contains(cell) {
                board.cards[cell].step(dt)
            } else {
                board.cards[cell]
            },
    );
    if cells.len() == 0 {
        assert(stepped =~= board.cards);
    } else {
        let before = cells.drop_last();
        lemma_step_cells_by_card(board, before, dt);
        assert(!before.contains(cells.last()));
        assert forall|cell: (int, int)| cells.contains(cell) <==> before.contains(cell) || cell
            == cells.last() by {
            if before.contains(cell) {
                let i = choose|i: int| 0 <= i < before.len() && before[i] == cell;
                assert(cells[i] == cell);
            }
            if cell == cells.last() {
                assert(cells[cells.len() - 1] == cell);
            }
            if cells.contains(cell) && cell != cells.last() {
                let i = choose|i: int| 0 <= i < cells.len() && cells[i] == cell;
                assert(before[i] == cell);
            }
        }
        assert(board.step_cells(cells, dt).cards =~= stepped);
    }
}

/// Advancing the cards of a board one by one, each once and in whatever
/// order, gives the board that an update of the whole board gives.
pub proof fn lemma_update_in_any_order(board: BoardModel, order: Seq<(int, int)>, dt: nat)
    requires
        order.no_duplicates(),
        forall|cell: (int, int)| board.cards.contains_key(cell) <==> order.contains(cell),
    ensures
        board.step_cells(order, dt) == board.step(dt),
{
    lemma_step_cells_by_card(board, order, dt);
    assert(board.step_cells(order, dt).cards =~= board.step(dt).cards);
}

} // verus!
