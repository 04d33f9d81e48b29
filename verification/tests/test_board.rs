use memory_game::board::{Board, Placement};
use memory_game::cards::{Card, CardState, FlipAnimationState, ImageHandle, FLIP_DURATION};
use memory_game::ratio::Ratio;

fn two_by_two() -> Board {
    let mut board = Board::new(2, 2, 1024, 768);

    board.set_card(0, 0, Card::new("card_0_0"));
    board.set_card(1, 0, Card::new("card_1_0"));
    board.set_card(0, 1, Card::new("card_0_1"));
    board.set_card(1, 1, Card::new("card_1_1"));
    board
}

#[test]
fn test_finding_a_card_by_coordinates() {
    let mut board = Board::new(2, 2, 1024, 768);

    board.set_card(0, 0, Card::new("card_0_0"));
    board.set_card(1, 0, Card::new("card_1_0"));
    board.set_card(0, 1, Card::new("card_0_1"));
    board.set_card(1, 1, Card::new("card_1_1"));

    assert_eq!(board.interact_with_card(500, 300).unwrap().identifier, "card_0_0");
    assert_eq!(board.interact_with_card(600, 300).unwrap().identifier, "card_0_1");
    assert_eq!(board.interact_with_card(500, 400).unwrap().identifier, "card_1_0");
    assert_eq!(board.interact_with_card(600, 400).unwrap().identifier, "card_1_1");
}

#[test]
fn test_unset_cell_is_absent() {
    let mut board = Board::new(2, 2, 1024, 768);
    board.set_card(0, 0, Card::new("card_0_0"));

    assert!(board.interact_with_card(500, 300).is_some());
    assert!(board.interact_with_card(600, 300).is_none());
    assert!(board.interact_with_card(500, 400).is_none());
    assert!(board.interact_with_card(600, 400).is_none());
}

#[test]
fn test_cell_boundaries() {
    let board = Board::new(2, 2, 1024, 768);

    assert_eq!(board.cell_at(0, 0), Some((0, 0)));
    assert_eq!(board.cell_at(511, 383), Some((0, 0)));
    assert_eq!(board.cell_at(512, 383), Some((0, 1)));
    assert_eq!(board.cell_at(511, 384), Some((1, 0)));
    assert_eq!(board.cell_at(1023, 767), Some((1, 1)));
}

#[test]
fn test_cell_of_uneven_grid() {
    // Three columns over 1024 pixels: the second column starts at 341 1/3.
    let board = Board::new(1, 3, 1024, 100);

    assert_eq!(board.cell_at(341, 0), Some((0, 0)));
    assert_eq!(board.cell_at(342, 0), Some((0, 1)));
    assert_eq!(board.cell_at(682, 0), Some((0, 1)));
    assert_eq!(board.cell_at(683, 0), Some((0, 2)));
}

#[test]
fn test_out_of_range_coordinates_miss() {
    let mut board = two_by_two();

    // Beyond the grid: a cell that no card was put on.
    assert_eq!(board.cell_at(1024, 768), Some((2, 2)));
    assert!(board.interact_with_card(1024, 768).is_none());
    assert!(board.interact_with_card(5000, 300).is_none());

    // Left of or above the origin: no cell that a card can be on.
    assert_eq!(board.cell_at(-1, 300), None);
    assert_eq!(board.cell_at(500, -1), None);
    assert!(board.interact_with_card(-1, 300).is_none());
    assert!(board.interact_with_card(500, -1).is_none());
    assert!(board.interact_with_card(i64::MIN, i64::MIN).is_none());

    // Far beyond: the cell's number does not fit a row or column.
    assert_eq!(board.cell_at(i64::MAX, 0), None);
    assert!(board.interact_with_card(i64::MAX, i64::MAX).is_none());
}

#[test]
fn test_card_beyond_the_grid_is_found() {
    let mut board = Board::new(2, 2, 1024, 768);
    board.set_card(2, 3, Card::new("outside"));

    assert_eq!(board.interact_with_card(1536, 768).unwrap().identifier, "outside");
}

#[test]
fn test_board_without_area_has_no_cells() {
    let mut board = Board::new(2, 2, 0, 768);
    board.set_card(0, 0, Card::new("card_0_0"));
    assert_eq!(board.cell_at(0, 0), None);
    assert!(board.interact_with_card(0, 0).is_none());

    let mut board = Board::new(2, 2, 1024, 0);
    board.set_card(0, 0, Card::new("card_0_0"));
    assert_eq!(board.cell_at(0, 0), None);
    assert!(board.interact_with_card(0, 0).is_none());
}

#[test]
fn test_board_without_rows_or_columns() {
    let mut board = Board::new(0, 0, 1024, 768);
    board.set_card(0, 0, Card::new("only"));

    // Every pixel lies in row 0 and column 0, also left of the origin.
    assert_eq!(board.cell_at(1000, 700), Some((0, 0)));
    assert_eq!(board.cell_at(-5, -5), Some((0, 0)));
    assert_eq!(board.interact_with_card(-5, 700).unwrap().identifier, "only");
}

#[test]
fn test_set_card_overwrites() {
    let mut board = Board::new(2, 2, 1024, 768);
    board.set_card(0, 0, Card::new("first"));
    board.set_card(0, 0, Card::new("second"));

    assert_eq!(board.interact_with_card(10, 10).unwrap().identifier, "second");
    assert_eq!(board.draw().len(), 1);
}

#[test]
fn test_board_update_reaches_every_card() {
    let mut board = two_by_two();
    board.interact_with_card(500, 300).unwrap().trigger_flip();
    board.interact_with_card(600, 400).unwrap().trigger_flip();

    board.update(FLIP_DURATION);

    assert_eq!(board.interact_with_card(500, 300).unwrap().state, CardState::Front);
    assert_eq!(board.interact_with_card(600, 400).unwrap().state, CardState::Front);
    assert_eq!(board.interact_with_card(600, 300).unwrap().state, CardState::Back);
    assert_eq!(board.interact_with_card(500, 400).unwrap().state, CardState::Back);
    assert_eq!(
        board.interact_with_card(500, 300).unwrap().animation.state(),
        FlipAnimationState::AfterFlip
    );
    assert_eq!(
        board.interact_with_card(600, 300).unwrap().animation.state(),
        FlipAnimationState::Stopped
    );
}

#[test]
fn test_board_update_equals_updating_each_card() {
    // The board's update against the same cards updated alone, in two orders.
    let mut board = two_by_two();
    board.interact_with_card(500, 300).unwrap().trigger_flip();
    board.interact_with_card(600, 400).unwrap().trigger_flip();
    board.update(120_000);
    board.update(200_000);

    let mut alone = vec![
        Card::new("card_0_0"),
        Card::new("card_0_1"),
        Card::new("card_1_0"),
        Card::new("card_1_1"),
    ];
    alone[0].trigger_flip();
    alone[3].trigger_flip();
    for i in [3, 1, 0, 2] {
        alone[i].update(120_000);
    }
    for i in [2, 0, 3, 1] {
        alone[i].update(200_000);
    }

    let points = [(500, 300), (600, 300), (500, 400), (600, 400)];
    for (i, (x, y)) in points.iter().enumerate() {
        let card = board.interact_with_card(*x, *y).unwrap();
        assert_eq!(card.identifier, alone[i].identifier);
        assert_eq!(card.state, alone[i].state);
        assert_eq!(card.animation.state(), alone[i].animation.state());
        assert_eq!(card.animation.scale_x(), alone[i].animation.scale_x());
    }
}

#[test]
fn test_cell_center() {
    let board = Board::new(2, 2, 1024, 768);

    // Column 0 is 512 wide, row 0 is 384 high: the middle is (256, 192).
    assert_eq!(
        board.cell_center(0, 0),
        (Ratio { num: 1024, den: 4 }, Ratio { num: 768, den: 4 })
    );
    // Row 1, column 1: the middle is (768, 576).
    assert_eq!(
        board.cell_center(1, 1),
        (Ratio { num: 3 * 1024, den: 4 }, Ratio { num: 3 * 768, den: 4 })
    );
    // Row 1, column 0.
    assert_eq!(
        board.cell_center(1, 0),
        (Ratio { num: 1024, den: 4 }, Ratio { num: 3 * 768, den: 4 })
    );
}

#[test]
fn test_cell_center_of_largest_cell() {
    let board = Board::new(u32::MAX, u32::MAX, u32::MAX, u32::MAX);
    let max = u32::MAX as u128;
    assert_eq!(
        board.cell_center(u32::MAX, u32::MAX),
        (
            Ratio { num: (2 * max + 1) * max, den: 2 * max },
            Ratio { num: (2 * max + 1) * max, den: 2 * max }
        )
    );
}

#[test]
fn test_draw_skips_images_not_loaded() {
    let board = two_by_two();
    let drawn = board.draw();

    assert_eq!(drawn.len(), 4);
    assert!(drawn.iter().all(|p| p.sprite.is_none()));
    let mut cells: Vec<(u32, u32)> = drawn.iter().map(|p| (p.row, p.col)).collect();
    cells.sort();
    assert_eq!(cells, vec![(0, 0), (0, 1), (1, 0), (1, 1)]);
}

#[test]
fn test_draw_places_cards_in_the_middle_of_their_cells() {
    let mut board = Board::new(2, 2, 1024, 768);
    let mut card = Card::new("card_1_0");
    card.load(ImageHandle { id: 7 }, ImageHandle { id: 8 });
    board.set_card(1, 0, card);

    let drawn = board.draw();
    assert_eq!(drawn.len(), 1);
    let Placement { row, col, sprite } = drawn[0];
    assert_eq!((row, col), (1, 0));
    let sprite = sprite.unwrap();
    // Face down: the image of the back.
    assert_eq!(sprite.image, ImageHandle { id: 8 });
    assert_eq!(sprite.dest_x, Ratio { num: 1024, den: 4 });
    assert_eq!(sprite.dest_y, Ratio { num: 3 * 768, den: 4 });
    assert_eq!(sprite.offset_x, Ratio { num: 1, den: 2 });
    assert_eq!(sprite.offset_y, Ratio { num: 1, den: 2 });
    // Idle: 3/2 times 1, and 3/2.
    assert_eq!(
        sprite.scale_x,
        Ratio { num: 3 * FLIP_DURATION as u128, den: 2 * FLIP_DURATION as u128 }
    );
    assert_eq!(sprite.scale_y, Ratio { num: 3, den: 2 });
}

#[test]
fn test_empty_board() {
    let mut board = Board::new(3, 4, 1200, 1000);
    assert!(board.draw().is_empty());
    assert!(board.interact_with_card(10, 10).is_none());
    board.update(1_000);
    assert!(board.draw().is_empty());
}
