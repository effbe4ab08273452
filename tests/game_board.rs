use mmxlviii::board::{Coord, Direction, IntoBoard, CELLS, SIZE};
use mmxlviii::codec::BYTES_SIZE;
use mmxlviii::colour::{colour_with_hue, get_tile_colour};
use mmxlviii::game_board::{GameBoard, TileMoveResult};
use smart_leds::RGB8;

#[test]
fn test_get_board_index() {
    let index = 7;
    let coord = Coord::from_index(index).unwrap();
    assert_eq!(coord.board_index(), index)
}

#[test]
fn test_empty_instantiation() {
    let board = GameBoard::empty();
    assert!(board.get_board().iter().all(|&tile| tile == 0));
    assert_eq!(board.get_score(), 0);
}

#[test]
fn test_clear() {
    let mut board = GameBoard::from_parts([1; CELLS], 100);
    board.clear();
    assert!(board.get_board().iter().all(|&tile| tile == 0));
    assert_eq!(board.get_score(), 0);
}

#[test]
fn test_max_tile() {
    let mut board = GameBoard::empty();
    board.set_tile(Coord::from_index(7).unwrap(), 11);
    assert_eq!(board.max_tile(), 11)
}

#[test]
fn test_is_full() {
    let mut board = GameBoard::full_of(1);
    assert!(board.is_full());
    board.set_tile(Coord::new(0, 0).unwrap(), 0);
    assert!(!board.is_full());
}

#[test]
fn test_get_tile() {
    let coord = Coord::new(2, 3).unwrap();
    let mut board = GameBoard::empty();
    board.set_tile(coord, 5);
    assert_eq!(board.get_tile(coord), 5)
}

#[test]
fn test_set_tile() {
    let coord = Coord::new(2, 3).unwrap();
    let mut board = GameBoard::empty();
    board.set_tile(coord, 5);
    assert_eq!(board.get_board()[coord.board_index()], 5)
}

#[test]
fn test_clear_tile() {
    let coord = Coord::new(2, 3).unwrap();
    let mut board = GameBoard::full_of(1);
    board.clear_tile(coord);
    assert_eq!(board.get_board()[coord.board_index()], 0)
}

#[test]
fn test_get_score() {
    let board = GameBoard::empty();
    assert_eq!(board.get_score(), 0);
}

#[test]
fn test_vacant_tiles_all() {
    let board = GameBoard::empty();
    let ans = board.vacant_tiles();
    assert_eq!(ans.len(), SIZE * SIZE);
}

#[test]
fn test_vacant_tiles_some() {
    let mut board = GameBoard::empty();
    board.set_tile(Coord::new(2, 0).unwrap(), 3);
    board.set_tile(Coord::new(1, 1).unwrap(), 1);
    board.set_tile(Coord::new(1, 3).unwrap(), 8);
    assert_eq!(board.vacant_tiles().len(), SIZE * SIZE - 3);
}

#[test]
fn test_vacant_tiles_all_but_one() {
    let mut board = GameBoard::full_of(1);
    let vacant_tile = Coord::new(3, 0).unwrap();
    board.set_tile(vacant_tile, 0);
    assert_eq!(board.vacant_tiles()[0], vacant_tile);
}

#[test]
fn test_vacant_tiles_none() {
    let board = GameBoard::full_of(1);
    assert_eq!(board.vacant_tiles().len(), 0);
}

#[test]
fn test_random_vacant_tile() {
    let mut board = GameBoard::full_of(1);
    let vacant_tile = Coord::new(3, 0).unwrap();
    board.set_tile(vacant_tile, 0);
    assert_eq!(board.random_vacant_tile().unwrap(), vacant_tile);
}

#[test]
fn test_random_vacant_tile_none() {
    let mut board = GameBoard::full_of(1);
    assert!(!board.set_random())
}

#[test]
fn test_set_random() {
    let mut board = GameBoard::empty();
    board.set_random();
    assert!(board.max_tile() != 0)
}

#[test]
fn test_find_tile_move() {
    let mut board = GameBoard::empty();
    let start_coord = Coord::new(1, 0).unwrap();
    board.set_tile(start_coord, 1);
    board.set_tile(Coord::new(3, 0).unwrap(), 1);
    board.set_tile(Coord::new(0, 0).unwrap(), 2);

    // Board looks like
    // |         |
    // |         |
    // |         |
    // | 2 1   1 |

    assert_eq!(
        board.find_tile_move(start_coord, Direction::Up),
        TileMoveResult::Free(Coord::new(1, 3).unwrap())
    );
    assert_eq!(
        board.find_tile_move(start_coord, Direction::Down),
        TileMoveResult::NoMove
    );
    assert_eq!(
        board.find_tile_move(start_coord, Direction::Left),
        TileMoveResult::NoMove
    );
    assert_eq!(
        board.find_tile_move(start_coord, Direction::Right),
        TileMoveResult::Merge(Coord::new(3, 0).unwrap())
    );
}

#[test]
fn test_make_move() {
    let mut board = GameBoard::empty();
    board.set_tile(Coord::new(0, 0).unwrap(), 1);
    assert!(board.make_move(Direction::Up));

    let mut expected_board = GameBoard::empty();
    expected_board.set_tile(Coord::new(0, 3).unwrap(), 1);

    assert!(board == expected_board);

    board.set_tile(Coord::new(2, 3).unwrap(), 1);
    assert!(board.make_move(Direction::Right));

    expected_board.clear();
    expected_board.set_tile(Coord::new(3, 3).unwrap(), 2);
    let expected_board = GameBoard::from_parts(expected_board.get_board(), 4);

    assert!(board == expected_board);

    assert!(!board.make_move(Direction::Right));

    assert!(board == expected_board);
}

#[test]
fn test_make_move_full_board() {
    let mut board = GameBoard::full_of(1);

    assert!(board.make_move(Direction::Down));
    assert_eq!(
        board.get_board(),
        [2, 2, 2, 2, 2, 2, 2, 2, 0, 0, 0, 0, 0, 0, 0, 0]
    );
    assert_eq!(board.get_score(), 32);

    assert!(board.make_move(Direction::Up));
    assert_eq!(
        board.get_board(),
        [0, 0, 0, 0, 0, 0, 0, 0, 0, 0, 0, 0, 3, 3, 3, 3]
    );
    assert_eq!(board.get_score(), 64);

    assert!(board.make_move(Direction::Left));
    assert_eq!(
        board.get_board(),
        [0, 0, 0, 0, 0, 0, 0, 0, 0, 0, 0, 0, 4, 4, 0, 0]
    );
    assert_eq!(board.get_score(), 96);

    assert!(board.make_move(Direction::Right));
    assert_eq!(
        board.get_board(),
        [0, 0, 0, 0, 0, 0, 0, 0, 0, 0, 0, 0, 0, 0, 0, 5]
    );
    assert_eq!(board.get_score(), 128);

    assert!(!board.make_move(Direction::Up));
    assert_eq!(
        board.get_board(),
        [0, 0, 0, 0, 0, 0, 0, 0, 0, 0, 0, 0, 0, 0, 0, 5]
    );
    assert_eq!(board.get_score(), 128);
}

#[test]
fn test_get_colour() {
    for i in 0..(SIZE * SIZE) {
        get_tile_colour(i as u8);
    }
}

#[test]
fn test_eq() {
    let coords = [
        Coord::new(3, 1).unwrap(),
        Coord::new(0, 2).unwrap(),
        Coord::new(1, 0).unwrap(),
    ];
    let mut board1 = GameBoard::empty();
    let mut board2 = GameBoard::empty();
    for &coord in coords.iter() {
        board1.set_tile(coord, 1);
        board2.set_tile(coord, 1);
    }
    assert!(board1 == board2);
    let board2 = GameBoard::from_parts(board2.get_board(), 100);
    assert!(board1 != board2);

    let board3 = GameBoard::empty();
    assert!(board1 != board3);
}

fn do_serialisation_test_on_board(board: &GameBoard) {
    let bytes = board.to_bytes();
    let parsed_board = GameBoard::from_bytes(&bytes).unwrap();
    assert!(*board == parsed_board);
}

#[test]
fn test_serialisation() {
    let mut board = GameBoard::empty();
    (1..10).for_each(|_| {
        board.set_random();
        do_serialisation_test_on_board(&board);
    });

    (1..5).for_each(|_| {
        [
            Direction::Up,
            Direction::Right,
            Direction::Down,
            Direction::Left,
        ]
        .iter()
        .for_each(|&direction| {
            board.make_move(direction);
            board.set_random();
            do_serialisation_test_on_board(&board);
        });
    });

    board.set_tile(Coord::new(2, 2).unwrap(), 15);
    let board = GameBoard::from_parts(board.get_board(), 1000000);
    do_serialisation_test_on_board(&board);
}

#[test]
fn saved_bytes_layout() {
    let mut tiles = [0u8; CELLS];
    tiles[0] = 3;
    tiles[15] = 9;
    let bytes = GameBoard::from_parts(tiles, 300).to_bytes();
    assert_eq!(bytes.len(), BYTES_SIZE);
    assert_eq!(&bytes[..CELLS], &tiles[..]);
    // 300 as a varint: low seven bits with the continuation bit, then the rest.
    assert_eq!(bytes[16], 0xAC);
    assert_eq!(bytes[17], 0x02);
    assert!(bytes[18..].iter().all(|&b| b == 0));
}

#[test]
fn restore_largest_score() {
    let board = GameBoard::from_parts([7; CELLS], u32::MAX);
    let bytes = board.to_bytes();
    assert_eq!(&bytes[16..21], &[0xFF, 0xFF, 0xFF, 0xFF, 0x0F]);
    assert!(GameBoard::from_bytes(&bytes).unwrap() == board);
}

#[test]
fn restore_rejects_truncated_bytes() {
    let bytes = GameBoard::from_parts([1; CELLS], 5).to_bytes();
    assert!(GameBoard::from_bytes(&bytes[..CELLS]).is_none());
    assert!(GameBoard::from_bytes(&bytes[..3]).is_none());
    assert!(GameBoard::from_bytes(&[]).is_none());
}

#[test]
fn restore_rejects_malformed_score() {
    let mut bytes = [0u8; BYTES_SIZE];
    for b in bytes[CELLS..CELLS + 5].iter_mut() {
        *b = 0xFF;
    }
    assert!(GameBoard::from_bytes(&bytes).is_none());
    // A fifth byte above four bits overflows a u32.
    bytes[CELLS + 4] = 0x10;
    assert!(GameBoard::from_bytes(&bytes).is_none());
    bytes[CELLS + 4] = 0x0F;
    assert_eq!(GameBoard::from_bytes(&bytes).unwrap().get_score(), u32::MAX);
}

#[test]
fn restore_reads_exact_fields() {
    let mut bytes = [0u8; CELLS + 1];
    bytes[4] = 2;
    bytes[CELLS] = 100;
    let board = GameBoard::from_bytes(&bytes).unwrap();
    assert_eq!(board.get_score(), 100);
    assert_eq!(board.get_board()[4], 2);
    assert_eq!(board.max_tile(), 2);
}

#[test]
fn clear_then_not_full_and_max_zero() {
    let mut board = GameBoard::full_of(9);
    board.clear();
    assert!(!board.is_full());
    assert_eq!(board.max_tile(), 0);
}

#[test]
fn full_board_down_merges_columns() {
    let mut board = GameBoard::full_of(1);
    assert!(board.make_move(Direction::Down));
    assert_eq!(
        board.get_board(),
        [2, 2, 2, 2, 2, 2, 2, 2, 0, 0, 0, 0, 0, 0, 0, 0]
    );
    assert_eq!(board.get_score(), 8 * 4);
}

#[test]
fn stuck_board_does_not_move() {
    let mut tiles = [0u8; CELLS];
    for i in 0..CELLS {
        tiles[i] = if (i % SIZE + i / SIZE) % 2 == 0 { 1 } else { 2 };
    }
    let mut board = GameBoard::from_parts(tiles, 12);
    for &direction in [Direction::Up, Direction::Down, Direction::Left, Direction::Right].iter() {
        assert!(!board.make_move(direction));
        assert_eq!(board.get_board(), tiles);
        assert_eq!(board.get_score(), 12);
    }
}

#[test]
fn set_random_on_full_board_changes_nothing() {
    let mut board = GameBoard::from_parts([3; CELLS], 40);
    assert!(!board.set_random());
    assert_eq!(board.get_board(), [3; CELLS]);
    assert_eq!(board.get_score(), 40);
}

#[test]
fn new_game_has_two_tiles() {
    let board = GameBoard::new_game();
    let tiles = board.get_board();
    assert_eq!(tiles.iter().filter(|&&t| t != 0).count(), 2);
    assert!(tiles.iter().all(|&t| t <= 2));
    assert_eq!(board.get_score(), 0);
}

#[test]
fn new_game_is_reproducible() {
    assert!(GameBoard::new_game() == GameBoard::new_game());
}

#[test]
fn set_random_fills_one_empty_cell() {
    let mut board = GameBoard::full_of(4);
    board.clear_tile(Coord::new(1, 2).unwrap());
    board.clear_tile(Coord::new(3, 3).unwrap());
    assert!(board.set_random());
    let tiles = board.get_board();
    assert_eq!(tiles.iter().filter(|&&t| t == 0).count(), 1);
    assert_eq!(tiles.iter().filter(|&&t| t == 1 || t == 2).count(), 1);
}

#[test]
fn select_vacant_tile_uses_draw_modulo_count() {
    let mut board = GameBoard::full_of(1);
    board.clear_tile(Coord::new(0, 1).unwrap());
    board.clear_tile(Coord::new(2, 2).unwrap());
    board.clear_tile(Coord::new(3, 3).unwrap());
    assert_eq!(board.select_vacant_tile(0), Coord::new(0, 1));
    assert_eq!(board.select_vacant_tile(4), Coord::new(2, 2));
    assert_eq!(board.select_vacant_tile(5), Coord::new(3, 3));
    assert_eq!(GameBoard::full_of(1).select_vacant_tile(7), None);
}

#[test]
fn spawn_rank_one_in_ten() {
    assert_eq!(GameBoard::spawn_rank(0), 2);
    assert_eq!(GameBoard::spawn_rank(30), 2);
    assert_eq!(GameBoard::spawn_rank(1), 1);
    assert_eq!(GameBoard::spawn_rank(19), 1);
}

#[test]
fn merge_scores_power_of_two() {
    let mut board = GameBoard::empty();
    board.set_tile(Coord::new(0, 0).unwrap(), 5);
    board.set_tile(Coord::new(3, 0).unwrap(), 5);
    assert!(board.make_move(Direction::Left));
    assert_eq!(board.get_tile(Coord::new(0, 0).unwrap()), 6);
    assert_eq!(board.get_score(), 64);
}

#[test]
fn merge_score_saturates() {
    let mut board = GameBoard::empty();
    board.set_tile(Coord::new(0, 0).unwrap(), 31);
    board.set_tile(Coord::new(0, 1).unwrap(), 31);
    assert!(board.make_move(Direction::Down));
    assert_eq!(board.get_tile(Coord::new(0, 0).unwrap()), 32);
    assert_eq!(board.get_score(), u32::MAX);
}

#[test]
fn top_rank_tiles_do_not_merge() {
    let mut board = GameBoard::empty();
    board.set_tile(Coord::new(0, 0).unwrap(), u8::MAX);
    board.set_tile(Coord::new(0, 2).unwrap(), u8::MAX);
    assert!(board.make_move(Direction::Down));
    assert_eq!(board.get_tile(Coord::new(0, 0).unwrap()), u8::MAX);
    assert_eq!(board.get_tile(Coord::new(0, 1).unwrap()), u8::MAX);
    assert_eq!(board.get_score(), 0);
}

#[test]
fn three_in_a_row_merge_nearest_pair() {
    let mut board = GameBoard::empty();
    for x in 0..3 {
        board.set_tile(Coord::new(x, 0).unwrap(), 1);
    }
    assert!(board.make_move(Direction::Left));
    assert_eq!(&board.get_board()[..4], &[2, 1, 0, 0]);
    assert_eq!(board.get_score(), 4);
}

#[test]
fn hue_colours_come_from_hsv() {
    assert_eq!(colour_with_hue(0), RGB8 { r: 255, g: 0, b: 0 });
    assert_eq!(get_tile_colour(3), RGB8 { r: 240, g: 255, b: 0 });
    assert_eq!(get_tile_colour(0), RGB8 { r: 0, g: 0, b: 0 });
    assert_eq!(get_tile_colour(11), RGB8 { r: 255, g: 255, b: 255 });
    assert_eq!(get_tile_colour(13), get_tile_colour(200));
}

#[test]
fn game_frame_follows_wiring() {
    let mut board = GameBoard::empty();
    board.set_tile(Coord::new(1, 1).unwrap(), 1);
    let leds = board.into_board();
    let leds = leds.into_iter();
    assert_eq!(leds[6], RGB8 { r: 255, g: 0, b: 0 });
    assert_eq!(leds[5], RGB8 { r: 0, g: 0, b: 0 });
}

#[test]
fn adjacent_top_rank_tiles_classify_as_merge() {
    let mut board = GameBoard::empty();
    board.set_tile(Coord::new(0, 0).unwrap(), u8::MAX);
    board.set_tile(Coord::new(1, 0).unwrap(), u8::MAX);
    assert_eq!(
        board.find_tile_move(Coord::new(1, 0).unwrap(), Direction::Left),
        TileMoveResult::Merge(Coord::new(0, 0).unwrap())
    );
    let before = board.get_board();
    assert!(!board.make_move(Direction::Left));
    assert_eq!(board.get_board(), before);
    assert_eq!(board.get_score(), 0);
}

#[test]
fn clear_keeps_generator() {
    let mut cleared = GameBoard::empty();
    cleared.set_random();
    cleared.clear();
    cleared.set_random();

    let mut emptied = GameBoard::empty();
    emptied.set_random();
    for i in 0..CELLS {
        emptied.clear_tile(Coord::from_index(i).unwrap());
    }
    emptied.set_random();

    assert!(cleared == emptied);
}

#[test]
fn restored_board_starts_from_default_seed() {
    let mut restored = GameBoard::from_bytes(&GameBoard::empty().to_bytes()).unwrap();
    let mut fresh = GameBoard::with_tiles([0; CELLS]);
    let mut empty = GameBoard::empty();
    restored.set_random();
    fresh.set_random();
    empty.set_random();
    assert!(restored == empty);
    assert!(fresh == empty);
}

#[test]
fn play_move_spawns_after_a_real_move() {
    let mut board = GameBoard::empty();
    board.set_tile(Coord::new(0, 0).unwrap(), 3);
    assert!(board.play_move(Direction::Up));
    assert_eq!(board.get_tile(Coord::new(0, 3).unwrap()), 3);
    assert_eq!(board.get_board().iter().filter(|&&t| t != 0).count(), 2);
}

#[test]
fn play_move_without_change_spawns_nothing() {
    let mut board = GameBoard::empty();
    board.set_tile(Coord::new(0, 3).unwrap(), 3);
    let before = board.get_board();
    assert!(!board.play_move(Direction::Up));
    assert_eq!(board.get_board(), before);
    assert_eq!(board.get_score(), 0);
}
