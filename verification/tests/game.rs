use reversi::{
    outcome_of, Field, FieldValue, Game, InvalidMove, Outcome, Position, Progress, Side, Tally,
    TurnStart,
};

fn at(row: usize, col: usize) -> Position {
    Position { row, col }
}

fn board(rows: [&str; 8]) -> Field {
    let mut cells = [[FieldValue::Wall; 10]; 10];
    for (r, text) in rows.iter().enumerate() {
        assert_eq!(text.len(), 8);
        for (c, ch) in text.chars().enumerate() {
            cells[r + 1][c + 1] = match ch {
                'B' => FieldValue::Black,
                'W' => FieldValue::White,
                '.' => FieldValue::Empty,
                _ => unreachable!(),
            };
        }
    }
    Field::from_cells(cells).unwrap()
}

fn snapshot(f: &Field) -> Vec<FieldValue> {
    let mut all = Vec::new();
    for r in 0..10 {
        for c in 0..10 {
            all.push(f.get(at(r, c)));
        }
    }
    all
}

fn black_is_stuck() -> [&'static str; 8] {
    [
        "WB......",
        "........",
        "........",
        "........",
        "........",
        "........",
        "........",
        "........",
    ]
}

#[test]
fn a_new_game_starts_with_black() {
    let mut game = Game::new();
    assert_eq!(game.mover, Side::Black);
    assert_eq!(snapshot(&game.field), snapshot(&Field::new()));
    match game.begin_turn() {
        TurnStart::Ask(moves) => {
            assert_eq!(moves, vec![at(3, 5), at(4, 6), at(5, 3), at(6, 4)]);
        }
        TurnStart::Skip => panic!("black can move"),
    }
    assert_eq!(game.mover, Side::Black);
}

#[test]
fn a_side_without_moves_is_skipped_and_the_game_goes_on() {
    let mut game = Game { field: board(black_is_stuck()), mover: Side::Black };
    let before = snapshot(&game.field);
    assert!(matches!(game.begin_turn(), TurnStart::Skip));
    assert_eq!(game.mover, Side::White);
    assert_eq!(snapshot(&game.field), before);
    match game.begin_turn() {
        TurnStart::Ask(moves) => assert_eq!(moves, vec![at(1, 3)]),
        TurnStart::Skip => panic!("white can move"),
    }
    assert_eq!(game.mover, Side::White);
    assert_eq!(snapshot(&game.field), before);
}

#[test]
fn a_move_passes_the_turn() {
    let mut game = Game::new();
    assert_eq!(game.place(at(3, 5)), Ok(Progress::Continue));
    assert_eq!(game.mover, Side::White);
    assert_eq!(game.field.get(at(3, 5)), FieldValue::Black);
    assert_eq!(game.field.get(at(4, 5)), FieldValue::Black);
    assert_eq!(game.place(at(3, 4)), Ok(Progress::Continue));
    assert_eq!(game.mover, Side::Black);
    assert_eq!(game.field.get(at(3, 4)), FieldValue::White);
    assert_eq!(game.field.get(at(4, 4)), FieldValue::White);
}

#[test]
fn an_illegal_move_keeps_the_turn() {
    let mut game = Game::new();
    let before = snapshot(&game.field);
    assert_eq!(game.place(at(1, 1)), Err(InvalidMove { position: at(1, 1) }));
    assert_eq!(game.place(at(3, 4)), Err(InvalidMove { position: at(3, 4) }));
    assert_eq!(game.place(at(0, 0)), Err(InvalidMove { position: at(0, 0) }));
    assert_eq!(game.place(at(44, 7)), Err(InvalidMove { position: at(44, 7) }));
    assert_eq!(game.mover, Side::Black);
    assert_eq!(snapshot(&game.field), before);
}

#[test]
fn the_game_ends_when_neither_side_can_move() {
    let mut game = Game {
        field: board([
            "........",
            "........",
            "........",
            "...BW...",
            "........",
            "........",
            "........",
            "........",
        ]),
        mover: Side::Black,
    };
    assert_eq!(game.place(at(4, 6)), Ok(Progress::Finished));
    assert_eq!(game.mover, Side::Black);
    assert!(!game.field.can_put(Side::Black));
    assert!(!game.field.can_put(Side::White));
    assert_eq!(game.field.aggregate(), Tally { black: 3, white: 0, wall: 36, empty: 61 });
    assert_eq!(game.outcome(), Outcome::BlackWins);
}

#[test]
fn the_skipped_game_can_be_finished() {
    let mut game = Game { field: board(black_is_stuck()), mover: Side::Black };
    assert!(matches!(game.begin_turn(), TurnStart::Skip));
    assert_eq!(game.place(at(1, 3)), Ok(Progress::Finished));
    assert_eq!(game.outcome(), Outcome::WhiteWins);
}

#[test]
fn the_side_with_more_cells_wins() {
    let black = Game {
        field: board([
            "BB......",
            "........",
            "........",
            "........",
            "........",
            "........",
            "........",
            ".......W",
        ]),
        mover: Side::White,
    };
    assert!(!black.field.can_put(Side::Black));
    assert!(!black.field.can_put(Side::White));
    assert_eq!(black.outcome(), Outcome::BlackWins);
    let white = Game {
        field: board([
            "B.......",
            "........",
            "........",
            "........",
            "........",
            "........",
            "........",
            "......WW",
        ]),
        mover: Side::Black,
    };
    assert!(!white.field.can_put(Side::Black));
    assert!(!white.field.can_put(Side::White));
    assert_eq!(white.outcome(), Outcome::WhiteWins);
}

#[test]
fn equal_counts_are_a_draw() {
    let game = Game {
        field: board([
            "B.......",
            "........",
            "........",
            "........",
            "........",
            "........",
            "........",
            ".......W",
        ]),
        mover: Side::Black,
    };
    assert!(!game.field.can_put(Side::Black));
    assert!(!game.field.can_put(Side::White));
    assert_eq!(game.outcome(), Outcome::Draw);
    assert_eq!(Game::new().outcome(), Outcome::Draw);
}

#[test]
fn outcome_of_a_tally() {
    assert_eq!(
        outcome_of(&Tally { black: 33, white: 31, wall: 36, empty: 0 }),
        Outcome::BlackWins
    );
    assert_eq!(
        outcome_of(&Tally { black: 20, white: 44, wall: 36, empty: 0 }),
        Outcome::WhiteWins
    );
    assert_eq!(outcome_of(&Tally { black: 32, white: 32, wall: 36, empty: 0 }), Outcome::Draw);
    assert_eq!(outcome_of(&Tally { black: 0, white: 0, wall: 36, empty: 64 }), Outcome::Draw);
}

#[test]
fn a_whole_game_comes_to_an_end() {
    let mut game = Game::new();
    let mut placed = 0;
    let mut skipped_twice = false;
    let mut skips = 0;
    for _ in 0..200 {
        match game.begin_turn() {
            TurnStart::Skip => {
                skips += 1;
                if skips > 1 {
                    skipped_twice = true;
                    break;
                }
            }
            TurnStart::Ask(moves) => {
                skips = 0;
                let mover = game.mover;
                let progress = game.place(moves[0]).unwrap();
                placed += 1;
                if progress == Progress::Finished {
                    assert_eq!(game.mover, mover);
                    break;
                }
                assert_eq!(game.mover, mover.other());
            }
        }
    }
    assert!(!skipped_twice);
    assert!(!game.field.can_put(Side::Black));
    assert!(!game.field.can_put(Side::White));
    let t = game.field.aggregate();
    assert_eq!(t.black + t.white, 4 + placed);
    let expected = if t.black > t.white {
        Outcome::BlackWins
    } else if t.black < t.white {
        Outcome::WhiteWins
    } else {
        Outcome::Draw
    };
    assert_eq!(game.outcome(), expected);
}
