use snake_logic::utils::{coord_to_pos, get_next_move_from_coord, pos_to_coord, squared_distance};
use snake_logic::{Board as BattlesnakeBoard, Coord as BattlesnakeCoord, PathfindingPos};

fn empty_board(width: u32, height: u32) -> BattlesnakeBoard {
    BattlesnakeBoard {
        width,
        height,
        food: Vec::new(),
        hazards: Vec::new(),
        snakes: Vec::new(),
    }
}

#[test]
fn battlesnake_to_pathfinding() {
    let board = BattlesnakeBoard {
        width: 11,
        height: 11,
        food: Vec::new(),
        hazards: Vec::new(),
        snakes: Vec::new(),
    };
    assert_eq!(
        coord_to_pos(&board, &BattlesnakeCoord { x: 0, y: 0 }),
        PathfindingPos(0, 10)
    );
    assert_eq!(
        coord_to_pos(&board, &BattlesnakeCoord { x: 9, y: 0 }),
        PathfindingPos(9, 10)
    );
    assert_eq!(
        coord_to_pos(&board, &BattlesnakeCoord { x: 9, y: 9 }),
        PathfindingPos(9, 1)
    );
    assert_eq!(
        coord_to_pos(&board, &BattlesnakeCoord { x: 0, y: 9 }),
        PathfindingPos(0, 1)
    );
    assert_eq!(
        coord_to_pos(&board, &BattlesnakeCoord { x: 4, y: 4 }),
        PathfindingPos(4, 6)
    );
    assert_eq!(
        coord_to_pos(&board, &BattlesnakeCoord { x: 3, y: 7 }),
        PathfindingPos(3, 3)
    );
    assert_eq!(
        coord_to_pos(&board, &BattlesnakeCoord { x: 3, y: 0 }),
        PathfindingPos(3, 10)
    );
    assert_eq!(
        coord_to_pos(&board, &BattlesnakeCoord { x: 0, y: 7 }),
        PathfindingPos(0, 3)
    );
}

#[test]
fn pathfinding_to_battlesnake() {
    let board = BattlesnakeBoard {
        width: 11,
        height: 11,
        food: Vec::new(),
        hazards: Vec::new(),
        snakes: Vec::new(),
    };
    assert_eq!(
        pos_to_coord(&board, &PathfindingPos(0, 10)),
        BattlesnakeCoord { x: 0, y: 0 }
    );
    assert_eq!(
        pos_to_coord(&board, &PathfindingPos(9, 10)),
        BattlesnakeCoord { x: 9, y: 0 }
    );
    assert_eq!(
        pos_to_coord(&board, &PathfindingPos(9, 1)),
        BattlesnakeCoord { x: 9, y: 9 }
    );
    assert_eq!(
        pos_to_coord(&board, &PathfindingPos(0, 1)),
        BattlesnakeCoord { x: 0, y: 9 }
    );
    assert_eq!(
        pos_to_coord(&board, &PathfindingPos(4, 6)),
        BattlesnakeCoord { x: 4, y: 4 }
    );
    assert_eq!(
        pos_to_coord(&board, &PathfindingPos(3, 3)),
        BattlesnakeCoord { x: 3, y: 7 }
    );
    assert_eq!(
        pos_to_coord(&board, &PathfindingPos(3, 10)),
        BattlesnakeCoord { x: 3, y: 0 }
    );
    assert_eq!(
        pos_to_coord(&board, &PathfindingPos(0, 3)),
        BattlesnakeCoord { x: 0, y: 7 }
    );
}

#[test]
fn round_trip_gives_every_cell_of_the_board_back() {
    let board = empty_board(7, 11);
    for x in 0..7 {
        for y in 0..11 {
            let cell = BattlesnakeCoord { x, y };
            let pos = coord_to_pos(&board, &cell);
            assert_eq!(pos_to_coord(&board, &pos), cell);
            assert_eq!(coord_to_pos(&board, &pos_to_coord(&board, &pos)), pos);
        }
    }
}

#[test]
fn rows_are_counted_from_the_other_end() {
    let board = empty_board(11, 11);
    assert_eq!(coord_to_pos(&board, &BattlesnakeCoord { x: 0, y: 0 }), PathfindingPos(0, 10));
    assert_eq!(coord_to_pos(&board, &BattlesnakeCoord { x: 9, y: 9 }), PathfindingPos(9, 1));
    assert_eq!(coord_to_pos(&board, &BattlesnakeCoord { x: 4, y: 4 }), PathfindingPos(4, 6));
    assert_eq!(coord_to_pos(&board, &BattlesnakeCoord { x: 10, y: 10 }), PathfindingPos(10, 0));
}

#[test]
fn a_board_that_is_not_square_keeps_columns_and_flips_rows() {
    let board = empty_board(3, 5);
    assert_eq!(coord_to_pos(&board, &BattlesnakeCoord { x: 2, y: 0 }), PathfindingPos(2, 4));
    assert_eq!(coord_to_pos(&board, &BattlesnakeCoord { x: 0, y: 4 }), PathfindingPos(0, 0));
    assert_eq!(pos_to_coord(&board, &PathfindingPos(1, 3)), BattlesnakeCoord { x: 1, y: 1 });
}

#[test]
fn next_move_names_the_four_directions() {
    let me = BattlesnakeCoord { x: 3, y: 7 };
    assert_eq!(get_next_move_from_coord(&me, &BattlesnakeCoord { x: 4, y: 7 }), "right");
    assert_eq!(get_next_move_from_coord(&me, &BattlesnakeCoord { x: 2, y: 7 }), "left");
    assert_eq!(get_next_move_from_coord(&me, &BattlesnakeCoord { x: 3, y: 8 }), "up");
    assert_eq!(get_next_move_from_coord(&me, &BattlesnakeCoord { x: 3, y: 6 }), "down");
}

#[test]
fn next_move_off_the_four_neighbours() {
    let me = BattlesnakeCoord { x: 3, y: 7 };
    assert_eq!(get_next_move_from_coord(&me, &me), "left");
    assert_eq!(get_next_move_from_coord(&me, &BattlesnakeCoord { x: 9, y: 7 }), "left");
    assert_eq!(get_next_move_from_coord(&me, &BattlesnakeCoord { x: 4, y: 8 }), "up");
    assert_eq!(get_next_move_from_coord(&me, &BattlesnakeCoord { x: 4, y: 9 }), "down");
    let edge = BattlesnakeCoord { x: u32::MAX, y: u32::MAX };
    assert_eq!(get_next_move_from_coord(&edge, &BattlesnakeCoord { x: 0, y: u32::MAX }), "left");
    assert_eq!(get_next_move_from_coord(&edge, &BattlesnakeCoord { x: 0, y: 0 }), "down");
}

#[test]
fn squared_distance_is_the_sum_of_the_squares() {
    let a = BattlesnakeCoord { x: 0, y: 0 };
    assert_eq!(squared_distance(&a, &BattlesnakeCoord { x: 3, y: 4 }), 25);
    assert_eq!(squared_distance(&BattlesnakeCoord { x: 3, y: 4 }, &a), 25);
    assert_eq!(squared_distance(&a, &a), 0);
    assert_eq!(squared_distance(&a, &BattlesnakeCoord { x: 5, y: 5 }), 50);
    let far = BattlesnakeCoord { x: u32::MAX, y: u32::MAX };
    assert_eq!(squared_distance(&a, &far), 2 * (u32::MAX as u128) * (u32::MAX as u128));
}
