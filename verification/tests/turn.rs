use snake_logic::logic::{
    decide_move, decide_move_or_fallback, determine_next_move, end, fallback_move, get_move, start,
    MoveError, SnakePersonality,
};
use snake_logic::utils::build_pathfinding_board_with_hazards;
use snake_logic::{Battlesnake, Board, Coord, Game, PathfindingBoard, PathfindingPos};

fn cell(x: u32, y: u32) -> Coord {
    Coord { x, y }
}

fn snake(name: &str, body: Vec<(u32, u32)>) -> Battlesnake {
    let body: Vec<Coord> = body.into_iter().map(|(x, y)| Coord { x, y }).collect();
    Battlesnake {
        id: name.to_string(),
        name: name.to_string(),
        health: 100,
        head: body[0],
        length: body.len() as u32,
        body,
        latency: "".to_string(),
        shout: None,
    }
}

fn board(width: u32, height: u32, food: Vec<(u32, u32)>, snakes: Vec<Battlesnake>) -> Board {
    Board {
        width,
        height,
        food: food.into_iter().map(|(x, y)| Coord { x, y }).collect(),
        hazards: Vec::new(),
        snakes,
    }
}

fn game() -> Game {
    Game { id: "game".to_string(), timeout: 500 }
}

fn grid(lines: &[&str]) -> PathfindingBoard {
    let cells: Vec<Vec<bool>> = lines.iter().map(|l| l.chars().map(|c| c == 'X').collect()).collect();
    PathfindingBoard::new(cells).unwrap()
}

#[test]
fn a_step_to_the_next_row_of_the_grid_is_a_move_down() {
    let b = board(11, 11, Vec::new(), Vec::new());
    let moves = (vec![PathfindingPos(3, 3), PathfindingPos(3, 4)], 1);
    assert_eq!(determine_next_move(&moves, &b, &cell(3, 7)), Ok("down"));
}

#[test]
fn the_second_cell_of_the_route_decides_the_move() {
    let b = board(11, 11, Vec::new(), Vec::new());
    let head = cell(3, 7);
    let from = PathfindingPos(3, 3);
    let far = PathfindingPos(9, 9);
    assert_eq!(determine_next_move(&(vec![from, PathfindingPos(3, 2), far], 2), &b, &head), Ok("up"));
    assert_eq!(determine_next_move(&(vec![from, PathfindingPos(2, 3), far], 2), &b, &head), Ok("left"));
    assert_eq!(determine_next_move(&(vec![from, PathfindingPos(4, 3), far], 2), &b, &head), Ok("right"));
    assert_eq!(determine_next_move(&(vec![from, PathfindingPos(3, 4), far], 2), &b, &head), Ok("down"));
}

#[test]
fn a_route_without_a_second_cell_has_no_move() {
    let b = board(11, 11, Vec::new(), Vec::new());
    assert_eq!(
        determine_next_move(&(vec![PathfindingPos(3, 3)], 0), &b, &cell(3, 7)),
        Err(MoveError::PathTooShort)
    );
    assert_eq!(determine_next_move(&(Vec::new(), 0), &b, &cell(3, 7)), Err(MoveError::PathTooShort));
}

#[test]
fn a_longer_head_hunter_goes_for_the_head() {
    let me = snake("me", vec![(5, 5), (5, 4), (5, 3)]);
    let b = board(11, 11, vec![(1, 5)], vec![me.clone(), snake("prey", vec![(5, 8), (5, 9)])]);
    assert_eq!(get_move(&game(), &3, &b, &me), "up");
    assert_eq!(decide_move(&SnakePersonality::HeadHunter, &b, &me), Ok("up"));
    assert_eq!(decide_move_or_fallback(&SnakePersonality::HeadHunter, &b, &me), "up");
}

#[test]
fn a_head_hunter_that_is_not_longer_goes_for_food() {
    let me = snake("me", vec![(5, 5), (5, 4)]);
    let b = board(11, 11, vec![(1, 5)], vec![me.clone(), snake("rival", vec![(5, 8), (5, 9)])]);
    assert_eq!(get_move(&game(), &3, &b, &me), "left");
    assert_eq!(decide_move(&SnakePersonality::HeadHunter, &b, &me), Ok("left"));
}

#[test]
fn a_snacky_snake_goes_for_food_whatever_its_size() {
    let me = snake("me", vec![(5, 5), (5, 4), (5, 3)]);
    let b = board(11, 11, vec![(9, 5)], vec![me.clone(), snake("prey", vec![(5, 8), (5, 9)])]);
    assert_eq!(decide_move(&SnakePersonality::Snacky, &b, &me), Ok("right"));
    let b = board(11, 11, vec![(5, 1)], vec![me.clone()]);
    assert_eq!(decide_move(&SnakePersonality::Snacky, &b, &me), Ok("left"));
}

#[test]
fn the_move_follows_a_shortest_route() {
    let me = snake("me", vec![(0, 0)]);
    let b = board(11, 11, vec![(3, 2)], vec![me.clone()]);
    let token = decide_move(&SnakePersonality::Snacky, &b, &me).unwrap();
    assert!(token == "up" || token == "right");
}

#[test]
fn every_failure_of_a_turn_has_its_error() {
    let hunter = SnakePersonality::HeadHunter;
    let me = snake("me", vec![(5, 5), (5, 4)]);
    let b = board(11, 11, vec![(1, 5)], vec![me.clone()]);
    assert_eq!(decide_move(&SnakePersonality::Hungry, &b, &me), Err(MoveError::UnimplementedPersonality));
    assert_eq!(decide_move(&SnakePersonality::Timid, &b, &me), Err(MoveError::UnimplementedPersonality));
    let b = board(11, 11, Vec::new(), vec![me.clone(), snake("long", vec![(1, 1), (1, 2), (1, 3)])]);
    assert_eq!(decide_move(&hunter, &b, &me), Err(MoveError::NoGoalCandidate));
    let b = board(11, 11, Vec::new(), vec![me.clone()]);
    assert_eq!(decide_move(&hunter, &b, &me), Err(MoveError::NoGoalCandidate));
    let wall = snake("wall", vec![(9, 9), (1, 0), (0, 1), (9, 8)]);
    let b = board(11, 11, vec![(0, 0)], vec![me.clone(), wall]);
    assert_eq!(decide_move(&hunter, &b, &me), Err(MoveError::NoPathFound));
    let b = board(11, 11, vec![(5, 5)], vec![me.clone(), snake("long", vec![(1, 1), (1, 2), (1, 3)])]);
    assert_eq!(decide_move(&hunter, &b, &me), Err(MoveError::PathTooShort));
}

#[test]
fn get_move_names_a_move_where_the_turn_has_no_goal() {
    // The body lies above the head, so the fallback turns down.
    let me = snake("me", vec![(5, 5), (5, 6)]);
    let b = board(11, 11, Vec::new(), vec![me.clone(), snake("long", vec![(1, 1), (1, 2), (1, 3)])]);
    assert_eq!(decide_move(&SnakePersonality::HeadHunter, &b, &me), Err(MoveError::NoGoalCandidate));
    assert_eq!(get_move(&game(), &0, &b, &me), "down");
    let b = board(11, 11, Vec::new(), vec![me.clone()]);
    assert_eq!(decide_move(&SnakePersonality::HeadHunter, &b, &me), Err(MoveError::NoGoalCandidate));
    assert_eq!(get_move(&game(), &0, &b, &me), "down");
}

#[test]
fn get_move_names_a_move_where_the_goal_cannot_be_reached() {
    let me = snake("me", vec![(5, 5), (5, 4)]);
    let wall = snake("wall", vec![(9, 9), (1, 0), (0, 1), (9, 8)]);
    let b = board(11, 11, vec![(0, 0)], vec![me.clone(), wall]);
    assert_eq!(decide_move(&SnakePersonality::HeadHunter, &b, &me), Err(MoveError::NoPathFound));
    assert_eq!(get_move(&game(), &0, &b, &me), "up");
    // Above and below the head lie bodies, so the fallback turns left.
    let me = snake("me", vec![(5, 5), (5, 4)]);
    let wall = snake("wall", vec![(9, 9), (1, 0), (0, 1), (5, 6)]);
    let b = board(11, 11, vec![(0, 0)], vec![me.clone(), wall]);
    assert_eq!(decide_move(&SnakePersonality::HeadHunter, &b, &me), Err(MoveError::NoPathFound));
    assert_eq!(get_move(&game(), &0, &b, &me), "left");
}

#[test]
fn get_move_names_a_move_where_the_head_is_on_the_goal() {
    let me = snake("me", vec![(5, 5), (5, 6), (5, 4), (4, 5)]);
    let long = snake("long", vec![(1, 1), (1, 2), (1, 3), (1, 4), (1, 5)]);
    let b = board(11, 11, vec![(5, 5)], vec![me.clone(), long]);
    assert_eq!(decide_move(&SnakePersonality::HeadHunter, &b, &me), Err(MoveError::PathTooShort));
    assert_eq!(get_move(&game(), &0, &b, &me), "right");
}

#[test]
fn get_move_names_a_move_where_no_neighbour_is_free() {
    let me = snake("me", vec![(0, 0), (0, 1), (1, 0)]);
    let long = snake("long", vec![(9, 9), (9, 8), (9, 7), (9, 6)]);
    let b = board(11, 11, Vec::new(), vec![me.clone(), long]);
    assert_eq!(decide_move(&SnakePersonality::HeadHunter, &b, &me), Err(MoveError::NoGoalCandidate));
    assert_eq!(get_move(&game(), &0, &b, &me), "up");
}

#[test]
fn a_turn_without_route_falls_back_to_a_free_neighbour() {
    let me = snake("me", vec![(5, 5), (5, 6), (5, 7)]);
    let wall = snake("wall", vec![(9, 9), (1, 0), (0, 1), (9, 8), (9, 7)]);
    let b = board(11, 11, vec![(0, 0)], vec![me.clone(), wall]);
    let hunter = SnakePersonality::HeadHunter;
    assert_eq!(decide_move(&hunter, &b, &me), Err(MoveError::NoPathFound));
    assert_eq!(decide_move_or_fallback(&hunter, &b, &me), "down");
    assert_eq!(get_move(&game(), &7, &b, &me), "down");
}

#[test]
fn every_failure_of_a_turn_falls_back() {
    let me = snake("me", vec![(0, 0), (0, 1)]);
    let b = board(11, 11, Vec::new(), vec![me.clone()]);
    assert_eq!(decide_move_or_fallback(&SnakePersonality::Timid, &b, &me), "right");
    assert_eq!(decide_move_or_fallback(&SnakePersonality::Snacky, &b, &me), "right");
    assert_eq!(decide_move_or_fallback(&SnakePersonality::HeadHunter, &b, &me), "right");
    let b = board(11, 11, vec![(0, 0)], vec![me.clone()]);
    assert_eq!(decide_move(&SnakePersonality::Snacky, &b, &me), Err(MoveError::PathTooShort));
    assert_eq!(decide_move_or_fallback(&SnakePersonality::Snacky, &b, &me), "right");
}

#[test]
fn the_fallback_tries_up_down_left_right() {
    let b = board(3, 3, Vec::new(), Vec::new());
    let head = cell(1, 1);
    assert_eq!(fallback_move(&grid(&["111", "111", "111"]), &b, &head), "up");
    assert_eq!(fallback_move(&grid(&["1X1", "111", "111"]), &b, &head), "down");
    assert_eq!(fallback_move(&grid(&["1X1", "111", "1X1"]), &b, &head), "left");
    assert_eq!(fallback_move(&grid(&["1X1", "X11", "1X1"]), &b, &head), "right");
    assert_eq!(fallback_move(&grid(&["1X1", "X1X", "1X1"]), &b, &head), "up");
    assert_eq!(fallback_move(&grid(&["1X1", "XXX", "111"]), &b, &head), "down");
}

#[test]
fn the_fallback_stays_on_the_board() {
    let b = board(3, 3, Vec::new(), Vec::new());
    let free = grid(&["111", "111", "111"]);
    assert_eq!(fallback_move(&free, &b, &cell(0, 2)), "down");
    assert_eq!(fallback_move(&free, &b, &cell(2, 2)), "down");
    assert_eq!(fallback_move(&free, &b, &cell(0, 0)), "up");
    let b = board(3, 1, Vec::new(), Vec::new());
    let line = grid(&["111"]);
    assert_eq!(fallback_move(&line, &b, &cell(0, 0)), "right");
    assert_eq!(fallback_move(&line, &b, &cell(1, 0)), "left");
    let b = board(1, 1, Vec::new(), Vec::new());
    assert_eq!(fallback_move(&grid(&["1"]), &b, &cell(0, 0)), "up");
}

#[test]
fn the_fallback_leads_to_a_cell_that_the_grid_of_the_turn_leaves_free() {
    let me = snake("me", vec![(1, 1), (1, 2)]);
    let b = board(3, 3, Vec::new(), vec![me.clone(), snake("other", vec![(2, 2), (1, 0)])]);
    let (g, lines) = build_pathfinding_board_with_hazards(&SnakePersonality::HeadHunter, &b, &me);
    assert_eq!(lines, vec!["1X1", "111", "1X1"]);
    assert_eq!(fallback_move(&g, &b, &cell(1, 1)), "left");
}

#[test]
fn a_snapshot_is_valid_with_its_cells_on_the_board() {
    let me = snake("me", vec![(5, 5)]);
    assert!(board(11, 11, vec![(10, 10)], vec![me.clone()]).is_valid());
    assert!(!board(11, 11, vec![(11, 10)], vec![me.clone()]).is_valid());
    assert!(!board(11, 11, vec![(10, 11)], vec![me.clone()]).is_valid());
    assert!(!board(11, 11, Vec::new(), Vec::new()).is_valid());
    assert!(!board(0, 11, Vec::new(), vec![me.clone()]).is_valid());
    assert!(!board(11, 0, Vec::new(), vec![me.clone()]).is_valid());
    assert!(!board(5, 11, Vec::new(), vec![me.clone()]).is_valid());
    assert!(board(32767, 32767, Vec::new(), vec![me.clone()]).is_valid());
    assert!(!board(32768, 11, Vec::new(), vec![me.clone()]).is_valid());
    assert!(!board(11, 32768, Vec::new(), vec![me.clone()]).is_valid());
    let mut off = snake("off", vec![(1, 1)]);
    off.head = cell(1, 11);
    assert!(!board(11, 11, Vec::new(), vec![me.clone(), off]).is_valid());
    let mut body_off = snake("body off", vec![(1, 1), (40, 40)]);
    body_off.head = cell(1, 1);
    assert!(board(11, 11, Vec::new(), vec![me, body_off]).is_valid());
}

#[test]
fn start_and_end_leave_everything_as_it_is() {
    let me = snake("me", vec![(5, 5), (5, 4)]);
    let b = board(11, 11, vec![(1, 5)], vec![me.clone(), snake("long", vec![(1, 1), (1, 2), (1, 3)])]);
    start(&game(), &0, &b, &me);
    assert_eq!(get_move(&game(), &1, &b, &me), "left");
    end(&game(), &2, &b, &me);
    assert_eq!(get_move(&game(), &1, &b, &me), "left");
}
