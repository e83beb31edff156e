use snake_logic::learning::{MyAction, MyAgent, MyState, WORLD_SIZE};

fn state(x: i32, y: i32) -> MyState {
    MyState { x, y, goal: (5, 5) }
}

#[test]
fn the_four_steps_are_up_down_left_right() {
    assert_eq!(
        state(0, 0).actions(),
        vec![
            MyAction { dx: 0, dy: -1 },
            MyAction { dx: 0, dy: 1 },
            MyAction { dx: -1, dy: 0 },
            MyAction { dx: 1, dy: 0 },
        ]
    );
}

#[test]
fn a_step_inside_the_world_moves_by_one() {
    let mut agent = MyAgent { state: state(3, 4) };
    agent.take_action(&MyAction { dx: 1, dy: 0 });
    assert_eq!(*agent.current_state(), state(4, 4));
    agent.take_action(&MyAction { dx: 0, dy: -1 });
    assert_eq!(*agent.current_state(), state(4, 3));
}

#[test]
fn a_step_over_the_edge_comes_back_on_the_other_side() {
    let mut agent = MyAgent { state: state(0, 0) };
    agent.take_action(&MyAction { dx: -1, dy: 0 });
    assert_eq!(*agent.current_state(), state(10, 0));
    agent.take_action(&MyAction { dx: 0, dy: -1 });
    assert_eq!(*agent.current_state(), state(10, 10));
    agent.take_action(&MyAction { dx: 1, dy: 1 });
    assert_eq!(*agent.current_state(), state(0, 0));
}

#[test]
fn any_step_ends_inside_the_world() {
    let mut agent = MyAgent { state: state(-25, 40) };
    agent.take_action(&MyAction { dx: 0, dy: 0 });
    assert_eq!(*agent.current_state(), state(8, 7));
    let mut agent = MyAgent { state: state(i32::MAX, i32::MIN) };
    agent.take_action(&MyAction { dx: i32::MAX, dy: i32::MIN });
    assert_eq!(*agent.current_state(), state(2, 7));
    assert_eq!(WORLD_SIZE, 11);
}

#[test]
fn the_goal_stays_where_it_is() {
    let mut agent = MyAgent { state: MyState { x: 1, y: 1, goal: (-3, 99) } };
    agent.take_action(&MyAction { dx: 1, dy: 1 });
    assert_eq!(agent.current_state().goal, (-3, 99));
}

#[test]
fn the_distance_to_the_goal_is_squared() {
    assert_eq!(state(0, 0).goal_distance_squared(), 50);
    assert_eq!(state(5, 5).goal_distance_squared(), 0);
    assert_eq!(state(8, 1).goal_distance_squared(), 25);
    let far = MyState { x: i32::MIN, y: i32::MAX, goal: (i32::MAX, i32::MIN) };
    assert_eq!(far.goal_distance_squared(), 2 * (u32::MAX as u128) * (u32::MAX as u128));
}
