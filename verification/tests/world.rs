use snake::game::init;
use snake::resource::{Direction, GameWorld};

#[test]
fn new_world_starts_as_specified() {
    let w = GameWorld::new(800, 600, 15);
    assert_eq!(w.score, 0);
    assert_eq!(w.snake_fps, 8);
    assert_eq!(w.snake_body, vec![[0, 0], [0, 1]]);
    assert_eq!(w.apple, [26, 20]);
    assert!(matches!(w.direction, Direction::Down));
}

#[test]
fn init_uses_builtin_cell_size() {
    let w = init(800, 600);
    assert_eq!(w.grid.size, 15);
    assert_eq!(w.grid.grid_width, 53);
    assert_eq!(w.grid.grid_height, 40);
    assert_eq!(w.snake_fps, 8);
}

#[test]
fn wraparound_left_edge() {
    let mut w = GameWorld::new(100, 100, 10);
    w.snake_body = vec![[0, 5]];
    w.change_direction(Direction::Left);
    assert_eq!(w.get_next(), [9, 5]);
}

#[test]
fn wraparound_right_edge() {
    let mut w = GameWorld::new(100, 100, 10);
    w.snake_body = vec![[9, 5]];
    w.change_direction(Direction::Right);
    assert_eq!(w.get_next(), [0, 5]);
}

#[test]
fn wraparound_top_edge() {
    let mut w = GameWorld::new(100, 100, 10);
    w.snake_body = vec![[4, 0]];
    w.change_direction(Direction::Up);
    assert_eq!(w.get_next(), [4, 9]);
}

#[test]
fn wraparound_bottom_edge() {
    let mut w = GameWorld::new(100, 100, 10);
    w.snake_body = vec![[4, 9]];
    w.change_direction(Direction::Down);
    assert_eq!(w.get_next(), [4, 0]);
}

#[test]
fn interior_moves_have_no_wraparound() {
    let mut w = GameWorld::new(100, 100, 10);
    w.snake_body = vec![[4, 5]];
    w.change_direction(Direction::Up);
    assert_eq!(w.get_next(), [4, 4]);
    w.change_direction(Direction::Down);
    assert_eq!(w.get_next(), [4, 6]);
    w.change_direction(Direction::Left);
    assert_eq!(w.get_next(), [3, 5]);
    w.change_direction(Direction::Right);
    assert_eq!(w.get_next(), [5, 5]);
}

#[test]
fn move_snake_preserves_length() {
    let mut w = GameWorld::new(100, 100, 10);
    w.snake_body = vec![[3, 3], [3, 2], [2, 2]];
    w.change_direction(Direction::Down);
    w.move_snake();
    assert_eq!(w.snake_body, vec![[3, 4], [3, 3], [3, 2]]);
    assert_eq!(w.snake_body.len(), 3);
}

#[test]
fn step_without_apple_slides_the_body() {
    // a 40x40-cell grid, the end-to-end scenario
    let mut w = GameWorld::new(600, 600, 15);
    assert_eq!(w.grid.grid_width, 40);
    assert_eq!(w.grid.grid_height, 40);
    w.snake_body = vec![[0, 0], [0, 1]];
    w.apple = [20, 20];
    w.change_direction(Direction::Down);
    w.step();
    assert_eq!(w.snake_body.len(), 2);
    assert_eq!(w.snake_body, vec![[0, 1], [0, 0]]);
    assert_eq!(w.score, 0);
    assert_eq!(w.snake_fps, 8);
    assert_eq!(w.apple, [20, 20]);
}

#[test]
fn eating_grows_by_one_and_scores_one() {
    let mut w = GameWorld::new(100, 100, 10);
    w.snake_body = vec![[5, 5], [5, 4]];
    w.apple = [5, 5];
    w.change_direction(Direction::Down);
    w.step();
    assert_eq!(w.score, 1);
    assert_eq!(w.snake_body.len(), 3);
    // two-phase step: the head advances twice while one net cell is gained
    assert_eq!(w.snake_body, vec![[5, 7], [5, 6], [5, 5]]);
    assert!(w.apple[0] < 10 && w.apple[1] < 10);
}

#[test]
fn check_for_apple_without_hit_changes_nothing() {
    let mut w = GameWorld::new(100, 100, 10);
    w.snake_body = vec![[5, 5], [5, 4]];
    w.apple = [7, 7];
    let before = w.snake_body.clone();
    w.check_for_apple();
    assert_eq!(w.snake_body, before);
    assert_eq!(w.score, 0);
    assert_eq!(w.apple, [7, 7]);
}

#[test]
fn tick_rate_steps_up_every_five_points() {
    let mut w = GameWorld::new(100, 100, 10);
    w.change_direction(Direction::Down);
    // reach score 5: the rate becomes 8 + 2*1 = 10
    for s in 0..5 {
        assert_eq!(w.score, s);
        let head = *w.snake_body.first().unwrap();
        w.apple = head;
        w.check_for_apple();
    }
    assert_eq!(w.score, 5);
    assert_eq!(w.snake_fps, 10);
    // reach score 10: the rate becomes 8 + 2*2 = 12
    for _ in 0..5 {
        let head = *w.snake_body.first().unwrap();
        w.apple = head;
        w.check_for_apple();
    }
    assert_eq!(w.score, 10);
    assert_eq!(w.snake_fps, 12);
}

#[test]
fn update_score_increments_by_one() {
    let mut w = GameWorld::new(100, 100, 10);
    w.update_score();
    w.update_score();
    assert_eq!(w.score, 2);
}

#[test]
fn change_direction_has_no_reversal_guard() {
    let mut w = GameWorld::new(100, 100, 10);
    w.change_direction(Direction::Up);
    assert!(matches!(w.direction, Direction::Up));
    w.change_direction(Direction::Down);
    assert!(matches!(w.direction, Direction::Down));
}

#[test]
fn add_square_and_add_circle_resolve_points() {
    let mut w = GameWorld::new(9, 9, 3);
    let s = w.add_square(1, 1);
    assert_eq!(s.points.len(), 9);
    assert_eq!(s.points[0], [3, 3]);
    let c = w.add_circle(0, 0);
    assert_eq!(c.points.len(), 5);
}

#[test]
fn random_stays_below_its_limit() {
    assert_eq!(snake::game::random(1), 0);
    for _ in 0..100 {
        assert!(snake::game::random(7) < 7);
    }
}
