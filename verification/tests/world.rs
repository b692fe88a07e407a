use snake_game::{ConfigurationError, Direction, GameStatus, World};

fn world(size: usize, head: usize, length: usize) -> World {
    match World::new(size, head, length) {
        Ok(world) => world,
        Err(error) => panic!("unexpected {error:?}"),
    }
}

fn refused(size: usize, head: usize, length: usize) -> ConfigurationError {
    match World::new(size, head, length) {
        Ok(_) => panic!("a world of side {size} took head {head} and length {length}"),
        Err(error) => error,
    }
}

fn body(world: &World) -> Vec<usize> {
    world.get_snake_ptr().iter().map(|cell| cell.0).collect()
}

#[test]
fn new_world_holds_the_snake_and_nothing_else() {
    let world = world(4, 5, 3);
    assert_eq!(world.size(), 4);
    assert_eq!(world.cell_count(), 16);
    assert_eq!(body(&world), vec![5, 4, 3]);
    assert_eq!(world.get_snake_length(), 3);
    assert_eq!(world.snake_head_idx(), 5);
    assert_eq!(world.reward_cell(), None);
    assert_eq!(world.get_status(), None);
    assert_eq!(world.get_points(), 0);
}

#[test]
fn concrete_game_on_a_grid_of_side_four() {
    let mut world = world(4, 5, 3);
    assert_eq!(body(&world), vec![5, 4, 3]);
    // The snake heads right: a request for left is turned down.
    world.update_snake_direction(Direction::LEFT);
    world.change_status(Some(GameStatus::STARTED));
    world.update_step();
    assert_eq!(body(&world), vec![6, 5, 4]);
    assert_eq!(world.get_status(), Some(GameStatus::STARTED));
    assert_eq!(world.get_points(), 0);
}

#[test]
fn world_of_side_zero_is_refused() {
    assert_eq!(refused(0, 0, 1), ConfigurationError::EmptyGrid);
    assert_eq!(refused(0, 0, 0), ConfigurationError::EmptyGrid);
}

#[test]
fn world_with_more_cells_than_a_word_counts_is_refused() {
    assert_eq!(refused(usize::MAX, 0, 1), ConfigurationError::GridTooLarge);
    assert_eq!(refused(usize::MAX / 2, 0, 0), ConfigurationError::GridTooLarge);
}

#[test]
fn snake_without_segments_is_refused() {
    assert_eq!(refused(4, 5, 0), ConfigurationError::EmptySnake);
    assert_eq!(refused(4, 99, 0), ConfigurationError::EmptySnake);
}

#[test]
fn head_beyond_the_grid_is_refused() {
    assert_eq!(refused(4, 16, 3), ConfigurationError::HeadOffGrid);
    assert_eq!(refused(4, 16, 40), ConfigurationError::HeadOffGrid);
    assert_eq!(refused(1, 1, 1), ConfigurationError::HeadOffGrid);
}

#[test]
fn body_running_below_cell_zero_is_refused() {
    assert_eq!(refused(4, 1, 3), ConfigurationError::TailOffGrid);
    assert_eq!(refused(4, 0, 2), ConfigurationError::TailOffGrid);
    assert_eq!(refused(4, 15, 17), ConfigurationError::TailOffGrid);
}

#[test]
fn snake_that_covers_the_grid_is_refused() {
    assert_eq!(refused(4, 15, 16), ConfigurationError::GridCovered);
    assert_eq!(refused(1, 0, 1), ConfigurationError::GridCovered);
}

#[test]
fn longest_and_lowest_snakes_are_accepted() {
    assert_eq!(body(&world(2, 2, 3)), vec![2, 1, 0]);
    assert_eq!(body(&world(4, 0, 1)), vec![0]);
    assert_eq!(world(4, 15, 15).get_snake_length(), 15);
}

#[test]
fn world_does_not_move_before_the_game_is_started() {
    let mut world = world(4, 5, 3);
    world.update_step();
    assert_eq!(body(&world), vec![5, 4, 3]);
    assert_eq!(world.get_status(), None);
}

#[test]
fn start_game_starts_only_a_game_that_was_not_started() {
    let mut world = world(4, 5, 3);
    world.start_game();
    assert_eq!(world.get_status(), Some(GameStatus::STARTED));
    world.change_status(Some(GameStatus::LOST));
    world.start_game();
    assert_eq!(world.get_status(), Some(GameStatus::LOST));
    world.change_status(Some(GameStatus::WON));
    world.start_game();
    assert_eq!(world.get_status(), Some(GameStatus::WON));
    world.change_status(None);
    world.start_game();
    assert_eq!(world.get_status(), Some(GameStatus::STARTED));
}

#[test]
fn change_status_sets_any_status() {
    let mut world = world(4, 5, 3);
    world.change_status(Some(GameStatus::WON));
    assert_eq!(world.get_status(), Some(GameStatus::WON));
    world.change_status(Some(GameStatus::LOST));
    assert_eq!(world.get_status(), Some(GameStatus::LOST));
    world.change_status(Some(GameStatus::STARTED));
    assert_eq!(world.get_status(), Some(GameStatus::STARTED));
    world.change_status(None);
    assert_eq!(world.get_status(), None);
    assert_eq!(body(&world), vec![5, 4, 3]);
}

#[test]
fn reverse_of_the_heading_is_ignored_by_the_world() {
    // Heading right, left is ignored: the head moves right.
    let mut right = world(5, 7, 2);
    right.start_game();
    right.update_snake_direction(Direction::LEFT);
    right.update_step();
    assert_eq!(right.snake_head_idx(), 8);

    // Heading up, down is ignored: the head moves up.
    let mut up = world(5, 7, 2);
    up.start_game();
    up.update_snake_direction(Direction::UP);
    up.update_snake_direction(Direction::DOWN);
    up.update_step();
    assert_eq!(up.snake_head_idx(), 2);

    // Heading down, up is ignored: the head moves down.
    let mut down = world(5, 7, 2);
    down.start_game();
    down.update_snake_direction(Direction::DOWN);
    down.update_snake_direction(Direction::UP);
    down.update_step();
    assert_eq!(down.snake_head_idx(), 12);

    // Heading left, right is ignored: the head moves left.
    let mut left = world(5, 7, 2);
    left.start_game();
    left.update_snake_direction(Direction::DOWN);
    left.update_snake_direction(Direction::LEFT);
    left.update_snake_direction(Direction::RIGHT);
    left.update_step();
    assert_eq!(left.snake_head_idx(), 6);
}

#[test]
fn body_shifts_from_the_layout_before_the_step() {
    let mut world = world(5, 4, 3);
    world.start_game();
    world.update_step();
    // The head has wrapped to the start of its row.
    assert_eq!(body(&world), vec![0, 4, 3]);
    world.update_step();
    assert_eq!(body(&world), vec![1, 0, 4]);
}

#[test]
fn self_collision_loses_and_freezes_the_snake() {
    let mut world = world(4, 4, 4);
    world.start_game();
    world.update_snake_direction(Direction::UP);
    world.update_step();
    assert_eq!(body(&world), vec![0, 4, 3, 2]);
    world.update_snake_direction(Direction::LEFT);
    // The next head, cell 3, is where the third segment lies.
    world.update_step();
    assert_eq!(world.get_status(), Some(GameStatus::LOST));
    assert_eq!(body(&world), vec![3, 0, 4, 3]);
    world.update_step();
    world.update_step();
    assert_eq!(world.get_status(), Some(GameStatus::LOST));
    assert_eq!(body(&world), vec![3, 0, 4, 3]);
    assert_eq!(world.get_points(), 0);
}

#[test]
fn eating_grows_the_snake_scores_and_asks_for_a_new_reward() {
    let mut world = world(5, 2, 3);
    assert_eq!(world.place_reward(3), Ok(true));
    assert_eq!(world.reward_cell(), Some(3));
    world.start_game();
    world.update_step();
    assert_eq!(world.get_snake_length(), 4);
    assert_eq!(body(&world), vec![3, 2, 1, 0]);
    assert_eq!(world.reward_cell(), None);
    assert_eq!(world.get_points(), 1);
    assert_eq!(world.get_status(), Some(GameStatus::STARTED));

    // Draws on the snake are turned down, a draw on a free cell is taken.
    for occupied in [3, 2, 1, 0] {
        assert_eq!(world.place_reward(occupied), Ok(false));
        assert_eq!(world.reward_cell(), None);
    }
    assert_eq!(world.place_reward(7), Ok(true));
    assert_eq!(world.reward_cell(), Some(7));
    assert_eq!(world.get_points(), 1);
}

#[test]
fn points_rise_only_when_a_reward_is_eaten() {
    let mut world = world(6, 1, 2);
    world.start_game();
    // No reward is placed: ticks pass without points.
    world.update_step();
    world.update_step();
    assert_eq!(world.get_points(), 0);
    assert_eq!(body(&world), vec![3, 2]);
    assert_eq!(world.place_reward(5), Ok(true));
    world.update_step();
    assert_eq!(world.get_points(), 0);
    world.update_step();
    assert_eq!(world.get_points(), 1);
    assert_eq!(body(&world), vec![5, 4, 3]);
    world.update_step();
    assert_eq!(world.get_points(), 1);
    assert_eq!(body(&world), vec![0, 5, 4]);
}

#[test]
fn last_reward_wins_and_freezes_the_snake() {
    let mut world = world(5, 2, 3);
    world.start_game();
    assert_eq!(world.place_reward(3), Ok(true));
    world.update_step();
    // The body is one segment short of the side of the grid.
    assert_eq!(world.get_snake_length(), 4);
    assert_eq!(world.place_reward(4), Ok(true));
    world.update_step();
    assert_eq!(world.get_status(), Some(GameStatus::WON));
    assert_eq!(body(&world), vec![4, 3, 2, 1]);
    assert_eq!(world.get_points(), 1);
    assert_eq!(world.reward_cell(), Some(4));
    world.update_snake_direction(Direction::DOWN);
    world.update_step();
    world.update_step();
    assert_eq!(world.get_status(), Some(GameStatus::WON));
    assert_eq!(body(&world), vec![4, 3, 2, 1]);
    assert_eq!(world.get_points(), 1);
}

#[test]
fn first_reward_wins_when_the_snake_is_one_short_of_the_side() {
    let mut world = world(4, 5, 3);
    world.start_game();
    assert_eq!(world.place_reward(6), Ok(true));
    world.update_step();
    assert_eq!(world.get_status(), Some(GameStatus::WON));
    assert_eq!(body(&world), vec![6, 5, 4]);
    assert_eq!(world.get_points(), 0);
}

#[test]
fn draw_outside_the_grid_is_turned_down() {
    let mut world = world(4, 5, 3);
    assert_eq!(world.place_reward(16), Ok(false));
    assert_eq!(world.place_reward(usize::MAX), Ok(false));
    assert_eq!(world.reward_cell(), None);
    assert_eq!(world.place_reward(15), Ok(true));
    assert_eq!(world.reward_cell(), Some(15));
}

#[test]
fn placed_reward_is_not_replaced() {
    let mut world = world(4, 5, 3);
    assert_eq!(world.place_reward(9), Ok(true));
    assert_eq!(world.place_reward(10), Ok(true));
    assert_eq!(world.reward_cell(), Some(9));
    // Not even by a draw that would have been turned down.
    assert_eq!(world.place_reward(5), Ok(true));
    assert_eq!(world.reward_cell(), Some(9));
}

#[test]
fn reward_is_placed_on_the_last_free_cell() {
    let mut world = world(2, 2, 3);
    assert_eq!(world.place_reward(0), Ok(false));
    assert_eq!(world.place_reward(1), Ok(false));
    assert_eq!(world.place_reward(2), Ok(false));
    assert_eq!(world.place_reward(3), Ok(true));
    assert_eq!(world.reward_cell(), Some(3));
}

#[test]
fn score_counts_every_reward_of_a_longer_game() {
    let mut world = world(8, 0, 1);
    world.start_game();
    for eaten in 1..=6usize {
        let ahead = world.snake_head_idx() + 1;
        assert_eq!(world.place_reward(ahead), Ok(true));
        world.update_step();
        assert_eq!(world.get_points(), eaten);
        assert_eq!(world.get_snake_length(), eaten + 1);
        assert_eq!(world.reward_cell(), None);
    }
    assert_eq!(body(&world), vec![6, 5, 4, 3, 2, 1, 0]);
    // The seventh reward would make the snake as long as the grid is wide.
    assert_eq!(world.place_reward(7), Ok(true));
    world.update_step();
    assert_eq!(world.get_status(), Some(GameStatus::WON));
    assert_eq!(world.get_points(), 6);
    assert_eq!(world.get_snake_length(), 7);
}

#[test]
fn body_view_follows_the_game() {
    let mut world = world(4, 5, 3);
    world.start_game();
    assert_eq!(world.get_snake_ptr().len(), world.get_snake_length());
    assert_eq!(world.get_snake_ptr()[0].0, world.snake_head_idx());
    world.update_snake_direction(Direction::DOWN);
    world.update_step();
    assert_eq!(world.get_snake_ptr().len(), 3);
    assert_eq!(world.get_snake_ptr()[0].0, 9);
    assert_eq!(world.snake_head_idx(), 9);
}

#[test]
fn forced_restart_lets_a_finished_game_move_again() {
    let mut world = world(4, 5, 3);
    world.change_status(Some(GameStatus::LOST));
    world.update_step();
    assert_eq!(body(&world), vec![5, 4, 3]);
    world.change_status(Some(GameStatus::STARTED));
    world.update_step();
    assert_eq!(body(&world), vec![6, 5, 4]);
}
