//! One game: a snake on a grid of fixed side, the reward, and the score.
//!
//! The world never draws random numbers itself. While it holds no reward,
//! the host draws a cell below [`World::cell_count`] and offers it with
//! [`World::place_reward`], again and again until a draw is taken.

use crate::grid::{cell_count, in_grid, valid_grid, Direction};
use crate::reward::{
    free_cell_exists, has_free_cell, is_free_cell, is_occupied, lemma_short_body_leaves_room,
    reward_pick, InvariantError,
};
use crate::snake::{cell_indices, cell_of, initial_body, GameStatus, Snake, SnakeCell, SnakeView};
use vstd::prelude::*;

verus! {

/// Why a world cannot be set up as asked.
#[derive(Clone, Copy, Debug, PartialEq, Eq, Structural)]
pub enum ConfigurationError {
    /// The grid has side 0.
    EmptyGrid,
    /// The number of cells does not fit in a machine word.
    GridTooLarge,
    /// The snake has no segment.
    EmptySnake,
    /// The head lies beyond the last cell of the grid.
    HeadOffGrid,
    /// The body, counting down from the head, would run below cell 0.
    TailOffGrid,
    /// The snake covers every cell, so that no reward can be placed.
    GridCovered,
}

/// The first reason, if any, for which a world of side `size` cannot start
/// with a snake of `length` segments whose head lies on `head`.
pub open spec fn configuration_error(size: int, head: int, length: int) -> Option<
    ConfigurationError,
> {
    if size <= 0 {
        Some(ConfigurationError::EmptyGrid)
    } else if size * size > usize::MAX {
        Some(ConfigurationError::GridTooLarge)
    } else if length <= 0 {
        Some(ConfigurationError::EmptySnake)
    } else if head >= size * size {
        Some(ConfigurationError::HeadOffGrid)
    } else if head < length - 1 {
        Some(ConfigurationError::TailOffGrid)
    } else if length == size * size {
        Some(ConfigurationError::GridCovered)
    } else {
        None
    }
}

/// What a world is, as plain mathematics.
pub struct WorldView {
    /// Side of the grid.
    pub size: int,
    /// The snake, with the reward and the status it carries.
    pub snake: SnakeView,
    /// Rewards eaten so far.
    pub points: int,
}

impl WorldView {
    /// The snake lies on the grid and is shorter than the grid has cells, a
    /// placed reward lies on the grid, and every point stands for a segment
    /// that the snake has grown.
    pub open spec fn wf(self) -> bool {
        &&& self.snake.fits(self.size)
        &&& self.snake.body.len() < cell_count(self.size)
        &&& self.snake.reward_cell matches Some(cell) ==> in_grid(cell, self.size)
        &&& 0 <= self.points < self.snake.body.len()
    }

    /// No two segments share a cell, and a placed reward lies on a cell that
    /// no segment lies on.
    pub open spec fn untangled(self) -> bool {
        &&& self.snake.body.no_duplicates()
        &&& self.snake.reward_cell matches Some(cell) ==> !self.snake.body.contains(cell)
    }

    /// The world a game begins with: the snake as [`Snake::new`] makes it, no
    /// reward yet, no points.
    pub open spec fn initial(size: int, head: int, length: int) -> WorldView {
        WorldView {
            size,
            snake: SnakeView {
                body: initial_body(head, length),
                direction: Direction::RIGHT,
                reward_cell: None,
                status: None,
            },
            points: 0,
        }
    }

    /// The world after one tick: the snake steps, and a step on which it eats
    /// scores one point.
    pub open spec fn ticked(self) -> WorldView {
        WorldView {
            size: self.size,
            snake: self.snake.stepped(self.size),
            points: if self.snake.eats(self.size) {
                self.points + 1
            } else {
                self.points
            },
        }
    }

    /// The world after the host has offered `draw` as the reward's cell: a
    /// world without a reward takes a draw that names a free cell; in every
    /// other case nothing changes.
    pub open spec fn offered(self, draw: int) -> WorldView {
        if self.snake.reward_cell is None && is_free_cell(self.snake.body, self.size, draw) {
            WorldView { snake: SnakeView { reward_cell: Some(draw), ..self.snake }, ..self }
        } else {
            self
        }
    }

    /// What the host is told of an offered draw: `Ok(true)` when the world
    /// holds a reward afterwards, `Ok(false)` when the draw was turned down
    /// and another can succeed, an error when none can.
    pub open spec fn offer_outcome(self, draw: int) -> Result<bool, InvariantError> {
        if self.snake.reward_cell is Some || is_free_cell(self.snake.body, self.size, draw) {
            Ok(true)
        } else if has_free_cell(self.snake.body, self.size) {
            Ok(false)
        } else {
            Err(InvariantError::GridFull)
        }
    }

    /// Every world that can be set up starts well-formed and untangled.
    pub proof fn lemma_initial_world_is_sound(size: int, head: int, length: int)
        requires
            configuration_error(size, head, length) is None,
        ensures
            WorldView::initial(size, head, length).wf(),
            WorldView::initial(size, head, length).untangled(),
    {
    }

    /// Play keeps a world untangled for as long as the game is not decided:
    /// an offered draw never puts the reward on the snake, and after a tick
    /// the game is won or lost, or the world is untangled still.
    pub proof fn lemma_play_stays_untangled(self, draw: int)
        requires
            self.wf(),
            self.untangled(),
        ensures
            self.offered(draw).untangled(),
            self.ticked().untangled() || self.ticked().snake.status == Some(GameStatus::WON)
                || self.ticked().snake.status == Some(GameStatus::LOST),
    {
        self.snake.lemma_reward_stays_off_body(self.size);
        self.snake.lemma_step_keeps_segments_apart(self.size);
    }

    /// A well-formed world has room for a reward, so an offered draw is
    /// never answered with an error.
    pub proof fn lemma_room_for_reward(self, draw: int)
        requires
            self.wf(),
        ensures
            has_free_cell(self.snake.body, self.size),
            self.offer_outcome(draw) is Ok,
    {
        lemma_short_body_leaves_room(self.snake.body, self.size);
    }

    /// A tick keeps a well-formed world well-formed, and the score rises by
    /// exactly as much as the snake grows: by one on a tick on which it
    /// eats, not at all on any other.
    pub proof fn lemma_tick_scores_growth(self)
        requires
            self.wf(),
        ensures
            self.ticked().wf(),
            self.ticked().size == self.size,
            self.ticked().points - self.points == self.ticked().snake.body.len()
                - self.snake.body.len(),
            self.ticked().points == self.points || self.ticked().points == self.points + 1,
    {
        self.snake.lemma_step_keeps_fit(self.size);
        let size = self.size;
        assert(size <= size * size) by (nonlinear_arith)
            requires
                0 < size,
        ;
    }
}

/// One game of snake.
pub struct World {
    size: usize,
    snake: Snake,
    points: usize,
}

impl View for World {
    type V = WorldView;

    closed spec fn view(&self) -> WorldView {
        WorldView { size: self.size as int, snake: self.snake@, points: self.points as int }
    }
}

impl World {
    /// Sets up a game on a grid of side `world_size` with a snake of
    /// `snake_size` segments whose head lies on cell `initial_idx`.
    ///
    /// The new world holds no reward: the host places the first one with
    /// [`World::place_reward`].
    pub fn new(world_size: usize, initial_idx: usize, snake_size: usize) -> (made: Result<
        World,
        ConfigurationError,
    >)
        ensures
            match made {
                Ok(world) => configuration_error(
                    world_size as int,
                    initial_idx as int,
                    snake_size as int,
                ) is None && world@ == WorldView::initial(
                    world_size as int,
                    initial_idx as int,
                    snake_size as int,
                ) && world@.wf(),
                Err(error) => configuration_error(
                    world_size as int,
                    initial_idx as int,
                    snake_size as int,
                ) == Some(error),
            },
    {
        if world_size == 0 {
            return Err(ConfigurationError::EmptyGrid);
        }
        let total: usize = match world_size.checked_mul(world_size) {
            Some(total) => total,
            None => {
                return Err(ConfigurationError::GridTooLarge);
            },
        };
        if snake_size == 0 {
            return Err(ConfigurationError::EmptySnake);
        }
        if initial_idx >= total {
            return Err(ConfigurationError::HeadOffGrid);
        }
        if initial_idx < snake_size - 1 {
            return Err(ConfigurationError::TailOffGrid);
        }
        if snake_size == total {
            return Err(ConfigurationError::GridCovered);
        }
        let snake = Snake::new(initial_idx, snake_size);
        Ok(World { size: world_size, snake, points: 0 })
    }

    /// Side of the grid.
    pub fn size(&self) -> (size: usize)
        ensures
            size == self@.size,
    {
        self.size
    }

    /// Number of cells of the grid: the exclusive upper bound of the draws
    /// that [`World::place_reward`] can take.
    pub fn cell_count(&self) -> (count: usize)
        requires
            self@.wf(),
        ensures
            count == cell_count(self@.size),
    {
        self.size * self.size
    }

    /// The cell that holds the reward, or `None` while one has to be placed.
    pub fn reward_cell(&self) -> (cell: Option<usize>)
        ensures
            cell_of(cell) == self@.snake.reward_cell,
    {
        self.snake.reward_cell()
    }

    /// Decides what becomes of one random draw, given the cells that the
    /// snake lies on and the side of the grid.
    ///
    /// A draw that names a free cell of the grid is taken. Any other draw is
    /// turned down: with `Ok(None)` while a free cell is left, so that the
    /// caller draws again, and with an error once the grid is full, so that
    /// the caller stops drawing.
    pub fn generate_reward_cell(positions: &Vec<SnakeCell>, size: usize, draw: usize) -> (picked:
        Result<Option<usize>, InvariantError>)
        requires
            valid_grid(size as int),
        ensures
            picked == reward_pick(cell_indices(positions@), size as int, draw),
    {
        if draw < size * size && !is_occupied(positions, draw) {
            Ok(Some(draw))
        } else if free_cell_exists(positions, size) {
            Ok(None)
        } else {
            Err(InvariantError::GridFull)
        }
    }

    /// Offers `draw` as the cell of the next reward.
    ///
    /// Returns `Ok(true)` when the world holds a reward after the call: the
    /// one it held before, or `draw`. Returns `Ok(false)` when `draw` was
    /// turned down and another draw can succeed, and an error when none can.
    pub fn place_reward(&mut self, draw: usize) -> (placed: Result<bool, InvariantError>)
        requires
            old(self)@.wf(),
        ensures
            final(self)@ == old(self)@.offered(draw as int),
            final(self)@.wf(),
            placed == old(self)@.offer_outcome(draw as int),
    {
        if self.snake.reward_cell().is_some() {
            return Ok(true);
        }
        match World::generate_reward_cell(self.snake.cells(), self.size, draw) {
            Ok(Some(cell)) => {
                self.snake.set_reward_cell(Some(cell));
                Ok(true)
            },
            Ok(None) => Ok(false),
            Err(error) => Err(error),
        }
    }

    /// Hands a heading request to the snake.
    pub fn update_snake_direction(&mut self, direction: Direction)
        ensures
            final(self)@ == (WorldView {
                snake: old(self)@.snake.turned(direction),
                ..old(self)@
            }),
    {
        self.snake.update_direction(direction);
    }

    /// Advances the game by one tick.
    ///
    /// A tick on which the snake eats leaves the world without a reward.
    pub fn update_step(&mut self)
        requires
            old(self)@.wf(),
        ensures
            final(self)@ == old(self)@.ticked(),
            final(self)@.wf(),
    {
        proof {
            self@.lemma_tick_scores_growth();
        }
        let had_reward = self.snake.reward_cell().is_some();
        self.snake.step(self.size);
        if had_reward && self.snake.reward_cell().is_none() {
            self.points += 1;
        }
    }

    /// Sets the status: starts the game, forces its end, or resets it.
    pub fn change_status(&mut self, status: Option<GameStatus>)
        ensures
            final(self)@ == (WorldView {
                snake: SnakeView { status, ..old(self)@.snake },
                ..old(self)@
            }),
    {
        self.snake.set_status(status);
    }

    /// Starts a game that has not been started; any other game is left as it is.
    pub fn start_game(&mut self)
        ensures
            final(self)@ == (WorldView {
                snake: SnakeView {
                    status: if old(self)@.snake.status is None {
                        Some(GameStatus::STARTED)
                    } else {
                        old(self)@.snake.status
                    },
                    ..old(self)@.snake
                },
                ..old(self)@
            }),
    {
        if self.snake.status().is_none() {
            self.snake.set_status(Some(GameStatus::STARTED));
        }
    }

    /// Where the game stands; `None` until it is started.
    pub fn get_status(&self) -> (status: Option<GameStatus>)
        ensures
            status == self@.snake.status,
    {
        self.snake.status()
    }

    /// Rewards eaten so far.
    pub fn get_points(&self) -> (points: usize)
        ensures
            points == self@.points,
    {
        self.points
    }

    /// The cell the head lies on.
    pub fn snake_head_idx(&self) -> (cell: usize)
        requires
            self@.wf(),
        ensures
            cell == self@.snake.head(),
    {
        self.snake.head()
    }

    /// A borrowed view of the segments, head first: the body as it is now,
    /// not a copy of it.
    pub fn get_snake_ptr(&self) -> (cells: &[SnakeCell])
        ensures
            cell_indices(cells@) == self@.snake.body,
    {
        self.snake.cells().as_slice()
    }

    /// Number of segments of the snake.
    pub fn get_snake_length(&self) -> (length: usize)
        ensures
            length == self@.snake.body.len(),
    {
        self.snake.len()
    }
}

} // verus!
