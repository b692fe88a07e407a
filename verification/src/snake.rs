//! The snake: an ordered body of grid cells, a heading, and the per-tick
//! movement rules.

use crate::grid::{
    in_grid, lemma_next_cell_in_grid, next_cell, next_index, valid_grid, Direction,
};
use vstd::prelude::*;

verus! {

/// One segment of the snake, named by the index of the grid cell it lies on.
#[derive(Clone, Copy, Debug, PartialEq, Eq, Structural)]
pub struct SnakeCell(pub usize);

/// Where a started game stands. A game that has not been started has no status.
#[derive(Clone, Copy, Debug, PartialEq, Eq, Structural)]
pub enum GameStatus {
    WON,
    LOST,
    STARTED,
}

/// The cell indices of a run of segments, head first.
pub open spec fn cell_indices(cells: Seq<SnakeCell>) -> Seq<int> {
    Seq::new(cells.len(), |i: int| cells[i].0 as int)
}

/// A cell that may be absent, as a mathematical integer.
pub open spec fn cell_of(cell: Option<usize>) -> Option<int> {
    match cell {
        Some(c) => Some(c as int),
        None => None,
    }
}

/// The body a new snake starts with: `length` cells counting down from `head`.
pub open spec fn initial_body(head: int, length: int) -> Seq<int> {
    Seq::new(length as nat, |i: int| head - i)
}

/// The head lies on a cell that another segment lies on too.
pub open spec fn hits_itself(body: Seq<int>) -> bool {
    exists|i: int| 1 <= i < body.len() && #[trigger] body[i] == body[0]
}

/// What a snake is, as plain mathematics.
pub struct SnakeView {
    /// Cell indices of the segments, head at position 0, tail last.
    pub body: Seq<int>,
    /// The heading the next step moves towards.
    pub direction: Direction,
    /// The cell that holds the reward, if one is placed.
    pub reward_cell: Option<int>,
    /// `None` until the game is started.
    pub status: Option<GameStatus>,
}

impl SnakeView {
    /// The snake has a head and every segment lies on the grid of side `size`.
    pub open spec fn fits(self, size: int) -> bool {
        &&& valid_grid(size)
        &&& self.body.len() >= 1
        &&& forall|i: int| 0 <= i < self.body.len() ==> in_grid(#[trigger] self.body[i], size)
    }

    /// The cell the head lies on.
    pub open spec fn head(self) -> int {
        self.body[0]
    }

    /// The snake after a request to head towards `requested`: a request to
    /// reverse on the spot is ignored, any other is taken.
    pub open spec fn turned(self, requested: Direction) -> SnakeView {
        if requested == self.direction.opposite() {
            self
        } else {
            SnakeView { direction: requested, ..self }
        }
    }

    /// The body after one move: the head takes the next cell towards the
    /// heading, every other segment takes the cell that the segment ahead of
    /// it held before the move.
    pub open spec fn moved_body(self, size: int) -> Seq<int> {
        seq![next_cell(self.head(), size, self.direction)] + self.body.drop_last()
    }

    /// A step makes the snake grow: the game runs, the move ends on the
    /// reward without hitting the body, and the longer snake stays shorter
    /// than the side of the grid.
    pub open spec fn eats(self, size: int) -> bool {
        let moved = self.moved_body(size);
        &&& self.status == Some(GameStatus::STARTED)
        &&& !hits_itself(moved)
        &&& self.reward_cell == Some(moved[0])
        &&& moved.len() + 1 < size
    }

    /// The snake after one tick on the grid of side `size`.
    ///
    /// Only a started game moves. The move is applied first. A head that then
    /// lies on the body loses the game. Otherwise a head on the reward either
    /// wins the game, when the grown snake would be as long as the grid is
    /// wide, or grows the snake by the cell its tail just left and takes the
    /// reward off the grid.
    pub open spec fn stepped(self, size: int) -> SnakeView {
        let moved = self.moved_body(size);
        if self.status != Some(GameStatus::STARTED) {
            self
        } else if hits_itself(moved) {
            SnakeView { body: moved, status: Some(GameStatus::LOST), ..self }
        } else if self.reward_cell != Some(moved[0]) {
            SnakeView { body: moved, ..self }
        } else if moved.len() + 1 >= size {
            SnakeView { body: moved, status: Some(GameStatus::WON), ..self }
        } else {
            SnakeView { body: moved.push(self.body.last()), reward_cell: None, ..self }
        }
    }
}

impl SnakeView {
    /// A request for the exact reverse of the heading changes nothing, any
    /// other request becomes the heading, and whatever was requested, the
    /// reverse of the heading that results is turned down in its turn.
    pub proof fn lemma_reverse_is_ignored(self, requested: Direction)
        ensures
            self.turned(self.direction.opposite()) == self,
            requested != self.direction.opposite() ==> self.turned(requested) == (SnakeView {
                direction: requested,
                ..self
            }),
            self.turned(requested).turned(self.turned(requested).direction.opposite())
                == self.turned(requested),
    {
    }

    /// All segments move at once: the head takes the next cell towards the
    /// heading and segment `i` the cell that segment `i - 1` held before the
    /// move, never one that was already written during it.
    pub proof fn lemma_move_is_simultaneous(self, size: int)
        requires
            self.body.len() >= 1,
        ensures
            self.moved_body(size).len() == self.body.len(),
            self.moved_body(size)[0] == next_cell(self.head(), size, self.direction),
            forall|i: int|
                1 <= i < self.body.len() ==> #[trigger] self.moved_body(size)[i]
                    == self.body[i - 1],
    {
    }

    /// A step leaves every segment on the grid, keeps the heading, and
    /// changes the length only by growing one segment on a step that eats.
    pub proof fn lemma_step_keeps_fit(self, size: int)
        requires
            self.fits(size),
        ensures
            self.stepped(size).fits(size),
            self.stepped(size).direction == self.direction,
            self.stepped(size).body.len() == if self.eats(size) {
                self.body.len() + 1
            } else {
                self.body.len()
            },
            self.eats(size) <==> self.reward_cell is Some
                && self.stepped(size).reward_cell is None,
    {
        let moved = self.moved_body(size);
        lemma_next_cell_in_grid(self.head(), size, self.direction);
        assert forall|i: int| 0 <= i < moved.len() implies in_grid(#[trigger] moved[i], size) by {
            if i > 0 {
                assert(moved[i] == self.body[i - 1]);
            }
        }
        assert(in_grid(self.body[self.body.len() - 1], size));
    }

    /// A game that is not running stands still: before the start, and after
    /// it is won or lost, a step changes nothing.
    pub proof fn lemma_idle_game_stands_still(self, size: int)
        requires
            self.status != Some(GameStatus::STARTED),
        ensures
            self.stepped(size) == self,
    {
    }

    /// A move that ends on the body loses the game: the move is applied, the
    /// status turns to `LOST`, and no later step changes anything.
    pub proof fn lemma_collision_loses(self, size: int)
        requires
            self.status == Some(GameStatus::STARTED),
            hits_itself(self.moved_body(size)),
        ensures
            self.stepped(size) == (SnakeView {
                body: self.moved_body(size),
                status: Some(GameStatus::LOST),
                ..self
            }),
            self.stepped(size).stepped(size) == self.stepped(size),
    {
    }

    /// A step that eats grows the snake by exactly one segment, which lies on
    /// the cell the tail held before the step, and takes the reward off the
    /// grid; the game goes on.
    pub proof fn lemma_eating_grows(self, size: int)
        requires
            self.body.len() >= 1,
            self.eats(size),
        ensures
            self.stepped(size).body.len() == self.body.len() + 1,
            self.stepped(size).body.last() == self.body.last(),
            self.stepped(size).body.drop_last() == self.moved_body(size),
            self.stepped(size).reward_cell is None,
            self.stepped(size).status == Some(GameStatus::STARTED),
    {
        let moved = self.moved_body(size);
        assert(moved.push(self.body.last()).drop_last() =~= moved);
    }

    /// Reaching the reward with a body one segment short of the side of the
    /// grid, or longer, wins the game: the move is applied, nothing is
    /// appended, the reward stays, and no later step changes anything.
    pub proof fn lemma_last_reward_wins(self, size: int)
        requires
            self.status == Some(GameStatus::STARTED),
            !hits_itself(self.moved_body(size)),
            self.reward_cell == Some(self.moved_body(size)[0]),
            self.body.len() + 1 >= size,
            self.body.len() >= 1,
        ensures
            self.stepped(size) == (SnakeView {
                body: self.moved_body(size),
                status: Some(GameStatus::WON),
                ..self
            }),
            self.stepped(size).stepped(size) == self.stepped(size),
    {
    }

    /// A reward that lies off the body stays off it: after a step the game
    /// is won, or the reward is gone, or it still lies on a cell that no
    /// segment lies on.
    pub proof fn lemma_reward_stays_off_body(self, size: int)
        requires
            self.body.len() >= 1,
            self.reward_cell matches Some(cell) ==> !self.body.contains(cell),
        ensures
            self.stepped(size).status == Some(GameStatus::WON) || (self.stepped(
                size,
            ).reward_cell matches Some(cell) ==> !self.stepped(size).body.contains(cell)),
    {
        let moved = self.moved_body(size);
        let after = self.stepped(size);
        if let Some(cell) = after.reward_cell {
            if after.status != Some(GameStatus::WON) && after.body.contains(cell) {
                let at = choose|i: int| 0 <= i < after.body.len() && after.body[i] == cell;
                assert(after.body == moved);
                if at > 0 {
                    assert(self.body[at - 1] == cell);
                } else {
                    assert(hits_itself(moved));
                    let other = choose|i: int|
                        1 <= i < moved.len() && #[trigger] moved[i] == moved[0];
                    assert(self.body[other - 1] == cell);
                }
            }
        }
    }

    /// Segments that lie on cells of their own keep doing so while the
    /// reward lies off the body: after a step the game is lost, or no two
    /// segments share a cell.
    pub proof fn lemma_step_keeps_segments_apart(self, size: int)
        requires
            self.body.len() >= 1,
            self.body.no_duplicates(),
            self.reward_cell matches Some(cell) ==> !self.body.contains(cell),
        ensures
            self.stepped(size).status == Some(GameStatus::LOST) || self.stepped(
                size,
            ).body.no_duplicates(),
    {
        let moved = self.moved_body(size);
        let after = self.stepped(size);
        if self.status == Some(GameStatus::STARTED) && !hits_itself(moved) {
            assert forall|i: int, j: int|
                0 <= i < moved.len() && 0 <= j < moved.len() && i != j
            implies moved[i] != moved[j] by {
                if i > 0 && j > 0 {
                    assert(moved[i] == self.body[i - 1] && moved[j] == self.body[j - 1]);
                }
            }
            if self.eats(size) {
                let tail = self.body.last();
                assert forall|i: int, j: int|
                    0 <= i < after.body.len() && 0 <= j < after.body.len() && i != j
                implies after.body[i] != after.body[j] by {
                    let last = moved.len() as int;
                    if i == last || j == last {
                        let k = if i == last {
                            j
                        } else {
                            i
                        };
                        if k == 0 {
                            assert(self.body.contains(tail));
                        } else {
                            assert(moved[k] == self.body[k - 1]);
                        }
                    }
                }
            }
        }
    }
}

/// A snake on a grid whose side is given at each step.
pub struct Snake {
    position: Vec<SnakeCell>,
    direction: Direction,
    reward_cell: Option<usize>,
    status: Option<GameStatus>,
}

impl View for Snake {
    type V = SnakeView;

    closed spec fn view(&self) -> SnakeView {
        SnakeView {
            body: cell_indices(self.position@),
            direction: self.direction,
            reward_cell: cell_of(self.reward_cell),
            status: self.status,
        }
    }
}

impl Snake {
    /// A snake of `snake_size` segments whose head lies on `snake_initial_pos`
    /// and whose segments count down from there, heading right, with no
    /// reward and not started.
    pub fn new(snake_initial_pos: usize, snake_size: usize) -> (snake: Snake)
        requires
            1 <= snake_size <= snake_initial_pos + 1,
        ensures
            snake@ == (SnakeView {
                body: initial_body(snake_initial_pos as int, snake_size as int),
                direction: Direction::RIGHT,
                reward_cell: None,
                status: None,
            }),
    {
        let mut snake_position: Vec<SnakeCell> = Vec::new();
        let mut index: usize = 0;
        while index < snake_size
            invariant
                index <= snake_size <= snake_initial_pos + 1,
                snake_position@.len() == index,
                forall|i: int|
                    0 <= i < index ==> (#[trigger] snake_position@[i]).0 == snake_initial_pos - i,
            decreases snake_size - index,
        {
            snake_position.push(SnakeCell(snake_initial_pos - index));
            index += 1;
        }
        let snake = Snake {
            position: snake_position,
            direction: Direction::RIGHT,
            reward_cell: None,
            status: None,
        };
        assert(snake@.body =~= initial_body(snake_initial_pos as int, snake_size as int));
        snake
    }

    fn update_cell(&mut self, snake_cell: SnakeCell, index_cell: usize)
        requires
            index_cell < old(self)@.body.len(),
        ensures
            final(self)@ == (SnakeView {
                body: old(self)@.body.update(index_cell as int, snake_cell.0 as int),
                ..old(self)@
            }),
    {
        self.position[index_cell] = snake_cell;
        assert(self@.body =~= old(self)@.body.update(index_cell as int, snake_cell.0 as int));
    }

    fn is_opposite_direction(&self, direction_to_compare: &Direction) -> (opposite: bool)
        ensures
            opposite == (*direction_to_compare == self@.direction.opposite()),
    {
        match (direction_to_compare, self.direction) {
            (Direction::LEFT, Direction::RIGHT) => true,
            (Direction::RIGHT, Direction::LEFT) => true,
            (Direction::UP, Direction::DOWN) => true,
            (Direction::DOWN, Direction::UP) => true,
            _ => false,
        }
    }

    /// Takes the new heading unless it is the exact reverse of the current one.
    pub fn update_direction(&mut self, direction: Direction)
        ensures
            final(self)@ == old(self)@.turned(direction),
    {
        let is_opposite_direction = self.is_opposite_direction(&direction);
        if !is_opposite_direction {
            self.direction = direction
        }
    }

    fn generate_next_cell(&self, snake_idx: usize, world_size: usize) -> (cell: SnakeCell)
        requires
            valid_grid(world_size as int),
            in_grid(snake_idx as int, world_size as int),
        ensures
            cell.0 == next_cell(snake_idx as int, world_size as int, self@.direction),
            in_grid(cell.0 as int, world_size as int),
    {
        SnakeCell(next_index(snake_idx, world_size, self.direction))
    }

    fn head_hits_body(&self) -> (hit: bool)
        requires
            self@.body.len() >= 1,
        ensures
            hit == hits_itself(self@.body),
    {
        let head = self.position[0].0;
        let mut idx: usize = 1;
        while idx < self.position.len()
            invariant
                1 <= idx <= self.position@.len(),
                head == self.position@[0].0,
                forall|i: int| 1 <= i < idx ==> #[trigger] self@.body[i] != self@.body[0],
            decreases self.position@.len() - idx,
        {
            if self.position[idx].0 == head {
                assert(self@.body[idx as int] == self@.body[0]);
                return true;
            }
            idx += 1;
        }
        false
    }

    /// Advances the snake by one tick on the grid of side `world_size`.
    pub fn step(&mut self, world_size: usize)
        requires
            old(self)@.fits(world_size as int),
        ensures
            final(self)@ == old(self)@.stepped(world_size as int),
            final(self)@.fits(world_size as int),
    {
        match self.status {
            Some(GameStatus::STARTED) => {},
            _ => {
                return ;
            },
        }
        let ghost before = self@;
        let ghost moved = before.moved_body(world_size as int);
        proof {
            before.lemma_step_keeps_fit(world_size as int);
        }
        let length = self.position.len();
        let tail = self.position[length - 1];
        assert(in_grid(before.body[0], world_size as int));
        let mut incoming = self.generate_next_cell(self.position[0].0, world_size);
        let mut idx: usize = 0;
        while idx < length
            invariant
                idx <= length == before.body.len(),
                self@.body.len() == length,
                self@.direction == before.direction,
                self@.reward_cell == before.reward_cell,
                self@.status == before.status,
                moved == before.moved_body(world_size as int),
                forall|i: int| 0 <= i < idx ==> self@.body[i] == moved[i],
                forall|i: int| idx <= i < length ==> self@.body[i] == before.body[i],
                idx < length ==> incoming.0 == moved[idx as int],
            decreases length - idx,
        {
            let current = self.position[idx];
            self.update_cell(incoming, idx);
            incoming = current;
            idx += 1;
        }
        assert(self@.body =~= moved);

        // Crashed into its own body.
        if self.head_hits_body() {
            self.status = Some(GameStatus::LOST);
            return ;
        }
        let snake_head_idx = self.position[0].0;
        let on_reward = match self.reward_cell {
            Some(reward_idx) => snake_head_idx == reward_idx,
            None => false,
        };
        if on_reward {
            if self.position.len() >= world_size - 1 {
                self.status = Some(GameStatus::WON);
                return ;
            }
            self.position.push(tail);
            self.reward_cell = None;
            assert(self@.body =~= moved.push(before.body.last()));
        }
    }

    /// Number of segments.
    pub fn len(&self) -> (length: usize)
        ensures
            length == self@.body.len(),
    {
        self.position.len()
    }

    /// The cell the head lies on.
    pub fn head(&self) -> (cell: usize)
        requires
            self@.body.len() >= 1,
        ensures
            cell == self@.head(),
    {
        self.position[0].0
    }

    /// The segments, head first.
    pub fn cells(&self) -> (cells: &Vec<SnakeCell>)
        ensures
            cell_indices(cells@) == self@.body,
    {
        &self.position
    }

    /// The heading the next step moves towards.
    pub fn direction(&self) -> (direction: Direction)
        ensures
            direction == self@.direction,
    {
        self.direction
    }

    /// The cell that holds the reward, if one is placed.
    pub fn reward_cell(&self) -> (cell: Option<usize>)
        ensures
            cell_of(cell) == self@.reward_cell,
    {
        self.reward_cell
    }

    /// Where the game stands; `None` until it is started.
    pub fn status(&self) -> (status: Option<GameStatus>)
        ensures
            status == self@.status,
    {
        self.status
    }

    /// Puts the reward on `cell`, or takes it off the grid.
    pub fn set_reward_cell(&mut self, cell: Option<usize>)
        ensures
            final(self)@ == (SnakeView { reward_cell: cell_of(cell), ..old(self)@ }),
    {
        self.reward_cell = cell;
    }

    /// Starts, ends or resets the game.
    pub fn set_status(&mut self, status: Option<GameStatus>)
        ensures
            final(self)@ == (SnakeView { status, ..old(self)@ }),
    {
        self.status = status;
    }
}

} // verus!
