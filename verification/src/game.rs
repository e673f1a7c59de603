//! The snake: its state between two ticks, how a key press steers it, what a
//! tick does to it, and where a new apple may appear.
use std::collections::VecDeque;
use vstd::prelude::*;

use crate::grid::{
    Cell, CELLS, HEIGHT, WIDTH, cell_at, in_grid, lemma_cell_at_index, lemma_distinct_cells_fit,
    lemma_free_cell_exists,
};
use crate::random::random_below;

verus! {

/// A key press, as far as the game and the questions care.
#[derive(Clone, Copy, Debug, PartialEq, Eq, Structural)]
pub enum Key {
    Up,
    Down,
    Left,
    Right,
    Enter,
    Quit,
    Other,
}

/// A move of one cell: column change, then row change.
pub type Direction = (i16, i16);

/// One of the four moves of one cell.
pub open spec fn is_step(d: Direction) -> bool {
    ||| d == (0i16, -1i16)
    ||| d == (0i16, 1i16)
    ||| d == (-1i16, 0i16)
    ||| d == (1i16, 0i16)
}

/// The opposite move.
pub open spec fn reverse(d: Direction) -> Direction {
    ((-d.0) as i16, (-d.1) as i16)
}

/// The move that an arrow key asks for.
pub open spec fn key_direction(key: Key) -> Option<Direction> {
    match key {
        Key::Up => Some((0i16, -1i16)),
        Key::Down => Some((0i16, 1i16)),
        Key::Left => Some((-1i16, 0i16)),
        Key::Right => Some((1i16, 0i16)),
        _ => None,
    }
}

/// The cell one move away.
pub open spec fn step(c: Cell, d: Direction) -> Cell {
    ((c.0 + d.0) as i16, (c.1 + d.1) as i16)
}

/// The state of a game between two ticks.
pub struct GameView {
    /// Cells of the snake, head first.
    pub snake: Seq<Cell>,
    pub apple: Cell,
    /// The move made on the last tick.
    pub direction: Direction,
    /// The move the next tick will make.
    pub next_direction: Direction,
    pub questions_asked: u32,
    pub questions_correct: u32,
}

/// What holds of every game between two ticks: the snake lies on the field
/// and never on itself, the apple lies on a free cell of the field, the next
/// move never turns the snake back onto itself, no more questions were right
/// than were asked, and no more were asked than apples eaten.
pub open spec fn valid_game(v: GameView) -> bool {
    &&& v.snake.len() >= 1
    &&& forall|i: int| 0 <= i < v.snake.len() ==> in_grid(#[trigger] v.snake[i])
    &&& v.snake.no_duplicates()
    &&& in_grid(v.apple)
    &&& !v.snake.contains(v.apple)
    &&& is_step(v.direction)
    &&& is_step(v.next_direction)
    &&& v.next_direction != reverse(v.direction)
    &&& v.questions_correct <= v.questions_asked
    &&& v.questions_asked < v.snake.len()
}

/// The cell the head moves to on the next tick.
pub open spec fn next_head(v: GameView) -> Cell {
    step(v.snake[0], v.next_direction)
}

/// The next tick ends the game: the head leaves the field, or it runs into
/// the body. The last cell of the snake does not count: the tail leaves it
/// on the same tick.
pub open spec fn crashes(v: GameView) -> bool {
    let h = next_head(v);
    ||| !in_grid(h)
    ||| v.snake.take(v.snake.len() - 1).contains(h)
}

/// The next tick eats the apple.
pub open spec fn eats(v: GameView) -> bool {
    !crashes(v) && next_head(v) == v.apple
}

/// The snake after a tick that does not crash: the head moves on, and the
/// tail follows unless the apple was eaten.
pub open spec fn moved_snake(v: GameView) -> Seq<Cell> {
    if eats(v) {
        seq![next_head(v)] + v.snake
    } else {
        seq![next_head(v)] + v.snake.drop_last()
    }
}

/// A tick can complete: after an eaten apple there is still a free cell for
/// the next one.
pub open spec fn tick_completes(v: GameView) -> bool {
    eats(v) ==> v.snake.len() + 1 < CELLS
}

/// The cells of the field in row-major order.
pub open spec fn grid_cells() -> Seq<Cell> {
    Seq::new(CELLS as nat, |k: int| cell_at(k))
}

/// The cells of the field, in row-major order, that the snake leaves free.
pub open spec fn free_cells_spec(snake: Seq<Cell>) -> Seq<Cell> {
    grid_cells().filter(|c: Cell| in_grid(c) && !snake.contains(c))
}

/// What a tick did.
#[derive(Clone, Copy, Debug, PartialEq, Eq)]
pub enum Tick {
    /// The head left the field or ran into the body: the game is over.
    Crashed,
    /// The head moved to `head`; `vacated` is the cell the tail left, if it
    /// moved; `ate` tells whether the apple was eaten (a new one is placed).
    Moved { head: Cell, vacated: Option<Cell>, ate: bool },
}

/// A running game.
pub struct Game {
    snake: VecDeque<Cell>,
    apple: Cell,
    direction: Direction,
    next_direction: Direction,
    questions_asked: u32,
    questions_correct: u32,
}

impl View for Game {
    type V = GameView;

    closed spec fn view(&self) -> GameView {
        GameView {
            snake: self.snake@,
            apple: self.apple,
            direction: self.direction,
            next_direction: self.next_direction,
            questions_asked: self.questions_asked,
            questions_correct: self.questions_correct,
        }
    }
}

/// The cell is one of the snake's.
fn snake_contains(snake: &VecDeque<Cell>, c: Cell) -> (b: bool)
    ensures
        b == snake@.contains(c),
{
    let n = snake.len();
    let mut i: usize = 0;
    while i < n
        invariant
            n == snake@.len(),
            i <= n,
            forall|j: int| 0 <= j < i ==> snake@[j] != c,
        decreases n - i,
    {
        let s = snake[i];
        if s.0 == c.0 && s.1 == c.1 {
            return true;
        }
        i = i + 1;
    }
    false
}

/// The cell is one of the first `count` cells of the snake.
fn body_contains(snake: &VecDeque<Cell>, count: usize, c: Cell) -> (b: bool)
    requires
        count <= snake@.len(),
    ensures
        b == snake@.take(count as int).contains(c),
{
    let mut i: usize = 0;
    while i < count
        invariant
            count <= snake@.len(),
            i <= count,
            forall|j: int| 0 <= j < i ==> snake@[j] != c,
        decreases count - i,
    {
        let s = snake[i];
        if s.0 == c.0 && s.1 == c.1 {
            assert(snake@.take(count as int)[i as int] == c);
            return true;
        }
        i = i + 1;
    }
    assert forall|j: int| 0 <= j < count implies snake@.take(count as int)[j] != c by {}
    false
}

/// The cells of the field, in row-major order, that the snake leaves free.
pub fn free_cells(snake: &VecDeque<Cell>) -> (free: Vec<Cell>)
    ensures
        free@ == free_cells_spec(snake@),
{
    let ghost pred = |c: Cell| in_grid(c) && !snake@.contains(c);
    let mut free: Vec<Cell> = Vec::new();
    let mut k: usize = 0;
    while k < CELLS
        invariant
            k <= CELLS,
            pred == (|c: Cell| in_grid(c) && !snake@.contains(c)),
            free@ == grid_cells().take(k as int).filter(pred),
        decreases CELLS - k,
    {
        proof {
            lemma_cell_at_index(k as int);
        }
        let c: Cell = ((k % (WIDTH as usize)) as i16, (k / (WIDTH as usize)) as i16);
        assert(c == grid_cells()[k as int]);
        assert(grid_cells().take(k + 1).drop_last() =~= grid_cells().take(k as int));
        reveal_with_fuel(Seq::filter, 1);
        if !snake_contains(snake, c) {
            free.push(c);
        }
        k = k + 1;
    }
    assert(grid_cells().take(CELLS as int) =~= grid_cells());
    free
}

/// Every cell that `free_cells_spec` lists is on the field and free, and every
/// free cell of the field is listed.
pub proof fn lemma_free_cells(snake: Seq<Cell>)
    ensures
        forall|i: int|
            0 <= i < free_cells_spec(snake).len() ==> in_grid(#[trigger] free_cells_spec(snake)[i])
                && !snake.contains(free_cells_spec(snake)[i]),
        forall|c: Cell| in_grid(c) && !snake.contains(c) ==> free_cells_spec(snake).contains(c),
{
    let pred = |c: Cell| in_grid(c) && !snake.contains(c);
    broadcast use vstd::seq_lib::group_filter_ensures;

    assert forall|i: int| 0 <= i < free_cells_spec(snake).len() implies in_grid(
        #[trigger] free_cells_spec(snake)[i],
    ) && !snake.contains(free_cells_spec(snake)[i]) by {
        assert(pred(grid_cells().filter(pred)[i]));
    }
    assert forall|c: Cell| in_grid(c) && !snake.contains(c) implies free_cells_spec(
        snake,
    ).contains(c) by {
        let k = c.1 * (WIDTH as int) + c.0;
        assert(cell_at(k) == c);
        assert(grid_cells()[k] == c);
    }
}

/// The `idx`-th free cell of the field, in row-major order.
pub fn pick_free_cell(snake: &VecDeque<Cell>, idx: usize) -> (c: Cell)
    requires
        idx < free_cells_spec(snake@).len(),
    ensures
        c == free_cells_spec(snake@)[idx as int],
        in_grid(c),
        !snake@.contains(c),
{
    proof {
        lemma_free_cells(snake@);
    }
    let free = free_cells(snake);
    free[idx]
}

/// A new apple: a free cell of the field, drawn at random by drawing its
/// index among the free cells with `rand`'s `random_range` (as even as that
/// draw is). Some cell must be free: with none, no apple can be placed.
pub fn spawn_apple(snake: &VecDeque<Cell>) -> (apple: Cell)
    requires
        exists|c: Cell| in_grid(c) && !snake@.contains(c),
    ensures
        in_grid(apple),
        !snake@.contains(apple),
        free_cells_spec(snake@).contains(apple),
{
    proof {
        lemma_free_cells(snake@);
        let c = choose|c: Cell| in_grid(c) && !snake@.contains(c);
        assert(free_cells_spec(snake@).contains(c));
    }
    let count = free_cells(snake).len();
    let idx = random_below(count);
    pick_free_cell(snake, idx)
}

/// The next move after a key press: an arrow key asks for its move, which
/// is taken unless it would turn the snake back onto itself; other keys keep
/// the move asked for before.
pub open spec fn steered(v: GameView, key: Key) -> Direction {
    match key_direction(key) {
        Some(d) => if d != reverse(v.direction) {
            d
        } else {
            v.next_direction
        },
        None => v.next_direction,
    }
}

impl Game {
    /// The game's invariant holds.
    pub open spec fn wf(&self) -> bool {
        valid_game(self@)
    }

    /// A new game: a snake of one cell in the middle column, ten rows above
    /// the bottom, heading up, and an apple on a random free cell.
    pub fn new() -> (g: Game)
        ensures
            g.wf(),
            g@.snake == seq![((WIDTH / 2) as i16, (HEIGHT - 10) as i16)],
            g@.direction == (0i16, -1i16),
            g@.next_direction == (0i16, -1i16),
            g@.questions_asked == 0,
            g@.questions_correct == 0,
    {
        let mut snake: VecDeque<Cell> = VecDeque::new();
        snake.push_back(((WIDTH as i16) / 2, (HEIGHT as i16) - 10));
        proof {
            lemma_free_cell_exists(snake@);
        }
        let apple = spawn_apple(&snake);
        Game {
            snake,
            apple,
            direction: (0, -1),
            next_direction: (0, -1),
            questions_asked: 0,
            questions_correct: 0,
        }
    }

    /// Takes a key press during play. Returns whether the player asked to
    /// quit; an arrow key sets the move of the next tick, unless it points
    /// back along the move of the last tick.
    pub fn handle_key(&mut self, key: Key) -> (quit: bool)
        requires
            old(self).wf(),
        ensures
            final(self).wf(),
            quit == (key == Key::Quit),
            final(self)@.next_direction == steered(old(self)@, key),
            key == Key::Up && old(self)@.direction != (0i16, 1i16) ==> final(self)@.next_direction
                == (0i16, -1i16),
            key == Key::Down && old(self)@.direction != (0i16, -1i16) ==> final(self)@.next_direction
                == (0i16, 1i16),
            key == Key::Left && old(self)@.direction != (1i16, 0i16) ==> final(self)@.next_direction
                == (-1i16, 0i16),
            key == Key::Right && old(self)@.direction != (-1i16, 0i16)
                ==> final(self)@.next_direction == (1i16, 0i16),
            final(self)@.snake == old(self)@.snake,
            final(self)@.apple == old(self)@.apple,
            final(self)@.direction == old(self)@.direction,
            final(self)@.questions_asked == old(self)@.questions_asked,
            final(self)@.questions_correct == old(self)@.questions_correct,
    {
        let requested: Direction = match key {
            Key::Up => (0, -1),
            Key::Down => (0, 1),
            Key::Left => (-1, 0),
            Key::Right => (1, 0),
            Key::Quit => {
                return true;
            },
            _ => self.next_direction,
        };
        // compared with the move of the last tick, so two presses within one
        // tick cannot turn the snake back onto itself
        if requested.0 != -self.direction.0 || requested.1 != -self.direction.1 {
            self.next_direction = requested;
        }
        false
    }

    /// Whether the next tick can complete (see `tick_completes`).
    pub fn can_tick(&self) -> (b: bool)
        requires
            self.wf(),
        ensures
            b == tick_completes(self@),
            b <==> (eats(self@) ==> exists|c: Cell| in_grid(c) && !moved_snake(self@).contains(c)),
    {
        proof {
            lemma_can_go_on_iff_free_cell(self@);
        }
        let head = self.snake[0];
        let new_head: Cell = (head.0 + self.next_direction.0, head.1 + self.next_direction.1);
        let hit_wall = new_head.0 < 0 || new_head.0 >= WIDTH as i16 || new_head.1 < 0 || new_head.1
            >= HEIGHT as i16;
        let hit_self = body_contains(&self.snake, self.snake.len() - 1, new_head);
        let ate_apple = !hit_wall && !hit_self && new_head.0 == self.apple.0 && new_head.1
            == self.apple.1;
        !ate_apple || self.snake.len() < CELLS - 1
    }

    /// One tick of the game: the snake takes the move asked for. It crashes
    /// into the wall or its body, or it moves on, eating the apple if it
    /// lands on it: then it grows by one cell and a new apple appears on a
    /// random free cell.
    pub fn tick(&mut self) -> (t: Tick)
        requires
            old(self).wf(),
            tick_completes(old(self)@),
        ensures
            final(self).wf(),
            final(self)@.direction == old(self)@.next_direction,
            final(self)@.next_direction == old(self)@.next_direction,
            final(self)@.questions_asked == old(self)@.questions_asked,
            final(self)@.questions_correct == old(self)@.questions_correct,
            crashes(old(self)@) ==> t == Tick::Crashed && final(self)@.snake == old(self)@.snake
                && final(self)@.apple == old(self)@.apple,
            !crashes(old(self)@) ==> t == (Tick::Moved {
                head: next_head(old(self)@),
                vacated: if eats(old(self)@) {
                    None
                } else {
                    Some(old(self)@.snake.last())
                },
                ate: eats(old(self)@),
            }) && final(self)@.snake == moved_snake(old(self)@),
            !eats(old(self)@) ==> final(self)@.apple == old(self)@.apple,
    {
        let ghost v = self@;
        self.direction = self.next_direction;
        let head = self.snake[0];
        let new_head: Cell = (head.0 + self.direction.0, head.1 + self.direction.1);
        assert(new_head == next_head(v));
        let hit_wall = new_head.0 < 0 || new_head.0 >= WIDTH as i16 || new_head.1 < 0 || new_head.1
            >= HEIGHT as i16;
        // the tail leaves its cell on this tick, so it is no obstacle
        let body_len = self.snake.len() - 1;
        let hit_self = body_contains(&self.snake, body_len, new_head);
        if hit_wall || hit_self {
            return Tick::Crashed;
        }
        let ate_apple = new_head.0 == self.apple.0 && new_head.1 == self.apple.1;
        let ghost body = v.snake.take(v.snake.len() - 1);
        assert(v.snake.drop_last() =~= body);
        let vacated = if ate_apple {
            None
        } else {
            self.snake.pop_back()
        };
        self.snake.push_front(new_head);
        assert(self.snake@ =~= moved_snake(v));
        proof {
            let s = self.snake@;
            assert forall|i: int, j: int|
                0 <= i < s.len() && 0 <= j < s.len() && i != j implies s[i] != s[j] by {
                if i > 0 && j > 0 {
                    assert(s[i] == v.snake[i - 1]);
                    assert(s[j] == v.snake[j - 1]);
                } else if i == 0 {
                    assert(s[j] == v.snake[j - 1]);
                    if !ate_apple {
                        assert(body[j - 1] == s[j]);
                    }
                } else {
                    assert(s[i] == v.snake[i - 1]);
                    if !ate_apple {
                        assert(body[i - 1] == s[i]);
                    }
                }
            }
            assert forall|i: int| 0 <= i < s.len() implies in_grid(#[trigger] s[i]) by {
                if i > 0 {
                    assert(s[i] == v.snake[i - 1]);
                }
            }
        }
        if ate_apple {
            proof {
                lemma_free_cell_exists(self.snake@);
            }
            self.apple = spawn_apple(&self.snake);
        } else {
            assert forall|i: int| 0 <= i < self.snake@.len() implies self.snake@[i] != self.apple by {
                if i > 0 {
                    assert(self.snake@[i] == v.snake[i - 1]);
                }
            }
        }
        Tick::Moved { head: new_head, vacated, ate: ate_apple }
    }

    /// Counts an answered question: one more asked, and one more right if
    /// `correct`. A question follows an eaten apple, so there is always an
    /// eaten apple that no answer was counted for yet.
    pub fn record_answer(&mut self, correct: bool)
        requires
            old(self).wf(),
            old(self)@.questions_asked + 1 < old(self)@.snake.len(),
        ensures
            final(self).wf(),
            final(self)@.questions_asked == old(self)@.questions_asked + 1,
            final(self)@.questions_correct == old(self)@.questions_correct + if correct {
                1int
            } else {
                0int
            },
            final(self)@.snake == old(self)@.snake,
            final(self)@.apple == old(self)@.apple,
            final(self)@.direction == old(self)@.direction,
            final(self)@.next_direction == old(self)@.next_direction,
    {
        proof {
            lemma_distinct_cells_fit(self.snake@);
        }
        self.questions_asked = self.questions_asked + 1;
        if correct {
            self.questions_correct = self.questions_correct + 1;
        }
    }

    /// Cells of the snake, head first.
    pub fn snake(&self) -> (s: &VecDeque<Cell>)
        ensures
            s@ == self@.snake,
    {
        &self.snake
    }

    pub fn apple(&self) -> (a: Cell)
        ensures
            a == self@.apple,
    {
        self.apple
    }

    pub fn questions_asked(&self) -> (n: u32)
        ensures
            n == self@.questions_asked,
    {
        self.questions_asked
    }

    pub fn questions_correct(&self) -> (n: u32)
        ensures
            n == self@.questions_correct,
    {
        self.questions_correct
    }
}

/// The snake may move into the cell its tail is leaving: chasing its own
/// tail does not end the game.
pub proof fn lemma_tail_chasing_allowed(v: GameView)
    requires
        valid_game(v),
        v.snake.len() >= 2,
        next_head(v) == v.snake.last(),
    ensures
        !crashes(v),
{
    let body = v.snake.take(v.snake.len() - 1);
    if body.contains(next_head(v)) {
        let i = choose|i: int| 0 <= i < body.len() && body[i] == next_head(v);
        assert(v.snake[i] == v.snake[v.snake.len() - 1]);
    }
}

/// A key press never turns the snake back onto itself: the next move is one
/// of the four moves, and never the reverse of the last one.
pub proof fn lemma_never_reverses(v: GameView, key: Key)
    requires
        valid_game(v),
    ensures
        is_step(steered(v, key)),
        steered(v, key) != reverse(v.direction),
{
}

/// The two cells share a side.
pub open spec fn adjacent(a: Cell, b: Cell) -> bool {
    ||| a.0 == b.0 && (a.1 == b.1 + 1 || b.1 == a.1 + 1)
    ||| a.1 == b.1 && (a.0 == b.0 + 1 || b.0 == a.0 + 1)
}

/// A tick that does not crash moves the head one cell, to a neighbour of the
/// old head; the rest of the snake follows: the whole old snake after eating
/// (it is one cell longer), the old snake less its tail otherwise (same
/// length).
pub proof fn lemma_tick_moves_one_cell(v: GameView)
    requires
        valid_game(v),
        !crashes(v),
    ensures
        moved_snake(v)[0] == next_head(v),
        adjacent(next_head(v), v.snake[0]),
        eats(v) ==> moved_snake(v).len() == v.snake.len() + 1 && moved_snake(v).drop_first()
            == v.snake,
        !eats(v) ==> moved_snake(v).len() == v.snake.len() && moved_snake(v).drop_first()
            == v.snake.drop_last(),
{
    assert(moved_snake(v).drop_first() =~= if eats(v) {
        v.snake
    } else {
        v.snake.drop_last()
    });
}

/// In every game the snake fits on the field, and fewer questions were asked
/// than there are cells.
pub proof fn lemma_snake_fits(v: GameView)
    requires
        valid_game(v),
    ensures
        v.snake.len() <= CELLS,
        v.questions_asked < CELLS,
{
    lemma_distinct_cells_fit(v.snake);
}

/// The arrow keys steer as their names say: Up moves the head one row up,
/// Down one row down, Left one column left, Right one column right; each
/// unless the snake last moved the opposite way, when the move asked for
/// before stays. Other keys leave the move as it was.
pub proof fn lemma_arrow_keys(v: GameView, key: Key)
    requires
        valid_game(v),
    ensures
        key == Key::Up && v.direction != (0i16, 1i16) ==> steered(v, key) == (0i16, -1i16),
        key == Key::Down && v.direction != (0i16, -1i16) ==> steered(v, key) == (0i16, 1i16),
        key == Key::Left && v.direction != (1i16, 0i16) ==> steered(v, key) == (-1i16, 0i16),
        key == Key::Right && v.direction != (-1i16, 0i16) ==> steered(v, key) == (1i16, 0i16),
        key == Key::Up && v.direction == (0i16, 1i16) ==> steered(v, key) == v.next_direction,
        key == Key::Down && v.direction == (0i16, -1i16) ==> steered(v, key) == v.next_direction,
        key == Key::Left && v.direction == (1i16, 0i16) ==> steered(v, key) == v.next_direction,
        key == Key::Right && v.direction == (-1i16, 0i16) ==> steered(v, key) == v.next_direction,
        key != Key::Up && key != Key::Down && key != Key::Left && key != Key::Right ==> steered(
            v,
            key,
        ) == v.next_direction,
        forall|c: Cell|
            #![trigger step(c, (0i16, -1i16))]
            in_grid(c) ==> step(c, (0i16, -1i16)) == (c.0, (c.1 - 1) as i16) && step(
                c,
                (0i16, 1i16),
            ) == (c.0, (c.1 + 1) as i16) && step(c, (-1i16, 0i16)) == ((c.0 - 1) as i16, c.1)
                && step(c, (1i16, 0i16)) == ((c.0 + 1) as i16, c.1),
{
}

/// After a tick that does not crash the snake is still on the field and
/// never on itself.
pub proof fn lemma_moved_snake_valid(v: GameView)
    requires
        valid_game(v),
        !crashes(v),
    ensures
        moved_snake(v).no_duplicates(),
        forall|i: int| 0 <= i < moved_snake(v).len() ==> in_grid(#[trigger] moved_snake(v)[i]),
{
    let s = moved_snake(v);
    let body = v.snake.take(v.snake.len() - 1);
    assert(v.snake.drop_last() =~= body);
    assert forall|i: int, j: int| 0 <= i < s.len() && 0 <= j < s.len() && i != j implies s[i]
        != s[j] by {
        if i > 0 && j > 0 {
            assert(s[i] == v.snake[i - 1]);
            assert(s[j] == v.snake[j - 1]);
        } else if i == 0 {
            assert(s[j] == v.snake[j - 1]);
            if !eats(v) {
                assert(body[j - 1] == s[j]);
            }
        } else {
            assert(s[i] == v.snake[i - 1]);
            if !eats(v) {
                assert(body[i - 1] == s[i]);
            }
        }
    }
    assert forall|i: int| 0 <= i < s.len() implies in_grid(#[trigger] s[i]) by {
        if i > 0 {
            assert(s[i] == v.snake[i - 1]);
        }
    }
}

/// The game can go on exactly when, after the apple it may eat, some cell of
/// the field is still free for the next apple: a tick is refused only when
/// eating would fill the whole field.
pub proof fn lemma_can_go_on_iff_free_cell(v: GameView)
    requires
        valid_game(v),
    ensures
        tick_completes(v) <==> (eats(v) ==> exists|c: Cell|
            in_grid(c) && !moved_snake(v).contains(c)),
        tick_completes(v) <==> (eats(v) ==> v.snake.len() + 2 <= WIDTH * HEIGHT),
{
    if eats(v) {
        let s = moved_snake(v);
        lemma_moved_snake_valid(v);
        assert(s.len() == v.snake.len() + 1);
        if s.len() < CELLS {
            lemma_free_cell_exists(s);
        }
        if exists|c: Cell| in_grid(c) && !s.contains(c) {
            let c = choose|c: Cell| in_grid(c) && !s.contains(c);
            let t = s.push(c);
            assert forall|i: int, j: int| 0 <= i < t.len() && 0 <= j < t.len() && i != j implies t[i]
                != t[j] by {
                if i < s.len() && j < s.len() {
                    assert(t[i] == s[i] && t[j] == s[j]);
                } else if i < s.len() {
                    assert(t[i] == s[i]);
                } else {
                    assert(t[j] == s[j]);
                }
            }
            assert forall|i: int| 0 <= i < t.len() implies in_grid(#[trigger] t[i]) by {
                if i < s.len() {
                    assert(t[i] == s[i]);
                }
            }
            lemma_distinct_cells_fit(t);
        }
    }
}

} // verus!
