//! The controller: it owns the grid and the snake, takes the player's
//! commands, and resolves one move when the time for it has come.

use crate::autopilot::{
    coin, find_food, food_heading, smart_autopilot_with, smart_heading, stupid_autopilot_with,
    stupid_heading, turned, Autopilot,
};
use crate::grid::{covered, marked, Grid};
use crate::orientation::{Direction, Point, State};
use crate::snake::{grown, grown_cells, initial_body, lemma_step_keeps_shown, shown_at, shows, Snake};
use vstd::arithmetic::div_mod::lemma_small_mod;
use vstd::prelude::*;

verus! {

/// The time between two moves when a game is made, in microseconds.
pub const START_DELAY: u64 = 200_000;

/// The time that a lost game waits before the autopilot begins anew, in
/// microseconds.
pub const RESTART_DELAY: u64 = 2_000_000;

/// The keys that the game knows. Every other key is `Other`.
#[derive(Hash, Debug, Clone, Copy, PartialEq, Eq, Structural)]
pub enum Key {
    Up,
    Down,
    Left,
    Right,
    W,
    A,
    S,
    D,
    E,
    Q,
    F,
    T,
    G,
    M,
    H,
    P,
    R,
    Other,
}

/// What the player can ask of the game.
#[derive(Hash, Debug, Clone, Copy, PartialEq, Eq, Structural)]
pub enum Command {
    /// Turn the snake to a heading.
    Turn(Direction),
    /// Multiply the time between two moves by the first number and divide it
    /// by the second.
    ChangeSpeed(u32, u32),
    /// Hand the steering to a policy, or back to the player.
    Autopilot(Autopilot),
    /// Pause the game and show the help, or go on.
    Help,
    /// Begin anew.
    Restart,
    /// Nothing.
    Ignore,
}

/// The state of the game as the player sees it.
#[derive(Hash, Debug, Clone, Copy, PartialEq, Eq, Structural)]
pub enum Status {
    Playing,
    Paused,
    GameOver,
    Won,
}

/// The game.
pub struct Game {
    snake: Snake,
    map: Grid,
    delay: u64,
    time: u64,
    round: u64,
    dirty: bool,
    score: i64,
    autopilot: Autopilot,
    game_over: bool,
    game_won: bool,
    paused: bool,
}

/// What a game is made of, for contracts to speak of.
pub struct GameView {
    /// The snake.
    pub snake: Snake,
    /// The grid.
    pub map: Grid,
    /// The time between two moves, in microseconds.
    pub delay: u64,
    /// The time gone by since the last move, or since the game was lost, in
    /// microseconds.
    pub time: u64,
    /// The number of moves resolved.
    pub round: u64,
    /// Whether anything has changed since the game was last drawn.
    pub dirty: bool,
    /// The number of times the snake has eaten.
    pub score: i64,
    /// Who steers.
    pub autopilot: Autopilot,
    /// Whether the snake has run into a hazard.
    pub game_over: bool,
    /// Whether the snake has filled the grid.
    pub game_won: bool,
    /// Whether the game stands still.
    pub paused: bool,
}

impl View for Game {
    type V = GameView;

    closed spec fn view(&self) -> GameView {
        GameView {
            snake: self.snake,
            map: self.map,
            delay: self.delay,
            time: self.time,
            round: self.round,
            dirty: self.dirty,
            score: self.score,
            autopilot: self.autopilot,
            game_over: self.game_over,
            game_won: self.game_won,
            paused: self.paused,
        }
    }
}

/// The command that a key stands for.
pub open spec fn command_spec(key: Key) -> Command {
    match key {
        Key::Up | Key::W => Command::Turn(Direction::N),
        Key::Down | Key::S => Command::Turn(Direction::S),
        Key::Right | Key::D => Command::Turn(Direction::E),
        Key::Left | Key::A => Command::Turn(Direction::W),
        Key::E => Command::ChangeSpeed(4, 5),
        Key::Q => Command::ChangeSpeed(5, 4),
        Key::F => Command::Autopilot(Autopilot::Stupid),
        Key::T => Command::Autopilot(Autopilot::Smart),
        Key::G => Command::Autopilot(Autopilot::Boring),
        Key::M => Command::Autopilot(Autopilot::Manual),
        Key::H | Key::P => Command::Help,
        Key::R => Command::Restart,
        Key::Other => Command::Ignore,
    }
}

/// A time between two moves, multiplied by `num` and divided by `den`, and
/// held to what a clock can count. Dividing by 0 changes nothing.
pub open spec fn scaled(delay: u64, num: u32, den: u32) -> u64 {
    if den == 0 {
        delay
    } else if delay * num / (den as int) > u64::MAX {
        u64::MAX
    } else {
        (delay * num / (den as int)) as u64
    }
}

/// A clock moved on by `dt`, and held to what it can count.
pub open spec fn elapsed(time: u64, dt: u64) -> u64 {
    if time + dt > u64::MAX {
        u64::MAX
    } else {
        (time + dt) as u64
    }
}

impl GameView {
    /// The game's invariant: the snake lives on the grid, and a game is not
    /// both lost and won.
    pub open spec fn wf(self) -> bool {
        &&& self.snake.wf()
        &&& self.map.wf()
        &&& self.snake.on(&self.map)
        &&& !(self.game_over && self.game_won)
    }

    /// What the player sees of the state.
    pub open spec fn status(self) -> Status {
        if self.paused {
            Status::Paused
        } else if self.game_over {
            Status::GameOver
        } else if self.game_won {
            Status::Won
        } else {
            Status::Playing
        }
    }

    /// Whether this is a game at its beginning on a grid of `w` columns and
    /// `h` rows: the snake is new and marked on the grid, nothing has been
    /// counted, and the grid holds food on a cell that the snake does not
    /// cover. On a grid that the snake fills there is no room for food: that
    /// game is won from the start.
    pub open spec fn fresh(self, w: int, h: int) -> bool {
        let body = initial_body(w, h);
        let covers = marked(Map::<Point, State>::empty(), body);
        &&& self.wf()
        &&& self.map.width() == w
        &&& self.map.height() == h
        &&& self.snake@ == body
        &&& self.snake.target_len() == 3
        &&& self.snake.heading() == Direction::E
        &&& self.snake.last_heading() == Direction::E
        &&& self.map.walls_spec() == Seq::<Point>::empty()
        &&& self.time == 0
        &&& self.round == 0
        &&& self.dirty
        &&& self.score == 0
        &&& !self.game_over
        &&& !self.paused
        &&& self.game_won == covered(covers, w, h)
        &&& if self.game_won {
            &&& self.map.cells() == covers
            &&& self.map.food_spec() == (Point { x: -1i32, y: -1i32 })
        } else {
            &&& self.map.in_grid(self.map.food_spec())
            &&& !covers.contains_key(self.map.food_spec())
            &&& self.map.cells() == covers.insert(self.map.food_spec(), State::Food)
        }
    }
}

impl GameView {
    /// Whether this is what a command makes of the game `before`. A turn to
    /// the heading opposite to the one that the last move took is not carried
    /// out, and changes nothing.
    pub open spec fn obeys(self, before: GameView, cmd: Command) -> bool {
        match cmd {
            Command::Turn(t) => if before.snake.reverse_spec(t) {
                self == before
            } else {
                &&& self == (GameView { snake: self.snake, ..before })
                &&& turned(self.snake, before.snake, t)
            },
            Command::ChangeSpeed(num, den) => self == (GameView {
                delay: scaled(before.delay, num, den),
                ..before
            }),
            Command::Autopilot(a) => self == (GameView { autopilot: a, ..before }),
            Command::Help => self == (GameView { paused: !before.paused, ..before }),
            Command::Restart => {
                &&& self.fresh(before.map.width(), before.map.height())
                &&& self.delay == before.delay
                &&& self.autopilot == before.autopilot
            },
            Command::Ignore => self == before,
        }
    }
}

/// A count raised by one, and held to what it can count.
pub open spec fn counted(n: u64) -> u64 {
    if n < u64::MAX {
        (n + 1) as u64
    } else {
        n
    }
}

/// A target length raised by one, and held to what it can count.
pub open spec fn fed(n: nat) -> nat {
    if n < usize::MAX {
        n + 1
    } else {
        n
    }
}

impl GameView {
    /// The heading that whoever steers ends with. `left` is what chance says
    /// where a policy asks it.
    pub open spec fn steered(self, left: bool) -> Direction {
        match self.autopilot {
            Autopilot::Stupid => stupid_heading(self.snake, self.map, left),
            Autopilot::Smart => smart_heading(self.snake, self.map, left),
            Autopilot::Boring => food_heading(self.snake, self.map),
            Autopilot::Manual => self.snake.heading(),
        }
    }

    /// Whether this is what resolving one move makes of the running game
    /// `before`. Whoever steers picks the heading. What the cell ahead holds
    /// decides the rest. A hazard ends the game: the snake stays where it is
    /// and the score as it was. Food makes the snake grow and the score rise:
    /// on a grid with no empty cell left the game is won and the food taken
    /// off, else the food moves to a cell that was empty; then the snake
    /// steps. On an empty cell the snake steps, and no more.
    pub open spec fn resolves(self, before: GameView, left: bool) -> bool {
        let d = before.steered(left);
        let cell = before.snake.next_toward(d);
        &&& self.delay == before.delay
        &&& self.autopilot == before.autopilot
        &&& self.paused == before.paused
        &&& self.dirty
        &&& self.time == 0
        &&& self.round == counted(before.round)
        &&& self.snake.heading() == d
        &&& self.snake.width() == before.snake.width()
        &&& self.snake.height() == before.snake.height()
        &&& self.map.same_extent(&before.map)
        &&& self.map.walls_spec() == before.map.walls_spec()
        &&& match before.map.state_at(cell) {
            State::Wall | State::Snake => {
                &&& self.game_over
                &&& self.game_won == before.game_won
                &&& self.score == before.score
                &&& turned(self.snake, before.snake, d)
                &&& self.map == before.map
            },
            State::Empty => {
                &&& self.game_over == before.game_over
                &&& self.game_won == before.game_won
                &&& self.score == before.score
                &&& self.moved(before.snake@, before.map, cell, before.snake.target_len())
                &&& self.map.cells() == grown_cells(
                    before.map.cells(),
                    before.snake@,
                    cell,
                    before.snake.target_len(),
                )
                &&& self.map.food_spec() == before.map.food_spec()
            },
            State::Food => {
                &&& self.game_over == before.game_over
                &&& self.fed_on(before.snake@, before.map, before.score, cell, fed(before.snake.target_len()))
            },
        }
    }

    /// Whether the snake has stepped to `cell` from where its body was
    /// `body`, with the target length `target`, on a grid of the extent of
    /// `map`.
    pub open spec fn moved(self, body: Seq<Point>, map: Grid, cell: Point, target: nat) -> bool {
        &&& self.snake.target_len() == target
        &&& self.snake.last_heading() == self.snake.heading()
        &&& self.snake@ == grown(body, cell, target)
        &&& self.map.same_extent(&map)
        &&& self.map.walls_spec() == map.walls_spec()
    }

    /// Whether the snake has eaten the food at `cell` and stepped there from
    /// where its body was `body`, on the grid `map`, with the score `score`
    /// before and the target length `target` after. On a grid with no empty
    /// cell the game is won and the food taken off; else the food has moved
    /// to a cell that was empty.
    pub open spec fn fed_on(
        self,
        body: Seq<Point>,
        map: Grid,
        score: i64,
        cell: Point,
        target: nat,
    ) -> bool {
        &&& self.moved(body, map, cell, target)
        &&& self.game_won == map.full()
        &&& self.score == if score < i64::MAX {
            (score + 1) as i64
        } else {
            score
        }
        &&& if map.full() {
            &&& self.map.food_spec() == (Point { x: -1i32, y: -1i32 })
            &&& self.map.cells() == grown_cells(map.without_food(), body, cell, target)
        } else {
            &&& map.in_grid(self.map.food_spec())
            &&& map.state_at(self.map.food_spec()) == State::Empty
            &&& self.map.cells() == grown_cells(
                map.without_food().insert(self.map.food_spec(), State::Food),
                body,
                cell,
                target,
            )
        }
    }

    /// Whether this is `before` after the snake ate what lay ahead.
    pub open spec fn ate(self, before: GameView) -> bool {
        &&& self.snake.heading() == before.snake.heading()
        &&& self.snake.width() == before.snake.width()
        &&& self.snake.height() == before.snake.height()
        &&& self.fed_on(
            before.snake@,
            before.map,
            before.score,
            before.snake.peek_spec(),
            fed(before.snake.target_len()),
        )
    }

    /// Whether this is `before` after the snake stepped on the cell ahead.
    pub open spec fn went(self, before: GameView) -> bool {
        &&& self.snake.heading() == before.snake.heading()
        &&& self.snake.width() == before.snake.width()
        &&& self.snake.height() == before.snake.height()
        &&& self.moved(
            before.snake@,
            before.map,
            before.snake.peek_spec(),
            before.snake.target_len(),
        )
        &&& self.map.cells() == grown_cells(
            before.map.cells(),
            before.snake@,
            before.snake.peek_spec(),
            before.snake.target_len(),
        )
        &&& self.map.food_spec() == before.map.food_spec()
    }

    /// Whether this is what the time `dt` makes of the game `before`. A game
    /// that stands still stays as it is, and so does a game that is won. A
    /// lost game that a policy steers begins anew once it has been lost for
    /// longer than `RESTART_DELAY`. A running game resolves one move once the
    /// time since the last move exceeds the time between two moves.
    pub open spec fn updates(self, before: GameView, dt: u64, left: bool) -> bool {
        let now = elapsed(before.time, dt);
        if before.paused {
            self == before
        } else if before.game_over {
            if before.autopilot == Autopilot::Manual {
                self == before
            } else if now > RESTART_DELAY {
                &&& self.fresh(before.map.width(), before.map.height())
                &&& self.delay == before.delay
                &&& self.autopilot == before.autopilot
            } else {
                self == (GameView { time: now, ..before })
            }
        } else if before.game_won {
            self == before
        } else if now <= before.delay {
            self == (GameView { time: now, ..before })
        } else {
            self.resolves(before, left)
        }
    }
}

impl GameView {
    /// Whether the grid shows the snake where it is: no cell occurs twice in
    /// the body, and the cells marked as part of the snake are those of the
    /// body.
    pub open spec fn shows_snake(self) -> bool {
        shows(self.map.cells(), self.snake@)
    }
}

/// On a grid of three columns or more, a game at its beginning shows the
/// snake where it is.
pub proof fn lemma_fresh_shows_snake(game: GameView, w: int, h: int)
    requires
        game.fresh(w, h),
        w >= 3,
    ensures
        game.shows_snake(),
{
    let body = initial_body(w, h);
    let covers = marked(Map::<Point, State>::empty(), body);
    if w > 7 {
        lemma_small_mod(7, w as nat);
        lemma_small_mod(6, w as nat);
        lemma_small_mod(5, w as nat);
    } else if w == 3 {
        assert(7int % 3 == 1 && 6int % 3 == 0 && 5int % 3 == 2);
    } else if w == 4 {
        assert(7int % 4 == 3 && 6int % 4 == 2 && 5int % 4 == 1);
    } else if w == 5 {
        assert(7int % 5 == 2 && 6int % 5 == 1 && 5int % 5 == 0);
    } else if w == 6 {
        assert(7int % 6 == 1 && 6int % 6 == 0 && 5int % 6 == 5);
    } else {
        assert(7int % 7 == 0 && 6int % 7 == 6 && 5int % 7 == 5);
    }
    assert(body[0].x != body[1].x && body[0].x != body[2].x && body[1].x != body[2].x);
    assert forall|p: Point| #[trigger] shown_at(game.map.cells(), body, p) by {
        assert(covers.contains_key(p) == body.contains(p));
    }
}

/// A game that shows the snake where it is still does so when a move has
/// been resolved.
pub proof fn lemma_move_keeps_snake_shown(before: GameView, after: GameView, left: bool)
    requires
        before.wf(),
        before.shows_snake(),
        after.resolves(before, left),
    ensures
        after.shows_snake(),
{
    let d = before.steered(left);
    let cell = before.snake.next_toward(d);
    let body = before.snake@;
    let cells = before.map.cells();
    match before.map.state_at(cell) {
        State::Wall | State::Snake => {},
        State::Empty => {
            lemma_step_keeps_shown(cells, body, cell, before.snake.target_len());
        },
        State::Food => {
            let food = after.map.food_spec();
            let moved = if before.map.full() {
                before.map.without_food()
            } else {
                before.map.without_food().insert(food, State::Food)
            };
            assert forall|p: Point| #[trigger] shown_at(moved, body, p) by {
                assert(shown_at(cells, body, p));
            }
            lemma_step_keeps_shown(moved, body, cell, fed(before.snake.target_len()));
        },
    }
}

/// On a grid of three columns or more, a game that shows the snake where it
/// is still does so when time has passed.
pub proof fn lemma_update_keeps_snake_shown(
    before: GameView,
    after: GameView,
    dt: u64,
    left: bool,
)
    requires
        before.wf(),
        before.map.width() >= 3,
        before.shows_snake(),
        after.updates(before, dt, left),
    ensures
        after.shows_snake(),
{
    let now = elapsed(before.time, dt);
    if before.paused {
    } else if before.game_over {
        if before.autopilot != Autopilot::Manual && now > RESTART_DELAY {
            lemma_fresh_shows_snake(after, before.map.width(), before.map.height());
        }
    } else if before.game_won {
    } else if now > before.delay {
        lemma_move_keeps_snake_shown(before, after, left);
    }
}

/// On a grid of three columns or more, a game that shows the snake where it
/// is still does so when a command has been carried out.
pub proof fn lemma_command_keeps_snake_shown(before: GameView, after: GameView, cmd: Command)
    requires
        before.map.width() >= 3,
        before.shows_snake(),
        after.obeys(before, cmd),
    ensures
        after.shows_snake(),
{
    if cmd == Command::Restart {
        lemma_fresh_shows_snake(after, before.map.width(), before.map.height());
    }
}

/// A turn to the heading opposite to the one that the last move took changes
/// nothing, by whatever key or command it is asked for; every other turn is
/// taken.
pub proof fn lemma_reversal_is_refused(before: GameView, after: GameView, t: Direction)
    requires
        after.obeys(before, Command::Turn(t)),
    ensures
        t == before.snake.last_heading().opposite_spec() ==> after == before,
        t != before.snake.last_heading().opposite_spec() ==> after.snake.heading() == t,
{
}

/// The command that a key stands for.
pub fn command_for(key: Key) -> (cmd: Command)
    ensures
        cmd == command_spec(key),
{
    match key {
        Key::Up | Key::W => Command::Turn(Direction::N),
        Key::Down | Key::S => Command::Turn(Direction::S),
        Key::Right | Key::D => Command::Turn(Direction::E),
        Key::Left | Key::A => Command::Turn(Direction::W),
        Key::E => Command::ChangeSpeed(4, 5),
        Key::Q => Command::ChangeSpeed(5, 4),
        Key::F => Command::Autopilot(Autopilot::Stupid),
        Key::T => Command::Autopilot(Autopilot::Smart),
        Key::G => Command::Autopilot(Autopilot::Boring),
        Key::M => Command::Autopilot(Autopilot::Manual),
        Key::H | Key::P => Command::Help,
        Key::R => Command::Restart,
        Key::Other => Command::Ignore,
    }
}

fn scale(delay: u64, num: u32, den: u32) -> (r: u64)
    ensures
        r == scaled(delay, num, den),
{
    if den == 0 {
        return delay;
    }
    assert(delay * num <= 0xffff_ffff_ffff_ffff * 0xffff_ffff) by (nonlinear_arith)
        requires
            0 <= delay <= 0xffff_ffff_ffff_ffff,
            0 <= num <= 0xffff_ffff,
    ;
    let wide: u128 = (delay as u128) * (num as u128) / (den as u128);
    if wide > u64::MAX as u128 {
        u64::MAX
    } else {
        wide as u64
    }
}

fn advance(time: u64, dt: u64) -> (r: u64)
    ensures
        r == elapsed(time, dt),
{
    if dt > u64::MAX - time {
        u64::MAX
    } else {
        time + dt
    }
}

impl Game {
    /// The snake and the grid of a new game: the snake is marked on an empty
    /// grid, and food is put where there is room for it.
    fn board(size: (u32, u32)) -> (r: (Snake, Grid, bool))
        requires
            1 <= size.0 <= i32::MAX,
            1 <= size.1 <= i32::MAX,
        ensures
            ({
                let (snake, map, won) = r;
                let w = size.0 as int;
                let h = size.1 as int;
                let covers = marked(Map::<Point, State>::empty(), initial_body(w, h));
                &&& snake.wf()
                &&& map.wf()
                &&& snake.on(&map)
                &&& map.width() == w
                &&& map.height() == h
                &&& snake@ == initial_body(w, h)
                &&& snake.target_len() == 3
                &&& snake.heading() == Direction::E
                &&& snake.last_heading() == Direction::E
                &&& map.walls_spec() == Seq::<Point>::empty()
                &&& won == covered(covers, w, h)
                &&& if won {
                    &&& map.cells() == covers
                    &&& map.food_spec() == (Point { x: -1i32, y: -1i32 })
                } else {
                    &&& map.in_grid(map.food_spec())
                    &&& !covers.contains_key(map.food_spec())
                    &&& map.cells() == covers.insert(map.food_spec(), State::Food)
                }
            }),
    {
        let mut map = Grid::empty(size);
        let snake = Snake::new(size);
        map.init_snake(snake.get_tail());
        let won = map.is_full();
        if won {
            map.remove_food();
        } else {
            map.generate_food();
        }
        (snake, map, won)
    }

    /// A game at its beginning on a grid of `size.0` columns and `size.1`
    /// rows, steered by the player.
    pub fn new(size: (u32, u32)) -> (g: Game)
        requires
            1 <= size.0 <= i32::MAX,
            1 <= size.1 <= i32::MAX,
        ensures
            g@.fresh(size.0 as int, size.1 as int),
            g@.delay == START_DELAY,
            g@.autopilot == Autopilot::Manual,
    {
        let (snake, map, won) = Game::board(size);
        Game {
            snake,
            map,
            delay: START_DELAY,
            time: 0,
            round: 0,
            dirty: true,
            score: 0,
            autopilot: Autopilot::Manual,
            game_over: false,
            game_won: won,
            paused: false,
        }
    }

    /// A game that begins with the snake and the grid given, steered by the
    /// player. The snake is marked on the grid; the food stays where it is.
    pub fn from_parts(map: Grid, snake: Snake) -> (g: Game)
        requires
            map.wf(),
            snake.wf(),
            snake.on(&map),
        ensures
            g@.wf(),
            g@.snake == snake,
            g@.map.same_extent(&map),
            g@.map.cells() == marked(map.cells(), snake@),
            g@.map.food_spec() == map.food_spec(),
            g@.map.walls_spec() == map.walls_spec(),
            g@.delay == START_DELAY,
            g@.time == 0,
            g@.round == 0,
            g@.dirty,
            g@.score == 0,
            g@.autopilot == Autopilot::Manual,
            !g@.game_over,
            !g@.game_won,
            !g@.paused,
    {
        let mut map = map;
        map.init_snake(snake.get_tail());
        Game {
            snake,
            map,
            delay: START_DELAY,
            time: 0,
            round: 0,
            dirty: true,
            score: 0,
            autopilot: Autopilot::Manual,
            game_over: false,
            game_won: false,
            paused: false,
        }
    }

    /// The game's invariant.
    pub open spec fn wf(&self) -> bool {
        self@.wf()
    }

    /// The snake.
    pub fn snake(&self) -> (s: &Snake)
        ensures
            *s == self@.snake,
    {
        &self.snake
    }

    /// The grid.
    pub fn map(&self) -> (m: &Grid)
        ensures
            *m == self@.map,
    {
        &self.map
    }

    /// The number of times the snake has eaten.
    pub fn score(&self) -> (n: i64)
        ensures
            n == self@.score,
    {
        self.score
    }

    /// The number of moves resolved.
    pub fn round(&self) -> (n: u64)
        ensures
            n == self@.round,
    {
        self.round
    }

    /// The time between two moves, in microseconds.
    pub fn delay(&self) -> (n: u64)
        ensures
            n == self@.delay,
    {
        self.delay
    }

    /// Who steers.
    pub fn autopilot(&self) -> (a: Autopilot)
        ensures
            a == self@.autopilot,
    {
        self.autopilot
    }

    /// Whether anything has changed since the game was last drawn.
    pub fn dirty(&self) -> (b: bool)
        ensures
            b == self@.dirty,
    {
        self.dirty
    }

    /// Whether the game stands still.
    pub fn is_paused(&self) -> (b: bool)
        ensures
            b == self@.paused,
    {
        self.paused
    }

    /// Whether the snake has run into a hazard.
    pub fn is_over(&self) -> (b: bool)
        ensures
            b == self@.game_over,
    {
        self.game_over
    }

    /// Whether the snake has filled the grid.
    pub fn is_won(&self) -> (b: bool)
        ensures
            b == self@.game_won,
    {
        self.game_won
    }

    /// Notes that the game has been drawn as it is.
    pub fn drawn(&mut self)
        ensures
            final(self)@ == (GameView { dirty: false, ..old(self)@ }),
    {
        self.dirty = false;
    }

    /// What the player sees of the state: a game that stands still is
    /// `Paused`, whatever else it is.
    pub fn status(&self) -> (s: Status)
        ensures
            s == self@.status(),
    {
        if self.paused {
            Status::Paused
        } else if self.game_over {
            Status::GameOver
        } else if self.game_won {
            Status::Won
        } else {
            Status::Playing
        }
    }

    /// Brings the game to a stand.
    pub fn pause(&mut self)
        ensures
            final(self)@ == (GameView { paused: true, ..old(self)@ }),
    {
        self.paused = true;
    }

    /// Lets the game go on.
    pub fn resume(&mut self)
        ensures
            final(self)@ == (GameView { paused: false, ..old(self)@ }),
    {
        self.paused = false;
    }

    /// Begins anew on a grid of the same extent. The time between two moves
    /// and the choice of who steers are kept.
    pub fn restart(&mut self)
        requires
            old(self).wf(),
        ensures
            final(self)@.fresh(old(self)@.map.width(), old(self)@.map.height()),
            final(self)@.delay == old(self)@.delay,
            final(self)@.autopilot == old(self)@.autopilot,
    {
        let (snake, map, won) = Game::board(self.map.size());
        self.map = map;
        self.snake = snake;
        self.time = 0;
        self.round = 0;
        self.dirty = true;
        self.score = 0;
        self.game_over = false;
        self.game_won = won;
        self.paused = false;
    }

    /// Carries out a command. A turn to the heading opposite to the one that
    /// the last move took is not carried out, and changes nothing.
    pub fn command(&mut self, cmd: Command)
        requires
            old(self).wf(),
        ensures
            final(self).wf(),
            final(self)@.obeys(old(self)@, cmd),
    {
        match cmd {
            Command::Turn(t) => {
                if !self.snake.reverse(t) {
                    self.snake.turn(t);
                }
            },
            Command::ChangeSpeed(num, den) => {
                self.delay = scale(self.delay, num, den);
            },
            Command::Autopilot(a) => {
                self.autopilot = a;
            },
            Command::Help => {
                if self.paused {
                    self.resume()
                } else {
                    self.pause();
                }
            },
            Command::Restart => self.restart(),
            Command::Ignore => {},
        }
    }

    /// What the cell holds that the next move takes the head to.
    fn peek(&self) -> (s: State)
        requires
            self.wf(),
        ensures
            s == self@.map.state_at(self@.snake.peek_spec()),
    {
        let p = self.snake.peek();
        self.map.at(&p)
    }

    fn game_over(&mut self)
        ensures
            final(self)@ == (GameView { game_over: true, time: 0, ..old(self)@ }),
    {
        self.game_over = true;
        self.time = 0;
    }

    fn game_won(&mut self)
        ensures
            final(self)@ == (GameView { game_won: true, ..old(self)@ }),
    {
        self.game_won = true;
    }

    /// Lets the policy `Stupid` pick the heading, with what chance says.
    pub fn stupid_autopilot(&mut self)
        requires
            old(self).wf(),
        ensures
            final(self).wf(),
            final(self)@ == (GameView { snake: final(self)@.snake, ..old(self)@ }),
            exists|left: bool|
                turned(
                    final(self)@.snake,
                    old(self)@.snake,
                    #[trigger] stupid_heading(old(self)@.snake, old(self)@.map, left),
                ),
    {
        let left = coin();
        stupid_autopilot_with(&mut self.snake, &self.map, left);
    }

    /// Lets the policy `Smart` pick the heading, with what chance says.
    pub fn smart_autopilot(&mut self)
        requires
            old(self).wf(),
        ensures
            final(self).wf(),
            final(self)@ == (GameView { snake: final(self)@.snake, ..old(self)@ }),
            exists|left: bool|
                turned(
                    final(self)@.snake,
                    old(self)@.snake,
                    #[trigger] smart_heading(old(self)@.snake, old(self)@.map, left),
                ),
    {
        let left = coin();
        smart_autopilot_with(&mut self.snake, &self.map, left);
    }

    /// Lets the policy `Boring` pick the heading.
    pub fn boring_autopilot(&mut self)
        requires
            old(self).wf(),
        ensures
            final(self).wf(),
            final(self)@ == (GameView { snake: final(self)@.snake, ..old(self)@ }),
            turned(
                final(self)@.snake,
                old(self)@.snake,
                food_heading(old(self)@.snake, old(self)@.map),
            ),
    {
        find_food(&mut self.snake, &self.map);
    }

    /// Lets whoever steers pick the heading.
    fn steer(&mut self, left: bool)
        requires
            old(self).wf(),
        ensures
            final(self).wf(),
            final(self)@ == (GameView { snake: final(self)@.snake, ..old(self)@ }),
            turned(final(self)@.snake, old(self)@.snake, old(self)@.steered(left)),
    {
        match self.autopilot {
            Autopilot::Stupid => stupid_autopilot_with(&mut self.snake, &self.map, left),
            Autopilot::Smart => smart_autopilot_with(&mut self.snake, &self.map, left),
            Autopilot::Boring => find_food(&mut self.snake, &self.map),
            Autopilot::Manual => (),
        }
    }

    /// The snake eats what lies ahead: it grows, the food moves to an empty
    /// cell or, where there is none, the game is won, and the snake steps.
    fn eat(&mut self)
        requires
            old(self).wf(),
            !old(self)@.game_over,
            !old(self)@.game_won,
        ensures
            final(self).wf(),
            final(self)@ == (GameView {
                snake: final(self)@.snake,
                map: final(self)@.map,
                score: final(self)@.score,
                game_won: final(self)@.game_won,
                ..old(self)@
            }),
            final(self)@.ate(old(self)@),
    {
        self.snake.feed();
        if self.map.is_full() {
            self.game_won();
            self.map.remove_food();
        } else {
            self.map.consumed_food();
        }
        self.snake.step(&mut self.map);
        if self.score < i64::MAX {
            self.score += 1;
        }
    }

    /// The snake steps on the empty cell ahead.
    fn go(&mut self)
        requires
            old(self).wf(),
        ensures
            final(self).wf(),
            final(self)@ == (GameView {
                snake: final(self)@.snake,
                map: final(self)@.map,
                ..old(self)@
            }),
            final(self)@.went(old(self)@),
    {
        self.snake.step(&mut self.map);
    }

    /// Resolves one move of a running game.
    fn resolve(&mut self, left: bool)
        requires
            old(self).wf(),
            !old(self)@.game_over,
            !old(self)@.game_won,
        ensures
            final(self).wf(),
            final(self)@.resolves(old(self)@, left),
    {
        self.time = 0;
        self.dirty = true;
        self.steer(left);
        if self.round < u64::MAX {
            self.round += 1;
        }
        let ghost steered = self@;
        match self.peek() {
            State::Snake | State::Wall => self.game_over(),
            State::Food => self.eat(),
            State::Empty => self.go(),
        }
        proof {
            assert(steered.snake.peek_spec() == old(self)@.snake.next_toward(
                old(self)@.steered(left),
            ));
        }
    }

    /// Lets the time `dt` pass, in microseconds, with `left` for what chance
    /// says where a policy asks it.
    pub fn update_with(&mut self, dt: u64, left: bool)
        requires
            old(self).wf(),
        ensures
            final(self).wf(),
            final(self)@.updates(old(self)@, dt, left),
    {
        if self.paused {
            return ;
        }
        if self.game_over {
            if self.autopilot != Autopilot::Manual {
                self.time = advance(self.time, dt);
                if self.time > RESTART_DELAY {
                    self.restart();
                }
            }
            return ;
        }
        if self.game_won {
            return ;
        }
        self.time = advance(self.time, dt);
        if self.time <= self.delay {
            return ;
        }
        self.resolve(left);
    }

    /// Lets the time `dt` pass, in microseconds. Chance is asked where a
    /// policy that may ask it is about to steer.
    pub fn update(&mut self, dt: u64)
        requires
            old(self).wf(),
        ensures
            final(self).wf(),
            exists|left: bool| #[trigger] final(self)@.updates(old(self)@, dt, left),
    {
        let due = !self.paused && !self.game_over && !self.game_won && advance(self.time, dt)
            > self.delay;
        let left = due && (self.autopilot == Autopilot::Stupid || self.autopilot
            == Autopilot::Smart) && coin();
        self.update_with(dt, left);
    }

    /// Carries out the command that a key stands for.
    pub fn key_press(&mut self, key: Key)
        requires
            old(self).wf(),
        ensures
            final(self).wf(),
            final(self)@.obeys(old(self)@, command_spec(key)),
    {
        self.command(command_for(key));
    }
}

} // verus!
