//! Game rules of Snake: one tick of movement, the tick speed, direction
//! changes, keyboard mapping, board rendering classes, food placement and
//! the persisted high score.
//!
//! Everything here is free of timers and DOM access; the front end drives
//! these functions from its event loop.
use vstd::prelude::*;

use crate::text::{
    append_decimal, chars_of, decimal_text, parse_unsigned, parse_unsigned_str, str_eq, trim,
    trim_bounds,
};

verus! {

/// A single cell coordinate on the board, `(x, y)`.
pub type Pos = (i32, i32);

/// Board width and height in cells.
pub const GRID_SIZE: i32 = 20;

/// Points awarded for eating a regular food cell.
pub const REGULAR_FOOD_POINTS: u32 = 10;

/// Points awarded for eating a gold food cell.
pub const GOLD_FOOD_POINTS: u32 = 30;

/// Tick interval floor in milliseconds.
pub const MIN_TICK_MS: u32 = 75;

/// Tick interval when the score is `0`.
pub const BASE_TICK_MS: u32 = 170;

/// Points required to shave one step off the tick interval.
pub const SCORE_PER_SPEEDUP: u32 = 20;

/// Milliseconds removed from the tick interval per [`SCORE_PER_SPEEDUP`] points.
pub const SPEEDUP_STEP_MS: u32 = 15;

/// Random-placement attempts after which food placement accepts whatever
/// cell it sampled last.
pub const MAX_GENERATE_ATTEMPTS: u32 = 100;

/// Milliseconds the gold food stays on the board before reverting.
pub const GOLD_TIMEOUT_MS: u32 = 5000;

/// Snapshot of game state consumed by [`apply_tick`].
#[derive(Debug, PartialEq)]
pub struct PureTickInputs {
    pub snake: Vec<Pos>,
    pub direction: Pos,
    pub next_direction: Pos,
    pub food: Pos,
    pub score: u32,
    pub high_score: u32,
    pub game_over: bool,
    pub is_gold: bool,
    pub grid_size: i32,
}

/// Result of one [`apply_tick`] call.
#[derive(Debug, PartialEq)]
pub struct PureTickOutputs {
    pub snake: Vec<Pos>,
    pub direction: Pos,
    pub food: Pos,
    pub score: u32,
    pub high_score: u32,
    pub game_over: bool,
    pub is_gold: bool,
}

/// The mathematical content of a [`PureTickOutputs`].
pub struct TickState {
    pub snake: Seq<Pos>,
    pub direction: Pos,
    pub food: Pos,
    pub score: int,
    pub high_score: int,
    pub game_over: bool,
    pub is_gold: bool,
}

impl PureTickOutputs {
    /// The state that these outputs describe.
    pub open spec fn state(&self) -> TickState {
        TickState {
            snake: self.snake@,
            direction: self.direction,
            food: self.food,
            score: self.score as int,
            high_score: self.high_score as int,
            game_over: self.game_over,
            is_gold: self.is_gold,
        }
    }
}

/// Points that eating the current food earns.
pub open spec fn food_points(is_gold: bool) -> int {
    if is_gold {
        GOLD_FOOD_POINTS as int
    } else {
        REGULAR_FOOD_POINTS as int
    }
}

/// `true` when moving from `p` by `d` stays within the `i32` range.
pub open spec fn step_fits(p: Pos, d: Pos) -> bool {
    i32::MIN <= p.0 + d.0 <= i32::MAX && i32::MIN <= p.1 + d.1 <= i32::MAX
}

/// The cell reached from `p` by one move in direction `d`.
pub open spec fn step(p: Pos, d: Pos) -> Pos {
    ((p.0 + d.0) as i32, (p.1 + d.1) as i32)
}

/// `true` when `p` lies outside a `grid` × `grid` board.
pub open spec fn outside_grid(p: Pos, grid: int) -> bool {
    p.0 < 0 || p.0 >= grid || p.1 < 0 || p.1 >= grid
}

/// Where the head of the snake goes on this tick.
pub open spec fn tick_head(i: PureTickInputs) -> Pos {
    step(i.snake@[0], i.next_direction)
}

/// The body cells that the new head must not enter: the whole snake when it
/// eats, all but the tail otherwise (the tail moves out of the way).
pub open spec fn blocking_body(i: PureTickInputs) -> Seq<Pos> {
    if tick_head(i) == i.food {
        i.snake@
    } else {
        i.snake@.drop_last()
    }
}

/// `true` when this tick ends the game: the head leaves the board or runs
/// into the body.
pub open spec fn tick_collides(i: PureTickInputs) -> bool {
    outside_grid(tick_head(i), i.grid_size as int) || blocking_body(i).contains(tick_head(i))
}

/// `true` when this tick eats the food.
pub open spec fn tick_eats(i: PureTickInputs) -> bool {
    !tick_collides(i) && tick_head(i) == i.food
}

/// The inputs that [`apply_tick`] accepts: a non-empty snake whose next head
/// fits in `i32`, and room in the score for the food it may eat.
pub open spec fn tick_input_ok(i: PureTickInputs) -> bool {
    &&& i.snake@.len() > 0
    &&& step_fits(i.snake@[0], i.next_direction)
    &&& tick_eats(i) ==> i.score + food_points(i.is_gold) <= u32::MAX
}

/// The game state after one tick.
///
/// The direction always becomes `next_direction`. A collision sets
/// `game_over` and keeps everything else. Eating grows the snake by one
/// cell, adds the food's points, moves the food to `new_food` and takes
/// `next_is_gold` as the next food kind. Otherwise the snake slides forward.
pub open spec fn tick_outcome(i: PureTickInputs, next_is_gold: bool, new_food: Pos) -> TickState {
    let h = tick_head(i);
    if tick_collides(i) {
        TickState {
            snake: i.snake@,
            direction: i.next_direction,
            food: i.food,
            score: i.score as int,
            high_score: i.high_score as int,
            game_over: true,
            is_gold: i.is_gold,
        }
    } else if h == i.food {
        let s = i.score + food_points(i.is_gold);
        TickState {
            snake: seq![h] + i.snake@,
            direction: i.next_direction,
            food: new_food,
            score: s,
            high_score: if s > i.high_score {
                s
            } else {
                i.high_score as int
            },
            game_over: i.game_over,
            is_gold: next_is_gold,
        }
    } else {
        TickState {
            snake: seq![h] + i.snake@.drop_last(),
            direction: i.next_direction,
            food: i.food,
            score: i.score as int,
            high_score: i.high_score as int,
            game_over: i.game_over,
            is_gold: i.is_gold,
        }
    }
}


/// `true` when every cell of `cells` lies on a `grid` × `grid` board.
pub open spec fn all_on_board(cells: Seq<Pos>, grid: int) -> bool {
    forall|k: int| 0 <= k < cells.len() ==> !outside_grid(#[trigger] cells[k], grid)
}

/// `true` when no cell occurs twice in `cells`.
pub open spec fn no_overlap(cells: Seq<Pos>) -> bool {
    forall|j: int, k: int| 0 <= j < k < cells.len() ==> cells[j] != cells[k]
}

/// A tick grows the snake by exactly one cell when it eats, and otherwise
/// keeps its length (sliding forward, or frozen by a collision).
pub proof fn law_tick_length(i: PureTickInputs, next_is_gold: bool, new_food: Pos)
    requires
        tick_input_ok(i),
    ensures
        tick_outcome(i, next_is_gold, new_food).snake.len() == if tick_eats(i) {
            i.snake@.len() + 1
        } else {
            i.snake@.len() + 0
        },
{
}

/// A tick never lowers the score or the high score, raises the score by the
/// food's points exactly when it eats, and keeps the high score at or above
/// the score once it is.
pub proof fn law_tick_scores(i: PureTickInputs, next_is_gold: bool, new_food: Pos)
    requires
        tick_input_ok(i),
    ensures
        ({
            let o = tick_outcome(i, next_is_gold, new_food);
            &&& o.score == i.score + if tick_eats(i) {
                food_points(i.is_gold)
            } else {
                0
            }
            &&& o.high_score >= i.high_score
            &&& i.high_score >= i.score ==> o.high_score >= o.score
        }),
{
}

/// A tick always adopts the queued direction, and ends the game exactly when
/// it collides (a finished game stays finished).
pub proof fn law_tick_direction_and_game_over(i: PureTickInputs, next_is_gold: bool, new_food: Pos)
    requires
        tick_input_ok(i),
    ensures
        tick_outcome(i, next_is_gold, new_food).direction == i.next_direction,
        tick_outcome(i, next_is_gold, new_food).game_over == (i.game_over || tick_collides(i)),
{
}

/// A tick that does not collide puts the head one step ahead in the queued
/// direction, and the rest of the body follows the old body cell by cell.
pub proof fn law_tick_moves_head(i: PureTickInputs, next_is_gold: bool, new_food: Pos)
    requires
        tick_input_ok(i),
        !tick_collides(i),
    ensures
        ({
            let o = tick_outcome(i, next_is_gold, new_food).snake;
            &&& o[0] == step(i.snake@[0], i.next_direction)
            &&& forall|k: int| 1 <= k < o.len() ==> o[k] == i.snake@[k - 1]
        }),
{
}

/// The walls end the game: a tick that leaves the game running puts the
/// head on the `grid_size` × `grid_size` board, and a step of the head to a
/// column or row below `0` or at `grid_size` or beyond ends the game and
/// leaves the snake where it was.
pub proof fn law_tick_head_stays_on_board(i: PureTickInputs, next_is_gold: bool, new_food: Pos)
    requires
        tick_input_ok(i),
    ensures
        ({
            let o = tick_outcome(i, next_is_gold, new_food);
            let x = i.snake@[0].0 + i.next_direction.0;
            let y = i.snake@[0].1 + i.next_direction.1;
            &&& !o.game_over ==> 0 <= o.snake[0].0 < i.grid_size && 0 <= o.snake[0].1 < i.grid_size
            &&& (x < 0 || x >= i.grid_size || y < 0 || y >= i.grid_size) ==> o.game_over && o.snake
                == i.snake@
        }),
{
}

/// A snake that lies on the board still lies on the board after a tick.
pub proof fn law_tick_stays_on_board(i: PureTickInputs, next_is_gold: bool, new_food: Pos)
    requires
        tick_input_ok(i),
        all_on_board(i.snake@, i.grid_size as int),
    ensures
        all_on_board(tick_outcome(i, next_is_gold, new_food).snake, i.grid_size as int),
{
    let o = tick_outcome(i, next_is_gold, new_food).snake;
    if !tick_collides(i) {
        assert forall|k: int| 0 <= k < o.len() implies !outside_grid(#[trigger] o[k], i.grid_size as int) by {
            if k > 0 {
                assert(o[k] == i.snake@[k - 1]);
            }
        }
    }
}

/// A snake whose cells are all distinct keeps them distinct after a tick.
pub proof fn law_tick_keeps_body_apart(i: PureTickInputs, next_is_gold: bool, new_food: Pos)
    requires
        tick_input_ok(i),
        no_overlap(i.snake@),
    ensures
        no_overlap(tick_outcome(i, next_is_gold, new_food).snake),
{
    let o = tick_outcome(i, next_is_gold, new_food).snake;
    if !tick_collides(i) {
        let body = blocking_body(i);
        assert(o =~= seq![tick_head(i)] + body);
        assert forall|j: int, k: int| 0 <= j < k < o.len() implies o[j] != o[k] by {
            if j == 0 {
                assert(o[k] == body[k - 1]);
                if o[j] == o[k] {
                    assert(body.contains(tick_head(i)));
                }
            } else {
                assert(o[j] == i.snake@[j - 1]);
                assert(o[k] == i.snake@[k - 1]);
            }
        }
    }
}

/// Whether `p` is one of the first `end` cells of `cells`.
fn cells_contain(cells: &Vec<Pos>, end: usize, p: Pos) -> (r: bool)
    requires
        end <= cells.len(),
    ensures
        r == cells@.take(end as int).contains(p),
{
    let mut k: usize = 0;
    while k < end
        invariant
            end <= cells.len(),
            k <= end,
            forall|j: int| 0 <= j < k ==> cells@[j] != p,
        decreases end - k,
    {
        let c = cells[k];
        if c.0 == p.0 && c.1 == p.1 {
            assert(cells@.take(end as int)[k as int] == p);
            return true;
        }
        k = k + 1;
    }
    assert(!cells@.take(end as int).contains(p)) by {
        if cells@.take(end as int).contains(p) {
            let j = choose|j: int| 0 <= j < end && cells@.take(end as int)[j] == p;
            assert(cells@[j] == p);
        }
    }
    false
}

/// Advances the snake one step in `next_direction` and returns the new state.
///
/// `next_is_gold` is the kind of the food that replaces an eaten one (the
/// caller rolls it); it is only used when this tick eats.
pub fn apply_tick(input: PureTickInputs, next_is_gold: bool, new_food: Pos) -> (out: PureTickOutputs)
    requires
        tick_input_ok(input),
    ensures
        out.state() == tick_outcome(input, next_is_gold, new_food),
        !out.game_over ==> 0 <= out.snake@[0].0 < input.grid_size && 0 <= out.snake@[0].1
            < input.grid_size,
        ({
            let x = input.snake@[0].0 + input.next_direction.0;
            let y = input.snake@[0].1 + input.next_direction.1;
            (x < 0 || x >= input.grid_size || y < 0 || y >= input.grid_size) ==> out.game_over
                && out.snake@ == input.snake@
        }),
{
    proof {
        law_tick_head_stays_on_board(input, next_is_gold, new_food);
    }
    let direction = input.next_direction;
    let head = input.snake[0];
    let new_head: Pos = (head.0 + direction.0, head.1 + direction.1);
    let ghost i = input;
    assert(new_head == tick_head(i));
    if new_head.0 < 0 || new_head.0 >= input.grid_size || new_head.1 < 0 || new_head.1
        >= input.grid_size {
        return PureTickOutputs {
            snake: input.snake,
            direction,
            food: input.food,
            score: input.score,
            high_score: input.high_score,
            game_over: true,
            is_gold: input.is_gold,
        };
    }
    let will_grow = new_head.0 == input.food.0 && new_head.1 == input.food.1;
    let n = input.snake.len();
    let end = if will_grow {
        n
    } else {
        n - 1
    };
    proof {
        if will_grow {
            assert(input.snake@.take(end as int) =~= blocking_body(i));
        } else {
            assert(input.snake@.take(end as int) =~= blocking_body(i));
        }
    }
    if cells_contain(&input.snake, end, new_head) {
        return PureTickOutputs {
            snake: input.snake,
            direction,
            food: input.food,
            score: input.score,
            high_score: input.high_score,
            game_over: true,
            is_gold: input.is_gold,
        };
    }
    let mut next_snake: Vec<Pos> = Vec::new();
    next_snake.push(new_head);
    let mut k: usize = 0;
    while k < end
        invariant
            end <= input.snake.len(),
            k <= end,
            next_snake@ == seq![new_head] + input.snake@.take(k as int),
        decreases end - k,
    {
        next_snake.push(input.snake[k]);
        proof {
            assert(input.snake@.take(k + 1) =~= input.snake@.take(k as int).push(input.snake@[k as int]));
        }
        k = k + 1;
    }
    proof {
        if will_grow {
            assert(input.snake@.take(end as int) =~= input.snake@);
        } else {
            assert(input.snake@.take(end as int) =~= input.snake@.drop_last());
        }
    }
    if will_grow {
        let points = if input.is_gold {
            GOLD_FOOD_POINTS
        } else {
            REGULAR_FOOD_POINTS
        };
        let new_score = input.score + points;
        let new_high = if new_score > input.high_score {
            new_score
        } else {
            input.high_score
        };
        PureTickOutputs {
            snake: next_snake,
            direction,
            food: new_food,
            score: new_score,
            high_score: new_high,
            game_over: input.game_over,
            is_gold: next_is_gold,
        }
    } else {
        PureTickOutputs {
            snake: next_snake,
            direction,
            food: input.food,
            score: input.score,
            high_score: input.high_score,
            game_over: input.game_over,
            is_gold: input.is_gold,
        }
    }
}

/// The tick interval for `score`: [`BASE_TICK_MS`] less [`SPEEDUP_STEP_MS`]
/// for every full [`SCORE_PER_SPEEDUP`] points, never below [`MIN_TICK_MS`].
pub open spec fn tick_interval(score: int) -> int {
    let t = BASE_TICK_MS - (score / SCORE_PER_SPEEDUP as int) * SPEEDUP_STEP_MS;
    if t < MIN_TICK_MS {
        MIN_TICK_MS as int
    } else {
        t
    }
}

/// Milliseconds between two ticks at the given score.
pub fn tick_interval_ms(score: u32) -> (ms: u32)
    ensures
        ms == tick_interval(score as int),
{
    let q: u32 = score / SCORE_PER_SPEEDUP;
    let steps: u64 = q as u64;
    assert(steps <= u32::MAX);
    let shaved: u64 = steps * 15;
    if shaved + (MIN_TICK_MS as u64) > (BASE_TICK_MS as u64) {
        MIN_TICK_MS
    } else {
        BASE_TICK_MS - (shaved as u32)
    }
}

/// The game speeds up as the score grows: the interval never increases with
/// the score, and it always stays between [`MIN_TICK_MS`] and [`BASE_TICK_MS`].
pub proof fn law_tick_interval_monotone(a: u32, b: u32)
    requires
        a <= b,
    ensures
        tick_interval(a as int) >= tick_interval(b as int),
        MIN_TICK_MS <= tick_interval(a as int) <= BASE_TICK_MS,
{
    assert(a as int / 20 <= b as int / 20) by (nonlinear_arith)
        requires
            a <= b,
    ;
    assert(a as int / 20 >= 0) by (nonlinear_arith)
        requires
            a >= 0,
    ;
    assert((a as int / 20) * 15 <= (b as int / 20) * 15) by (nonlinear_arith)
        requires
            a as int / 20 <= b as int / 20,
    ;
}

/// Whether a turn to `(dx, dy)` is taken while moving in `current`: a
/// horizontal turn needs a vertical current direction and vice versa.
pub open spec fn turn_allowed(current: Pos, dx: i32, dy: i32) -> bool {
    (dx != 0 && current.0 == 0) || (dy != 0 && current.1 == 0)
}

/// The queued direction after the player asks for `(dx, dy)`: the request
/// when [`turn_allowed`], else the previously queued direction.
pub fn next_direction_after(current: Pos, queued: Pos, dx: i32, dy: i32) -> (next: Pos)
    ensures
        next == if turn_allowed(current, dx, dy) {
            (dx, dy)
        } else {
            queued
        },
        is_unit_direction(current) && is_unit_direction((dx, dy)) && dx * current.0 + dy
            * current.1 == 0 ==> next == (dx, dy),
        is_unit_direction(current) && is_unit_direction((dx, dy)) && dx * current.0 + dy
            * current.1 != 0 ==> next == queued,
{
    if (dx != 0 && current.0 == 0) || (dy != 0 && current.1 == 0) {
        (dx, dy)
    } else {
        queued
    }
}

/// `true` for the four unit moves.
pub open spec fn is_unit_direction(d: Pos) -> bool {
    (d.0 == 0 && (d.1 == 1 || d.1 == -1)) || (d.1 == 0 && (d.0 == 1 || d.0 == -1))
}

/// Turns at a right angle are always taken, and for unit moves they are the
/// only turns taken: a request along the current line (the same way or the
/// reverse) keeps the queued direction.
pub proof fn law_right_angle_turns_are_taken(current: Pos, queued: Pos, dx: i32, dy: i32)
    requires
        is_unit_direction(current),
        is_unit_direction((dx, dy)),
    ensures
        turn_allowed(current, dx, dy) <==> dx * current.0 + dy * current.1 == 0,
{
}

/// A snake never reverses onto itself: for a unit direction, the request to
/// go the opposite way (or the same way) is never taken, and a taken unit
/// turn is always at a right angle.
pub proof fn law_no_reversal(current: Pos, dx: i32, dy: i32)
    requires
        is_unit_direction(current),
        is_unit_direction((dx, dy)),
    ensures
        (dx == -current.0 && dy == -current.1) ==> !turn_allowed(current, dx, dy),
        (dx == current.0 && dy == current.1) ==> !turn_allowed(current, dx, dy),
        turn_allowed(current, dx, dy) ==> dx * current.0 + dy * current.1 == 0,
{
}

/// What a key press does to the game.
pub enum KeyAction {
    /// Pause or resume; carries the new `paused` value.
    SetPaused(bool),
    /// Ask for a turn in the carried direction.
    Turn(Pos),
    /// Nothing.
    Ignore,
}

/// The direction that `key` asks for, if any: arrows and WASD (either case).
pub open spec fn key_direction(key: Seq<char>) -> Option<Pos> {
    if key == "ArrowUp"@ || key == "w"@ || key == "W"@ {
        Some((0i32, -1i32))
    } else if key == "ArrowDown"@ || key == "s"@ || key == "S"@ {
        Some((0i32, 1i32))
    } else if key == "ArrowLeft"@ || key == "a"@ || key == "A"@ {
        Some((-1i32, 0i32))
    } else if key == "ArrowRight"@ || key == "d"@ || key == "D"@ {
        Some((1i32, 0i32))
    } else {
        None
    }
}

/// `true` for the pause keys: Escape and P (either case).
pub open spec fn is_pause_key(key: Seq<char>) -> bool {
    key == "Escape"@ || key == "p"@ || key == "P"@
}

/// The direction that `key` asks for, if any.
pub fn direction_for_key(key: &str) -> (d: Option<Pos>)
    ensures
        d == key_direction(key@),
{
    if str_eq(key, "ArrowUp") || str_eq(key, "w") || str_eq(key, "W") {
        Some((0, -1))
    } else if str_eq(key, "ArrowDown") || str_eq(key, "s") || str_eq(key, "S") {
        Some((0, 1))
    } else if str_eq(key, "ArrowLeft") || str_eq(key, "a") || str_eq(key, "A") {
        Some((-1, 0))
    } else if str_eq(key, "ArrowRight") || str_eq(key, "d") || str_eq(key, "D") {
        Some((1, 0))
    } else {
        None
    }
}

/// The effect of a key press: a pause key toggles the pause of a running
/// game (and does nothing otherwise); while paused every other key is
/// ignored; a direction key asks for a turn.
pub fn key_action(key: &str, started: bool, game_over: bool, paused: bool) -> (a: KeyAction)
    ensures
        is_pause_key(key@) ==> a == if started && !game_over {
            KeyAction::SetPaused(!paused)
        } else {
            KeyAction::Ignore
        },
        !is_pause_key(key@) && paused ==> a == KeyAction::Ignore,
        !is_pause_key(key@) && !paused ==> a == match key_direction(key@) {
            Some(d) => KeyAction::Turn(d),
            None => KeyAction::Ignore,
        },
{
    if str_eq(key, "Escape") || str_eq(key, "p") || str_eq(key, "P") {
        if started && !game_over {
            return KeyAction::SetPaused(!paused);
        }
        return KeyAction::Ignore;
    }
    if paused {
        return KeyAction::Ignore;
    }
    match direction_for_key(key) {
        Some(d) => KeyAction::Turn(d),
        None => KeyAction::Ignore,
    }
}

/// How a board cell is drawn.
pub enum CellKind {
    SnakeHead,
    SnakeBody,
    GoldFood,
    Food,
    Empty,
}

/// The kind of the cell `(x, y)`: the head wins over the body, the body over
/// the food.
pub open spec fn cell_kind(snake: Seq<Pos>, food: Pos, is_gold: bool, x: i32, y: i32) -> CellKind {
    if snake[0] == (x, y) {
        CellKind::SnakeHead
    } else if snake.contains((x, y)) {
        CellKind::SnakeBody
    } else if food == (x, y) {
        if is_gold {
            CellKind::GoldFood
        } else {
            CellKind::Food
        }
    } else {
        CellKind::Empty
    }
}

impl CellKind {
    /// The CSS classes of a cell of this kind.
    pub fn css_class(&self) -> (c: &'static str)
        ensures
            c@ == match self {
                CellKind::SnakeHead => "grid-cell snake-head"@,
                CellKind::SnakeBody => "grid-cell snake-body"@,
                CellKind::GoldFood => "grid-cell food gold-food"@,
                CellKind::Food => "grid-cell food"@,
                CellKind::Empty => "grid-cell"@,
            },
    {
        match self {
            CellKind::SnakeHead => "grid-cell snake-head",
            CellKind::SnakeBody => "grid-cell snake-body",
            CellKind::GoldFood => "grid-cell food gold-food",
            CellKind::Food => "grid-cell food",
            CellKind::Empty => "grid-cell",
        }
    }
}

/// The kind of the board cell `(x, y)`.
pub fn board_cell(snake: &Vec<Pos>, food: Pos, is_gold: bool, x: i32, y: i32) -> (k: CellKind)
    requires
        snake.len() > 0,
    ensures
        k == cell_kind(snake@, food, is_gold, x, y),
{
    let head = snake[0];
    if head.0 == x && head.1 == y {
        CellKind::SnakeHead
    } else if cells_contain(snake, snake.len(), (x, y)) {
        proof {
            assert(snake@.take(snake.len() as int) =~= snake@);
        }
        CellKind::SnakeBody
    } else {
        proof {
            assert(snake@.take(snake.len() as int) =~= snake@);
        }
        if food.0 == x && food.1 == y {
            if is_gold {
                CellKind::GoldFood
            } else {
                CellKind::Food
            }
        } else {
            CellKind::Empty
        }
    }
}

/// Whether a sampled food cell is kept: it is free, or the attempts are used up.
pub fn food_candidate_accepted(snake: &Vec<Pos>, candidate: Pos, attempts: u32) -> (keep: bool)
    ensures
        keep == (!snake@.contains(candidate) || attempts >= MAX_GENERATE_ATTEMPTS),
{
    let on_snake = cells_contain(snake, snake.len(), candidate);
    proof {
        assert(snake@.take(snake.len() as int) =~= snake@);
    }
    !on_snake || attempts >= MAX_GENERATE_ATTEMPTS
}

/// The snake body that every run starts with, head first.
pub fn fresh_snake() -> (s: Vec<Pos>)
    ensures
        s@ == seq![(10i32, 10i32), (10i32, 11i32), (10i32, 12i32)],
{
    let mut s: Vec<Pos> = Vec::new();
    s.push((10, 10));
    s.push((10, 11));
    s.push((10, 12));
    s
}

/// The direction that every run starts with (up).
pub fn initial_direction() -> (d: Pos)
    ensures
        d == (0i32, -1i32),
{
    (0, -1)
}

/// The high score restored from its stored text: its `u32` value, or `0`
/// when nothing (or nothing readable) is stored.
pub fn high_score_from_storage(raw: Option<&str>) -> (score: u32)
    ensures
        score == match raw {
            Some(s) => match parse_unsigned(s@, u32::MAX as nat) {
                Some(v) => v as u32,
                None => 0,
            },
            None => 0,
        },
{
    match raw {
        Some(s) => match parse_unsigned_str(s, u32::MAX as u64) {
            Some(v) => v as u32,
            None => 0,
        },
        None => 0,
    }
}

/// The footer banner while a game runs: the (translated) game-over text
/// styled `error` once the game is over, else `Score: <score>` styled
/// `success`.
pub fn score_status(score: u32, game_over: bool, game_over_text: &str) -> (s: (String, String))
    ensures
        game_over ==> s.0@ == game_over_text@ && s.1@ == "error"@,
        !game_over ==> s.0@ == "Score: "@ + decimal_text(score as nat) && s.1@ == "success"@,
{
    if game_over {
        (String::from_str(game_over_text), String::from_str("error"))
    } else {
        let mut text = String::from_str("Score: ");
        append_decimal(&mut text, score as u64);
        (text, String::from_str("success"))
    }
}

/// Whether the game-over form may send a score: the player name is not
/// blank and no submission is already under way.
pub fn may_submit_score(name: &str, submitting: bool) -> (ok: bool)
    ensures
        ok == (trim(name@).len() > 0 && !submitting),
{
    let v = chars_of(name);
    let (a, b) = trim_bounds(&v);
    a < b && !submitting
}

/// Whether the `k`-th draw of a food cell is kept: it is off the snake,
/// or it is the draw after [`MAX_GENERATE_ATTEMPTS`] rejected ones.
pub open spec fn draw_kept(snake: Seq<Pos>, cell: Pos, k: int) -> bool {
    !snake.contains(cell) || k == MAX_GENERATE_ATTEMPTS
}

/// The food cell chosen from a sequence of draws: the first kept draw and
/// its index, or `None` when every draw given is rejected.
pub fn first_free_draw(snake: &Vec<Pos>, draws: &Vec<Pos>) -> (r: Option<(Pos, usize)>)
    ensures
        match r {
            Some((p, k)) => {
                &&& k < draws@.len()
                &&& k <= MAX_GENERATE_ATTEMPTS
                &&& p == draws@[k as int]
                &&& draw_kept(snake@, p, k as int)
                &&& forall|j: int| 0 <= j < k ==> snake@.contains(#[trigger] draws@[j])
            },
            None => {
                &&& draws@.len() <= MAX_GENERATE_ATTEMPTS
                &&& forall|j: int| 0 <= j < draws@.len() ==> snake@.contains(#[trigger] draws@[j])
            },
        },
{
    let mut k: usize = 0;
    while k < draws.len()
        invariant
            k <= draws@.len(),
            k <= MAX_GENERATE_ATTEMPTS,
            forall|j: int| 0 <= j < k ==> snake@.contains(#[trigger] draws@[j]),
        decreases draws@.len() - k,
    {
        let cell = draws[k];
        if food_candidate_accepted(snake, cell, k as u32) {
            return Some((cell, k));
        }
        k = k + 1;
    }
    None
}

/// Pick a cell for the food: cells are drawn with `draw` until one is off
/// the snake; after [`MAX_GENERATE_ATTEMPTS`] rejected draws the next cell
/// drawn is kept whatever it holds. Returns the cell, the number of
/// rejected draws, and (as a ghost) every cell drawn, in order.
pub fn pick_free_position_with<F: Fn() -> Pos>(snake: &Vec<Pos>, draw: F) -> (r: (
    Pos,
    u32,
    Ghost<Seq<Pos>>,
))
    requires
        call_requires(draw, ()),
    ensures
        r.1 <= MAX_GENERATE_ATTEMPTS,
        r.2@.len() == r.1 + 1,
        forall|i: int| 0 <= i < r.2@.len() ==> call_ensures(draw, (), #[trigger] r.2@[i]),
        forall|i: int| 0 <= i < r.1 ==> snake@.contains(#[trigger] r.2@[i]),
        r.2@.last() == r.0,
        draw_kept(snake@, r.0, r.1 as int),
{
    let mut attempts: u32 = 0;
    let ghost mut drawn: Seq<Pos> = Seq::empty();
    loop
        invariant
            attempts <= MAX_GENERATE_ATTEMPTS,
            call_requires(draw, ()),
            drawn.len() == attempts,
            forall|i: int| 0 <= i < drawn.len() ==> call_ensures(draw, (), #[trigger] drawn[i]),
            forall|i: int| 0 <= i < drawn.len() ==> snake@.contains(#[trigger] drawn[i]),
        decreases MAX_GENERATE_ATTEMPTS - attempts,
    {
        let cell = draw();
        proof {
            drawn = drawn.push(cell);
        }
        if food_candidate_accepted(snake, cell, attempts) {
            return (cell, attempts, Ghost(drawn));
        }
        attempts = attempts + 1;
    }
}

/// The whole state of a game in the browser.
pub struct GameState {
    /// Body cells, head first.
    pub snake: Vec<Pos>,
    pub direction: Pos,
    /// The direction the next tick takes.
    pub next_direction: Pos,
    pub food: Pos,
    pub score: u32,
    pub high_score: u32,
    pub game_over: bool,
    pub paused: bool,
    pub started: bool,
    pub is_gold: bool,
}

/// The state before the first game: the starting snake heading up, the
/// food at `(5, 5)`, no score, nothing started, paused, over or gold, and
/// the stored `high_score`.
pub fn initial_game(high_score: u32) -> (g: GameState)
    ensures
        g.snake@ == seq![(10i32, 10i32), (10i32, 11i32), (10i32, 12i32)],
        g.direction == (0i32, -1i32),
        g.next_direction == (0i32, -1i32),
        g.food == (5i32, 5i32),
        g.score == 0,
        g.high_score == high_score,
        !g.game_over && !g.paused && !g.started && !g.is_gold,
{
    GameState {
        snake: fresh_snake(),
        direction: initial_direction(),
        next_direction: initial_direction(),
        food: (5, 5),
        score: 0,
        high_score,
        game_over: false,
        paused: false,
        started: false,
        is_gold: false,
    }
}

/// A (re)started game: the starting snake heading up, no score, running,
/// regular food at `food`; the high score is kept.
pub fn restarted_game(high_score: u32, food: Pos) -> (g: GameState)
    ensures
        g.snake@ == seq![(10i32, 10i32), (10i32, 11i32), (10i32, 12i32)],
        g.direction == (0i32, -1i32),
        g.next_direction == (0i32, -1i32),
        g.food == food,
        g.score == 0,
        g.high_score == high_score,
        !g.game_over && !g.paused && g.started && !g.is_gold,
{
    GameState {
        snake: fresh_snake(),
        direction: initial_direction(),
        next_direction: initial_direction(),
        food,
        score: 0,
        high_score,
        game_over: false,
        paused: false,
        started: true,
        is_gold: false,
    }
}

/// The tick timer runs while a game is started, not paused and not over.
pub fn tick_timer_runs(started: bool, paused: bool, game_over: bool) -> (r: bool)
    ensures
        r == (started && !paused && !game_over),
{
    started && !paused && !game_over
}

impl GameState {
    /// The inputs of the next tick.
    pub fn tick_inputs(&self) -> (i: PureTickInputs)
        ensures
            i.snake@ == self.snake@,
            i.direction == self.direction,
            i.next_direction == self.next_direction,
            i.food == self.food,
            i.score == self.score,
            i.high_score == self.high_score,
            i.game_over == self.game_over,
            i.is_gold == self.is_gold,
            i.grid_size == GRID_SIZE,
    {
        PureTickInputs {
            snake: copy_cells(&self.snake),
            direction: self.direction,
            next_direction: self.next_direction,
            food: self.food,
            score: self.score,
            high_score: self.high_score,
            game_over: self.game_over,
            is_gold: self.is_gold,
            grid_size: GRID_SIZE,
        }
    }
}

/// A copy of `cells`.
fn copy_cells(cells: &Vec<Pos>) -> (c: Vec<Pos>)
    ensures
        c@ == cells@,
{
    let mut c: Vec<Pos> = Vec::new();
    let mut i: usize = 0;
    while i < cells.len()
        invariant
            i <= cells.len(),
            c@ == cells@.take(i as int),
        decreases cells.len() - i,
    {
        c.push(cells[i]);
        assert(cells@.take(i + 1) =~= cells@.take(i as int).push(cells@[i as int]));
        i = i + 1;
    }
    assert(cells@.take(cells.len() as int) =~= cells@);
    c
}

/// The game after a tick with result `out`, and whether a new high score is
/// to be stored. The direction always follows the tick; a collision only
/// ends the game; otherwise snake, food, score, high score and food kind
/// follow the tick. The queued direction and the pause and start flags stay.
pub fn after_tick(g: GameState, out: PureTickOutputs) -> (r: (GameState, bool))
    ensures
        r.0.direction == out.direction,
        r.0.next_direction == g.next_direction,
        r.0.paused == g.paused,
        r.0.started == g.started,
        out.game_over ==> r.0.game_over && r.0.snake@ == g.snake@ && r.0.food == g.food
            && r.0.score == g.score && r.0.high_score == g.high_score && r.0.is_gold == g.is_gold
            && !r.1,
        !out.game_over ==> r.0.game_over == g.game_over && r.0.snake@ == out.snake@ && r.0.food
            == out.food && r.0.score == out.score && r.0.high_score == out.high_score
            && r.0.is_gold == out.is_gold && r.1 == (out.high_score != g.high_score),
{
    if out.game_over {
        (
            GameState {
                snake: g.snake,
                direction: out.direction,
                next_direction: g.next_direction,
                food: g.food,
                score: g.score,
                high_score: g.high_score,
                game_over: true,
                paused: g.paused,
                started: g.started,
                is_gold: g.is_gold,
            },
            false,
        )
    } else {
        let store = out.high_score != g.high_score;
        (
            GameState {
                snake: out.snake,
                direction: out.direction,
                next_direction: g.next_direction,
                food: out.food,
                score: out.score,
                high_score: out.high_score,
                game_over: g.game_over,
                paused: g.paused,
                started: g.started,
                is_gold: out.is_gold,
            },
            store,
        )
    }
}

} // verus!
