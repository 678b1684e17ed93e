//! The game session: its state value and the tick-driven state machine.
//!
//! All timing is frame-tick based.  The step accumulator and the
//! clear-animation timer are held exactly, in hundredths of a tick unit, so
//! 2.50 units is the value 250.  One discrete piece step is performed per
//! `STEP_PERIOD` hundredths accumulated.
//!
//! The host loop drives the session by calling [`apply_command`] for each
//! pending abstract command and [`tick`] once per frame; it reads the state's
//! fields back to draw the scene.  Quitting is the host's affair and never
//! reaches the session.

use vstd::prelude::*;

use crate::board::board_wf;
use crate::board::clear_completed_rows;
use crate::board::compact_spec;
use crate::board::copy_grid;
use crate::board::count_full;
use crate::board::empty_board;
use crate::board::empty_cells;
use crate::board::lemma_count_full_bounds;
use crate::board::lemma_empty_board;
use crate::board::rows_complete;
use crate::collision::can_move_left;
use crate::collision::can_move_right;
use crate::collision::can_place_spec;
use crate::collision::can_rotate_cw;
use crate::collision::land_piece;
use crate::collision::land_spec;
use crate::collision::lemma_anchor_bounds;
use crate::collision::lemma_can_place_in_well;
use crate::collision::lemma_spawn_in_well;
use crate::collision::piece_cells_in_well;
use crate::collision::piece_will_land;
use crate::collision::piece_will_lose;
use crate::collision::will_land_spec;
use crate::collision::will_lose_spec;
use crate::shape::grid_view;
use crate::shape::has_pivot;
use crate::shape::lemma_pivot_cell;
use crate::shape::lemma_rotated_has_pivot;
use crate::shape::lemma_rotated_wf;
use crate::shape::piece_wf;
use crate::shape::pivot_x_spec;
use crate::shape::pivot_y_spec;
use crate::shape::random_piece;
use crate::shape::rotated_cw;
use crate::shape::rotated_spec;
use crate::shape::scaled_canonical;

verus! {

/// One discrete piece step is performed per this many hundredths of
/// accumulated step time (50.00 units).
pub const STEP_PERIOD: u32 = 5000;

/// Base per-tick step amount in hundredths (2.50 units).
pub const BASE_STEP: u32 = 250;

/// Extra per-tick step amount per level, in hundredths (0.10 units).
pub const STEP_PER_LEVEL: u32 = 10;

/// While soft drop is held, the per-tick step amount is multiplied by this.
pub const SOFT_DROP_FACTOR: u32 = 10;

/// The clear animation starts from this timer value (10.00 units).
pub const CLEAR_TIMER_START: i32 = 1000;

/// The clear animation timer loses this much per tick (0.55 units).
pub const CLEAR_TIMER_DECREMENT: i32 = 55;

/// Points scored per completed row, before the level multiplier.
pub const POINTS_PER_ROW: u32 = 500;

/// Completing this many lines raises the level by one.
pub const LINES_PER_LEVEL: u32 = 10;

/// After game over, restart unlocks once this much step time has accumulated
/// (250.00 units).
pub const RESTART_THRESHOLD: u32 = 25000;

/// Per-tick step time accumulated while in game over (5.00 units).
pub const GAME_OVER_STEP: u32 = 500;

/// A fresh piece spawns with its pivot at this column.
pub const SPAWN_X: u32 = 4;

/// A fresh piece spawns with its pivot at this row.
pub const SPAWN_Y: u32 = 0;

/// The play-state variant of a session.  Exactly one holds at a time: normal
/// play, the clear animation with its remaining timer (in hundredths of a
/// tick unit), or game over.
#[derive(Clone, Copy, PartialEq, Eq, Structural, Debug)]
pub enum GameState {
    Playing,
    ClearingRows(i32),
    GameOver,
}

/// A discrete abstract command handed to the session by the host loop.
/// `OtherKey` stands for any key press that no other command claims; it
/// matters only for unlocking the restart from game over.
#[derive(Clone, Copy, PartialEq, Eq, Structural, Debug)]
pub enum Command {
    MoveLeft,
    MoveRight,
    RotateClockwise,
    SoftDropPressed,
    SoftDropReleased,
    OtherKey,
}

/// The whole session state: the well of landed cells, the active piece and
/// its anchor, the single-piece lookahead, the counters, the step-time
/// accumulator (hundredths of a tick unit) and the play-state variant.
pub struct State {
    pub cells: Vec<Vec<u8>>,
    pub score: u32,
    pub lines: u16,
    pub level: u16,
    pub current_piece_x: u32,
    pub current_piece_y: u32,
    pub current_piece: Vec<Vec<u8>>,
    pub next_piece: Vec<Vec<u8>>,
    pub step_time: u32,
    pub dropping: bool,
    pub status: GameState,
}

/// Well-formedness of a session state: the well has its fixed dimensions,
/// both pieces are 4×4 grids with a pivot cell, every occupied cell of the
/// active piece stands inside the well's columns and above its floor, and a
/// clear-animation timer is positive and at most its starting value.
pub open spec fn state_wf(s: State) -> bool {
    &&& board_wf(grid_view(s.cells))
    &&& piece_wf(grid_view(s.current_piece))
    &&& has_pivot(grid_view(s.current_piece))
    &&& piece_cells_in_well(
        grid_view(s.current_piece),
        s.current_piece_x as int,
        s.current_piece_y as int,
    )
    &&& piece_wf(grid_view(s.next_piece))
    &&& has_pivot(grid_view(s.next_piece))
    &&& match s.status {
        GameState::ClearingRows(t) => 0 < t <= CLEAR_TIMER_START,
        _ => true,
    }
}

/// A freshly created session: empty well, zeroed counters, both pieces drawn
/// from the canonical repertoire, the active one anchored at the spawn
/// position, and normal play underway.
pub open spec fn is_initial(s: State) -> bool {
    &&& grid_view(s.cells) == empty_board()
    &&& s.score == 0
    &&& s.lines == 0
    &&& s.level == 0
    &&& s.current_piece_x == SPAWN_X
    &&& s.current_piece_y == SPAWN_Y
    &&& (exists|i: int| 0 <= i < 7 && grid_view(s.current_piece) == scaled_canonical(i))
    &&& (exists|i: int| 0 <= i < 7 && grid_view(s.next_piece) == scaled_canonical(i))
    &&& s.step_time == 0
    &&& s.dropping == false
    &&& s.status == GameState::Playing
}

/// Addition on `u32` values that stops at the ceiling instead of wrapping.
pub open spec fn sat_add_u32(a: int, b: int) -> int {
    if a + b <= u32::MAX {
        a + b
    } else {
        u32::MAX as int
    }
}

/// A `u16` value capped at its ceiling.
pub open spec fn sat_u16(a: int) -> int {
    if a <= u16::MAX {
        a
    } else {
        u16::MAX as int
    }
}

/// Points awarded for a landing that completed `rc` rows at level `level`.
pub open spec fn score_gain(rc: int, level: int) -> int {
    rc * (level + 1) * 500
}

/// The level after a landing: one more exactly when the completed lines
/// carry the total into a new decade, and the level has room to grow.
pub open spec fn level_after(lines: int, level: int, rc: int) -> int {
    if (lines + rc) / 10 > lines / 10 {
        if level + 1 <= u16::MAX {
            level + 1
        } else {
            level
        }
    } else {
        level
    }
}

/// Step time gained in one tick of normal play, in hundredths: the base
/// speed plus the level bonus, tenfold while soft drop is held.
pub open spec fn step_tick_spec(level: int, dropping: bool) -> int {
    (250 + level * 10) * (if dropping {
        10int
    } else {
        1int
    })
}

/// How a landing's scoring changes the counters, given `rc` completed rows
/// on the board as landed: points, lines and possibly the level move
/// together, and the clear animation starts; with no completed row nothing
/// of them moves.
pub open spec fn scoring_applied(pre: State, post: State, rc: int) -> bool {
    &&& (rc > 0 ==> {
        &&& post.status == GameState::ClearingRows(CLEAR_TIMER_START)
        &&& post.score as int == sat_add_u32(pre.score as int, score_gain(rc, pre.level as int))
        &&& post.level as int == level_after(pre.lines as int, pre.level as int, rc)
        &&& post.lines as int == sat_u16(pre.lines as int + rc)
    })
    &&& (rc == 0 ==> {
        &&& post.status == pre.status
        &&& post.score == pre.score
        &&& post.level == pre.level
        &&& post.lines == pre.lines
    })
}

/// What one discrete piece step does.  A piece that can still fall falls one
/// row.  A piece that would land while part of it is above the well tops the
/// game out, leaving the well untouched.  Otherwise the piece is written
/// into the well, scoring resolves on the landed board, the lookahead is
/// promoted and a fresh piece drawn, and the anchor returns to the spawn
/// position.
pub open spec fn step_rel(pre: State, post: State) -> bool {
    let b = grid_view(pre.cells);
    let p = grid_view(pre.current_piece);
    let x = pre.current_piece_x as int;
    let y = pre.current_piece_y as int;
    if !will_land_spec(b, p, x, y) {
        post == (State { current_piece_y: (pre.current_piece_y + 1) as u32, ..pre })
    } else if will_lose_spec(p, x, y) {
        post == (State { status: GameState::GameOver, step_time: 0u32, ..pre })
    } else {
        let landed = land_spec(b, p, x, y);
        let rc = count_full(landed);
        &&& grid_view(post.cells) == landed
        &&& scoring_applied(pre, post, rc)
        &&& grid_view(post.current_piece) == grid_view(pre.next_piece)
        &&& (exists|i: int| 0 <= i < 7 && grid_view(post.next_piece) == scaled_canonical(i))
        &&& post.current_piece_x == SPAWN_X
        &&& post.current_piece_y == SPAWN_Y
        &&& post.step_time == pre.step_time
        &&& post.dropping == pre.dropping
    }
}

/// What one abstract command does in each play state.  During normal play,
/// moves and the rotation apply only where the collision rules allow them
/// and are silently ignored otherwise; soft drop sets or clears its flag.
/// During the clear animation only the soft-drop release is honoured.  After
/// game over, any key press restarts the session once the restart threshold
/// has accumulated.
pub open spec fn command_rel(pre: State, post: State, cmd: Command) -> bool {
    let b = grid_view(pre.cells);
    let p = grid_view(pre.current_piece);
    let x = pre.current_piece_x as int;
    let y = pre.current_piece_y as int;
    match pre.status {
        GameState::Playing => match cmd {
            Command::MoveLeft => if can_place_spec(b, p, x - 1, y) {
                post == (State { current_piece_x: (pre.current_piece_x - 1) as u32, ..pre })
            } else {
                post == pre
            },
            Command::MoveRight => if can_place_spec(b, p, x + 1, y) {
                post == (State { current_piece_x: (pre.current_piece_x + 1) as u32, ..pre })
            } else {
                post == pre
            },
            Command::RotateClockwise => if can_place_spec(b, rotated_spec(p), x, y) {
                &&& grid_view(post.current_piece) == rotated_spec(p)
                &&& post == (State { current_piece: post.current_piece, ..pre })
            } else {
                post == pre
            },
            Command::SoftDropPressed => post == (State { dropping: true, ..pre }),
            Command::SoftDropReleased => post == (State { dropping: false, ..pre }),
            Command::OtherKey => post == pre,
        },
        GameState::ClearingRows(_) => match cmd {
            Command::SoftDropReleased => post == (State { dropping: false, ..pre }),
            _ => post == pre,
        },
        GameState::GameOver => match cmd {
            Command::SoftDropReleased => post == pre,
            _ => if pre.step_time >= RESTART_THRESHOLD {
                is_initial(post)
            } else {
                post == pre
            },
        },
    }
}

/// Addition on `u32` that stops at the ceiling instead of wrapping.
fn sat_add(a: u32, b: u32) -> (r: u32)
    ensures
        r as int == sat_add_u32(a as int, b as int),
{
    if a > u32::MAX - b {
        u32::MAX
    } else {
        a + b
    }
}

impl State {
    /// Creates a fresh session: empty well, zeroed counters, two freshly
    /// drawn pieces, the active one at the spawn position, normal play.
    pub fn new() -> (s: State)
        ensures
            state_wf(s),
            is_initial(s),
    {
        let s = State {
            cells: empty_cells(),
            score: 0,
            lines: 0,
            level: 0,
            current_piece_x: SPAWN_X,
            current_piece_y: SPAWN_Y,
            current_piece: random_piece(),
            next_piece: random_piece(),
            step_time: 0,
            dropping: false,
            status: GameState::Playing,
        };
        proof {
            lemma_empty_board();
            lemma_spawn_in_well(grid_view(s.current_piece));
        }
        s
    }
}

/// Resolves a landing: counts the completed rows (still on the board), and
/// where there are any, awards the points, advances lines and possibly the
/// level, and starts the clear animation; the rows themselves stay until the
/// animation ends.  Then promotes the lookahead into play, draws a fresh
/// lookahead, and returns the anchor to the spawn position.
pub fn on_piece_landed(state: &mut State)
    requires
        state_wf(*old(state)),
    ensures
        state_wf(*final(state)),
        final(state).cells == old(state).cells,
        scoring_applied(*old(state), *final(state), count_full(grid_view(old(state).cells))),
        grid_view(final(state).current_piece) == grid_view(old(state).next_piece),
        exists|i: int| 0 <= i < 7 && grid_view(final(state).next_piece) == scaled_canonical(i),
        final(state).current_piece_x == SPAWN_X,
        final(state).current_piece_y == SPAWN_Y,
        final(state).step_time == old(state).step_time,
        final(state).dropping == old(state).dropping,
{
    let ghost rc = count_full(grid_view(old(state).cells));
    let rows_completed: u32 = rows_complete(state);
    proof {
        lemma_count_full_bounds(grid_view(state.cells));
    }
    if rows_completed > 0 {
        state.status = GameState::ClearingRows(CLEAR_TIMER_START);
        proof {
            assert(rows_completed as int * ((state.level as u32 + 1) as int) <= 22 * 65536)
                by (nonlinear_arith)
                requires
                    rows_completed as int <= 22,
                    1 <= (state.level as u32 + 1) as int <= 65536,
            ;
        }
        let gain: u32 = rows_completed * (state.level as u32 + 1) * POINTS_PER_ROW;
        state.score = sat_add(state.score, gain);
        if (state.lines as u32 + rows_completed) / LINES_PER_LEVEL > (state.lines as u32)
            / LINES_PER_LEVEL {
            if state.level < u16::MAX {
                state.level = state.level + 1;
            }
        }
        let new_lines: u32 = state.lines as u32 + rows_completed;
        state.lines = if new_lines > u16::MAX as u32 {
            u16::MAX
        } else {
            new_lines as u16
        };
    }
    state.current_piece = copy_grid(&state.next_piece);
    state.next_piece = random_piece();
    state.current_piece_y = SPAWN_Y;
    state.current_piece_x = SPAWN_X;
    proof {
        lemma_spawn_in_well(grid_view(state.current_piece));
    }
}

/// Performs one discrete piece step: the piece falls one row where it can;
/// where it has landed, either the game tops out (part of the piece above
/// the well) or the piece is written to the well and the landing resolves.
pub fn step_piece(state: &mut State)
    requires
        state_wf(*old(state)),
    ensures
        state_wf(*final(state)),
        step_rel(*old(state), *final(state)),
{
    let ghost pre = *old(state);
    let ghost p = grid_view(pre.current_piece);
    let ghost x0 = pre.current_piece_x as int;
    let ghost y0 = pre.current_piece_y as int;
    if piece_will_land(state) {
        if piece_will_lose(state) {
            state.status = GameState::GameOver;
            state.step_time = 0;
        } else {
            land_piece(state);
            on_piece_landed(state);
        }
    } else {
        proof {
            lemma_anchor_bounds(*state);
            assert forall|cy: int, cx: int|
                0 <= cy < 4 && 0 <= cx < 4 && p[cy][cx] > 0 implies {
                &&& 0 <= x0 - pivot_x_spec(p) + cx < 10
                &&& (y0 + 1) - pivot_y_spec(p) + cy < 22
            } by {
                assert(0 <= x0 - pivot_x_spec(p) + cx < 10);
                assert(!(x0 - pivot_x_spec(p) + cx >= 0 && (y0 + 1 - pivot_y_spec(p) + cy >= 22
                    || (0 <= y0 + 1 - pivot_y_spec(p) + cy
                    && x0 - pivot_x_spec(p) + cx < 10
                    && grid_view(pre.cells)[y0 + 1 - pivot_y_spec(p) + cy][x0 - pivot_x_spec(p)
                    + cx] > 0))));
            }
        }
        state.current_piece_y = state.current_piece_y + 1;
    }
}

/// Applies one abstract command to the session, honouring it exactly where
/// the current play state and the collision rules allow.
pub fn apply_command(state: &mut State, cmd: Command)
    requires
        state_wf(*old(state)),
    ensures
        state_wf(*final(state)),
        command_rel(*old(state), *final(state), cmd),
{
    let ghost pre = *old(state);
    let ghost b = grid_view(pre.cells);
    let ghost p = grid_view(pre.current_piece);
    let ghost x0 = pre.current_piece_x as int;
    let ghost y0 = pre.current_piece_y as int;
    match state.status {
        GameState::Playing => {
            match cmd {
                Command::MoveLeft => {
                    if can_move_left(state) {
                        proof {
                            lemma_pivot_cell(p);
                            assert(p[pivot_y_spec(p)][pivot_x_spec(p)] > 0);
                            assert(0 <= (x0 - 1) - pivot_x_spec(p) + pivot_x_spec(p));
                            lemma_can_place_in_well(b, p, x0 - 1, y0);
                        }
                        state.current_piece_x = state.current_piece_x - 1;
                    }
                },
                Command::MoveRight => {
                    if can_move_right(state) {
                        proof {
                            lemma_can_place_in_well(b, p, x0 + 1, y0);
                        }
                        state.current_piece_x = state.current_piece_x + 1;
                    }
                },
                Command::RotateClockwise => {
                    if can_rotate_cw(state) {
                        proof {
                            lemma_rotated_wf(p);
                            lemma_rotated_has_pivot(p);
                            lemma_can_place_in_well(b, rotated_spec(p), x0, y0);
                        }
                        state.current_piece = rotated_cw(&state.current_piece);
                    }
                },
                Command::SoftDropPressed => {
                    state.dropping = true;
                },
                Command::SoftDropReleased => {
                    state.dropping = false;
                },
                Command::OtherKey => {},
            }
        },
        GameState::ClearingRows(_) => {
            match cmd {
                Command::SoftDropReleased => {
                    state.dropping = false;
                },
                _ => {},
            }
        },
        GameState::GameOver => {
            match cmd {
                Command::SoftDropReleased => {},
                _ => {
                    if state.step_time >= RESTART_THRESHOLD {
                        *state = State::new();
                    }
                },
            }
        },
    }
}

/// Advances the session by one tick.  During play, step time accumulates by
/// the level's speed (tenfold under soft drop) and one discrete piece step
/// runs per full period accumulated.  During the clear animation the timer
/// counts down by its fixed per-tick amount, and on reaching zero the full
/// rows are removed, the well compacts and play resumes.  After game over,
/// step time accumulates towards the restart threshold.
pub fn tick(state: &mut State)
    requires
        state_wf(*old(state)),
    ensures
        state_wf(*final(state)),
        final(state).score >= old(state).score,
        final(state).lines >= old(state).lines,
        final(state).level >= old(state).level,
        old(state).status == GameState::GameOver ==> *final(state) == (State {
            step_time: sat_add_u32(old(state).step_time as int, GAME_OVER_STEP as int) as u32,
            ..*old(state)
        }),
        old(state).status matches GameState::ClearingRows(t) ==> (if t - CLEAR_TIMER_DECREMENT
            <= 0 {
            &&& grid_view(final(state).cells) == compact_spec(grid_view(old(state).cells))
            &&& *final(state) == (State {
                cells: final(state).cells,
                status: GameState::Playing,
                ..*old(state)
            })
        } else {
            *final(state) == (State {
                status: GameState::ClearingRows((t - CLEAR_TIMER_DECREMENT) as i32),
                ..*old(state)
            })
        }),
        old(state).status == GameState::Playing ==> {
            let acc = sat_add_u32(
                old(state).step_time as int,
                step_tick_spec(old(state).level as int, old(state).dropping),
            );
            &&& final(state).step_time < STEP_PERIOD
            &&& (acc < STEP_PERIOD as int ==> *final(state) == (State {
                step_time: acc as u32,
                ..*old(state)
            }))
            &&& ((STEP_PERIOD as int <= acc < 2 * STEP_PERIOD as int && !will_land_spec(
                grid_view(old(state).cells),
                grid_view(old(state).current_piece),
                old(state).current_piece_x as int,
                old(state).current_piece_y as int,
            )) ==> *final(state) == (State {
                step_time: (acc - STEP_PERIOD as int) as u32,
                current_piece_y: (old(state).current_piece_y + 1) as u32,
                ..*old(state)
            }))
        },
{
    let ghost pre = *old(state);
    match state.status {
        GameState::Playing => {
            let mut step_tick: u32 = BASE_STEP + (state.level as u32) * STEP_PER_LEVEL;
            if state.dropping {
                step_tick = step_tick * SOFT_DROP_FACTOR;
            }
            proof {
                assert(step_tick as int == step_tick_spec(pre.level as int, pre.dropping));
            }
            state.step_time = sat_add(state.step_time, step_tick);
            let ghost acc = sat_add_u32(
                pre.step_time as int,
                step_tick_spec(pre.level as int, pre.dropping),
            );
            let ghost no_land = !will_land_spec(
                grid_view(pre.cells),
                grid_view(pre.current_piece),
                pre.current_piece_x as int,
                pre.current_piece_y as int,
            );
            while state.step_time >= STEP_PERIOD
                invariant
                    state_wf(*state),
                    state.score >= pre.score,
                    state.lines >= pre.lines,
                    state.level >= pre.level,
                    acc == sat_add_u32(
                        pre.step_time as int,
                        step_tick_spec(pre.level as int, pre.dropping),
                    ),
                    no_land == !will_land_spec(
                        grid_view(pre.cells),
                        grid_view(pre.current_piece),
                        pre.current_piece_x as int,
                        pre.current_piece_y as int,
                    ),
                    acc < STEP_PERIOD as int ==> *state == (State {
                        step_time: acc as u32,
                        ..pre
                    }),
                    (STEP_PERIOD as int <= acc < 2 * STEP_PERIOD as int && no_land) ==> (*state
                        == (State { step_time: acc as u32, ..pre }) || *state == (State {
                        step_time: (acc - STEP_PERIOD as int) as u32,
                        current_piece_y: (pre.current_piece_y + 1) as u32,
                        ..pre
                    })),
                decreases state.step_time,
            {
                state.step_time = state.step_time - STEP_PERIOD;
                let ghost before = *state;
                step_piece(state);
                proof {
                    let lb = grid_view(before.cells);
                    let lp = grid_view(before.current_piece);
                    let lx = before.current_piece_x as int;
                    let ly = before.current_piece_y as int;
                    if will_land_spec(lb, lp, lx, ly) && !will_lose_spec(lp, lx, ly) {
                        lemma_count_full_bounds(land_spec(lb, lp, lx, ly));
                    }
                    assert(state.step_time <= before.step_time);
                    assert(state.score >= before.score);
                    assert(state.lines >= before.lines);
                    assert(state.level >= before.level);
                }
            }
        },
        GameState::ClearingRows(timer) => {
            let t2: i32 = timer - CLEAR_TIMER_DECREMENT;
            if t2 <= 0 {
                state.status = GameState::Playing;
                let _removed: u32 = clear_completed_rows(state);
            } else {
                state.status = GameState::ClearingRows(t2);
            }
        },
        GameState::GameOver => {
            state.step_time = sat_add(state.step_time, GAME_OVER_STEP);
        },
    }
}

} // verus!
