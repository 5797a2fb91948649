use vstd::prelude::*;

use crate::generator::{drawn, PieceGenerator};
use crate::geometry::{
    lemma_covered_cells_distinct, offset_pos, spec_base_shape, spec_base_width,
    spec_covered_cells, spec_wall_kicks, GridPos, Offset, PieceKind, Spin,
};
use crate::grid::{
    cell_index, down, lemma_drop_rests, lemma_rotation_target_free, spec_left_kicks, CellState, GridState,
};
use crate::progress::{
    saturate_u32, saturate_u64, spec_level, spec_line_points, spec_time_per_row, Score, Stopwatch,
    XP,
};
use crate::timer::{fresh_timer, ticked, Timer, TimerMode};
use crate::{GRID_HEIGHT, GRID_VISIBLE_HEIGHT, GRID_WIDTH};

verus! {

/// How long a piece may lie on the stack before it locks, in nanoseconds.
pub const LOCK_DELAY: u64 = 500_000_000;

/// How long the game pauses when lines are cleared, in nanoseconds.
pub const CLEAR_DELAY: u64 = 400_000_000;

/// Soft drop speeds time up by at least this factor.
pub const SOFT_DROP_SPEEDUP: u64 = 3;

/// Under soft drop a row takes at most this long, in nanoseconds.
pub const SOFT_DROP_MAX_DELAY: u64 = 50_000_000;

/// What the player asked for, already decoded from keys or touches.
#[derive(Clone, Copy, Debug, PartialEq, Eq, Structural)]
pub enum PlayerInput {
    MoveLeft,
    MoveRight,
    HardDrop,
    RotateRight,
    RotateLeft,
}

/// The timers of the falling piece: gravity, and the grace period on the ground.
#[derive(Clone, Copy, Debug)]
pub struct Fall {
    pub down_timer: Timer,
    pub lock_timer: Timer,
}

/// The piece under the player's control.
#[derive(Clone, Copy, Debug)]
pub struct FallingPiece {
    pub kind: PieceKind,
    pub pos: GridPos,
    pub spin: Spin,
    pub fall: Fall,
}

/// The pause while completed rows are shown before they are removed.
#[derive(Debug)]
pub struct PausedForClear {
    pub timer: Timer,
    pub rows_to_delete: Vec<u8>,
}

/// The whole state of a game: the board, the falling piece, the bag, the
/// counters and the line-clear pause.
pub struct GameRules {
    pub grid: GridState,
    pub piece: Option<FallingPiece>,
    pub generator: PieceGenerator,
    pub score: Score,
    pub xp: XP,
    pub stopwatch: Stopwatch,
    pub paused: Option<PausedForClear>,
    /// Set when a new piece had no room to appear; the game is then over.
    pub topped_out: bool,
}

/// The lowest row offset of a shape of four cells.
pub open spec fn lowest_y(s: Seq<Offset>) -> int {
    let a = if s[0].1 <= s[1].1 { s[0].1 } else { s[1].1 };
    let b = if s[2].1 <= s[3].1 { s[2].1 } else { s[3].1 };
    if a <= b { a } else { b }
}

/// Where a new piece of `kind` appears: centred over the middle columns, its
/// lowest cells just above the visible field.
pub open spec fn spawn_pos(kind: PieceKind) -> GridPos {
    GridPos {
        x: if spec_base_width(kind) % 2 == 0 { 5 } else { 4 },
        y: (GRID_VISIBLE_HEIGHT - lowest_y(spec_base_shape(kind))) as u8,
    }
}

/// A new piece of `kind`: at its spawn position, unturned, with a down timer
/// of the row time at the level of `xp` and a fresh lock timer.
pub open spec fn new_piece(kind: PieceKind, xp: XP) -> FallingPiece {
    FallingPiece {
        kind,
        pos: spawn_pos(kind),
        spin: Spin(0),
        fall: Fall {
            down_timer: fresh_timer(spec_time_per_row(spec_level(xp.0 as int)) as u64, TimerMode::Repeating),
            lock_timer: fresh_timer(LOCK_DELAY, TimerMode::Once),
        },
    }
}

/// A falling piece is turned less than a full turn, sits on free cells, and
/// has a repeating down timer and a one-shot lock timer of `LOCK_DELAY`.
pub open spec fn piece_ok(grid: GridState, p: FallingPiece) -> bool {
    &&& p.spin.0 < 4
    &&& !grid.spec_conflicts(p.kind, p.pos, p.spin.0 as int)
    &&& p.fall.down_timer.wf()
    &&& p.fall.down_timer.mode == TimerMode::Repeating
    &&& p.fall.lock_timer.wf()
    &&& p.fall.lock_timer.mode == TimerMode::Once
    &&& p.fall.lock_timer.duration == LOCK_DELAY
}

/// The board with the cells of a piece of `kind` at `pos` filled.
pub open spec fn locked_into(after: GridState, before: GridState, kind: PieceKind, pos: GridPos, spin: int) -> bool {
    let c = spec_covered_cells(kind, pos, spin);
    forall|x: int, y: int|
        0 <= x < GRID_WIDTH && 0 <= y < GRID_HEIGHT ==> #[trigger] after.cell(x, y) == if exists|i: int|
            0 <= i < 4 && c[i].x == x && c[i].y == y {
            CellState::Full(kind)
        } else {
            before.cell(x, y)
        }
}

impl GameRules {
    pub open spec fn wf(&self) -> bool {
        &&& self.grid.wf()
        &&& self.generator.wf()
        &&& self.piece matches Some(p) ==> piece_ok(self.grid, p)
        &&& self.paused matches Some(c) ==> {
            &&& c.timer.wf()
            &&& c.timer.mode == TimerMode::Once
            &&& c.timer.duration == CLEAR_DELAY
            &&& self.piece is None
        }
    }

    /// The bag, the stopwatch and the game-over flag are as in `before`.
    pub open spec fn same_besides_board(&self, before: &GameRules) -> bool {
        &&& self.generator == before.generator
        &&& self.stopwatch == before.stopwatch
        &&& self.topped_out == before.topped_out
    }

    /// With full visible rows on the board: a pause over them, with the score
    /// and the lines counted from `before`; without: no pause, and the counters
    /// as in `before`.
    pub open spec fn clears_counted(&self, before: &GameRules) -> bool {
        let rows = self.grid.full_rows(GRID_VISIBLE_HEIGHT as int);
        let n = rows.len();
        if n > 0 {
            &&& self.paused matches Some(c) && c.rows_to_delete@ == rows && c.timer == fresh_timer(
                CLEAR_DELAY,
                TimerMode::Once,
            )
            &&& self.score.0 == saturate_u64(
                before.score.0 + spec_level(before.xp.0 as int) * spec_line_points(n as int),
            )
            &&& self.xp.0 == saturate_u32(before.xp.0 + n)
        } else {
            &&& self.paused is None
            &&& self.score == before.score
            &&& self.xp == before.xp
        }
    }

    /// Looks for full rows after a change of the board, and pauses to clear
    /// them when there are any.
    pub fn register_completed_lines(&mut self)
        requires
            old(self).wf(),
            old(self).piece is None,
            old(self).paused is None,
        ensures
            final(self).wf(),
            final(self).grid@ == old(self).grid@,
            final(self).piece is None,
            final(self).same_besides_board(old(self)),
            final(self).clears_counted(old(self)),
    {
        let rows_to_delete = self.grid.completed_rows();
        if rows_to_delete.len() > 0 {
            proof {
                lemma_full_rows_len(&self.grid, GRID_VISIBLE_HEIGHT as int);
            }
            let lines = rows_to_delete.len() as u8;
            let level = self.xp.level();
            self.score.add_cleared(lines, level);
            self.xp.add_lines(lines);
            self.paused = Some(
                PausedForClear { timer: Timer::new(CLEAR_DELAY, TimerMode::Once), rows_to_delete },
            );
        }
    }

    /// Commits the cells of the falling piece to the board, removes the piece,
    /// and looks for full rows.
    pub fn lock_piece(&mut self)
        requires
            old(self).wf(),
            old(self).piece is Some,
        ensures
            final(self).wf(),
            final(self).piece is None,
            ({
                let p = old(self).piece.unwrap();
                locked_into(final(self).grid, old(self).grid, p.kind, p.pos, p.spin.0 as int)
            }),
            final(self).same_besides_board(old(self)),
            final(self).clears_counted(old(self)),
    {
        let p = match self.piece {
            Some(p) => p,
            None => return,
        };
        let cells = p.kind.piece_covered_cells(p.pos, p.spin);
        let ghost c = cells@;
        let ghost g0 = self.grid;
        assert(self.paused is None);
        proof {
            lemma_covered_cells_distinct(p.kind, p.pos, p.spin.0 as int);
            assert forall|j: int| 0 <= j < 4 implies self.grid.spec_is_empty(#[trigger] c[j]) by {}
        }
        let mut i: usize = 0;
        while i < 4
            invariant
                i <= 4,
                self.grid.wf(),
                self.generator == old(self).generator,
                self.generator.wf(),
                self.piece == old(self).piece,
                self.paused is None,
                self.score == old(self).score,
                self.xp == old(self).xp,
                self.stopwatch == old(self).stopwatch,
                self.topped_out == old(self).topped_out,
                g0 == old(self).grid,
                c == cells@,
                c == spec_covered_cells(p.kind, p.pos, p.spin.0 as int),
                c.len() == 4,
                c.no_duplicates(),
                forall|j: int| i <= j < 4 ==> self.grid.spec_is_empty(#[trigger] c[j]),
                forall|x: int, y: int|
                    0 <= x < GRID_WIDTH && 0 <= y < GRID_HEIGHT ==> #[trigger] self.grid.cell(x, y)
                        == if exists|j: int| 0 <= j < i && c[j].x == x && c[j].y == y {
                        CellState::Full(p.kind)
                    } else {
                        g0.cell(x, y)
                    },
            decreases 4 - i,
        {
            let ghost mid = self.grid;
            self.grid.spawn_cell(&cells[i], p.kind);
            proof {
                let ci = c[i as int];
                assert forall|j: int| i + 1 <= j < 4 implies self.grid.spec_is_empty(#[trigger] c[j]) by {
                    assert(c[j] != ci);
                    assert(mid.spec_is_empty(c[j]));
                }
                assert forall|x: int, y: int|
                    0 <= x < GRID_WIDTH && 0 <= y < GRID_HEIGHT implies #[trigger] self.grid.cell(x, y)
                        == if exists|j: int| 0 <= j < i + 1 && c[j].x == x && c[j].y == y {
                        CellState::Full(p.kind)
                    } else {
                        g0.cell(x, y)
                    } by {
                    assert(mid.cell(x, y) == mid@[cell_index(x, y)]);
                    if x == ci.x && y == ci.y {
                        assert(c[i as int].x == x && c[i as int].y == y);
                    } else {
                        assert(self.grid.cell(x, y) == mid.cell(x, y));
                    }
                }
            }
            i += 1;
        }
        let ghost g1 = self.grid;
        assert(locked_into(g1, g0, p.kind, p.pos, p.spin.0 as int));
        self.piece = None;
        self.register_completed_lines();
        assert forall|x: int, y: int|
            0 <= x < GRID_WIDTH && 0 <= y < GRID_HEIGHT implies #[trigger] self.grid.cell(x, y) == g1.cell(
            x,
            y,
        ) by {}
    }
}

/// Where a new piece of `kind` appears.
pub fn spawn_position(kind: PieceKind) -> (r: GridPos)
    ensures
        r == spawn_pos(kind),
{
    let shape = kind.base_shape();
    let mut lowest: i8 = shape[0][1];
    if shape[1][1] < lowest {
        lowest = shape[1][1];
    }
    let mut low2: i8 = shape[2][1];
    if shape[3][1] < low2 {
        low2 = shape[3][1];
    }
    if low2 < lowest {
        lowest = low2;
    }
    let x: u8 = if kind.base_width() % 2 == 0 { 5 } else { 4 };
    let y: u8 = GRID_VISIBLE_HEIGHT.wrapping_add_signed(-lowest);
    GridPos { x, y }
}

impl GameRules {
    /// Brings in a piece of `kind` at its spawn position, unturned, with fresh
    /// timers, when no piece is falling. When that placement is taken the game
    /// is over instead. Tells whether a piece appeared.
    pub fn spawn_piece(&mut self, kind: PieceKind) -> (r: bool)
        requires
            old(self).wf(),
            old(self).paused is None,
        ensures
            final(self).wf(),
            final(self).grid@ == old(self).grid@,
            final(self).generator == old(self).generator,
            final(self).score == old(self).score,
            final(self).xp == old(self).xp,
            final(self).stopwatch == old(self).stopwatch,
            final(self).paused is None,
            old(self).piece is Some ==> !r && final(self).piece == old(self).piece
                && final(self).topped_out == old(self).topped_out,
            old(self).piece is None ==> {
                let fits = !old(self).grid.spec_conflicts(kind, spawn_pos(kind), 0);
                &&& r == fits
                &&& fits ==> final(self).topped_out == old(self).topped_out && final(self).piece == Some(
                    new_piece(kind, old(self).xp),
                )
                &&& !fits ==> final(self).topped_out && final(self).piece is None
            },
    {
        if self.piece.is_some() {
            return false;
        }
        let pos = spawn_position(kind);
        if self.grid.conflicts(kind, pos, Spin(0)) {
            self.topped_out = true;
            return false;
        }
        let down_timer = Timer::new(self.xp.time_per_row(), TimerMode::Repeating);
        let lock_timer = Timer::new(LOCK_DELAY, TimerMode::Once);
        self.piece = Some(
            FallingPiece { kind, pos, spin: Spin(0), fall: Fall { down_timer, lock_timer } },
        );
        true
    }

    /// Draws the next kind from the bag and brings it in, when no piece is
    /// falling.
    pub fn piece_spawn(&mut self)
        requires
            old(self).wf(),
            old(self).paused is None,
        ensures
            final(self).wf(),
            spawn_stepped(*old(self), *final(self)),
    {
        proof {
            reveal(spawn_stepped);
        }
        if self.piece.is_some() {
            return;
        }
        let kind = self.generator.next();
        self.spawn_piece(kind);
    }
}

/// The piece moved by `delta` when that placement is free, else as it was.
pub open spec fn moved_piece(grid: GridState, p: FallingPiece, delta: Offset) -> FallingPiece {
    let q = offset_pos(p.pos, delta);
    if !grid.spec_conflicts(p.kind, q, p.spin.0 as int) {
        FallingPiece { pos: q, ..p }
    } else {
        p
    }
}

/// The piece turned to `spin`, in place or kicked by the first free offset of
/// `kicks`, else as it was.
pub open spec fn turned_piece(grid: GridState, p: FallingPiece, spin: int, kicks: Seq<Offset>) -> FallingPiece {
    match grid.rotation_target(p.kind, p.pos, spin, kicks) {
        Some(q) => FallingPiece { pos: q, spin: Spin(spin as u8), ..p },
        None => p,
    }
}

impl GameRules {
    /// Applies one input to the falling piece: a move or a turn when it fits,
    /// or a hard drop, which locks the piece where it comes to rest.
    pub fn apply_input(&mut self, input: PlayerInput)
        requires
            old(self).wf(),
        ensures
            final(self).wf(),
            input_applied(*old(self), *final(self), input),
    {
        proof {
            reveal(input_applied);
        }
        let mut p = match self.piece {
            Some(p) => p,
            None => return,
        };
        let ghost p0 = p;
        match input {
            PlayerInput::MoveLeft => {
                self.grid.try_move([-1, 0], p.kind, &mut p.pos, p.spin);
                self.piece = Some(p);
            },
            PlayerInput::MoveRight => {
                self.grid.try_move([1, 0], p.kind, &mut p.pos, p.spin);
                self.piece = Some(p);
            },
            PlayerInput::RotateRight => {
                self.grid.try_rotate_right(p.kind, &mut p.pos, &mut p.spin);
                proof {
                    lemma_rotation_target_free(
                        &self.grid,
                        p.kind,
                        p0.pos,
                        (p0.spin.0 + 1) % 4,
                        spec_wall_kicks(p.kind, (p0.spin.0 % 4) as int),
                    );
                }
                self.piece = Some(p);
            },
            PlayerInput::RotateLeft => {
                self.grid.try_rotate_left(p.kind, &mut p.pos, &mut p.spin);
                proof {
                    lemma_rotation_target_free(
                        &self.grid,
                        p.kind,
                        p0.pos,
                        (p0.spin.0 + 3) % 4,
                        spec_left_kicks(p.kind, (p0.spin.0 % 4) as int),
                    );
                }
                self.piece = Some(p);
            },
            PlayerInput::HardDrop => {
                p.pos = self.grid.drop_position(p.kind, p.pos, p.spin);
                proof {
                    lemma_drop_rests(&self.grid, p.kind, p0.pos, p.spin.0 as int);
                }
                self.piece = Some(p);
                self.lock_piece();
            },
        }
    }
}

/// The factor by which soft drop speeds up gravity for a row time of
/// `duration`: 3, or the least factor that brings a row down to at most
/// `SOFT_DROP_MAX_DELAY` when that is more.
pub open spec fn soft_drop_factor(duration: u64) -> int {
    let f: int = if duration % SOFT_DROP_MAX_DELAY == 0 {
        (duration / SOFT_DROP_MAX_DELAY) as int
    } else {
        duration / SOFT_DROP_MAX_DELAY + 1
    };
    if f > SOFT_DROP_SPEEDUP { f } else { SOFT_DROP_SPEEDUP as int }
}

/// The elapsed time as gravity sees it (the product saturates).
pub open spec fn gravity_delta(duration: u64, delta: u64, soft_drop: bool) -> u64 {
    if soft_drop {
        saturate_u64(delta * soft_drop_factor(duration)) as u64
    } else {
        delta
    }
}

impl GameRules {
    /// Applies the inputs in order; those that come after a hard drop find no
    /// piece and do nothing.
    pub fn piece_move(&mut self, inputs: &Vec<PlayerInput>)
        requires
            old(self).wf(),
        ensures
            final(self).wf(),
            inputs_applied(*old(self), *final(self), inputs@),
    {
        let ghost states: Seq<GameRules> = seq![*self];
        let mut i: usize = 0;
        while i < inputs.len()
            invariant
                self.wf(),
                i <= inputs@.len(),
                states.len() == i + 1,
                states[0] == *old(self),
                states.last() == *self,
                forall|j: int| 0 <= j < i ==> input_applied(#[trigger] states[j], states[j + 1], inputs@[j]),
            decreases inputs.len() - i,
        {
            self.apply_input(inputs[i]);
            proof {
                states = states.push(*self);
            }
            i += 1;
        }
        assert(states.len() == inputs@.len() + 1);
    }

    /// While the piece rests on the stack its lock timer runs, and the piece
    /// locks when it expires; a piece that can fall has its lock timer reset.
    pub fn piece_lock(&mut self, delta: u64)
        requires
            old(self).wf(),
        ensures
            final(self).wf(),
            lock_stepped(*old(self), *final(self), delta),
    {
        proof {
            reveal(lock_stepped);
        }
        let mut p = match self.piece {
            Some(p) => p,
            None => return,
        };
        let mut probe = p.pos;
        if self.grid.try_move([0, -1], p.kind, &mut probe, p.spin) {
            assert(down(p.pos) == offset_pos(p.pos, (0i8 as int, -1i8 as int)));
            p.fall.lock_timer.reset();
            self.piece = Some(p);
            return;
        }
        assert(down(p.pos) == offset_pos(p.pos, (0i8 as int, -1i8 as int)));
        p.fall.lock_timer.tick(delta);
        self.piece = Some(p);
        if p.fall.lock_timer.finished {
            self.lock_piece();
        }
    }
}

impl GameRules {
    /// Runs gravity for `delta` nanoseconds, sped up under soft drop: the piece
    /// tries to move one row down each time its down timer fires.
    pub fn piece_fall(&mut self, delta: u64, soft_drop: bool)
        requires
            old(self).wf(),
        ensures
            final(self).wf(),
            fall_stepped(*old(self), *final(self), delta, soft_drop),
    {
        proof {
            reveal(fall_stepped);
        }
        let mut p = match self.piece {
            Some(p) => p,
            None => return,
        };
        let d = if soft_drop {
            let duration = p.fall.down_timer.duration;
            let ratio = if duration % SOFT_DROP_MAX_DELAY == 0 {
                duration / SOFT_DROP_MAX_DELAY
            } else {
                duration / SOFT_DROP_MAX_DELAY + 1
            };
            let factor = if ratio > SOFT_DROP_SPEEDUP { ratio } else { SOFT_DROP_SPEEDUP };
            match delta.checked_mul(factor) {
                Some(v) => v,
                None => u64::MAX,
            }
        } else {
            delta
        };
        p.fall.down_timer.tick(d);
        let ghost p0 = p;
        p.pos = self.grid.fall_rows(p.kind, p.pos, p.spin, p.fall.down_timer.times_finished_this_tick);
        proof {
            lemma_fall_stays_free(&self.grid, p.kind, p0.pos, p.spin.0 as int, p.fall.down_timer.times_finished_this_tick as nat);
        }
        self.piece = Some(p);
    }

    /// Runs the clear pause for `delta` nanoseconds; when it ends, the rows
    /// are removed, the pause is lifted and the board is looked at again.
    pub fn resume_after_clear(&mut self, delta: u64)
        requires
            old(self).wf(),
        ensures
            final(self).wf(),
            pause_stepped(*old(self), *final(self), delta),
    {
        proof {
            reveal(pause_stepped);
        }
        let mut taken: Option<PausedForClear> = None;
        std::mem::swap(&mut self.paused, &mut taken);
        let mut c = match taken {
            Some(c) => c,
            None => return,
        };
        c.timer.tick(delta);
        if !c.timer.finished {
            self.paused = Some(c);
            return;
        }
        let ghost g0 = self.grid;
        self.grid.remove_rows(&c.rows_to_delete);
        let ghost g1 = self.grid;
        assert(g0 == old(self).grid);
        assert(g1.compacted(&g0, c.rows_to_delete@));
        self.register_completed_lines();
        assert forall|x: int, y: int|
            0 <= x < GRID_WIDTH && 0 <= y < GRID_HEIGHT implies #[trigger] self.grid.cell(x, y) == g1.cell(
            x,
            y,
        ) by {}
        assert(self.grid.compacted(&old(self).grid, c.rows_to_delete@));
    }

    /// One step of the game: `delta` nanoseconds elapsed, the inputs that came
    /// in meanwhile, and whether soft drop is held. While the clear pause runs
    /// only its timer advances; else a piece is brought in when none falls,
    /// the inputs are applied, and the lock and gravity timers run.
    pub fn tick(&mut self, delta: u64, inputs: &Vec<PlayerInput>, soft_drop: bool)
        requires
            old(self).wf(),
        ensures
            final(self).wf(),
            game_ticked(*old(self), *final(self), delta, inputs@, soft_drop),
    {
        self.stopwatch.tick(delta);
        let ghost a = *self;
        if self.paused.is_some() {
            self.resume_after_clear(delta);
        }
        let ghost b = *self;
        if self.paused.is_none() && !self.topped_out {
            self.piece_spawn();
            let ghost c = *self;
            self.piece_move(inputs);
            let ghost d = *self;
            self.piece_lock(delta);
            let ghost e = *self;
            self.piece_fall(delta, soft_drop);
            assert(spawn_stepped(b, c) && inputs_applied(c, d, inputs@) && lock_stepped(d, e, delta)
                && fall_stepped(e, *self, delta, soft_drop));
        }
        assert(a == stopwatch_ticked(*old(self), delta));
        assert(pause_stage(a, b, delta));
        assert(play_stage(b, *self, delta, inputs@, soft_drop));
    }
}

/// What bringing in a piece does: nothing while one falls; else a kind is
/// drawn and appears at its spawn position if it fits, and the game is over
/// if it does not.
#[verifier::opaque]
pub open spec fn spawn_stepped(before: GameRules, after: GameRules) -> bool {
    &&& after.grid@ == before.grid@
    &&& after.score == before.score
    &&& after.xp == before.xp
    &&& after.paused is None
    &&& before.piece is Some ==> {
        &&& after.piece == before.piece
        &&& after.generator == before.generator
        &&& after.topped_out == before.topped_out
    }
    &&& before.piece is None ==> exists|k: PieceKind|
        #[trigger] drawn(before.generator@, after.generator@, k) && {
            let fits = !before.grid.spec_conflicts(k, spawn_pos(k), 0);
            &&& (after.piece is Some <==> fits)
            &&& fits ==> after.piece == Some(new_piece(k, before.xp))
            &&& after.topped_out == (before.topped_out || !fits)
        }
}

/// The game with `delta` more nanoseconds on its stopwatch.
pub open spec fn stopwatch_ticked(g: GameRules, delta: u64) -> GameRules {
    GameRules {
        stopwatch: Stopwatch { since_begining: saturate_u64(g.stopwatch.since_begining + delta) as u64 },
        ..g
    }
}

/// The clear pause advances when it runs; else nothing changes.
pub open spec fn pause_stage(a: GameRules, b: GameRules, delta: u64) -> bool {
    if a.paused is Some {
        pause_stepped(a, b, delta)
    } else {
        b == a
    }
}

/// Unless paused or over: a piece is brought in when none falls, the inputs
/// are applied, and the lock and gravity timers run; else nothing changes.
pub open spec fn play_stage(
    b: GameRules,
    after: GameRules,
    delta: u64,
    inputs: Seq<PlayerInput>,
    soft_drop: bool,
) -> bool {
    if b.paused is None && !b.topped_out {
        exists|c: GameRules, d: GameRules, e: GameRules|
            #![trigger spawn_stepped(b, c), inputs_applied(c, d, inputs), lock_stepped(d, e, delta)]
            spawn_stepped(b, c) && inputs_applied(c, d, inputs) && lock_stepped(d, e, delta)
                && fall_stepped(e, after, delta, soft_drop)
    } else {
        after == b
    }
}

/// One step of the game: the stopwatch runs, then the pause stage, then the
/// play stage.
pub open spec fn game_ticked(
    before: GameRules,
    after: GameRules,
    delta: u64,
    inputs: Seq<PlayerInput>,
    soft_drop: bool,
) -> bool {
    exists|b: GameRules|
        #[trigger] pause_stage(stopwatch_ticked(before, delta), b, delta) && play_stage(
            b,
            after,
            delta,
            inputs,
            soft_drop,
        )
}

/// While a clear pause runs and does not end, a step of the game leaves the
/// board, the piece, the bag and the counters as they were.
pub proof fn lemma_pause_freezes_board(
    before: GameRules,
    after: GameRules,
    delta: u64,
    inputs: Seq<PlayerInput>,
    soft_drop: bool,
)
    requires
        game_ticked(before, after, delta, inputs, soft_drop),
        before.paused matches Some(c) && !ticked(c.timer, delta).finished,
    ensures
        after.grid@ == before.grid@,
        after.piece == before.piece,
        after.generator == before.generator,
        after.score == before.score,
        after.xp == before.xp,
        after.paused is Some,
{
    reveal(pause_stepped);
    let a = stopwatch_ticked(before, delta);
    let b = choose|b: GameRules|
        #[trigger] pause_stage(a, b, delta) && play_stage(b, after, delta, inputs, soft_drop);
    assert(b.paused is Some);
}

/// The inputs applied one after the other, through some states between.
pub open spec fn inputs_applied(before: GameRules, after: GameRules, inputs: Seq<PlayerInput>) -> bool {
    exists|states: Seq<GameRules>|
        #![trigger states.len()]
        states.len() == inputs.len() + 1 && states[0] == before && states.last() == after && forall|
            j: int,
        |
            0 <= j < inputs.len() ==> input_applied(#[trigger] states[j], states[j + 1], inputs[j])
}

/// What one input does to the game.
#[verifier::opaque]
pub open spec fn input_applied(before: GameRules, after: GameRules, input: PlayerInput) -> bool {
    &&& after.same_besides_board(&before)
    &&& match before.piece {
        None => {
            &&& after.piece is None
            &&& after.grid@ == before.grid@
            &&& after.paused == before.paused
            &&& after.score == before.score
            &&& after.xp == before.xp
        },
        Some(p) => {
            let g = before.grid;
            if input == PlayerInput::HardDrop {
                &&& after.piece is None
                &&& locked_into(
                    after.grid,
                    g,
                    p.kind,
                    g.spec_drop(p.kind, p.pos, p.spin.0 as int),
                    p.spin.0 as int,
                )
                &&& after.clears_counted(&before)
            } else {
                &&& after.grid@ == g@
                &&& after.paused == before.paused
                &&& after.score == before.score
                &&& after.xp == before.xp
                &&& after.piece == Some(
                    match input {
                        PlayerInput::MoveLeft => moved_piece(g, p, (-1, 0)),
                        PlayerInput::MoveRight => moved_piece(g, p, (1, 0)),
                        PlayerInput::RotateRight => turned_piece(
                            g,
                            p,
                            (p.spin.0 + 1) % 4,
                            spec_wall_kicks(p.kind, (p.spin.0 % 4) as int),
                        ),
                        _ => turned_piece(
                            g,
                            p,
                            (p.spin.0 + 3) % 4,
                            spec_left_kicks(p.kind, (p.spin.0 % 4) as int),
                        ),
                    },
                )
            }
        }
    }
}

/// What `delta` nanoseconds do to the lock timer, and the lock it may bring.
#[verifier::opaque]
pub open spec fn lock_stepped(before: GameRules, after: GameRules, delta: u64) -> bool {
    &&& after.same_besides_board(&before)
    &&& match before.piece {
        None => {
            &&& after.piece is None
            &&& after.grid@ == before.grid@
            &&& after.paused == before.paused
            &&& after.score == before.score
            &&& after.xp == before.xp
        },
        Some(p) => {
            let g = before.grid;
            let t = ticked(p.fall.lock_timer, delta);
            if !g.spec_conflicts(p.kind, down(p.pos), p.spin.0 as int) {
                &&& after.grid@ == g@
                &&& after.paused == before.paused
                &&& after.score == before.score
                &&& after.xp == before.xp
                &&& after.piece == Some(
                    FallingPiece {
                        fall: Fall {
                            lock_timer: fresh_timer(LOCK_DELAY, TimerMode::Once),
                            ..p.fall
                        },
                        ..p
                    },
                )
            } else if t.finished {
                &&& after.piece is None
                &&& locked_into(after.grid, g, p.kind, p.pos, p.spin.0 as int)
                &&& after.clears_counted(&before)
            } else {
                &&& after.grid@ == g@
                &&& after.paused == before.paused
                &&& after.score == before.score
                &&& after.xp == before.xp
                &&& after.piece == Some(
                    FallingPiece { fall: Fall { lock_timer: t, ..p.fall }, ..p },
                )
            }
        }
    }
}

/// What `delta` nanoseconds of gravity do to the piece.
#[verifier::opaque]
pub open spec fn fall_stepped(before: GameRules, after: GameRules, delta: u64, soft_drop: bool) -> bool {
    &&& after.same_besides_board(&before)
    &&& after.grid@ == before.grid@
    &&& after.paused == before.paused
    &&& after.score == before.score
    &&& after.xp == before.xp
    &&& match before.piece {
        None => after.piece is None,
        Some(p) => {
            let t = ticked(
                p.fall.down_timer,
                gravity_delta(p.fall.down_timer.duration, delta, soft_drop),
            );
            after.piece == Some(
                FallingPiece {
                    pos: before.grid.spec_fall(
                        p.kind,
                        p.pos,
                        p.spin.0 as int,
                        t.times_finished_this_tick as nat,
                    ),
                    fall: Fall { down_timer: t, ..p.fall },
                    ..p
                },
            )
        }
    }
}

/// What `delta` nanoseconds do to the clear pause, and the removal of rows
/// when it ends.
#[verifier::opaque]
pub open spec fn pause_stepped(before: GameRules, after: GameRules, delta: u64) -> bool {
    &&& after.same_besides_board(&before)
    &&& after.piece == before.piece
    &&& match before.paused {
        None => {
            &&& after.grid@ == before.grid@
            &&& after.paused is None
            &&& after.score == before.score
            &&& after.xp == before.xp
        },
        Some(c) => {
            let t = ticked(c.timer, delta);
            if t.finished {
                &&& after.grid.compacted(&before.grid, c.rows_to_delete@)
                &&& after.clears_counted(&before)
            } else {
                &&& after.grid@ == before.grid@
                &&& after.score == before.score
                &&& after.xp == before.xp
                &&& after.paused matches Some(c2) && c2.timer == t
                    && c2.rows_to_delete@ == c.rows_to_delete@
            }
        }
    }
}

proof fn lemma_fall_stays_free(grid: &GridState, kind: PieceKind, pos: GridPos, spin: int, n: nat)
    requires
        !grid.spec_conflicts(kind, pos, spin),
    ensures
        !grid.spec_conflicts(kind, grid.spec_fall(kind, pos, spin, n), spin),
    decreases n,
{
    if n > 0 && !grid.spec_conflicts(kind, down(pos), spin) {
        lemma_fall_stays_free(grid, kind, down(pos), spin, (n - 1) as nat);
    }
}

proof fn lemma_full_rows_len(grid: &GridState, n: int)
    requires
        0 <= n,
    ensures
        grid.full_rows(n).len() <= n,
    decreases n,
{
    if n > 0 {
        lemma_full_rows_len(grid, n - 1);
    }
}

impl GameRules {

    /// A game that has not started: empty board, no piece, nothing counted.
    pub fn new() -> (r: Self)
        ensures
            r.wf(),
            r.piece is None,
            r.paused is None,
            !r.topped_out,
            r.score.0 == 0,
            r.xp.0 == 0,
            r.generator@.len() == 0,
            r.stopwatch.since_begining == 0,
            forall|x: int, y: int|
                0 <= x < GRID_WIDTH && 0 <= y < GRID_HEIGHT ==> r.grid.cell(x, y) == CellState::Empty,
    {
        GameRules {
            grid: GridState::new(),
            piece: None,
            generator: PieceGenerator::new(),
            score: Score(0),
            xp: XP(0),
            stopwatch: Stopwatch { since_begining: 0 },
            paused: None,
            topped_out: false,
        }
    }
}

} // verus!
