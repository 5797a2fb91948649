use vstd::prelude::*;

use crate::geometry::{
    lemma_rotation_facts, offset_pos, offsets_view, spec_covered_cells, spec_rotation,
    spec_wall_kicks, GridPos, Offset, PieceKind, Spin,
};
use crate::{GRID_HEIGHT, GRID_VISIBLE_HEIGHT, GRID_WIDTH};

verus! {

/// What one cell of the board holds.
#[derive(Clone, Copy, Debug, PartialEq, Eq, Structural)]
pub enum CellState {
    Empty,
    Full(PieceKind),
}

impl Default for CellState {
    fn default() -> (r: Self)
        ensures
            r == CellState::Empty,
    {
        CellState::Empty
    }
}

/// The board: `GRID_WIDTH` columns of `GRID_HEIGHT` cells, stored column by column.
pub struct GridState {
    cells: Vec<CellState>,
}

pub open spec fn in_bounds(p: GridPos) -> bool {
    p.x < GRID_WIDTH && p.y < GRID_HEIGHT
}

/// Where the cell (x, y) is stored.
pub open spec fn cell_index(x: int, y: int) -> int {
    x * GRID_HEIGHT + y
}

/// The pivot one row lower, wrapping below row 0.
pub open spec fn down(p: GridPos) -> GridPos {
    offset_pos(p, (0, -1))
}

impl View for GridState {
    type V = Seq<CellState>;

    closed spec fn view(&self) -> Seq<CellState> {
        self.cells@
    }
}

impl GridState {
    pub open spec fn wf(&self) -> bool {
        self@.len() == GRID_WIDTH * GRID_HEIGHT
    }

    pub open spec fn cell(&self, x: int, y: int) -> CellState {
        self@[cell_index(x, y)]
    }

    /// Inside the board and not taken.
    pub open spec fn spec_is_empty(&self, p: GridPos) -> bool {
        in_bounds(p) && self.cell(p.x as int, p.y as int) == CellState::Empty
    }

    pub open spec fn spec_is_filled(&self, p: GridPos) -> bool {
        in_bounds(p) && self.cell(p.x as int, p.y as int) != CellState::Empty
    }

    /// Some cell of the placement is outside the board or taken.
    pub open spec fn spec_conflicts(&self, kind: PieceKind, pos: GridPos, spin: int) -> bool {
        exists|i: int|
            0 <= i < 4 && !self.spec_is_empty(#[trigger] spec_covered_cells(kind, pos, spin)[i])
    }

    /// An empty board.
    pub fn new() -> (r: Self)
        ensures
            r.wf(),
            forall|x: int, y: int|
                0 <= x < GRID_WIDTH && 0 <= y < GRID_HEIGHT ==> r.cell(x, y) == CellState::Empty,
    {
        let n: usize = GRID_WIDTH as usize * GRID_HEIGHT as usize;
        let mut cells: Vec<CellState> = Vec::new();
        let mut i: usize = 0;
        while i < n
            invariant
                i <= n,
                n == GRID_WIDTH * GRID_HEIGHT,
                cells@.len() == i,
                forall|j: int| 0 <= j < i ==> cells@[j] == CellState::Empty,
            decreases n - i,
        {
            cells.push(CellState::Empty);
            i += 1;
        }
        let r = GridState { cells };
        assert forall|x: int, y: int|
            0 <= x < GRID_WIDTH && 0 <= y < GRID_HEIGHT implies r.cell(x, y) == CellState::Empty by {
            lemma_index_in_range(x, y);
        }
        r
    }

    fn index(pos: &GridPos) -> (r: usize)
        requires
            in_bounds(*pos),
        ensures
            r == cell_index(pos.x as int, pos.y as int),
            r < GRID_WIDTH * GRID_HEIGHT,
    {
        proof {
            lemma_index_in_range(pos.x as int, pos.y as int);
        }
        pos.x as usize * GRID_HEIGHT as usize + pos.y as usize
    }

    /// The cell at `pos`, or `None` outside the board.
    pub fn cell_state(&self, pos: &GridPos) -> (r: Option<CellState>)
        requires
            self.wf(),
        ensures
            r == (if in_bounds(*pos) {
                Some(self.cell(pos.x as int, pos.y as int))
            } else {
                None
            }),
    {
        if pos.x < GRID_WIDTH && pos.y < GRID_HEIGHT {
            Some(self.cells[Self::index(pos)])
        } else {
            None
        }
    }

    /// Inside the board and not taken; outside the board is never empty.
    pub fn is_empty(&self, pos: &GridPos) -> (r: bool)
        requires
            self.wf(),
        ensures
            r == self.spec_is_empty(*pos),
    {
        match self.cell_state(pos) {
            Some(CellState::Empty) => true,
            _ => false,
        }
    }

    /// Inside the board and taken.
    pub fn is_filled(&self, pos: &GridPos) -> (r: bool)
        requires
            self.wf(),
        ensures
            r == self.spec_is_filled(*pos),
    {
        match self.cell_state(pos) {
            Some(CellState::Full(_)) => true,
            _ => false,
        }
    }

    /// Fills an empty cell with a piece of `kind`.
    pub fn spawn_cell(&mut self, pos: &GridPos, kind: PieceKind)
        requires
            old(self).wf(),
            old(self).spec_is_empty(*pos),
        ensures
            final(self).wf(),
            final(self)@ == old(self)@.update(
                cell_index(pos.x as int, pos.y as int),
                CellState::Full(kind),
            ),
    {
        let i = Self::index(pos);
        self.cells.set(i, CellState::Full(kind));
    }

    /// Empties the cell at `pos`; tells whether it was taken.
    pub fn despawn_cell(&mut self, pos: &GridPos) -> (r: bool)
        requires
            old(self).wf(),
        ensures
            final(self).wf(),
            r == old(self).spec_is_filled(*pos),
            r ==> final(self)@ == old(self)@.update(
                cell_index(pos.x as int, pos.y as int),
                CellState::Empty,
            ),
            !r ==> final(self)@ == old(self)@,
    {
        if !self.is_filled(pos) {
            return false;
        }
        let i = Self::index(pos);
        self.cells.set(i, CellState::Empty);
        true
    }

    /// Moves what `from` holds to `to` and empties `from`; nothing when they are
    /// the same cell. Tells whether anything was done.
    pub fn move_to(&mut self, from: &GridPos, to: &GridPos) -> (r: bool)
        requires
            old(self).wf(),
            in_bounds(*from),
            in_bounds(*to),
        ensures
            final(self).wf(),
            r == (*from != *to),
            r ==> final(self)@ == old(self)@.update(
                cell_index(to.x as int, to.y as int),
                old(self).cell(from.x as int, from.y as int),
            ).update(cell_index(from.x as int, from.y as int), CellState::Empty),
            !r ==> final(self)@ == old(self)@,
    {
        if from.x == to.x && from.y == to.y {
            return false;
        }
        let i = Self::index(from);
        let j = Self::index(to);
        let moved = self.cells[i];
        self.cells.set(j, moved);
        self.cells.set(i, CellState::Empty);
        true
    }

    /// Whether a piece of `kind` at `pos` turned `spin` times would overlap a
    /// taken cell or leave the board.
    pub fn conflicts(&self, kind: PieceKind, pos: GridPos, spin: Spin) -> (r: bool)
        requires
            self.wf(),
        ensures
            r == self.spec_conflicts(kind, pos, spin.0 as int),
    {
        let cells = kind.piece_covered_cells(pos, spin);
        let mut i: usize = 0;
        while i < 4
            invariant
                i <= 4,
                self.wf(),
                cells@ == spec_covered_cells(kind, pos, spin.0 as int),
                forall|j: int| 0 <= j < i ==> self.spec_is_empty(#[trigger] cells@[j]),
            decreases 4 - i,
        {
            if !self.is_empty(&cells[i]) {
                return true;
            }
            i += 1;
        }
        false
    }

    /// Moves the piece by `delta` when the target placement is free; tells
    /// whether it moved.
    pub fn try_move(&self, delta: [i8; 2], kind: PieceKind, pos: &mut GridPos, spin: Spin) -> (r: bool)
        requires
            self.wf(),
        ensures
            r == !self.spec_conflicts(
                kind,
                offset_pos(*old(pos), (delta[0] as int, delta[1] as int)),
                spin.0 as int,
            ),
            r ==> *final(pos) == offset_pos(*old(pos), (delta[0] as int, delta[1] as int)),
            !r ==> *final(pos) == *old(pos),
    {
        let new_pos = GridPos {
            x: pos.x.wrapping_add_signed(delta[0]),
            y: pos.y.wrapping_add_signed(delta[1]),
        };
        if self.conflicts(kind, new_pos, spin) {
            return false;
        }
        *pos = new_pos;
        true
    }
}

/// The kicks with both coordinates negated.
pub open spec fn negated(s: Seq<Offset>) -> Seq<Offset> {
    s.map_values(|o: Offset| (-o.0, -o.1))
}

/// The kicks tried, in order, when turning counter-clockwise from `from`:
/// the clockwise kicks into `from`, negated.
pub open spec fn spec_left_kicks(kind: PieceKind, from: int) -> Seq<Offset> {
    negated(spec_wall_kicks(kind, (from + 3) % 4))
}

impl GridState {
    /// The first kick from index `i` on whose placement is free.
    pub open spec fn kick_target(
        &self,
        kind: PieceKind,
        pos: GridPos,
        spin: int,
        kicks: Seq<Offset>,
        i: int,
    ) -> Option<GridPos>
        decreases kicks.len() - i,
    {
        if i < 0 || i >= kicks.len() {
            None
        } else if !self.spec_conflicts(kind, offset_pos(pos, kicks[i]), spin) {
            Some(offset_pos(pos, kicks[i]))
        } else {
            self.kick_target(kind, pos, spin, kicks, i + 1)
        }
    }

    /// Where a turn to `spin` puts the pivot: in place when that is free, else at
    /// the first free kick in table order; `None` when nothing is free.
    pub open spec fn rotation_target(
        &self,
        kind: PieceKind,
        pos: GridPos,
        spin: int,
        kicks: Seq<Offset>,
    ) -> Option<GridPos> {
        if !self.spec_conflicts(kind, pos, spin) {
            Some(pos)
        } else {
            self.kick_target(kind, pos, spin, kicks, 0)
        }
    }

    /// Where a piece comes to rest when it falls straight down from `pos`.
    pub open spec fn spec_drop(&self, kind: PieceKind, pos: GridPos, spin: int) -> GridPos
        decreases pos.y,
    {
        if pos.y == 0 || self.spec_conflicts(kind, down(pos), spin) {
            pos
        } else {
            self.spec_drop(kind, down(pos), spin)
        }
    }

    /// Turns the piece by `delta` quarter turns, kicking it by the first of
    /// `kicks` that frees the placement when the turn in place does not fit.
    fn try_rotate(
        &self,
        delta: Spin,
        kind: PieceKind,
        pos: &mut GridPos,
        spin: &mut Spin,
        kicks: [[i8; 2]; 4],
    ) -> (r: bool)
        requires
            self.wf(),
        ensures
            ({
                let new_spin = (old(spin).0 + delta.0) % 4;
                match self.rotation_target(kind, *old(pos), new_spin, offsets_view(kicks)) {
                    Some(p) => r && *final(pos) == p && final(spin).0 == new_spin,
                    None => !r && *final(pos) == *old(pos) && *final(spin) == *old(spin),
                }
            }),
    {
        let new_spin = Spin((spin.0 % 4 + delta.0 % 4) % 4);
        assert(new_spin.0 == (spin.0 + delta.0) % 4) by {
            assert(((spin.0 % 4 + delta.0 % 4) % 4) == (spin.0 + delta.0) % 4) by (nonlinear_arith);
        }
        let ghost ks = offsets_view(kicks);
        if self.conflicts(kind, *pos, new_spin) {
            let mut i: usize = 0;
            let mut found = false;
            while i < 4
                invariant_except_break
                    !found,
                    *pos == *old(pos),
                    self.kick_target(kind, *old(pos), new_spin.0 as int, ks, 0)
                        == self.kick_target(kind, *old(pos), new_spin.0 as int, ks, i as int),
                invariant
                    i <= 4,
                    self.wf(),
                    ks == offsets_view(kicks),
                    ks.len() == 4,
                ensures
                    found ==> Some(*pos) == self.kick_target(kind, *old(pos), new_spin.0 as int, ks, 0),
                    !found ==> *pos == *old(pos) && self.kick_target(
                        kind,
                        *old(pos),
                        new_spin.0 as int,
                        ks,
                        0,
                    ) is None,
                decreases 4 - i,
            {
                assert(ks[i as int] == (kicks[i as int][0] as int, kicks[i as int][1] as int));
                if self.try_move(kicks[i], kind, pos, new_spin) {
                    found = true;
                    break;
                }
                i += 1;
            }
            if !found {
                return false;
            }
        }
        *spin = new_spin;
        true
    }

    /// Turns the piece clockwise, with the kicks of its kind for the
    /// orientation that it leaves.
    pub fn try_rotate_right(&self, kind: PieceKind, pos: &mut GridPos, spin: &mut Spin) -> (r: bool)
        requires
            self.wf(),
        ensures
            ({
                let new_spin = (old(spin).0 + 1) % 4;
                let kicks = spec_wall_kicks(kind, (old(spin).0 % 4) as int);
                match self.rotation_target(kind, *old(pos), new_spin, kicks) {
                    Some(p) => r && *final(pos) == p && final(spin).0 == new_spin,
                    None => !r && *final(pos) == *old(pos) && *final(spin) == *old(spin),
                }
            }),
    {
        let kicks = kind.wall_kick_incr_dirs()[(spin.0 % 4) as usize];
        self.try_rotate(Spin(1), kind, pos, spin, kicks)
    }

    /// Turns the piece counter-clockwise, with the clockwise kicks into its
    /// orientation negated.
    pub fn try_rotate_left(&self, kind: PieceKind, pos: &mut GridPos, spin: &mut Spin) -> (r: bool)
        requires
            self.wf(),
        ensures
            ({
                let new_spin = (old(spin).0 + 3) % 4;
                let kicks = spec_left_kicks(kind, (old(spin).0 % 4) as int);
                match self.rotation_target(kind, *old(pos), new_spin, kicks) {
                    Some(p) => r && *final(pos) == p && final(spin).0 == new_spin,
                    None => !r && *final(pos) == *old(pos) && *final(spin) == *old(spin),
                }
            }),
    {
        let incr = kind.wall_kick_incr_dirs()[((spin.0 % 4 + 3) % 4) as usize];
        let kicks: [[i8; 2]; 4] = [
            [-incr[0][0], -incr[0][1]],
            [-incr[1][0], -incr[1][1]],
            [-incr[2][0], -incr[2][1]],
            [-incr[3][0], -incr[3][1]],
        ];
        assert(offsets_view(kicks) =~= spec_left_kicks(kind, (spin.0 % 4) as int)) by {
            assert((spin.0 % 4 + 3) % 4 == ((spin.0 % 4) + 3) % 4);
        }
        self.try_rotate(Spin(3), kind, pos, spin, kicks)
    }
}

impl GridState {
    /// Where the piece comes to rest when dropped straight down from `pos`:
    /// the last free placement before the move one row down fails.
    pub fn drop_position(&self, kind: PieceKind, pos: GridPos, spin: Spin) -> (r: GridPos)
        requires
            self.wf(),
        ensures
            r == self.spec_drop(kind, pos, spin.0 as int),
    {
        let ghost s = spin.0 as int;
        let mut p = pos;
        loop
            invariant
                self.wf(),
                s == spin.0 as int,
                self.spec_drop(kind, p, s) == self.spec_drop(kind, pos, s),
            ensures
                p == self.spec_drop(kind, pos, s),
            decreases p.y,
        {
            let ghost before = p;
            if !self.try_move([0, -1], kind, &mut p, spin) {
                assert(down(before) == offset_pos(before, (0i8 as int, -1i8 as int)));
                assert(self.spec_drop(kind, p, s) == p);
                break;
            }
            proof {
                assert(down(before) == offset_pos(before, (0i8 as int, -1i8 as int)));
                if before.y == 0 {
                    lemma_outside_conflicts(self, kind, down(before), s);
                }
            }
        }
        p
    }
}

impl GridState {
    /// Where a piece stands after up to `n` attempts to move one row down,
    /// stopping at the first that fails.
    pub open spec fn spec_fall(&self, kind: PieceKind, pos: GridPos, spin: int, n: nat) -> GridPos
        decreases n,
    {
        if n == 0 || self.spec_conflicts(kind, down(pos), spin) {
            pos
        } else {
            self.spec_fall(kind, down(pos), spin, (n - 1) as nat)
        }
    }

    /// Moves the piece down `n` rows, or until it rests.
    pub fn fall_rows(&self, kind: PieceKind, pos: GridPos, spin: Spin, n: u64) -> (r: GridPos)
        requires
            self.wf(),
        ensures
            r == self.spec_fall(kind, pos, spin.0 as int, n as nat),
    {
        let ghost s = spin.0 as int;
        let mut p = pos;
        let mut i: u64 = 0;
        while i < n
            invariant
                self.wf(),
                i <= n,
                s == spin.0 as int,
                self.spec_fall(kind, p, s, (n - i) as nat) == self.spec_fall(kind, pos, s, n as nat),
            decreases n - i,
        {
            let ghost before = p;
            if !self.try_move([0, -1], kind, &mut p, spin) {
                assert(down(before) == offset_pos(before, (0i8 as int, -1i8 as int)));
                assert(self.spec_fall(kind, p, s, (n - i) as nat) == p);
                return p;
            }
            assert(down(before) == offset_pos(before, (0i8 as int, -1i8 as int)));
            i += 1;
        }
        p
    }
}

proof fn lemma_kick_target_free(
    grid: &GridState,
    kind: PieceKind,
    pos: GridPos,
    spin: int,
    kicks: Seq<Offset>,
    i: int,
)
    ensures
        grid.kick_target(kind, pos, spin, kicks, i) matches Some(q) ==> !grid.spec_conflicts(kind, q, spin),
    decreases kicks.len() - i,
{
    if 0 <= i < kicks.len() {
        lemma_kick_target_free(grid, kind, pos, spin, kicks, i + 1);
    }
}

/// A turn that succeeds lands on a free placement.
pub proof fn lemma_rotation_target_free(
    grid: &GridState,
    kind: PieceKind,
    pos: GridPos,
    spin: int,
    kicks: Seq<Offset>,
)
    ensures
        grid.rotation_target(kind, pos, spin, kicks) matches Some(q) ==> !grid.spec_conflicts(kind, q, spin),
{
    lemma_kick_target_free(grid, kind, pos, spin, kicks, 0);
}

/// A placement whose pivot lies a full column right of the board, or a full
/// row above it (wrapping below zero included), always conflicts.
pub proof fn lemma_outside_conflicts(grid: &GridState, kind: PieceKind, pos: GridPos, spin: int)
    requires
        0 <= spin,
        pos.x >= GRID_WIDTH + 1 || pos.y >= GRID_HEIGHT + 1,
    ensures
        grid.spec_conflicts(kind, pos, spin),
{
    lemma_rotation_facts(kind, spin);
    let o = spec_rotation(kind, spin);
    let c = spec_covered_cells(kind, pos, spin);
    if pos.x >= GRID_WIDTH + 1 {
        let i = choose|i: int| 0 <= i < o.len() && -1 <= #[trigger] o[i].0 <= 0;
        assert(c[i] == offset_pos(pos, o[i]));
        assert(!grid.spec_is_empty(c[i]));
    } else {
        let i = choose|i: int| 0 <= i < o.len() && -1 <= #[trigger] o[i].1 <= 0;
        assert(c[i] == offset_pos(pos, o[i]));
        assert(!grid.spec_is_empty(c[i]));
    }
}

/// Dropping a piece from a free placement leaves it in the same column, at a
/// free placement from which one more row down conflicts, with every
/// placement between the two free; dropping it again leaves it there.
pub proof fn lemma_drop_rests(grid: &GridState, kind: PieceKind, pos: GridPos, spin: int)
    requires
        0 <= spin,
        !grid.spec_conflicts(kind, pos, spin),
    ensures
        ({
            let r = grid.spec_drop(kind, pos, spin);
            &&& r.x == pos.x
            &&& r.y <= pos.y
            &&& !grid.spec_conflicts(kind, r, spin)
            &&& grid.spec_conflicts(kind, down(r), spin)
            &&& grid.spec_drop(kind, r, spin) == r
            &&& forall|y: u8|
                r.y <= y <= pos.y ==> !grid.spec_conflicts(kind, GridPos { x: pos.x, y }, spin)
        }),
    decreases pos.y,
{
    let r = grid.spec_drop(kind, pos, spin);
    if pos.y == 0 {
        lemma_outside_conflicts(grid, kind, down(pos), spin);
        assert forall|y: u8| r.y <= y <= pos.y implies !grid.spec_conflicts(
            kind,
            GridPos { x: pos.x, y },
            spin,
        ) by {
            assert(GridPos { x: pos.x, y } == pos);
        }
    } else if grid.spec_conflicts(kind, down(pos), spin) {
        assert forall|y: u8| r.y <= y <= pos.y implies !grid.spec_conflicts(
            kind,
            GridPos { x: pos.x, y },
            spin,
        ) by {
            assert(GridPos { x: pos.x, y } == pos);
        }
    } else {
        let d = down(pos);
        assert(d == GridPos { x: pos.x, y: (pos.y - 1) as u8 });
        lemma_drop_rests(grid, kind, d, spin);
        assert forall|y: u8| r.y <= y <= pos.y implies !grid.spec_conflicts(
            kind,
            GridPos { x: pos.x, y },
            spin,
        ) by {
            if y == pos.y {
                assert(GridPos { x: pos.x, y } == pos);
            }
        }
    }
}

impl GridState {
    /// Every column of row `y` is taken.
    pub open spec fn row_full(&self, y: int) -> bool {
        forall|x: int| 0 <= x < GRID_WIDTH ==> self.cell(x, y) != CellState::Empty
    }

    /// The full rows among the first `n`, bottom to top.
    pub open spec fn full_rows(&self, n: int) -> Seq<u8>
        decreases n,
    {
        if n <= 0 {
            Seq::empty()
        } else if self.row_full(n - 1) {
            self.full_rows(n - 1).push((n - 1) as u8)
        } else {
            self.full_rows(n - 1)
        }
    }

    /// The same cells in every row but `from` and `to`; row `to` takes what
    /// row `from` held and row `from` is emptied, unless they are one row.
    pub open spec fn rows_moved(&self, before: &GridState, from: int, to: int) -> bool {
        forall|x: int, y: int|
            0 <= x < GRID_WIDTH && 0 <= y < GRID_HEIGHT ==> #[trigger] self.cell(x, y) == if from == to {
                before.cell(x, y)
            } else if y == to {
                before.cell(x, from)
            } else if y == from {
                CellState::Empty
            } else {
                before.cell(x, y)
            }
    }

    /// Moves the whole of row `from` into row `to`, leaving row `from` empty.
    pub fn move_row(&mut self, from: u8, to: u8)
        requires
            old(self).wf(),
            from < GRID_HEIGHT,
            to < GRID_HEIGHT,
        ensures
            final(self).wf(),
            final(self).rows_moved(old(self), from as int, to as int),
    {
        let mut x: u8 = 0;
        while x < GRID_WIDTH
            invariant
                self.wf(),
                x <= GRID_WIDTH,
                from < GRID_HEIGHT,
                to < GRID_HEIGHT,
                forall|c: int, y: int|
                    0 <= c < GRID_WIDTH && 0 <= y < GRID_HEIGHT ==> #[trigger] self.cell(c, y) == if c >= x
                        || from == to {
                        old(self).cell(c, y)
                    } else if y == to {
                        old(self).cell(c, from as int)
                    } else if y == from {
                        CellState::Empty
                    } else {
                        old(self).cell(c, y)
                    },
            decreases GRID_WIDTH - x,
        {
            let ghost mid = *self;
            self.move_to(&GridPos { x, y: from }, &GridPos { x, y: to });
            proof {
                assert forall|c: int, y: int|
                    0 <= c < GRID_WIDTH && 0 <= y < GRID_HEIGHT implies #[trigger] self.cell(c, y)
                        == if c >= x + 1 || from == to {
                        old(self).cell(c, y)
                    } else if y == to {
                        old(self).cell(c, from as int)
                    } else if y == from {
                        CellState::Empty
                    } else {
                        old(self).cell(c, y)
                    } by {
                    lemma_index_in_range(c, y);
                    assert(mid.cell(c, y) == mid@[cell_index(c, y)]);
                    assert(mid.cell(c, from as int) == mid@[cell_index(c, from as int)]);
                }
            }
            x += 1;
        }
    }

    /// Empties row `y`.
    pub fn clear_row(&mut self, y: u8)
        requires
            old(self).wf(),
            y < GRID_HEIGHT,
        ensures
            final(self).wf(),
            forall|c: int, r: int|
                0 <= c < GRID_WIDTH && 0 <= r < GRID_HEIGHT ==> #[trigger] final(self).cell(c, r) == if r
                    == y {
                    CellState::Empty
                } else {
                    old(self).cell(c, r)
                },
    {
        let mut x: u8 = 0;
        while x < GRID_WIDTH
            invariant
                self.wf(),
                x <= GRID_WIDTH,
                y < GRID_HEIGHT,
                forall|c: int, r: int|
                    0 <= c < GRID_WIDTH && 0 <= r < GRID_HEIGHT ==> #[trigger] self.cell(c, r) == if r == y
                        && c < x {
                        CellState::Empty
                    } else {
                        old(self).cell(c, r)
                    },
            decreases GRID_WIDTH - x,
        {
            let ghost mid = *self;
            self.despawn_cell(&GridPos { x, y });
            proof {
                assert forall|c: int, r: int|
                    0 <= c < GRID_WIDTH && 0 <= r < GRID_HEIGHT implies #[trigger] self.cell(c, r)
                        == if r == y && c < x + 1 {
                        CellState::Empty
                    } else {
                        old(self).cell(c, r)
                    } by {
                    lemma_index_in_range(c, r);
                    assert(mid.cell(c, r) == mid@[cell_index(c, r)]);
                }
            }
            x += 1;
        }
    }

    /// The full rows of the visible field, bottom to top.
    pub fn completed_rows(&self) -> (r: Vec<u8>)
        requires
            self.wf(),
        ensures
            r@ == self.full_rows(GRID_VISIBLE_HEIGHT as int),
    {
        let mut rows: Vec<u8> = Vec::new();
        let mut y: u8 = 0;
        while y < GRID_VISIBLE_HEIGHT
            invariant
                self.wf(),
                y <= GRID_VISIBLE_HEIGHT,
                rows@ == self.full_rows(y as int),
            decreases GRID_VISIBLE_HEIGHT - y,
        {
            let mut x: u8 = 0;
            let mut full = true;
            while x < GRID_WIDTH
                invariant
                    self.wf(),
                    x <= GRID_WIDTH,
                    y < GRID_VISIBLE_HEIGHT,
                    full == forall|c: int| 0 <= c < x ==> self.cell(c, y as int) != CellState::Empty,
                decreases GRID_WIDTH - x,
            {
                if !self.is_filled(&GridPos { x, y }) {
                    full = false;
                }
                x += 1;
            }
            if full {
                rows.push(y);
            }
            y += 1;
        }
        rows
    }
}

/// The rows below `n` that are not listed, bottom to top.
pub open spec fn kept_rows(rows: Seq<u8>, n: int) -> Seq<int>
    decreases n,
{
    if n <= 0 {
        Seq::empty()
    } else if rows.contains((n - 1) as u8) {
        kept_rows(rows, n - 1)
    } else {
        kept_rows(rows, n - 1).push(n - 1)
    }
}

fn row_listed(rows: &Vec<u8>, y: u8) -> (r: bool)
    ensures
        r == rows@.contains(y),
{
    let mut i: usize = 0;
    while i < rows.len()
        invariant
            i <= rows@.len(),
            forall|j: int| 0 <= j < i ==> rows@[j] != y,
        decreases rows@.len() - i,
    {
        if rows[i] == y {
            return true;
        }
        i += 1;
    }
    false
}

impl GridState {
    /// The visible field with the listed rows taken out: the other visible rows
    /// keep their order and sink to the bottom, the rows above them are empty,
    /// and the spawn rows are untouched.
    pub open spec fn compacted(&self, before: &GridState, rows: Seq<u8>) -> bool {
        let k = kept_rows(rows, GRID_VISIBLE_HEIGHT as int);
        forall|x: int, y: int|
            0 <= x < GRID_WIDTH && 0 <= y < GRID_HEIGHT ==> #[trigger] self.cell(x, y) == if y
                >= GRID_VISIBLE_HEIGHT {
                before.cell(x, y)
            } else if y < k.len() {
                before.cell(x, k[y])
            } else {
                CellState::Empty
            }
    }

    /// Deletes the listed rows of the visible field, shifting the rows above
    /// them down in one bottom-to-top pass.
    pub fn remove_rows(&mut self, rows: &Vec<u8>)
        requires
            old(self).wf(),
        ensures
            final(self).wf(),
            final(self).compacted(old(self), rows@),
    {
        let mut target: u8 = 0;
        let mut y: u8 = 0;
        while y < GRID_VISIBLE_HEIGHT
            invariant
                self.wf(),
                y <= GRID_VISIBLE_HEIGHT,
                target <= y,
                target == kept_rows(rows@, y as int).len(),
                forall|x: int, t: int|
                    0 <= x < GRID_WIDTH && 0 <= t < target ==> #[trigger] self.cell(x, t) == old(
                        self,
                    ).cell(x, kept_rows(rows@, y as int)[t]),
                forall|x: int, r: int|
                    0 <= x < GRID_WIDTH && y <= r < GRID_HEIGHT ==> #[trigger] self.cell(x, r) == old(
                        self,
                    ).cell(x, r),
            decreases GRID_VISIBLE_HEIGHT - y,
        {
            if !row_listed(rows, y) {
                let ghost mid = *self;
                self.move_row(y, target);
                assert(kept_rows(rows@, y + 1) == kept_rows(rows@, y as int).push(y as int));
                assert forall|x: int, t: int|
                    0 <= x < GRID_WIDTH && 0 <= t < target + 1 implies #[trigger] self.cell(x, t)
                        == old(self).cell(x, kept_rows(rows@, y + 1)[t]) by {
                    assert(self.cell(x, t) == mid.cell(x, if t == target { y as int } else { t }));
                }
                assert forall|x: int, r: int|
                    0 <= x < GRID_WIDTH && y + 1 <= r < GRID_HEIGHT implies #[trigger] self.cell(x, r)
                        == old(self).cell(x, r) by {
                    assert(self.cell(x, r) == mid.cell(x, r));
                }
                target += 1;
            } else {
                assert(kept_rows(rows@, y + 1) == kept_rows(rows@, y as int));
            }
            y += 1;
        }
        let ghost k = kept_rows(rows@, GRID_VISIBLE_HEIGHT as int);
        let mut r: u8 = target;
        while r < GRID_VISIBLE_HEIGHT
            invariant
                self.wf(),
                target <= r <= GRID_VISIBLE_HEIGHT,
                target == k.len(),
                forall|x: int, t: int|
                    0 <= x < GRID_WIDTH && 0 <= t < target ==> #[trigger] self.cell(x, t) == old(
                        self,
                    ).cell(x, k[t]),
                forall|x: int, t: int|
                    0 <= x < GRID_WIDTH && target <= t < r ==> #[trigger] self.cell(x, t)
                        == CellState::Empty,
                forall|x: int, t: int|
                    0 <= x < GRID_WIDTH && GRID_VISIBLE_HEIGHT <= t < GRID_HEIGHT ==> #[trigger] self.cell(
                        x,
                        t,
                    ) == old(self).cell(x, t),
            decreases GRID_VISIBLE_HEIGHT - r,
        {
            self.clear_row(r);
            r += 1;
        }
    }
}

impl GridState {
    /// Taken cells among the first `w` columns of row `y`.
    pub open spec fn row_count(&self, y: int, w: int) -> nat
        decreases w,
    {
        if w <= 0 {
            0
        } else {
            self.row_count(y, w - 1) + if self.cell(w - 1, y) != CellState::Empty { 1nat } else { 0nat }
        }
    }

    /// Taken cells in the first `n` rows.
    pub open spec fn rows_count(&self, n: int) -> nat
        decreases n,
    {
        if n <= 0 {
            0
        } else {
            self.rows_count(n - 1) + self.row_count(n - 1, GRID_WIDTH as int)
        }
    }

    /// Taken cells in the listed rows, in order.
    pub open spec fn listed_count(&self, ys: Seq<int>) -> nat
        decreases ys.len(),
    {
        if ys.len() == 0 {
            0
        } else {
            self.listed_count(ys.drop_last()) + self.row_count(ys.last(), GRID_WIDTH as int)
        }
    }
}

proof fn lemma_row_count_same(a: &GridState, b: &GridState, ya: int, yb: int, w: int)
    requires
        forall|x: int| 0 <= x < w ==> a.cell(x, ya) == b.cell(x, yb),
    ensures
        a.row_count(ya, w) == b.row_count(yb, w),
    decreases w,
{
    if w > 0 {
        lemma_row_count_same(a, b, ya, yb, w - 1);
    }
}

proof fn lemma_row_count_empty(a: &GridState, y: int, w: int)
    requires
        forall|x: int| 0 <= x < w ==> a.cell(x, y) == CellState::Empty,
    ensures
        a.row_count(y, w) == 0,
    decreases w,
{
    if w > 0 {
        lemma_row_count_empty(a, y, w - 1);
    }
}

proof fn lemma_row_count_full(a: &GridState, y: int, w: int)
    requires
        0 <= w <= GRID_WIDTH,
        a.row_full(y),
    ensures
        a.row_count(y, w) == w,
    decreases w,
{
    if w > 0 {
        lemma_row_count_full(a, y, w - 1);
    }
}

proof fn lemma_kept_count(g: &GridState, rows: Seq<u8>, n: int)
    requires
        0 <= n <= GRID_VISIBLE_HEIGHT,
        forall|y: int| 0 <= y < n && rows.contains(y as u8) ==> g.row_full(y),
    ensures
        kept_rows(rows, n).len() <= n,
        g.listed_count(kept_rows(rows, n)) + GRID_WIDTH * (n - kept_rows(rows, n).len()) == g.rows_count(n),
    decreases n,
{
    if n > 0 {
        lemma_kept_count(g, rows, n - 1);
        if rows.contains((n - 1) as u8) {
            lemma_row_count_full(g, n - 1, GRID_WIDTH as int);
        } else {
            assert(kept_rows(rows, n).drop_last() =~= kept_rows(rows, n - 1));
        }
    }
}

proof fn lemma_compacted_prefix(after: &GridState, before: &GridState, rows: Seq<u8>, m: int)
    requires
        after.compacted(before, rows),
        0 <= m <= GRID_VISIBLE_HEIGHT,
        kept_rows(rows, GRID_VISIBLE_HEIGHT as int).len() <= GRID_VISIBLE_HEIGHT,
    ensures
        ({
            let k = kept_rows(rows, GRID_VISIBLE_HEIGHT as int);
            after.rows_count(m) == before.listed_count(k.take(if m < k.len() { m } else { k.len() as int }))
        }),
    decreases m,
{
    let k = kept_rows(rows, GRID_VISIBLE_HEIGHT as int);
    if m > 0 {
        lemma_compacted_prefix(after, before, rows, m - 1);
        let y = m - 1;
        if y < k.len() {
            assert forall|x: int| 0 <= x < GRID_WIDTH implies after.cell(x, y) == before.cell(x, k[y]) by {
                assert(after.cell(x, y) == before.cell(x, k[y]));
            }
            lemma_row_count_same(after, before, y, k[y], GRID_WIDTH as int);
            assert(k.take(m).drop_last() =~= k.take(m - 1));
        } else {
            assert forall|x: int| 0 <= x < GRID_WIDTH implies after.cell(x, y) == CellState::Empty by {
                assert(after.cell(x, y) == CellState::Empty);
            }
            lemma_row_count_empty(after, y, GRID_WIDTH as int);
        }
    }
}

/// When every listed visible row is full, taking them out leaves as many
/// taken cells in the visible field as before, less a full row for each
/// listed visible row.
pub proof fn lemma_removal_count(after: &GridState, before: &GridState, rows: Seq<u8>)
    requires
        after.compacted(before, rows),
        forall|y: int| 0 <= y < GRID_VISIBLE_HEIGHT && rows.contains(y as u8) ==> before.row_full(y),
    ensures
        ({
            let k = kept_rows(rows, GRID_VISIBLE_HEIGHT as int);
            after.rows_count(GRID_VISIBLE_HEIGHT as int) + GRID_WIDTH * (GRID_VISIBLE_HEIGHT - k.len())
                == before.rows_count(GRID_VISIBLE_HEIGHT as int)
        }),
{
    let k = kept_rows(rows, GRID_VISIBLE_HEIGHT as int);
    lemma_kept_count(before, rows, GRID_VISIBLE_HEIGHT as int);
    lemma_compacted_prefix(after, before, rows, GRID_VISIBLE_HEIGHT as int);
    assert(k.take(k.len() as int) =~= k);
}

proof fn lemma_index_in_range(x: int, y: int)
    requires
        0 <= x < GRID_WIDTH,
        0 <= y < GRID_HEIGHT,
    ensures
        0 <= cell_index(x, y) < GRID_WIDTH * GRID_HEIGHT,
{
    assert(0 <= x * 22 + y < 220) by (nonlinear_arith)
        requires
            0 <= x < 10,
            0 <= y < 22,
    ;
}

} // verus!
