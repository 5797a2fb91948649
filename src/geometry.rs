use vstd::prelude::*;

verus! {

/// The seven tetromino kinds.
#[derive(Clone, Copy, Debug, PartialEq, Eq, Structural, Hash)]
pub enum PieceKind {
    I,
    O,
    T,
    S,
    Z,
    J,
    L,
}

/// A number of quarter turns; only its value modulo 4 matters.
#[derive(Clone, Copy, Debug, PartialEq, Eq, Structural, Default)]
pub struct Spin(pub u8);

/// A cell of the board, or the pivot of a piece.
#[derive(Clone, Copy, Debug, PartialEq, Eq, Structural, Default)]
pub struct GridPos {
    pub x: u8,
    pub y: u8,
}

/// An offset from a piece's pivot, in cells.
pub type Offset = (int, int);

/// The four offsets of an executable shape table.
pub open spec fn offsets_view(a: [[i8; 2]; 4]) -> Seq<Offset> {
    seq![
        (a[0][0] as int, a[0][1] as int),
        (a[1][0] as int, a[1][1] as int),
        (a[2][0] as int, a[2][1] as int),
        (a[3][0] as int, a[3][1] as int),
    ]
}

/// The offsets that a piece covers before any turn.
pub open spec fn spec_base_shape(kind: PieceKind) -> Seq<Offset> {
    match kind {
        PieceKind::I => seq![(-2, 0), (-1, 0), (0, 0), (1, 0)],
        PieceKind::O => seq![(-1, -1), (0, -1), (-1, 0), (0, 0)],
        PieceKind::T => seq![(-1, 0), (0, 0), (1, 0), (0, 1)],
        PieceKind::S => seq![(-1, 0), (0, 0), (0, 1), (1, 1)],
        PieceKind::Z => seq![(-1, 1), (0, 0), (0, 1), (1, 0)],
        PieceKind::J => seq![(-1, 0), (0, 0), (1, 0), (-1, 1)],
        PieceKind::L => seq![(-1, 0), (0, 0), (1, 0), (1, 1)],
    }
}

/// Width of a piece's bounding box.
pub open spec fn spec_base_width(kind: PieceKind) -> int {
    match kind {
        PieceKind::I => 4,
        PieceKind::O => 2,
        _ => 3,
    }
}

/// 1 when the bounding box has an even side, so that turns pivot about a
/// cell corner rather than a cell centre.
pub open spec fn even_box(kind: PieceKind) -> int {
    if spec_base_width(kind) % 2 == 0 { 1 } else { 0 }
}

/// One quarter turn of an offset: (x, y) becomes (y, -x - c).
pub open spec fn turn_offset(p: Offset, c: int) -> Offset {
    (p.1, -p.0 - c)
}

/// A quarter turn of every offset of a shape.
pub open spec fn turn(s: Seq<Offset>, c: int) -> Seq<Offset> {
    s.map_values(|p: Offset| turn_offset(p, c))
}

/// `n` quarter turns of a shape.
pub open spec fn turn_n(s: Seq<Offset>, c: int, n: nat) -> Seq<Offset>
    decreases n,
{
    if n == 0 { s } else { turn(turn_n(s, c, (n - 1) as nat), c) }
}

/// The offsets that a piece of `kind` covers after `spin` quarter turns.
pub open spec fn spec_rotation(kind: PieceKind, spin: int) -> Seq<Offset> {
    turn_n(spec_base_shape(kind), even_box(kind), (spin % 4) as nat)
}

/// Every coordinate of every offset lies in [-2, 2].
pub open spec fn small_offsets(s: Seq<Offset>) -> bool {
    forall|i: int| 0 <= i < s.len() ==> -2 <= #[trigger] s[i].0 <= 2 && -2 <= s[i].1 <= 2
}

/// Some offset has its x in [-1, 0], and some offset has its y in [-1, 0].
pub open spec fn touches_pivot_lines(s: Seq<Offset>) -> bool {
    (exists|i: int| 0 <= i < s.len() && -1 <= #[trigger] s[i].0 <= 0)
        && (exists|i: int| 0 <= i < s.len() && -1 <= #[trigger] s[i].1 <= 0)
}

/// Four quarter turns give back the shape they started from, whatever the shape.
pub proof fn lemma_four_turns_identity(s: Seq<Offset>, c: int)
    ensures
        turn_n(s, c, 4) == s,
{
    reveal_with_fuel(turn_n, 5);
    assert(turn_n(s, c, 4) =~= s);
}

/// Turning by `n` and by `n % 4` quarter turns gives the same shape.
pub proof fn lemma_turns_mod_four(s: Seq<Offset>, c: int, n: nat)
    ensures
        turn_n(s, c, n) == turn_n(s, c, n % 4),
    decreases n,
{
    if n >= 4 {
        lemma_turns_mod_four(s, c, (n - 4) as nat);
        lemma_turn_n_add(s, c, (n - 4) as nat);
        assert((n - 4) as nat % 4 == n % 4) by (nonlinear_arith)
            requires n >= 4;
    }
}

proof fn lemma_turn_n_add(s: Seq<Offset>, c: int, n: nat)
    ensures
        turn_n(s, c, n + 4) == turn_n(s, c, n),
    decreases n,
{
    if n == 0 {
        lemma_four_turns_identity(s, c);
    } else {
        lemma_turn_n_add(s, c, (n - 1) as nat);
        assert(turn_n(s, c, n + 4) == turn(turn_n(s, c, (n + 3) as nat), c));
    }
}

/// The rotated shapes, written out.
proof fn lemma_rotation_table(kind: PieceKind, spin: int)
    requires
        0 <= spin < 4,
    ensures
        spec_rotation(kind, spin).len() == 4,
        small_offsets(spec_rotation(kind, spin)),
        spec_rotation(kind, spin).no_duplicates(),
        touches_pivot_lines(spec_rotation(kind, spin)),
{
    reveal_with_fuel(turn_n, 4);
    let r = spec_rotation(kind, spin);
    let t = match kind {
        PieceKind::I => if spin == 0 {
            seq![(-2, 0), (-1, 0), (0, 0), (1, 0)]
        } else if spin == 1 {
            seq![(0, 1), (0, 0), (0, -1), (0, -2)]
        } else if spin == 2 {
            seq![(1, -1), (0, -1), (-1, -1), (-2, -1)]
        } else {
            seq![(-1, -2), (-1, -1), (-1, 0), (-1, 1)]
        },
        PieceKind::O => if spin == 0 {
            seq![(-1, -1), (0, -1), (-1, 0), (0, 0)]
        } else if spin == 1 {
            seq![(-1, 0), (-1, -1), (0, 0), (0, -1)]
        } else if spin == 2 {
            seq![(0, 0), (-1, 0), (0, -1), (-1, -1)]
        } else {
            seq![(0, -1), (0, 0), (-1, -1), (-1, 0)]
        },
        PieceKind::T => if spin == 0 {
            seq![(-1, 0), (0, 0), (1, 0), (0, 1)]
        } else if spin == 1 {
            seq![(0, 1), (0, 0), (0, -1), (1, 0)]
        } else if spin == 2 {
            seq![(1, 0), (0, 0), (-1, 0), (0, -1)]
        } else {
            seq![(0, -1), (0, 0), (0, 1), (-1, 0)]
        },
        PieceKind::S => if spin == 0 {
            seq![(-1, 0), (0, 0), (0, 1), (1, 1)]
        } else if spin == 1 {
            seq![(0, 1), (0, 0), (1, 0), (1, -1)]
        } else if spin == 2 {
            seq![(1, 0), (0, 0), (0, -1), (-1, -1)]
        } else {
            seq![(0, -1), (0, 0), (-1, 0), (-1, 1)]
        },
        PieceKind::Z => if spin == 0 {
            seq![(-1, 1), (0, 0), (0, 1), (1, 0)]
        } else if spin == 1 {
            seq![(1, 1), (0, 0), (1, 0), (0, -1)]
        } else if spin == 2 {
            seq![(1, -1), (0, 0), (0, -1), (-1, 0)]
        } else {
            seq![(-1, -1), (0, 0), (-1, 0), (0, 1)]
        },
        PieceKind::J => if spin == 0 {
            seq![(-1, 0), (0, 0), (1, 0), (-1, 1)]
        } else if spin == 1 {
            seq![(0, 1), (0, 0), (0, -1), (1, 1)]
        } else if spin == 2 {
            seq![(1, 0), (0, 0), (-1, 0), (1, -1)]
        } else {
            seq![(0, -1), (0, 0), (0, 1), (-1, -1)]
        },
        PieceKind::L => if spin == 0 {
            seq![(-1, 0), (0, 0), (1, 0), (1, 1)]
        } else if spin == 1 {
            seq![(0, 1), (0, 0), (0, -1), (1, -1)]
        } else if spin == 2 {
            seq![(1, 0), (0, 0), (-1, 0), (-1, -1)]
        } else {
            seq![(0, -1), (0, 0), (0, 1), (-1, 1)]
        },
    };
    assert(r =~= t);
    assert(t[1] != t[0] && t[2] != t[0] && t[3] != t[0]);
    assert(t[2] != t[1] && t[3] != t[1] && t[3] != t[2]);
    assert(-1 <= t[1].0 <= 0 || -1 <= t[2].0 <= 0 || -1 <= t[3].0 <= 0 || -1 <= t[0].0 <= 0);
    assert(-1 <= t[1].1 <= 0 || -1 <= t[2].1 <= 0 || -1 <= t[3].1 <= 0 || -1 <= t[0].1 <= 0);
}

/// Each placement of a piece covers exactly four distinct cells.
pub proof fn lemma_covered_cells_distinct(kind: PieceKind, pos: GridPos, spin: int)
    requires
        0 <= spin,
    ensures
        spec_covered_cells(kind, pos, spin).len() == 4,
        spec_covered_cells(kind, pos, spin).no_duplicates(),
{
    lemma_rotation_facts(kind, spin);
    let o = spec_rotation(kind, spin);
    let c = spec_covered_cells(kind, pos, spin);
    assert forall|i: int, j: int| 0 <= i < 4 && 0 <= j < 4 && i != j implies c[i] != c[j] by {
        assert(o[i] != o[j]);
        assert(c[i] == offset_pos(pos, o[i]));
        assert(c[j] == offset_pos(pos, o[j]));
    }
}

/// The facts of the rotation table, for any number of turns.
pub proof fn lemma_rotation_facts(kind: PieceKind, spin: int)
    requires
        0 <= spin,
    ensures
        spec_rotation(kind, spin).len() == 4,
        small_offsets(spec_rotation(kind, spin)),
        spec_rotation(kind, spin).no_duplicates(),
        touches_pivot_lines(spec_rotation(kind, spin)),
{
    assert((spin % 4) % 4 == spin % 4);
    assert(spec_rotation(kind, spin) == spec_rotation(kind, spin % 4));
    lemma_rotation_table(kind, spin % 4);
}

/// `p + d` on a byte, wrapping around modulo 256.
pub open spec fn shift(p: u8, d: int) -> u8 {
    if p + d > 255 {
        (p + d - 256) as u8
    } else if p + d < 0 {
        (p + d + 256) as u8
    } else {
        (p + d) as u8
    }
}

/// `pos` moved by `o`, each coordinate wrapping on a byte.
pub open spec fn offset_pos(pos: GridPos, o: Offset) -> GridPos {
    GridPos { x: shift(pos.x, o.0), y: shift(pos.y, o.1) }
}

/// The four cells that a piece of `kind` covers with its pivot at `pos`
/// after `spin` quarter turns.
pub open spec fn spec_covered_cells(kind: PieceKind, pos: GridPos, spin: int) -> Seq<GridPos> {
    spec_rotation(kind, spin).map_values(|o: Offset| offset_pos(pos, o))
}

/// The offsets of the wall kicks tried when turning clockwise from orientation `from`.
pub open spec fn spec_wall_kicks(kind: PieceKind, from: int) -> Seq<Offset> {
    match kind {
        PieceKind::I => if from == 0 {
            seq![(-2, 0), (1, 0), (-2, -1), (1, 2)]
        } else if from == 1 {
            seq![(-1, 0), (2, 0), (-1, 2), (2, -1)]
        } else if from == 2 {
            seq![(2, 0), (-1, 0), (2, 1), (-1, -2)]
        } else {
            seq![(1, 0), (-2, 0), (1, -2), (-2, 1)]
        },
        _ => if from == 0 {
            seq![(-1, 0), (-1, 1), (0, -2), (-1, -2)]
        } else if from == 1 {
            seq![(1, 0), (1, -1), (0, 2), (1, 2)]
        } else if from == 2 {
            seq![(1, 0), (1, 1), (0, -2), (1, -2)]
        } else {
            seq![(-1, 0), (-1, -1), (0, 2), (-1, 2)]
        },
    }
}

/// The seven kinds, in a fixed order.
pub open spec fn all_kinds() -> Seq<PieceKind> {
    seq![
        PieceKind::I,
        PieceKind::O,
        PieceKind::T,
        PieceKind::S,
        PieceKind::Z,
        PieceKind::J,
        PieceKind::L,
    ]
}

impl PieceKind {
    /// The seven kinds, in a fixed order.
    pub fn all() -> (r: [PieceKind; 7])
        ensures
            r@ == all_kinds(),
    {
        let r = [
            PieceKind::I,
            PieceKind::O,
            PieceKind::T,
            PieceKind::S,
            PieceKind::Z,
            PieceKind::J,
            PieceKind::L,
        ];
        assert(r@ =~= all_kinds());
        r
    }

    /// The offsets from the pivot that the piece covers before any turn.
    pub fn base_shape(self) -> (r: [[i8; 2]; 4])
        ensures
            offsets_view(r) == spec_base_shape(self),
    {
        match self {
            PieceKind::I => [[-2, 0], [-1, 0], [0, 0], [1, 0]],
            PieceKind::O => [[-1, -1], [0, -1], [-1, 0], [0, 0]],
            PieceKind::T => [[-1, 0], [0, 0], [1, 0], [0, 1]],
            PieceKind::S => [[-1, 0], [0, 0], [0, 1], [1, 1]],
            PieceKind::Z => [[-1, 1], [0, 0], [0, 1], [1, 0]],
            PieceKind::J => [[-1, 0], [0, 0], [1, 0], [-1, 1]],
            PieceKind::L => [[-1, 0], [0, 0], [1, 0], [1, 1]],
        }
    }

    /// Width of the piece's bounding box.
    pub fn base_width(self) -> (r: u8)
        ensures
            r == spec_base_width(self),
    {
        match self {
            PieceKind::I => 4,
            PieceKind::O => 2,
            PieceKind::T | PieceKind::S | PieceKind::Z | PieceKind::J | PieceKind::L => 3,
        }
    }

    /// Wall kicks tried when turning clockwise, one row per starting orientation.
    pub fn wall_kick_incr_dirs(self) -> (r: [[[i8; 2]; 4]; 4])
        ensures
            forall|from: int| 0 <= from < 4 ==> offsets_view(#[trigger] r[from]) == spec_wall_kicks(self, from),
    {
        match self {
            PieceKind::I => [
                [[-2, 0], [1, 0], [-2, -1], [1, 2]],
                [[-1, 0], [2, 0], [-1, 2], [2, -1]],
                [[2, 0], [-1, 0], [2, 1], [-1, -2]],
                [[1, 0], [-2, 0], [1, -2], [-2, 1]],
            ],
            _ => [
                [[-1, 0], [-1, 1], [0, -2], [-1, -2]],
                [[1, 0], [1, -1], [0, 2], [1, 2]],
                [[1, 0], [1, 1], [0, -2], [1, -2]],
                [[-1, 0], [-1, -1], [0, 2], [-1, 2]],
            ],
        }
    }

    /// The offsets that the piece covers after `spin` quarter turns.
    pub fn rotation(self, spin: Spin) -> (r: [[i8; 2]; 4])
        ensures
            offsets_view(r) == spec_rotation(self, spin.0 as int),
            small_offsets(offsets_view(r)),
    {
        let mut cells = self.base_shape();
        let mut steps: u8 = spin.0 % 4;
        let bbox_is_even: i8 = (1 - self.base_width() % 2) as i8;
        proof {
            lemma_rotation_table(self, 0);
        }
        while steps > 0
            invariant
                steps <= spin.0 % 4,
                bbox_is_even == even_box(self),
                offsets_view(cells) == turn_n(
                    spec_base_shape(self),
                    even_box(self),
                    ((spin.0 % 4) - steps) as nat,
                ),
                small_offsets(offsets_view(cells)),
            decreases steps,
        {
            let ghost before = offsets_view(cells);
            proof {
                lemma_rotation_table(self, (spin.0 % 4) - steps + 1);
                assert(turn_n(spec_base_shape(self), even_box(self), ((spin.0 % 4) - steps + 1) as nat)
                    == turn(before, even_box(self)));
            }
            let mut i: usize = 0;
            while i < 4
                invariant
                    i <= 4,
                    before.len() == 4,
                    bbox_is_even == even_box(self),
                    small_offsets(before),
                    small_offsets(turn(before, even_box(self))),
                    forall|j: int| 0 <= j < i ==> #[trigger] offsets_view(cells)[j] == turn(before, even_box(self))[j],
                    forall|j: int| i <= j < 4 ==> #[trigger] offsets_view(cells)[j] == before[j],
                decreases 4 - i,
            {
                let x = cells[i][0];
                let y = cells[i][1];
                proof {
                    assert(offsets_view(cells)[i as int] == before[i as int]);
                    assert(turn(before, even_box(self))[i as int] == turn_offset(before[i as int], even_box(self)));
                }
                cells[i] = [y, -x - bbox_is_even];
                i += 1;
            }
            assert(offsets_view(cells) =~= turn(before, even_box(self)));
            steps -= 1;
        }
        cells
    }

    /// The four cells that the piece covers with its pivot at `pos`.
    pub fn piece_covered_cells(self, pos: GridPos, spin: Spin) -> (r: [GridPos; 4])
        ensures
            r@ == spec_covered_cells(self, pos, spin.0 as int),
    {
        let offsets = self.rotation(spin);
        let r = [
            GridPos { x: pos.x.wrapping_add_signed(offsets[0][0]), y: pos.y.wrapping_add_signed(offsets[0][1]) },
            GridPos { x: pos.x.wrapping_add_signed(offsets[1][0]), y: pos.y.wrapping_add_signed(offsets[1][1]) },
            GridPos { x: pos.x.wrapping_add_signed(offsets[2][0]), y: pos.y.wrapping_add_signed(offsets[2][1]) },
            GridPos { x: pos.x.wrapping_add_signed(offsets[3][0]), y: pos.y.wrapping_add_signed(offsets[3][1]) },
        ];
        assert(r@ =~= spec_covered_cells(self, pos, spin.0 as int));
        r
    }
}

} // verus!
