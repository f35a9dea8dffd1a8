//! The falling piece: a shape tag, an RGBA color, and a 3x3 occupancy mask
//! stored row-major in nine cells.

use vstd::prelude::*;

verus! {

/// An RGBA color. The value is opaque to the game rules: it only tags
/// occupied cells so a renderer can draw them.
#[derive(Clone, Copy, Debug, PartialEq, Eq, Structural)]
pub struct Color {
    pub r: u8,
    pub g: u8,
    pub b: u8,
    pub a: u8,
}

/// The seven tetromino shape tags.
#[derive(Clone, Copy, Debug, PartialEq, Eq, Structural)]
pub enum PieceType {
    O,
    I,
    S,
    Z,
    L,
    J,
    T,
}

/// The fixed display color of each shape.
pub open spec fn color_of(t: PieceType) -> Color {
    match t {
        PieceType::O => Color { r: 208, g: 245, b: 22, a: 255 },
        PieceType::I => Color { r: 9, g: 180, b: 214, a: 255 },
        PieceType::S => Color { r: 232, g: 12, b: 15, a: 255 },
        PieceType::Z => Color { r: 5, g: 153, b: 24, a: 255 },
        PieceType::L => Color { r: 245, g: 178, b: 22, a: 255 },
        PieceType::J => Color { r: 240, g: 31, b: 205, a: 255 },
        PieceType::T => Color { r: 113, g: 6, b: 158, a: 255 },
    }
}

/// The shape tag drawn for each residue of a uniform random number mod 7.
pub open spec fn type_of_index(i: int) -> PieceType {
    if i == 0 {
        PieceType::O
    } else if i == 1 {
        PieceType::I
    } else if i == 2 {
        PieceType::S
    } else if i == 3 {
        PieceType::Z
    } else if i == 4 {
        PieceType::L
    } else if i == 5 {
        PieceType::J
    } else {
        PieceType::T
    }
}

/// The canonical spawn mask of each shape: nine cells, row-major, each
/// either empty or filled with the shape's color.
pub open spec fn mask_of(t: PieceType) -> Seq<Option<Color>> {
    let c = Some(color_of(t));
    let e = None::<Color>;
    match t {
        PieceType::O => seq![c, c, e, c, c, e, e, e, e],
        PieceType::I => seq![e, c, e, e, c, e, e, c, e],
        PieceType::S => seq![e, c, c, c, c, e, e, e, e],
        PieceType::Z => seq![c, c, e, e, c, c, e, e, e],
        PieceType::L => seq![c, e, e, c, e, e, c, c, e],
        PieceType::J => seq![e, e, c, e, e, c, e, c, c],
        PieceType::T => seq![c, c, c, e, c, e, e, e, e],
    }
}

/// For a clockwise quarter turn of the 3x3 mask, the source index that the
/// cell at index `j` of the rotated mask is taken from: the cell at
/// row `r`, column `c` moves to row `c`, column `2 - r`.
pub open spec fn rot_src(j: int) -> int {
    3 * (2 - j % 3) + j / 3
}

/// A 3x3 row-major mask turned a quarter turn clockwise.
pub open spec fn rotate_cw(s: Seq<Option<Color>>) -> Seq<Option<Color>> {
    Seq::new(9, |j: int| s[rot_src(j)])
}

/// Four clockwise quarter turns bring a 3x3 mask back to where it started:
/// rotation generates a cyclic group of order four.
pub proof fn lemma_rotate_four_cycle(s: Seq<Option<Color>>)
    requires
        s.len() == 9,
    ensures
        rotate_cw(rotate_cw(rotate_cw(rotate_cw(s)))) == s,
{
    let r4 = rotate_cw(rotate_cw(rotate_cw(rotate_cw(s))));
    assert forall|j: int| 0 <= j < 9 implies r4[j] == s[j] by {
        assert(0 <= rot_src(j) < 9);
        assert(0 <= rot_src(rot_src(j)) < 9);
        assert(0 <= rot_src(rot_src(rot_src(j))) < 9);
        assert(rot_src(rot_src(rot_src(rot_src(j)))) == j);
    }
    assert(r4 =~= s);
}

/// Relies on macroquad::rand::rand (quad_rand::rand): a pseudo-random `u32`
/// drawn from the process-wide generator; nothing is assumed of its value.
#[verifier::external_body]
fn random_u32() -> u32 {
    macroquad::rand::rand()
}

impl PieceType {
    /// The color a freshly constructed piece of this shape uses.
    pub fn get_color(&self) -> (c: Color)
        ensures
            c == color_of(*self),
    {
        match *self {
            PieceType::O => Color { r: 208, g: 245, b: 22, a: 255 },
            PieceType::I => Color { r: 9, g: 180, b: 214, a: 255 },
            PieceType::S => Color { r: 232, g: 12, b: 15, a: 255 },
            PieceType::Z => Color { r: 5, g: 153, b: 24, a: 255 },
            PieceType::L => Color { r: 245, g: 178, b: 22, a: 255 },
            PieceType::J => Color { r: 240, g: 31, b: 205, a: 255 },
            PieceType::T => Color { r: 113, g: 6, b: 158, a: 255 },
        }
    }

    /// The shape tag for a residue mod 7, as used when spawning from a
    /// random draw.
    pub fn from_index(i: u32) -> (t: PieceType)
        requires
            i < 7,
        ensures
            t == type_of_index(i as int),
    {
        match i {
            0 => PieceType::O,
            1 => PieceType::I,
            2 => PieceType::S,
            3 => PieceType::Z,
            4 => PieceType::L,
            5 => PieceType::J,
            _ => PieceType::T,
        }
    }

    /// A shape tag drawn from the process-wide random generator. Whatever
    /// number comes back, the result is one of the seven shapes, chosen by
    /// the draw's residue mod 7.
    pub fn rand() -> (t: PieceType)
        ensures
            exists|i: int| 0 <= i < 7 && t == type_of_index(i),
    {
        let r = random_u32() % 7;
        let t = PieceType::from_index(r);
        proof {
            assert((r as int) < 7 && t == type_of_index(r as int));
        }
        t
    }
}

/// A vector of exactly nine cells, in the order given.
fn cells9(
    c0: Option<Color>,
    c1: Option<Color>,
    c2: Option<Color>,
    c3: Option<Color>,
    c4: Option<Color>,
    c5: Option<Color>,
    c6: Option<Color>,
    c7: Option<Color>,
    c8: Option<Color>,
) -> (v: Vec<Option<Color>>)
    ensures
        v@ == seq![c0, c1, c2, c3, c4, c5, c6, c7, c8],
{
    let mut v: Vec<Option<Color>> = Vec::new();
    v.push(c0);
    v.push(c1);
    v.push(c2);
    v.push(c3);
    v.push(c4);
    v.push(c5);
    v.push(c6);
    v.push(c7);
    v.push(c8);
    proof {
        assert(v@ =~= seq![c0, c1, c2, c3, c4, c5, c6, c7, c8]);
    }
    v
}

/// A falling piece: its 3x3 occupancy mask (row-major, nine cells), its
/// shape tag, and its position on the board, the board column and row of
/// the mask's top-left cell.
pub struct Piece {
    pub grid: Vec<Option<Color>>,
    pub p_type: PieceType,
    pub x: i32,
    pub y: i32,
}

impl Piece {
    /// The mask always holds exactly nine cells.
    pub open spec fn wf(self) -> bool {
        self.grid@.len() == 9
    }

    /// A fresh piece of the given shape: the shape's canonical mask, at the
    /// fixed spawn point, column 2 of row 0.
    pub fn new(piece_type: PieceType) -> (p: Piece)
        ensures
            p.wf(),
            p.grid@ == mask_of(piece_type),
            p.p_type == piece_type,
            p.x == 2,
            p.y == 0,
    {
        let c = Some(piece_type.get_color());
        let e = None::<Color>;
        let grid = match piece_type {
            PieceType::O => cells9(c, c, e, c, c, e, e, e, e),
            PieceType::I => cells9(e, c, e, e, c, e, e, c, e),
            PieceType::S => cells9(e, c, c, c, c, e, e, e, e),
            PieceType::Z => cells9(c, c, e, e, c, c, e, e, e),
            PieceType::L => cells9(c, e, e, c, e, e, c, c, e),
            PieceType::J => cells9(e, e, c, e, e, c, e, c, c),
            PieceType::T => cells9(c, c, c, e, c, e, e, e, e),
        };
        Piece { grid, p_type: piece_type, x: 2, y: 0 }
    }

    /// The mask cell at local column `gx` of local row `gy`.
    pub fn cell(&self, gx: usize, gy: usize) -> (c: Option<Color>)
        requires
            self.wf(),
            gx < 3,
            gy < 3,
        ensures
            c == self.grid@[3 * gy as int + gx as int],
    {
        self.grid[3 * gy + gx]
    }

    /// Turns the mask a quarter turn clockwise in place; position and shape
    /// tag are untouched. The turn is the plain geometric one — the whole
    /// new mask is built first, then swapped in, and no compacting shift is
    /// applied afterwards — so four turns always restore the mask. The O
    /// shape is a fixed point of the visible rotation and is left entirely
    /// unchanged.
    pub fn rotate_right(&mut self)
        requires
            old(self).wf(),
        ensures
            final(self).wf(),
            final(self).p_type == old(self).p_type,
            final(self).x == old(self).x,
            final(self).y == old(self).y,
            old(self).p_type == PieceType::O ==> *final(self) == *old(self),
            old(self).p_type != PieceType::O ==> final(self).grid@ == rotate_cw(old(self).grid@),
    {
        if self.p_type == PieceType::O {
            return;
        }
        let mut v: Vec<Option<Color>> = Vec::new();
        let mut j: usize = 0;
        while j < 9
            invariant
                *self == *old(self),
                self.grid@.len() == 9,
                v@.len() == j,
                j <= 9,
                forall|i: int| 0 <= i < j ==> v@[i] == self.grid@[rot_src(i)],
            decreases 9 - j,
        {
            let idx = 3 * (2 - j % 3) + j / 3;
            assert(idx == rot_src(j as int));
            assert(0 <= rot_src(j as int) < 9);
            v.push(self.grid[idx]);
            j += 1;
        }
        proof {
            assert(v@ =~= rotate_cw(self.grid@));
        }
        self.grid = v;
    }
}

} // verus!
