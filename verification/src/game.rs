//! The decisions of the frame loop, taken out of it: what one input event
//! does to the falling piece, what one gravity tick does, and the collision
//! and commit steps that couple a piece to the board.
//!
//! A thin driver owns the window, the clock and the keyboard; it translates
//! keys to [`InputEvent`] values, calls these functions, and draws what the
//! cell getters hand back.

use vstd::prelude::*;

use crate::board::Board;
use crate::piece::{mask_of, rotate_cw, Color, Piece, PieceType};

verus! {

/// One polled input event. At most one arrives per frame; keys that mean
/// nothing to the game come through as `Other`.
#[derive(Clone, Copy, Debug, PartialEq, Eq, Structural)]
pub enum InputEvent {
    MoveLeft,
    MoveRight,
    SoftDrop,
    Rotate,
    Quit,
    Other,
}

/// `q` is `p` moved by `dx` columns and `dy` rows, nothing else changed.
pub open spec fn moved(p: Piece, dx: int, dy: int, q: Piece) -> bool {
    &&& q.grid@ == p.grid@
    &&& q.p_type == p.p_type
    &&& q.x == p.x + dx
    &&& q.y == p.y + dy
}

/// Applies one input event to the falling piece: left and right move it one
/// column, a soft drop moves it one row down, rotate turns its mask a
/// quarter turn clockwise, and quit asks the driver to stop. Moves are
/// unconditional; a driver that wants walls calls [`collides`] first.
pub fn apply_input(piece: &mut Piece, e: InputEvent) -> (quit: bool)
    requires
        old(piece).wf(),
        i32::MIN < old(piece).x < i32::MAX,
        old(piece).y < i32::MAX,
    ensures
        final(piece).wf(),
        quit == (e == InputEvent::Quit),
        e == InputEvent::MoveLeft ==> moved(*old(piece), -1, 0, *final(piece)),
        e == InputEvent::MoveRight ==> moved(*old(piece), 1, 0, *final(piece)),
        e == InputEvent::SoftDrop ==> moved(*old(piece), 0, 1, *final(piece)),
        e == InputEvent::Rotate ==> {
            &&& final(piece).p_type == old(piece).p_type
            &&& final(piece).x == old(piece).x
            &&& final(piece).y == old(piece).y
            &&& old(piece).p_type == PieceType::O ==> *final(piece) == *old(piece)
            &&& old(piece).p_type != PieceType::O ==> final(piece).grid@ == rotate_cw(
                old(piece).grid@,
            )
        },
        e == InputEvent::Quit || e == InputEvent::Other ==> *final(piece) == *old(piece),
{
    match e {
        InputEvent::MoveLeft => {
            piece.x = piece.x - 1;
            false
        },
        InputEvent::MoveRight => {
            piece.x = piece.x + 1;
            false
        },
        InputEvent::SoftDrop => {
            piece.y = piece.y + 1;
            false
        },
        InputEvent::Rotate => {
            piece.rotate_right();
            false
        },
        InputEvent::Quit => true,
        InputEvent::Other => false,
    }
}

/// One gravity tick: the piece falls one row; once it has fallen past the
/// board, it is discarded and a fresh piece of shape `next` spawns. This
/// "fallen past the board" reset is the loop's stand-in for landing; a
/// driver that resolves landings properly uses [`collides`] and [`commit`].
pub fn gravity_step(piece: &mut Piece, height: usize, next: PieceType) -> (respawned: bool)
    requires
        old(piece).wf(),
        0 <= old(piece).y < i32::MAX,
        height <= 0x7fff_ffff,
    ensures
        final(piece).wf(),
        respawned <==> old(piece).y + 1 > height,
        !respawned ==> moved(*old(piece), 0, 1, *final(piece)),
        respawned ==> {
            &&& final(piece).grid@ == mask_of(next)
            &&& final(piece).p_type == next
            &&& final(piece).x == 2
            &&& final(piece).y == 0
        },
{
    piece.y = piece.y + 1;
    if piece.y > height as i32 {
        *piece = Piece::new(next);
        true
    } else {
        false
    }
}

/// The mask cell of local row `gy`, column `gx` cannot stand where the
/// piece puts it: it is occupied, and lands either outside the board or on
/// an occupied board cell.
pub open spec fn cell_blocked(p: Piece, b: Board, gy: int, gx: int) -> bool {
    &&& p.grid@[3 * gy + gx] is Some
    &&& {
        let bx = p.x + gx;
        let by = p.y + gy;
        ||| !(0 <= bx < b.width && 0 <= by < b.height)
        ||| b.rows()[by][bx] is Some
    }
}

/// Whether the piece, where it stands now, overlaps the board's occupied
/// cells or sticks out of the board. A driver consults this before letting
/// a move, rotation or gravity tick stand, and locks the piece when a fall
/// is blocked.
pub fn collides(piece: &Piece, board: &Board) -> (c: bool)
    requires
        piece.wf(),
        board.wf(),
        board.width <= 0x7fff_ffff,
        board.height <= 0x7fff_ffff,
    ensures
        c == exists|gy: int, gx: int|
            0 <= gy < 3 && 0 <= gx < 3 && cell_blocked(*piece, *board, gy, gx),
{
    let mut gy: usize = 0;
    while gy < 3
        invariant
            piece.wf(),
            board.wf(),
            board.width <= 0x7fff_ffff,
            board.height <= 0x7fff_ffff,
            gy <= 3,
            forall|ry: int, rx: int|
                0 <= ry < gy && 0 <= rx < 3 ==> !cell_blocked(*piece, *board, ry, rx),
        decreases 3 - gy,
    {
        let mut gx: usize = 0;
        while gx < 3
            invariant
                piece.wf(),
                board.wf(),
                board.width <= 0x7fff_ffff,
                board.height <= 0x7fff_ffff,
                gy < 3,
                gx <= 3,
                forall|ry: int, rx: int|
                    0 <= ry < gy && 0 <= rx < 3 ==> !cell_blocked(*piece, *board, ry, rx),
                forall|rx: int| 0 <= rx < gx ==> !cell_blocked(*piece, *board, gy as int, rx),
            decreases 3 - gx,
        {
            if piece.cell(gx, gy).is_some() {
                let bx = piece.x as i64 + gx as i64;
                let by = piece.y as i64 + gy as i64;
                if bx < 0 || bx >= board.width as i64 || by < 0 || by >= board.height as i64 {
                    assert(cell_blocked(*piece, *board, gy as int, gx as int));
                    return true;
                }
                if board.cell(bx as usize, by as usize).is_some() {
                    assert(cell_blocked(*piece, *board, gy as int, gx as int));
                    return true;
                }
                assert(!cell_blocked(*piece, *board, gy as int, gx as int));
            } else {
                assert(!cell_blocked(*piece, *board, gy as int, gx as int));
            }
            gx += 1;
        }
        gy += 1;
    }
    false
}

/// What a board cell holds after the piece is stamped onto the board: the
/// piece's cell wherever an occupied mask cell lands, the board's old cell
/// everywhere else.
pub open spec fn merged_cell(b: Board, p: Piece, y: int, x: int) -> Option<Color> {
    let gy = y - p.y;
    let gx = x - p.x;
    if 0 <= gy < 3 && 0 <= gx < 3 && p.grid@[3 * gy + gx] is Some {
        p.grid@[3 * gy + gx]
    } else {
        b.rows()[y][x]
    }
}

/// As [`merged_cell`], but with only the first `k` mask cells (row-major)
/// stamped on yet.
pub open spec fn merged_cell_upto(b: Board, p: Piece, y: int, x: int, k: int) -> Option<Color> {
    let gy = y - p.y;
    let gx = x - p.x;
    if 0 <= gy < 3 && 0 <= gx < 3 && 3 * gy + gx < k && p.grid@[3 * gy + gx] is Some {
        p.grid@[3 * gy + gx]
    } else {
        b.rows()[y][x]
    }
}

/// Stamps a landed piece onto the board: every occupied mask cell is copied
/// to the board cell it stands over, and no other board cell changes. The
/// piece must lie entirely on the board.
pub fn commit(board: &mut Board, piece: &Piece)
    requires
        old(board).wf(),
        piece.wf(),
        forall|gy: int, gx: int|
            0 <= gy < 3 && 0 <= gx < 3 && (#[trigger] piece.grid@[3 * gy + gx]) is Some ==> 0
                <= piece.x + gx < old(board).width && 0 <= piece.y + gy < old(board).height,
    ensures
        final(board).wf(),
        final(board).width == old(board).width,
        final(board).height == old(board).height,
        forall|y: int, x: int|
            0 <= y < old(board).height && 0 <= x < old(board).width
                ==> #[trigger] final(board).rows()[y][x] == merged_cell(*old(board), *piece, y, x),
{
    let ghost b0 = *old(board);
    let mut gy: usize = 0;
    while gy < 3
        invariant
            board.wf(),
            piece.wf(),
            board.width == b0.width,
            board.height == b0.height,
            gy <= 3,
            forall|rgy: int, rgx: int|
                0 <= rgy < 3 && 0 <= rgx < 3 && (#[trigger] piece.grid@[3 * rgy + rgx]) is Some
                    ==> 0 <= piece.x + rgx < b0.width && 0 <= piece.y + rgy < b0.height,
            forall|y: int, x: int|
                0 <= y < b0.height && 0 <= x < b0.width ==> #[trigger] board.rows()[y][x]
                    == merged_cell_upto(b0, *piece, y, x, 3 * gy),
        decreases 3 - gy,
    {
        let mut gx: usize = 0;
        while gx < 3
            invariant
                board.wf(),
                piece.wf(),
                board.width == b0.width,
                board.height == b0.height,
                gy < 3,
                gx <= 3,
                forall|rgy: int, rgx: int|
                    0 <= rgy < 3 && 0 <= rgx < 3 && (#[trigger] piece.grid@[3 * rgy + rgx]) is Some
                        ==> 0 <= piece.x + rgx < b0.width && 0 <= piece.y + rgy < b0.height,
                forall|y: int, x: int|
                    0 <= y < b0.height && 0 <= x < b0.width ==> #[trigger] board.rows()[y][x]
                        == merged_cell_upto(b0, *piece, y, x, 3 * gy + gx),
            decreases 3 - gx,
        {
            let c = piece.cell(gx, gy);
            let ghost k = 3 * gy as int + gx as int;
            if c.is_some() {
                let bx = (piece.x as i64 + gx as i64) as usize;
                let by = (piece.y as i64 + gy as i64) as usize;
                let ghost before = *board;
                board.set_cell(bx, by, c);
                proof {
                    assert forall|y: int, x: int|
                        0 <= y < b0.height && 0 <= x < b0.width implies #[trigger] board.rows()[y][x]
                        == merged_cell_upto(b0, *piece, y, x, k + 1) by {
                        if y == by as int && x == bx as int {
                        } else {
                            assert(board.rows()[y][x] == before.rows()[y][x]);
                        }
                    }
                }
            } else {
                proof {
                    assert forall|y: int, x: int|
                        0 <= y < b0.height && 0 <= x < b0.width implies #[trigger] board.rows()[y][x]
                        == merged_cell_upto(b0, *piece, y, x, k + 1) by {
                        assert(board.rows()[y][x] == merged_cell_upto(b0, *piece, y, x, k));
                    }
                }
            }
            gx += 1;
        }
        gy += 1;
    }
    proof {
        assert forall|y: int, x: int|
            0 <= y < b0.height && 0 <= x < b0.width implies #[trigger] board.rows()[y][x]
            == merged_cell(b0, *piece, y, x) by {
            assert(board.rows()[y][x] == merged_cell_upto(b0, *piece, y, x, 9));
        }
    }
}

} // verus!
