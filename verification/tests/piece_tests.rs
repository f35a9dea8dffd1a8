use tetris_core::piece::{Color, Piece, PieceType};

fn occupied_indices(p: &Piece) -> Vec<usize> {
    let mut v = Vec::new();
    for i in 0..9 {
        if p.grid[i].is_some() {
            v.push(i);
        }
    }
    v
}

fn assert_spawn(shape: PieceType, expected: &[usize], color: Color) {
    let p = Piece::new(shape);
    assert_eq!(occupied_indices(&p), expected.to_vec());
    for i in 0..9 {
        match p.grid[i] {
            Some(c) => assert_eq!(c, color),
            None => (),
        }
    }
    assert_eq!(p.p_type, shape);
    assert_eq!(p.x, 2);
    assert_eq!(p.y, 0);
}

#[test]
fn spawn_mask_o() {
    assert_spawn(PieceType::O, &[0, 1, 3, 4], Color { r: 208, g: 245, b: 22, a: 255 });
}

#[test]
fn spawn_mask_i() {
    assert_spawn(PieceType::I, &[1, 4, 7], Color { r: 9, g: 180, b: 214, a: 255 });
}

#[test]
fn spawn_mask_s() {
    assert_spawn(PieceType::S, &[1, 2, 3, 4], Color { r: 232, g: 12, b: 15, a: 255 });
}

#[test]
fn spawn_mask_z() {
    assert_spawn(PieceType::Z, &[0, 1, 4, 5], Color { r: 5, g: 153, b: 24, a: 255 });
}

#[test]
fn spawn_mask_l() {
    assert_spawn(PieceType::L, &[0, 3, 6, 7], Color { r: 245, g: 178, b: 22, a: 255 });
}

#[test]
fn spawn_mask_j() {
    assert_spawn(PieceType::J, &[2, 5, 7, 8], Color { r: 240, g: 31, b: 205, a: 255 });
}

#[test]
fn spawn_mask_t() {
    assert_spawn(PieceType::T, &[0, 1, 2, 4], Color { r: 113, g: 6, b: 158, a: 255 });
}

#[test]
fn rotate_four_times_is_identity() {
    for shape in [
        PieceType::I,
        PieceType::S,
        PieceType::Z,
        PieceType::L,
        PieceType::J,
        PieceType::T,
    ] {
        let mut p = Piece::new(shape);
        let original = p.grid.clone();
        for _ in 0..4 {
            p.rotate_right();
        }
        assert_eq!(p.grid, original);
        assert_eq!(p.x, 2);
        assert_eq!(p.y, 0);
        assert_eq!(p.p_type, shape);
    }
}

#[test]
fn rotate_o_is_invariant() {
    let mut p = Piece::new(PieceType::O);
    let original = p.grid.clone();
    p.rotate_right();
    assert_eq!(p.grid, original);
}

#[test]
fn rotate_once_moves_cells() {
    // T spawns as {0,1,2,4}; one clockwise turn carries that to {2,4,5,8}.
    let mut p = Piece::new(PieceType::T);
    p.rotate_right();
    assert_eq!(occupied_indices(&p), vec![2, 4, 5, 8]);
    // I spawns as the middle column; one turn makes it the middle row.
    let mut q = Piece::new(PieceType::I);
    q.rotate_right();
    assert_eq!(occupied_indices(&q), vec![3, 4, 5]);
}

#[test]
fn get_color_values() {
    assert_eq!(PieceType::O.get_color(), Color { r: 208, g: 245, b: 22, a: 255 });
    assert_eq!(PieceType::T.get_color(), Color { r: 113, g: 6, b: 158, a: 255 });
}

#[test]
fn from_index_covers_all_shapes() {
    assert_eq!(PieceType::from_index(0), PieceType::O);
    assert_eq!(PieceType::from_index(1), PieceType::I);
    assert_eq!(PieceType::from_index(2), PieceType::S);
    assert_eq!(PieceType::from_index(3), PieceType::Z);
    assert_eq!(PieceType::from_index(4), PieceType::L);
    assert_eq!(PieceType::from_index(5), PieceType::J);
    assert_eq!(PieceType::from_index(6), PieceType::T);
}

#[test]
fn rand_yields_a_playable_piece() {
    // Exercises the random draw; whatever shape comes back, it spawns one
    // of the canonical masks, which occupy 4 cells each except the I bar's 3.
    for _ in 0..20 {
        let shape = PieceType::rand();
        let p = Piece::new(shape);
        let n = occupied_indices(&p).len();
        assert!(n == 3 || n == 4);
    }
}
