use tetris_core::clip;
use tetris_core::color_of;
use tetris_core::find_pivot_offset;
use tetris_core::is_pivot_cell;
use tetris_core::piece_from_draw;
use tetris_core::random_piece;
use tetris_core::rotated_cw;

fn grid(rows: [[u8; 4]; 4]) -> Vec<Vec<u8>> {
    rows.iter().map(|r| r.to_vec()).collect()
}

#[test]
fn pivot_bit_is_bit_seven() {
    assert!(is_pivot_cell(129));
    assert!(is_pivot_cell(128));
    assert!(is_pivot_cell(135));
    assert!(!is_pivot_cell(0));
    assert!(!is_pivot_cell(1));
    assert!(!is_pivot_cell(127));
}

#[test]
fn color_masks_off_pivot_bit() {
    assert_eq!(color_of(129), 1);
    assert_eq!(color_of(135), 7);
    assert_eq!(color_of(7), 7);
    assert_eq!(color_of(1), 1);
}

#[test]
fn rotation_moves_each_cell_by_the_formula() {
    // new[y][x] == old[3 - x][y]
    let old = grid([
        [1, 2, 3, 4],
        [5, 6, 7, 8],
        [9, 10, 11, 12],
        [13, 14, 15, 16],
    ]);
    let new = rotated_cw(&old);
    for y in 0..4 {
        for x in 0..4 {
            assert_eq!(new[y][x], old[3 - x][y]);
        }
    }
    assert_eq!(
        new,
        grid([
            [13, 9, 5, 1],
            [14, 10, 6, 2],
            [15, 11, 7, 3],
            [16, 12, 8, 4],
        ])
    );
}

#[test]
fn four_rotations_restore_every_canonical_shape() {
    for draw in 0..7u32 {
        let original = piece_from_draw(draw);
        let once = rotated_cw(&original);
        let twice = rotated_cw(&once);
        let thrice = rotated_cw(&twice);
        let full_turn = rotated_cw(&thrice);
        assert_eq!(full_turn, original);
    }
}

#[test]
fn four_rotations_restore_an_arbitrary_grid() {
    let original = grid([
        [0, 0, 200, 3],
        [17, 0, 0, 0],
        [0, 129, 0, 64],
        [9, 0, 0, 255],
    ]);
    let mut p = original.clone();
    for _ in 0..4 {
        p = rotated_cw(&p);
    }
    assert_eq!(p, original);
}

#[test]
fn pivot_offset_is_found_by_scanning() {
    // J carries its pivot at local (1, 1), T at (2, 1), I at (2, 1).
    assert_eq!(find_pivot_offset(&piece_from_draw(0)), (1, 1));
    assert_eq!(find_pivot_offset(&piece_from_draw(2)), (2, 1));
    assert_eq!(find_pivot_offset(&piece_from_draw(4)), (2, 1));
    let custom = grid([
        [0, 0, 0, 0],
        [0, 0, 0, 0],
        [0, 0, 0, 0],
        [0, 0, 0, 130],
    ]);
    assert_eq!(find_pivot_offset(&custom), (3, 3));
}

#[test]
fn pivot_relocates_with_rotation() {
    // The I piece's pivot sits at (2, 1); after a quarter turn the flagged
    // cell stands elsewhere in the box but is found again by scanning.
    let i_piece = piece_from_draw(4);
    let turned = rotated_cw(&i_piece);
    let (px, py) = find_pivot_offset(&turned);
    assert!(is_pivot_cell(turned[py as usize][px as usize]));
    assert_eq!((px, py), (2, 2));
}

#[test]
fn draw_picks_shape_and_colour_by_index() {
    // Shape 0 is J with colour 1: body cells 1, pivot 129.
    assert_eq!(
        piece_from_draw(0),
        grid([
            [1, 0, 0, 0],
            [1, 129, 1, 0],
            [0, 0, 0, 0],
            [0, 0, 0, 0],
        ])
    );
    // Shape 4 is I with colour 5: body cells 5, pivot 133.
    assert_eq!(
        piece_from_draw(4),
        grid([
            [0, 0, 5, 0],
            [0, 0, 133, 0],
            [0, 0, 5, 0],
            [0, 0, 5, 0],
        ])
    );
    // The draw is reduced modulo the repertoire size.
    assert_eq!(piece_from_draw(7), piece_from_draw(0));
    assert_eq!(piece_from_draw(23), piece_from_draw(2));
}

#[test]
fn every_canonical_shape_has_one_pivot_and_four_cells() {
    for draw in 0..7u32 {
        let p = piece_from_draw(draw);
        let mut pivots = 0;
        let mut occupied = 0;
        for row in &p {
            for &c in row {
                if c > 0 {
                    occupied += 1;
                }
                if is_pivot_cell(c) {
                    pivots += 1;
                }
            }
        }
        assert_eq!(pivots, 1);
        assert_eq!(occupied, 4);
    }
}

#[test]
fn random_piece_is_one_of_the_canonical_shapes() {
    for _ in 0..20 {
        let p = random_piece();
        let mut matched = false;
        for draw in 0..7u32 {
            if p == piece_from_draw(draw) {
                matched = true;
            }
        }
        assert!(matched);
    }
}

#[test]
fn clip_keeps_whole_tiles_and_trims_the_edge() {
    assert_eq!(clip(0, 100, 250), 100);
    assert_eq!(clip(1, 100, 250), 100);
    assert_eq!(clip(2, 100, 250), 50);
    assert_eq!(clip(2, 100, 300), 100);
    assert_eq!(clip(3, 100, 300), 0);
}
