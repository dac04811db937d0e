use tetris::field::{
    changed_cells, no_collision, pixel_glyph, Field, Glyph, FIELD_SIZE, PIXEL_BORDER, PIXEL_EMPTY,
    XMAX, YMAX,
};
use tetris::piece::{Hue, BRICK_COUNT};

fn at(f: &Field, x: usize, y: usize) -> u8 {
    f.cells()[x + y * XMAX]
}

#[test]
fn new_field_has_border_only() {
    let f = Field::new();
    assert_eq!(f.cells().len(), FIELD_SIZE);
    for y in 0..YMAX {
        for x in 0..XMAX {
            let border = x == 0 || x == XMAX - 1 || y == YMAX - 1;
            let want = if border { PIXEL_BORDER } else { PIXEL_EMPTY };
            assert_eq!(f.get(x, y), want);
        }
    }
}

#[test]
fn spawn_on_empty_field_never_collides() {
    let f = Field::new();
    for b in 0..BRICK_COUNT {
        assert!(no_collision(&f, b, 0, 4, 0));
    }
}

#[test]
fn free_placement_fits() {
    let mut f = Field::new();
    f.set(1, 16, 66);
    f.set(9, 10, 67);
    // the I piece occupies local column 1, rows 0..4
    assert!(no_collision(&f, 0, 0, 2, 5));
    assert!(no_collision(&f, 0, 0, 4, 13));
}

#[test]
fn overlap_with_settled_cell_collides() {
    let mut f = Field::new();
    f.set(5, 10, 65);
    // I piece anchored at (4, 7) covers column 5, rows 7..11
    assert!(!no_collision(&f, 0, 0, 4, 7));
    assert!(no_collision(&f, 0, 0, 4, 6));
}

#[test]
fn walls_and_floor_collide() {
    let f = Field::new();
    // I piece solid column lands on the left border
    assert!(!no_collision(&f, 0, 0, -1, 0));
    // and on the right border
    assert!(!no_collision(&f, 0, 0, 10, 0));
    // and on the floor
    assert!(!no_collision(&f, 0, 0, 4, 14));
    assert!(no_collision(&f, 0, 0, 4, 13));
}

#[test]
fn cells_outside_the_field_are_ignored() {
    let f = Field::new();
    // the O piece's solid rows are 0 and 1; cells above the field are ignored
    assert!(no_collision(&f, 1, 0, 4, -2));
    assert!(no_collision(&f, 1, 0, 4, -1));
    // far away from the field nothing is looked at
    assert!(no_collision(&f, 0, 0, 100, 100));
    assert!(no_collision(&f, 0, 0, isize::MIN, isize::MAX));
}

#[test]
fn lock_writes_piece_code() {
    let mut f = Field::new();
    f.lock(1, 0, 4, 15);
    // O piece: template cells 1, 2, 5, 6
    assert_eq!(at(&f, 5, 15), 66);
    assert_eq!(at(&f, 6, 15), 66);
    assert_eq!(at(&f, 5, 16), 66);
    assert_eq!(at(&f, 6, 16), 66);
    assert_eq!(at(&f, 4, 15), PIXEL_EMPTY);
    assert_eq!(at(&f, 7, 16), PIXEL_EMPTY);
    assert_eq!(at(&f, 5, 17), PIXEL_BORDER);
}

#[test]
fn full_row_between_borders_is_found_and_cleared() {
    let mut f = Field::new();
    for x in 1..XMAX - 1 {
        f.set(x, 16, 65);
    }
    f.set(3, 15, 68);
    assert!(f.row_is_full(16));
    assert!(!f.row_is_full(15));
    assert_eq!(at(&f, 0, 16), PIXEL_BORDER);
    assert_eq!(at(&f, XMAX - 1, 16), PIXEL_BORDER);
    let rows = f.clear_full_rows();
    assert_eq!(rows, vec![16]);
    assert_eq!(at(&f, 3, 16), 68);
    for x in 1..XMAX - 1 {
        if x != 3 {
            assert_eq!(at(&f, x, 16), PIXEL_EMPTY);
        }
        assert_eq!(at(&f, x, 15), PIXEL_EMPTY);
    }
    assert_eq!(at(&f, 0, 16), PIXEL_BORDER);
    assert_eq!(at(&f, XMAX - 1, 16), PIXEL_BORDER);
    assert_eq!(at(&f, XMAX - 1, 0), PIXEL_BORDER);
}

#[test]
fn row_with_one_gap_is_not_full() {
    let mut f = Field::new();
    for x in 1..XMAX - 1 {
        if x != 7 {
            f.set(x, 16, 65);
        }
    }
    assert!(!f.row_is_full(16));
    let before = f.cells().clone();
    assert_eq!(f.clear_full_rows(), Vec::<usize>::new());
    assert_eq!(f.cells(), &before);
}

#[test]
fn locking_completes_a_row() {
    let mut f = Field::new();
    for x in 1..XMAX - 1 {
        if x != 5 {
            f.set(x, 16, 67);
        }
    }
    assert!(!f.row_is_full(16));
    // the I piece drops into the gap, rows 13..17 of column 5
    assert!(no_collision(&f, 0, 0, 4, 13));
    f.lock(0, 0, 4, 13);
    assert!(f.row_is_full(16));
    assert!(!f.row_is_full(15));
    assert_eq!(f.clear_full_rows(), vec![16]);
    for y in 14..17 {
        assert_eq!(at(&f, 5, y), 65);
    }
    assert_eq!(at(&f, 5, 13), PIXEL_EMPTY);
    assert_eq!(at(&f, 4, 16), PIXEL_EMPTY);
}

#[test]
fn clearing_shifts_rows_above_down() {
    let mut f = Field::new();
    for x in 1..XMAX - 1 {
        f.set(x, 9, 70);
    }
    for y in 0..9 {
        f.set(1 + (y % 10), y, 65 + (y % 7) as u8);
    }
    f.set(4, 12, 66);
    let before = f.cells().clone();
    f.clear_row(9);
    for y in 1..10 {
        for x in 1..XMAX - 1 {
            assert_eq!(at(&f, x, y), before[x + (y - 1) * XMAX]);
        }
    }
    for x in 1..XMAX - 1 {
        assert_eq!(at(&f, x, 0), PIXEL_EMPTY);
    }
    for y in 10..YMAX {
        for x in 0..XMAX {
            assert_eq!(at(&f, x, y), before[x + y * XMAX]);
        }
    }
    for y in 0..YMAX {
        assert_eq!(at(&f, 0, y), PIXEL_BORDER);
        assert_eq!(at(&f, XMAX - 1, y), PIXEL_BORDER);
    }
}

#[test]
fn full_top_row_is_emptied() {
    let mut f = Field::new();
    for x in 1..XMAX - 1 {
        f.set(x, 0, 65);
    }
    assert_eq!(f.clear_full_rows(), vec![0]);
    for x in 1..XMAX - 1 {
        assert_eq!(at(&f, x, 0), PIXEL_EMPTY);
    }
}

#[test]
fn two_full_rows_are_both_cleared() {
    let mut f = Field::new();
    for x in 1..XMAX - 1 {
        f.set(x, 16, 65);
        f.set(x, 14, 66);
    }
    f.set(2, 15, 67);
    f.set(8, 13, 68);
    assert_eq!(f.clear_full_rows(), vec![14, 16]);
    assert_eq!(at(&f, 2, 16), 67);
    assert_eq!(at(&f, 8, 15), 68);
    for x in 1..XMAX - 1 {
        assert_eq!(at(&f, x, 14), PIXEL_EMPTY);
    }
}

#[test]
fn with_piece_leaves_field_alone() {
    let f = Field::new();
    let v = f.with_piece(6, 0, 4, 0);
    // T piece: template cells 1, 5, 6, 9
    assert_eq!(v[5], 71);
    assert_eq!(v[5 + XMAX], 71);
    assert_eq!(v[6 + XMAX], 71);
    assert_eq!(v[5 + 2 * XMAX], 71);
    assert_eq!(v[4], PIXEL_EMPTY);
    assert_eq!(f.get(5, 0), PIXEL_EMPTY);
}

#[test]
fn glyphs() {
    assert_eq!(pixel_glyph(PIXEL_EMPTY), Glyph::Blank);
    assert_eq!(pixel_glyph(PIXEL_BORDER), Glyph::Border);
    assert_eq!(pixel_glyph(65), Glyph::Block(Hue::Cyan));
    assert_eq!(pixel_glyph(71), Glyph::Block(Hue::Grey));
    assert_eq!(pixel_glyph(72), Glyph::Blank);
}

#[test]
fn changed_cells_lists_differences_in_order() {
    let a = vec![1u8, 2, 3, 4, 5];
    let b = vec![1u8, 9, 3, 0, 6];
    assert_eq!(changed_cells(&a, &b), vec![1, 3, 4]);
    assert_eq!(changed_cells(&a, &a), Vec::<usize>::new());
}
