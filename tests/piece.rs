use tetris::piece::{is_solid, piece_hue, rotate, Hue, BRICK_COUNT};

#[test]
fn rotate_identity_is_row_major() {
    assert_eq!(rotate(0, 0, 0), 0);
    assert_eq!(rotate(3, 0, 0), 3);
    assert_eq!(rotate(1, 2, 0), 9);
    assert_eq!(rotate(3, 3, 0), 15);
}

#[test]
fn rotate_quarter_turns() {
    assert_eq!(rotate(0, 0, 1), 12);
    assert_eq!(rotate(3, 0, 1), 0);
    assert_eq!(rotate(1, 2, 1), 10);
    assert_eq!(rotate(0, 0, 2), 15);
    assert_eq!(rotate(1, 2, 2), 6);
    assert_eq!(rotate(0, 0, 3), 3);
    assert_eq!(rotate(1, 2, 3), 5);
}

#[test]
fn rotate_stays_in_template_and_cycles() {
    for r in 0..8usize {
        for py in 0..4usize {
            for px in 0..4usize {
                let i = rotate(px, py, r);
                assert!(i < 16);
                assert_eq!(rotate(px, py, r + 4), i);
                // one more rotation state reads the quarter-turned coordinate
                assert_eq!(rotate(px, py, r + 1), rotate(py, 3 - px, r));
            }
        }
    }
}

#[test]
fn rotate_is_a_permutation() {
    for r in 0..4usize {
        let mut seen = [false; 16];
        for py in 0..4usize {
            for px in 0..4usize {
                seen[rotate(px, py, r)] = true;
            }
        }
        assert!(seen.iter().all(|b| *b));
    }
}

#[test]
fn every_piece_has_four_cells() {
    for b in 0..BRICK_COUNT {
        let n = (0..16usize).filter(|i| is_solid(b, *i)).count();
        assert_eq!(n, 4);
    }
    assert!(is_solid(4, 0));
    assert!(!is_solid(0, 0));
    assert!(is_solid(0, 13));
}

#[test]
fn piece_colours() {
    assert_eq!(piece_hue(0), Hue::Cyan);
    assert_eq!(piece_hue(3), Hue::Red);
    assert_eq!(piece_hue(6), Hue::Grey);
}
