//! The seven pieces, each a 4×4 template, and the rotation of local coordinates.

use vstd::prelude::*;

verus! {

/// Side of a piece template.
pub const BRICKMAX: usize = 4;

/// Number of pieces in the catalog.
pub const BRICK_COUNT: usize = 7;

/// Whether cell `i` (row-major, 0..16) of template `b` is solid.
///
/// The catalog, one template per row, `X` for solid:
/// ```text
/// " X   X   X   X  "   I
/// " XX  XX         "   O
/// " X   X   XX     "   L
/// "  X   X  XX     "   J
/// "XX   XX         "   Z
/// "  XX XX         "   S
/// " X   XX  X      "   T
/// ```
pub open spec fn solid(b: int, i: int) -> bool {
    if b == 0 {
        i == 1 || i == 5 || i == 9 || i == 13
    } else if b == 1 {
        i == 1 || i == 2 || i == 5 || i == 6
    } else if b == 2 {
        i == 1 || i == 5 || i == 9 || i == 10
    } else if b == 3 {
        i == 2 || i == 6 || i == 9 || i == 10
    } else if b == 4 {
        i == 0 || i == 1 || i == 5 || i == 6
    } else if b == 5 {
        i == 2 || i == 3 || i == 5 || i == 6
    } else if b == 6 {
        i == 1 || i == 5 || i == 6 || i == 9
    } else {
        false
    }
}

/// Executable form of [`solid`].
pub fn is_solid(b: usize, i: usize) -> (r: bool)
    requires
        b < BRICK_COUNT,
    ensures
        r == solid(b as int, i as int),
{
    match b {
        0 => i == 1 || i == 5 || i == 9 || i == 13,
        1 => i == 1 || i == 2 || i == 5 || i == 6,
        2 => i == 1 || i == 5 || i == 9 || i == 10,
        3 => i == 2 || i == 6 || i == 9 || i == 10,
        4 => i == 0 || i == 1 || i == 5 || i == 6,
        5 => i == 2 || i == 3 || i == 5 || i == 6,
        _ => i == 1 || i == 5 || i == 6 || i == 9,
    }
}

/// Index into the unrotated template of local cell `(px, py)` under rotation
/// state `r` (taken modulo 4; 1 is 90°, 2 is 180°, 3 is 270°).
pub open spec fn rotated_index(px: int, py: int, r: int) -> int {
    let q = r % 4;
    if q == 0 {
        py * 4 + px
    } else if q == 1 {
        12 + py - px * 4
    } else if q == 2 {
        15 - py * 4 - px
    } else {
        3 - py + px * 4
    }
}

/// A quarter turn of a local coordinate: `(px, py)` goes to `(py, 3 - px)`.
pub open spec fn quarter_turn(p: (int, int)) -> (int, int) {
    (p.1, 3 - p.0)
}

/// Returns the rotated position of one piece cell: the index into the
/// unrotated template that local cell `(px, py)` shows under rotation `r`.
pub fn rotate(px: usize, py: usize, r: usize) -> (idx: usize)
    requires
        px < BRICKMAX,
        py < BRICKMAX,
    ensures
        idx == rotated_index(px as int, py as int, r as int),
        idx < 16,
{
    match r % 4 {
        0 => py * BRICKMAX + px,
        1 => 12 + py - (px * BRICKMAX),
        2 => 15 - (py * BRICKMAX) - px,
        _ => 3 - py + (px * BRICKMAX),
    }
}

/// Rotation is a cyclic group of order 4 on the template: every index lies in
/// 0..16, one more rotation state reads the template at the quarter-turned
/// coordinate, four quarter turns give back the coordinate, and rotation
/// states four apart read the same index.
pub proof fn lemma_rotation_cycle(px: int, py: int, r: int)
    requires
        0 <= px < 4,
        0 <= py < 4,
        0 <= r,
    ensures
        0 <= rotated_index(px, py, r) < 16,
        rotated_index(px, py, r + 1) == rotated_index(quarter_turn((px, py)).0, quarter_turn((px, py)).1, r),
        quarter_turn(quarter_turn(quarter_turn(quarter_turn((px, py))))) == (px, py),
        rotated_index(px, py, r + 4) == rotated_index(px, py, r),
{
    assert((r + 1) % 4 == (r % 4 + 1) % 4);
    assert((r + 4) % 4 == r % 4);
}

/// Display colour of each piece.
#[derive(Clone, Copy, Debug, PartialEq, Eq, Structural)]
pub enum Hue {
    Cyan,
    Green,
    Blue,
    Red,
    Yellow,
    Magenta,
    Grey,
}

pub open spec fn hue_of(b: int) -> Hue {
    if b == 0 {
        Hue::Cyan
    } else if b == 1 {
        Hue::Green
    } else if b == 2 {
        Hue::Blue
    } else if b == 3 {
        Hue::Red
    } else if b == 4 {
        Hue::Yellow
    } else if b == 5 {
        Hue::Magenta
    } else {
        Hue::Grey
    }
}

/// The colour in which piece `b` is drawn.
pub fn piece_hue(b: usize) -> (h: Hue)
    requires
        b < BRICK_COUNT,
    ensures
        h == hue_of(b as int),
{
    match b {
        0 => Hue::Cyan,
        1 => Hue::Green,
        2 => Hue::Blue,
        3 => Hue::Red,
        4 => Hue::Yellow,
        5 => Hue::Magenta,
        _ => Hue::Grey,
    }
}

} // verus!
