//! The play field: a flat buffer of pixel codes with a permanent border,
//! collision detection, locking a piece in, and clearing full rows.

use vstd::prelude::*;

use crate::piece::{
    hue_of, is_solid, piece_hue, rotate, rotated_index, solid, Hue, BRICKMAX, BRICK_COUNT,
};

verus! {

/// Width of the field, border columns included.
pub const XMAX: usize = 12;

/// Height of the field, bottom border row included.
pub const YMAX: usize = 18;

/// Number of cells in the field buffer.
pub const FIELD_SIZE: usize = XMAX * YMAX;

/// Pixel code of an empty cell.
pub const PIXEL_EMPTY: u8 = 32;

/// Pixel code of a border cell.
pub const PIXEL_BORDER: u8 = 35;

/// Pixel code of a settled cell of piece 0; piece `b` is stored as this plus `b`.
pub const PIXEL_PIECE_BASE: u8 = 65;

/// Buffer index of the cell at column `x`, row `y`.
pub open spec fn cell_index(x: int, y: int) -> int {
    x + y * XMAX as int
}

/// Column of buffer index `i`.
pub open spec fn col(i: int) -> int {
    i % XMAX as int
}

/// Row of buffer index `i`.
pub open spec fn row(i: int) -> int {
    i / XMAX as int
}

pub open spec fn in_bounds(x: int, y: int) -> bool {
    0 <= x < XMAX as int && 0 <= y < YMAX as int
}

/// The leftmost column, the rightmost column and the bottom row.
pub open spec fn on_border(x: int, y: int) -> bool {
    x == 0 || x == XMAX as int - 1 || y == YMAX as int - 1
}

/// Columns inside the border, where pieces settle.
pub open spec fn playable_col(x: int) -> bool {
    1 <= x < XMAX as int - 1
}

pub open spec fn is_piece_pixel(p: u8) -> bool {
    PIXEL_PIECE_BASE <= p < PIXEL_PIECE_BASE + BRICK_COUNT
}

/// The code stored for a settled cell of piece `b`.
pub open spec fn piece_pixel(b: int) -> u8 {
    (PIXEL_PIECE_BASE + b) as u8
}

/// Border cells hold the border code; every other cell is empty or settled.
pub open spec fn valid_pixel_at(s: Seq<u8>, i: int) -> bool {
    if on_border(col(i), row(i)) {
        s[i] == PIXEL_BORDER
    } else {
        s[i] == PIXEL_EMPTY || is_piece_pixel(s[i])
    }
}

pub open spec fn valid_field(s: Seq<u8>) -> bool {
    &&& s.len() == FIELD_SIZE
    &&& forall|i: int| 0 <= i < FIELD_SIZE ==> #[trigger] valid_pixel_at(s, i)
}

/// The field with its border and nothing else.
pub open spec fn empty_field() -> Seq<u8> {
    Seq::new(
        FIELD_SIZE as nat,
        |i: int|
            if on_border(col(i), row(i)) {
                PIXEL_BORDER
            } else {
                PIXEL_EMPTY
            },
    )
}

/// Local cell `(xb, yb)` of piece `b` at rotation `r`, anchored at `(x, y)`,
/// is solid and lands on an occupied cell inside the field.
pub open spec fn collides_at(s: Seq<u8>, b: int, r: int, x: int, y: int, xb: int, yb: int) -> bool {
    &&& in_bounds(x + xb, y + yb)
    &&& solid(b, rotated_index(xb, yb, r))
    &&& s[cell_index(x + xb, y + yb)] != PIXEL_EMPTY
}

/// No solid cell of the placed piece lands on an occupied cell inside the
/// field; cells that land outside the field are not looked at.
pub open spec fn fits(s: Seq<u8>, b: int, r: int, x: int, y: int) -> bool {
    forall|xb: int, yb: int|
        0 <= xb < BRICKMAX as int && 0 <= yb < BRICKMAX as int ==> !#[trigger] collides_at(
            s,
            b,
            r,
            x,
            y,
            xb,
            yb,
        )
}

/// Buffer index `i` is covered by a solid cell of piece `b` at rotation `r`
/// anchored at `(x, y)`.
pub open spec fn covered(b: int, r: int, x: int, y: int, i: int) -> bool {
    let xb = col(i) - x;
    let yb = row(i) - y;
    0 <= xb < BRICKMAX as int && 0 <= yb < BRICKMAX as int && solid(b, rotated_index(xb, yb, r))
}

/// The field after the piece is written into it.
pub open spec fn locked(s: Seq<u8>, b: int, r: int, x: int, y: int) -> Seq<u8> {
    Seq::new(
        FIELD_SIZE as nat,
        |i: int|
            if covered(b, r, x, y, i) {
                piece_pixel(b)
            } else {
                s[i]
            },
    )
}

/// Every playable cell of row `y` is occupied.
pub open spec fn row_full(s: Seq<u8>, y: int) -> bool {
    forall|x: int| playable_col(x) ==> #[trigger] s[cell_index(x, y)] != PIXEL_EMPTY
}

/// The field after row `k` is cut out: each playable cell of rows 1..=k takes
/// the cell above it, row 0 becomes empty, and the rest stays.
pub open spec fn shifted(s: Seq<u8>, k: int) -> Seq<u8> {
    Seq::new(
        FIELD_SIZE as nat,
        |i: int|
            if !playable_col(col(i)) || row(i) > k {
                s[i]
            } else if row(i) == 0 {
                PIXEL_EMPTY
            } else {
                s[i - XMAX as int]
            },
    )
}

/// One scan step at row `y`: cut the row out if it is full.
pub open spec fn scan_step(s: Seq<u8>, y: int) -> Seq<u8> {
    if row_full(s, y) {
        shifted(s, y)
    } else {
        s
    }
}

/// The field after scanning rows `y`, `y + 1`, ... above the bottom border,
/// top to bottom, cutting out each full row as it is met.
pub open spec fn clear_from(s: Seq<u8>, y: int) -> Seq<u8>
    decreases YMAX as int - 1 - y,
{
    if y < 0 || y >= YMAX as int - 1 {
        s
    } else {
        clear_from(scan_step(s, y), y + 1)
    }
}

/// The rows cut out by that scan, in the order met.
pub open spec fn cleared_rows_from(s: Seq<u8>, y: int) -> Seq<usize>
    decreases YMAX as int - 1 - y,
{
    if y < 0 || y >= YMAX as int - 1 {
        seq![]
    } else if row_full(s, y) {
        seq![y as usize] + cleared_rows_from(shifted(s, y), y + 1)
    } else {
        cleared_rows_from(s, y + 1)
    }
}

pub proof fn lemma_coords(x: int, y: int)
    requires
        0 <= x < XMAX as int,
        0 <= y,
    ensures
        col(cell_index(x, y)) == x,
        row(cell_index(x, y)) == y,
{
    assert((x + y * 12) % 12 == x && (x + y * 12) / 12 == y) by (nonlinear_arith)
        requires
            0 <= x < 12,
            0 <= y,
    ;
}

pub proof fn lemma_index(i: int)
    requires
        0 <= i < FIELD_SIZE,
    ensures
        i == cell_index(col(i), row(i)),
        in_bounds(col(i), row(i)),
{
}

/// The empty field satisfies the field invariant.
pub proof fn lemma_empty_field_valid()
    ensures
        valid_field(empty_field()),
{
    assert forall|i: int| 0 <= i < FIELD_SIZE implies #[trigger] valid_pixel_at(empty_field(), i) by {}
}

/// On the empty field every piece fits at rotation 0 with its anchor in the
/// top row and at least one column inside each side border.
pub proof fn lemma_fits_on_empty(b: int, x: int)
    requires
        1 <= x <= XMAX as int - 1 - BRICKMAX as int,
    ensures
        fits(empty_field(), b, 0, x, 0),
{
    assert forall|xb: int, yb: int| 0 <= xb < BRICKMAX as int && 0 <= yb < BRICKMAX as int implies !#[trigger] collides_at(
        empty_field(),
        b,
        0,
        x,
        0,
        xb,
        yb,
    ) by {
        lemma_coords(x + xb, yb);
    }
}

/// A placement whose solid cells all land inside the field, each on an empty
/// cell, does not collide.
pub proof fn lemma_free_placement_fits(s: Seq<u8>, b: int, r: int, x: int, y: int)
    requires
        s.len() == FIELD_SIZE,
        forall|xb: int, yb: int|
            0 <= xb < BRICKMAX as int && 0 <= yb < BRICKMAX as int && #[trigger] solid(b, rotated_index(xb, yb, r))
                ==> in_bounds(x + xb, y + yb) && s[cell_index(x + xb, y + yb)] == PIXEL_EMPTY,
    ensures
        fits(s, b, r, x, y),
{
    assert forall|xb: int, yb: int| 0 <= xb < BRICKMAX as int && 0 <= yb < BRICKMAX as int implies !#[trigger] collides_at(
        s,
        b,
        r,
        x,
        y,
        xb,
        yb,
    ) by {
        if solid(b, rotated_index(xb, yb, r)) {
        }
    }
}

/// A placement with one solid cell on an occupied cell inside the field
/// collides.
pub proof fn lemma_overlap_collides(s: Seq<u8>, b: int, r: int, x: int, y: int, xb: int, yb: int)
    requires
        0 <= xb < BRICKMAX as int,
        0 <= yb < BRICKMAX as int,
        in_bounds(x + xb, y + yb),
        solid(b, rotated_index(xb, yb, r)),
        s[cell_index(x + xb, y + yb)] != PIXEL_EMPTY,
    ensures
        !fits(s, b, r, x, y),
{
    assert(collides_at(s, b, r, x, y, xb, yb));
}

/// Cutting out full row `k` moves each playable cell of rows 0..k down one
/// row, empties the playable span of row 0, and keeps the border columns and
/// the rows below `k`.
pub proof fn lemma_clear_row_shifts(s: Seq<u8>, k: int)
    requires
        s.len() == FIELD_SIZE,
        0 <= k < YMAX as int - 1,
        row_full(s, k),
    ensures
        forall|x: int, y: int|
            playable_col(x) && 1 <= y <= k ==> #[trigger] shifted(s, k)[cell_index(x, y)] == s[cell_index(x, y - 1)],
        forall|x: int| playable_col(x) ==> #[trigger] shifted(s, k)[cell_index(x, 0)] == PIXEL_EMPTY,
        forall|x: int, y: int|
            in_bounds(x, y) && (!playable_col(x) || y > k) ==> #[trigger] shifted(s, k)[cell_index(x, y)] == s[cell_index(x, y)],
{
    assert forall|x: int, y: int| playable_col(x) && 1 <= y <= k implies #[trigger] shifted(s, k)[cell_index(x, y)] == s[cell_index(x, y - 1)] by {
        lemma_coords(x, y);
    }
    assert forall|x: int| playable_col(x) implies #[trigger] shifted(s, k)[cell_index(x, 0)] == PIXEL_EMPTY by {
        lemma_coords(x, 0);
    }
    assert forall|x: int, y: int| in_bounds(x, y) && (!playable_col(x) || y > k) implies #[trigger] shifted(s, k)[cell_index(x, y)] == s[cell_index(x, y)] by {
        lemma_coords(x, y);
    }
}

proof fn lemma_cleared_rows_at_least(s: Seq<u8>, y: int)
    requires
        s.len() == FIELD_SIZE,
        0 <= y,
    ensures
        forall|j: int| 0 <= j < cleared_rows_from(s, y).len() ==> #[trigger] cleared_rows_from(s, y)[j] >= y,
    decreases YMAX as int - 1 - y,
{
    if y < YMAX as int - 1 {
        if row_full(s, y) {
            let rest = cleared_rows_from(shifted(s, y), y + 1);
            lemma_cleared_rows_at_least(shifted(s, y), y + 1);
            assert forall|j: int| 0 <= j < cleared_rows_from(s, y).len() implies #[trigger] cleared_rows_from(s, y)[j] >= y by {
                if j > 0 {
                    assert(cleared_rows_from(s, y)[j] == rest[j - 1]);
                }
            }
        } else {
            lemma_cleared_rows_at_least(s, y + 1);
            assert(cleared_rows_from(s, y) == cleared_rows_from(s, y + 1));
        }
    } else {
        assert(cleared_rows_from(s, y).len() == 0);
    }
}

/// Cutting out row `y` leaves the rows below it as they were.
proof fn lemma_shift_keeps_lower_rows(s: Seq<u8>, y: int, y0: int)
    requires
        s.len() == FIELD_SIZE,
        0 <= y < y0 < YMAX as int,
    ensures
        row_full(shifted(s, y), y0) == row_full(s, y0),
{
    assert forall|x: int| playable_col(x) implies #[trigger] shifted(s, y)[cell_index(x, y0)] == s[cell_index(x, y0)] by {
        lemma_coords(x, y0);
    }
    if row_full(s, y0) {
        assert forall|x: int| playable_col(x) implies #[trigger] shifted(s, y)[cell_index(x, y0)] != PIXEL_EMPTY by {
            assert(s[cell_index(x, y0)] != PIXEL_EMPTY);
        }
    }
    if row_full(shifted(s, y), y0) {
        assert forall|x: int| playable_col(x) implies #[trigger] s[cell_index(x, y0)] != PIXEL_EMPTY by {
            assert(shifted(s, y)[cell_index(x, y0)] != PIXEL_EMPTY);
        }
    }
}

/// The scan from row `y` cuts out row `y0` (at or below `y`) exactly when
/// that row is full when the scan starts.
pub proof fn lemma_scan_finds_full_rows(s: Seq<u8>, y: int, y0: int)
    requires
        s.len() == FIELD_SIZE,
        0 <= y <= y0 < YMAX as int - 1,
    ensures
        cleared_rows_from(s, y).contains(y0 as usize) <==> row_full(s, y0),
    decreases YMAX as int - 1 - y,
{
    let full = row_full(s, y);
    let next = scan_step(s, y);
    lemma_cleared_rows_at_least(next, y + 1);
    if y < y0 {
        lemma_scan_finds_full_rows(next, y + 1, y0);
        if full {
            lemma_shift_keeps_lower_rows(s, y, y0);
            let rest = cleared_rows_from(next, y + 1);
            assert(cleared_rows_from(s, y) == seq![y as usize] + rest);
            if rest.contains(y0 as usize) {
                let j = choose|j: int| 0 <= j < rest.len() && rest[j] == y0 as usize;
                assert((seq![y as usize] + rest)[j + 1] == y0 as usize);
            }
        }
    } else {
        if full {
            assert(cleared_rows_from(s, y)[0] == y0 as usize);
        } else {
            assert(cleared_rows_from(s, y) == cleared_rows_from(s, y + 1));
        }
    }
}

/// After a piece is locked in, the scan for full rows cuts out a row exactly
/// when every playable cell of that row is occupied.
pub proof fn lemma_rescan_after_lock(s: Seq<u8>, b: int, r: int, x: int, y: int, y0: int)
    requires
        valid_field(s),
        0 <= y0 < YMAX as int - 1,
    ensures
        cleared_rows_from(locked(s, b, r, x, y), 0).contains(y0 as usize) <==> (forall|cx: int|
            playable_col(cx) ==> #[trigger] locked(s, b, r, x, y)[cell_index(cx, y0)] != PIXEL_EMPTY),
{
    lemma_scan_finds_full_rows(locked(s, b, r, x, y), 0, y0);
}

/// Base `base` moved by `d`, if the result lies in `0..limit`.
fn offset(base: isize, d: usize, limit: usize) -> (r: Option<usize>)
    requires
        d < BRICKMAX,
        limit <= FIELD_SIZE,
    ensures
        r == (if 0 <= base + d < limit {
            Some((base + d) as usize)
        } else {
            None::<usize>
        }),
{
    let di = d as isize;
    if base >= -di && base < limit as isize - di {
        Some((base + di) as usize)
    } else {
        None
    }
}

/// The cells `cells` with every solid cell of piece `brick` at rotation `r`,
/// anchored at `(x_brick, y_brick)`, written in as the piece's code.
fn overlay(cells: &Vec<u8>, brick: usize, r: usize, x_brick: isize, y_brick: isize) -> (v: Vec<u8>)
    requires
        cells.len() == FIELD_SIZE,
        brick < BRICK_COUNT,
    ensures
        v@ == locked(cells@, brick as int, r as int, x_brick as int, y_brick as int),
{
    let ghost target = locked(cells@, brick as int, r as int, x_brick as int, y_brick as int);
    let mut v: Vec<u8> = Vec::new();
    let mut i: usize = 0;
    while i < FIELD_SIZE
        invariant
            i <= FIELD_SIZE,
            brick < BRICK_COUNT,
            cells.len() == FIELD_SIZE,
            target == locked(cells@, brick as int, r as int, x_brick as int, y_brick as int),
            v@ == target.subrange(0, i as int),
        decreases FIELD_SIZE - i,
    {
        let cx = i % XMAX;
        let cy = i / XMAX;
        let mut p = cells[i];
        if x_brick <= cx as isize && cx as isize - 4 < x_brick && y_brick <= cy as isize
            && cy as isize - 4 < y_brick {
            let xb = (cx as isize - x_brick) as usize;
            let yb = (cy as isize - y_brick) as usize;
            if is_solid(brick, rotate(xb, yb, r)) {
                p = PIXEL_PIECE_BASE + brick as u8;
            }
        }
        v.push(p);
        i = i + 1;
        assert(v@ =~= target.subrange(0, i as int));
    }
    assert(v@ =~= target);
    v
}

/// How a cell is drawn.
#[derive(Clone, Copy, Debug, PartialEq, Eq, Structural)]
pub enum Glyph {
    /// An empty cell.
    Blank,
    /// A border cell.
    Border,
    /// A settled or falling cell, in the colour of its piece.
    Block(Hue),
}

pub open spec fn glyph_of(p: u8) -> Glyph {
    if is_piece_pixel(p) {
        Glyph::Block(hue_of(p - PIXEL_PIECE_BASE))
    } else if p == PIXEL_BORDER {
        Glyph::Border
    } else {
        Glyph::Blank
    }
}

/// How a pixel code is drawn.
pub fn pixel_glyph(p: u8) -> (g: Glyph)
    ensures
        g == glyph_of(p),
{
    if PIXEL_PIECE_BASE <= p && p < PIXEL_PIECE_BASE + BRICK_COUNT as u8 {
        Glyph::Block(piece_hue((p - PIXEL_PIECE_BASE) as usize))
    } else if p == PIXEL_BORDER {
        Glyph::Border
    } else {
        Glyph::Blank
    }
}

/// The indices at which two frames differ, in increasing order.
pub fn changed_cells(prev: &Vec<u8>, cur: &Vec<u8>) -> (idx: Vec<usize>)
    requires
        prev.len() == cur.len(),
    ensures
        forall|k: int| 0 <= k < idx.len() ==> #[trigger] idx@[k] < cur.len() && prev@[idx@[k] as int] != cur@[idx@[k] as int],
        forall|k: int, l: int| 0 <= k < l < idx.len() ==> idx@[k] < idx@[l],
        forall|i: int| 0 <= i < cur.len() && prev@[i] != cur@[i] ==> idx@.contains(i as usize),
{
    let mut idx: Vec<usize> = Vec::new();
    let mut i: usize = 0;
    while i < cur.len()
        invariant
            i <= cur.len(),
            prev.len() == cur.len(),
            forall|k: int| 0 <= k < idx.len() ==> #[trigger] idx@[k] < i && prev@[idx@[k] as int] != cur@[idx@[k] as int],
            forall|k: int, l: int| 0 <= k < l < idx.len() ==> idx@[k] < idx@[l],
            forall|j: int| 0 <= j < i && prev@[j] != cur@[j] ==> idx@.contains(j as usize),
        decreases cur.len() - i,
    {
        let ghost before = idx@;
        if prev[i] != cur[i] {
            idx.push(i);
        }
        assert forall|j: int| 0 <= j <= i && prev@[j] != cur@[j] implies idx@.contains(j as usize) by {
            if j < i {
                let k = choose|k: int| 0 <= k < before.len() && before[k] == j as usize;
                assert(idx@[k] == j as usize);
            } else {
                assert(idx@[idx.len() - 1] == i);
            }
        }
        i = i + 1;
    }
    idx
}

/// The play field, border included.
pub struct Field {
    cells: Vec<u8>,
}

impl View for Field {
    type V = Seq<u8>;

    closed spec fn view(&self) -> Seq<u8> {
        self.cells@
    }
}

impl Field {
    #[verifier::type_invariant]
    closed spec fn inv(&self) -> bool {
        valid_field(self.cells@)
    }

    /// A field holding its border and nothing else.
    pub fn new() -> (f: Field)
        ensures
            f@ == empty_field(),
    {
        let mut cells: Vec<u8> = Vec::new();
        let mut i: usize = 0;
        while i < FIELD_SIZE
            invariant
                i <= FIELD_SIZE,
                cells@ == empty_field().subrange(0, i as int),
            decreases FIELD_SIZE - i,
        {
            let x = i % XMAX;
            let y = i / XMAX;
            if x == 0 || x == XMAX - 1 || y == YMAX - 1 {
                cells.push(PIXEL_BORDER);
            } else {
                cells.push(PIXEL_EMPTY);
            }
            i = i + 1;
            assert(cells@ =~= empty_field().subrange(0, i as int));
        }
        assert(cells@ =~= empty_field());
        Field { cells }
    }

    /// The pixel code at column `x`, row `y`.
    pub fn get(&self, x: usize, y: usize) -> (p: u8)
        requires
            x < XMAX,
            y < YMAX,
        ensures
            p == self@[cell_index(x as int, y as int)],
    {
        proof {
            use_type_invariant(self);
        }
        self.cells[x + y * XMAX]
    }
    /// The field's cells, row by row.
    pub fn cells(&self) -> (c: &Vec<u8>)
        ensures
            c@ == self@,
    {
        &self.cells
    }

    /// The cells with piece `brick` at rotation `r`, anchored at
    /// `(x_brick, y_brick)`, drawn in; the field itself stays.
    pub fn with_piece(&self, brick: usize, r: usize, x_brick: isize, y_brick: isize) -> (v: Vec<u8>)
        requires
            brick < BRICK_COUNT,
        ensures
            v@ == locked(self@, brick as int, r as int, x_brick as int, y_brick as int),
    {
        proof {
            use_type_invariant(self);
        }
        overlay(&self.cells, brick, r, x_brick, y_brick)
    }

    /// Writes settled pixel code `p` at playable cell `(x, y)`.
    pub fn set(&mut self, x: usize, y: usize, p: u8)
        requires
            playable_col(x as int),
            y < YMAX - 1,
            p == PIXEL_EMPTY || is_piece_pixel(p),
        ensures
            final(self)@ == old(self)@.update(cell_index(x as int, y as int), p),
            valid_field(final(self)@),
    {
        proof {
            use_type_invariant(&*self);
            lemma_coords(x as int, y as int);
        }
        let i = x + y * XMAX;
        let ghost s = self@;
        let mut cells = self.cells.clone();
        cells.set(i, p);
        assert forall|j: int| 0 <= j < FIELD_SIZE implies #[trigger] valid_pixel_at(cells@, j) by {
            assert(valid_pixel_at(s, j));
        }
        self.cells = cells;
    }

    /// Writes every solid cell of piece `brick` at rotation `r`, anchored at
    /// `(x_brick, y_brick)`, into the field as the piece's code. Cells that
    /// land outside the field are dropped.
    pub fn lock(&mut self, brick: usize, r: usize, x_brick: isize, y_brick: isize)
        requires
            brick < BRICK_COUNT,
            fits(old(self)@, brick as int, r as int, x_brick as int, y_brick as int),
        ensures
            final(self)@ == locked(old(self)@, brick as int, r as int, x_brick as int, y_brick as int),
            valid_field(final(self)@),
    {
        proof {
            use_type_invariant(&*self);
        }
        let ghost s = self@;
        let cells = overlay(&self.cells, brick, r, x_brick, y_brick);
        assert forall|i: int| 0 <= i < FIELD_SIZE implies #[trigger] valid_pixel_at(cells@, i) by {
            assert(valid_pixel_at(s, i));
            if covered(brick as int, r as int, x_brick as int, y_brick as int, i) {
                lemma_index(i);
                assert(!collides_at(
                    s,
                    brick as int,
                    r as int,
                    x_brick as int,
                    y_brick as int,
                    col(i) - x_brick,
                    row(i) - y_brick,
                ));
            }
        }
        self.cells = cells;
    }

    /// Whether every playable cell of row `y` is occupied.
    pub fn row_is_full(&self, y: usize) -> (full: bool)
        requires
            y < YMAX,
        ensures
            full == row_full(self@, y as int),
    {
        proof {
            use_type_invariant(self);
        }
        let mut x: usize = 1;
        while x < XMAX - 1
            invariant
                1 <= x <= XMAX - 1,
                y < YMAX,
                self@.len() == FIELD_SIZE,
                forall|x2: int| 1 <= x2 < x ==> #[trigger] self@[cell_index(x2, y as int)] != PIXEL_EMPTY,
            decreases XMAX - x,
        {
            if self.get(x, y) == PIXEL_EMPTY {
                return false;
            }
            x = x + 1;
        }
        true
    }

    /// Cuts row `k` out: each playable cell of rows 1..=k takes the cell above
    /// it and row 0 becomes empty; the border and the rows below stay.
    pub fn clear_row(&mut self, k: usize)
        requires
            k < YMAX - 1,
        ensures
            final(self)@ == shifted(old(self)@, k as int),
            valid_field(final(self)@),
    {
        proof {
            use_type_invariant(&*self);
        }
        let ghost s = self@;
        let mut cells: Vec<u8> = Vec::new();
        let mut i: usize = 0;
        while i < FIELD_SIZE
            invariant
                i <= FIELD_SIZE,
                self@ == s,
                s.len() == FIELD_SIZE,
                cells@ == shifted(s, k as int).subrange(0, i as int),
            decreases FIELD_SIZE - i,
        {
            let cx = i % XMAX;
            let cy = i / XMAX;
            let v = if cx == 0 || cx == XMAX - 1 || cy > k {
                self.cells[i]
            } else if cy == 0 {
                PIXEL_EMPTY
            } else {
                self.cells[i - XMAX]
            };
            cells.push(v);
            i = i + 1;
            assert(cells@ =~= shifted(s, k as int).subrange(0, i as int));
        }
        assert(cells@ =~= shifted(s, k as int));
        assert forall|i: int| 0 <= i < FIELD_SIZE implies #[trigger] valid_pixel_at(cells@, i) by {
            assert(valid_pixel_at(s, i));
            if i >= XMAX {
                assert(valid_pixel_at(s, i - XMAX as int));
            }
        }
        self.cells = cells;
    }

    /// Scans the rows above the bottom border top to bottom and cuts out each
    /// full row as it is met. Returns the rows cut out, in that order.
    pub fn clear_full_rows(&mut self) -> (rows: Vec<usize>)
        ensures
            final(self)@ == clear_from(old(self)@, 0),
            rows@ == cleared_rows_from(old(self)@, 0),
            valid_field(final(self)@),
    {
        let ghost s = self@;
        let mut rows: Vec<usize> = Vec::new();
        let mut y: usize = 0;
        while y < YMAX - 1
            invariant
                y <= YMAX - 1,
                clear_from(self@, y as int) == clear_from(s, 0),
                rows@ + cleared_rows_from(self@, y as int) == cleared_rows_from(s, 0),
            decreases YMAX - 1 - y,
        {
            let ghost before = self@;
            let ghost rest = cleared_rows_from(shifted(before, y as int), y + 1);
            if self.row_is_full(y) {
                self.clear_row(y);
                rows.push(y);
                assert(rows@ + rest =~= rows@.drop_last() + (seq![y] + rest));
            }
            y = y + 1;
        }
        proof {
            use_type_invariant(&*self);
        }
        rows
    }
}

/// Whether piece `brick` at rotation `r` anchored at `(x_brick, y_brick)`
/// lands no solid cell on an occupied cell of the field.
pub fn no_collision(field: &Field, brick: usize, r: usize, x_brick: isize, y_brick: isize) -> (ok: bool)
    requires
        brick < BRICK_COUNT,
    ensures
        ok == fits(field@, brick as int, r as int, x_brick as int, y_brick as int),
{
    proof {
        use_type_invariant(field);
    }
    let ghost s = field@;
    let mut yb: usize = 0;
    while yb < BRICKMAX
        invariant
            yb <= BRICKMAX,
            brick < BRICK_COUNT,
            s == field@,
            s.len() == FIELD_SIZE,
            forall|xb2: int, yb2: int|
                0 <= xb2 < BRICKMAX as int && 0 <= yb2 < yb ==> !#[trigger] collides_at(
                    s,
                    brick as int,
                    r as int,
                    x_brick as int,
                    y_brick as int,
                    xb2,
                    yb2,
                ),
        decreases BRICKMAX - yb,
    {
        let mut xb: usize = 0;
        while xb < BRICKMAX
            invariant
                xb <= BRICKMAX,
                yb < BRICKMAX,
                brick < BRICK_COUNT,
                s == field@,
                s.len() == FIELD_SIZE,
                forall|xb2: int, yb2: int|
                    0 <= xb2 < BRICKMAX as int && 0 <= yb2 < yb ==> !#[trigger] collides_at(
                        s,
                        brick as int,
                        r as int,
                        x_brick as int,
                        y_brick as int,
                        xb2,
                        yb2,
                    ),
                forall|xb2: int|
                    0 <= xb2 < xb ==> !#[trigger] collides_at(
                        s,
                        brick as int,
                        r as int,
                        x_brick as int,
                        y_brick as int,
                        xb2,
                        yb as int,
                    ),
            decreases BRICKMAX - xb,
        {
            let brick_idx = rotate(xb, yb, r);
            match (offset(x_brick, xb, XMAX), offset(y_brick, yb, YMAX)) {
                (Some(cx), Some(cy)) => {
                    if is_solid(brick, brick_idx) && field.get(cx, cy) != PIXEL_EMPTY {
                        assert(collides_at(
                            s,
                            brick as int,
                            r as int,
                            x_brick as int,
                            y_brick as int,
                            xb as int,
                            yb as int,
                        ));
                        return false;
                    }
                },
                _ => {},
            }
            xb = xb + 1;
        }
        yb = yb + 1;
    }
    true
}

} // verus!
