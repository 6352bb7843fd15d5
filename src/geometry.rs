//! Pixel-space geometry of sprite-sheet cells: cropping a cell out of a grid,
//! the tight bounds of its opaque pixels, and the change to world space.
//!
//! World coordinates are exact rationals. A frame carries one denominator,
//! `5 * cell_width` (twice the scale factor `2.5 * cell_width`), and every world
//! coordinate or size of that frame is stored as an integer numerator over it.
//! World space has its origin at the cell's centre and y pointing up.
use vstd::prelude::*;

verus! {

/// A rectangle in pixels: origin top-left, y pointing down.
#[derive(Clone, Copy, Debug, PartialEq, Eq, Structural)]
pub struct PixelRect {
    pub x: u32,
    pub y: u32,
    pub width: u32,
    pub height: u32,
}

/// Bounds of the opaque pixels of a cell, in cell-local pixels; `max_*` is exclusive.
#[derive(Clone, Copy, Debug, PartialEq, Eq, Structural)]
pub struct PixelBounds {
    pub min_x: u32,
    pub min_y: u32,
    pub max_x: u32,
    pub max_y: u32,
}

/// An axis-aligned box in world space, as numerators over the frame's `unit`.
#[derive(Clone, Copy, Debug, PartialEq, Eq, Structural)]
pub struct WorldBox {
    pub min_x: i64,
    pub min_y: i64,
    pub max_x: i64,
    pub max_y: i64,
}

/// A decoded sprite sheet, keyed by its texture name. Only the alpha channel is
/// kept, one byte per pixel, row by row.
pub struct SheetImage {
    pub texture: String,
    pub width: u32,
    pub height: u32,
    pub alpha: Vec<u8>,
}

impl SheetImage {
    /// One alpha byte for every pixel.
    pub open spec fn wf(&self) -> bool {
        self.alpha@.len() == self.width as int * self.height as int
    }

    pub open spec fn alpha_at(&self, x: int, y: int) -> u8 {
        self.alpha@[y * self.width + x]
    }
}

/// The cell at row-major `index` of a `count_x` by `count_y` grid laid over a
/// `width` by `height` sheet. Cell sizes are rounded down.
pub open spec fn cell_rect(width: u32, height: u32, count_x: u32, count_y: u32, index: int) -> PixelRect {
    let cw = width / count_x;
    let ch = height / count_y;
    PixelRect {
        x: (cw * (index % count_x as int)) as u32,
        y: (ch * (index / count_x as int)) as u32,
        width: cw,
        height: ch,
    }
}

/// The cell lies inside the sheet.
pub open spec fn rect_within(r: PixelRect, img: SheetImage) -> bool {
    r.x + r.width <= img.width && r.y + r.height <= img.height
}

/// Cell-local pixel `(x, y)` of `cell` is inside the cell and not fully transparent.
pub open spec fn opaque(img: SheetImage, cell: PixelRect, x: int, y: int) -> bool {
    0 <= x < cell.width && 0 <= y < cell.height && img.alpha_at(cell.x + x, cell.y + y) != 0
}

pub open spec fn has_opaque(img: SheetImage, cell: PixelRect) -> bool {
    exists|x: int, y: int| #[trigger] opaque(img, cell, x, y)
}

/// The bounds given to a cell without any opaque pixel: minimum at the last
/// pixel, maximum at zero, an empty box.
pub open spec fn empty_bounds(cell: PixelRect) -> PixelBounds {
    PixelBounds {
        min_x: (cell.width - 1) as u32,
        min_y: (cell.height - 1) as u32,
        max_x: 0,
        max_y: 0,
    }
}

/// `b` is the tightest box around the opaque pixels of `cell`.
pub open spec fn is_tight(img: SheetImage, cell: PixelRect, b: PixelBounds) -> bool {
    if has_opaque(img, cell) {
        &&& forall|x: int, y: int|
            #[trigger] opaque(img, cell, x, y) ==> b.min_x <= x < b.max_x && b.min_y <= y < b.max_y
        &&& exists|y: int| #[trigger] opaque(img, cell, b.min_x as int, y)
        &&& exists|y: int| #[trigger] opaque(img, cell, b.max_x - 1, y)
        &&& exists|x: int| #[trigger] opaque(img, cell, x, b.min_y as int)
        &&& exists|x: int| #[trigger] opaque(img, cell, x, b.max_y - 1)
    } else {
        b == empty_bounds(cell)
    }
}

/// The tight bounds of the opaque pixels of `cell` (unique: see `lemma_tight_unique`).
pub open spec fn tight_bounds(img: SheetImage, cell: PixelRect) -> PixelBounds {
    choose|b: PixelBounds| is_tight(img, cell, b)
}

/// World x of pixel column `px` in a cell `cw` wide, over the unit `5 * cw`.
pub open spec fn world_x(px: int, cw: int) -> int {
    2 * px - cw
}

/// World y of pixel row `py` in a cell `ch` high, over the unit `5 * cw`.
pub open spec fn world_y(py: int, ch: int) -> int {
    ch - 2 * py
}

/// The hurtbox of a cell `cw` by `ch` whose opaque pixels lie in `b`.
pub open spec fn hurtbox_of(b: PixelBounds, cw: int, ch: int) -> WorldBox {
    WorldBox {
        min_x: world_x(b.min_x as int, cw) as i64,
        min_y: world_y(b.max_y as int, ch) as i64,
        max_x: world_x(b.max_x as int, cw) as i64,
        max_y: world_y(b.min_y as int, ch) as i64,
    }
}

/// The hitbox of an authored cell-local rectangle `r` in a cell `cw` by `ch`.
pub open spec fn hitbox_of(r: PixelRect, cw: int, ch: int) -> WorldBox {
    WorldBox {
        min_x: world_x(r.x as int, cw) as i64,
        min_y: world_y(r.y + r.height, ch) as i64,
        max_x: world_x(r.x + r.width, cw) as i64,
        max_y: world_y(r.y as int, ch) as i64,
    }
}

/// Two tight boxes of one cell are the same box.
pub proof fn lemma_tight_unique(img: SheetImage, cell: PixelRect, b1: PixelBounds, b2: PixelBounds)
    requires
        is_tight(img, cell, b1),
        is_tight(img, cell, b2),
    ensures
        b1 == b2,
{
    if has_opaque(img, cell) {
        let y1 = choose|y: int| #[trigger] opaque(img, cell, b1.min_x as int, y);
        let y2 = choose|y: int| #[trigger] opaque(img, cell, b2.min_x as int, y);
        let y3 = choose|y: int| #[trigger] opaque(img, cell, b1.max_x - 1, y);
        let y4 = choose|y: int| #[trigger] opaque(img, cell, b2.max_x - 1, y);
        let x1 = choose|x: int| #[trigger] opaque(img, cell, x, b1.min_y as int);
        let x2 = choose|x: int| #[trigger] opaque(img, cell, x, b2.min_y as int);
        let x3 = choose|x: int| #[trigger] opaque(img, cell, x, b1.max_y - 1);
        let x4 = choose|x: int| #[trigger] opaque(img, cell, x, b2.max_y - 1);
        assert(opaque(img, cell, b1.min_x as int, y1));
        assert(opaque(img, cell, b2.min_x as int, y2));
        assert(opaque(img, cell, b1.max_x - 1, y3));
        assert(opaque(img, cell, b2.max_x - 1, y4));
        assert(opaque(img, cell, x1, b1.min_y as int));
        assert(opaque(img, cell, x2, b2.min_y as int));
        assert(opaque(img, cell, x3, b1.max_y - 1));
        assert(opaque(img, cell, x4, b2.max_y - 1));
    }
}

proof fn lemma_pixel_in_sheet(row: int, col: int, width: int, height: int)
    requires
        0 <= row < height,
        0 <= col < width,
    ensures
        0 <= row * width + col < width * height,
{
    assert(row * width + col < width * height) by (nonlinear_arith)
        requires
            0 <= row < height,
            0 <= col < width,
    ;
    assert(0 <= row * width) by (nonlinear_arith)
        requires
            0 <= row,
            0 <= col < width,
    ;
}

/// The cell at `index` of the grid; it lies inside the sheet.
pub fn cell_at(img: &SheetImage, count_x: u32, count_y: u32, index: u64) -> (r: PixelRect)
    requires
        count_x > 0,
        count_y > 0,
        index / (count_x as u64) < count_y,
    ensures
        r == cell_rect(img.width, img.height, count_x, count_y, index as int),
        rect_within(r, *img),
{
    let cw = img.width / count_x;
    let ch = img.height / count_y;
    let col = index % (count_x as u64);
    let row = index / (count_x as u64);
    proof {
        let (w, h, cx, cy) = (img.width as int, img.height as int, count_x as int, count_y as int);
        assert(cw * (col + 1) <= w) by (nonlinear_arith)
            requires
                cw == w / cx,
                0 <= col < cx,
                cx > 0,
                w >= 0,
        {
            assert(cw * cx <= w);
            assert(cw * (col + 1) <= cw * cx);
        }
        assert(cw * col + cw == cw * (col + 1)) by (nonlinear_arith);
        assert(ch * (row + 1) <= h) by (nonlinear_arith)
            requires
                ch == h / cy,
                0 <= row < cy,
                cy > 0,
                h >= 0,
        {
            assert(ch * cy <= h);
            assert(ch * (row + 1) <= ch * cy);
        }
        assert(ch * row + ch == ch * (row + 1)) by (nonlinear_arith);
        assert(cw * col >= 0) by (nonlinear_arith)
            requires
                cw >= 0,
                col >= 0,
        ;
        assert(ch * row >= 0) by (nonlinear_arith)
            requires
                ch >= 0,
                row >= 0,
        ;
    }
    let x = (cw as u64) * col;
    let y = (ch as u64) * row;
    assert(x <= img.width && y <= img.height);
    PixelRect { x: x as u32, y: y as u32, width: cw, height: ch }
}

/// Scans every pixel of `cell` and returns the tight box around the opaque
/// ones; for a fully transparent cell, the empty bounds.
pub fn opaque_bounds(img: &SheetImage, cell: PixelRect) -> (r: PixelBounds)
    requires
        img.wf(),
        cell.width > 0,
        cell.height > 0,
        rect_within(cell, *img),
    ensures
        is_tight(*img, cell, r),
        r == tight_bounds(*img, cell),
{
    let ghost g = *img;
    let mut min_x: u32 = cell.width - 1;
    let mut max_x: u32 = 0;
    let mut min_y: u32 = cell.height - 1;
    let mut max_y: u32 = 0;
    let mut found = false;
    let total = img.alpha.len();
    let mut y: u32 = 0;
    while y < cell.height
        invariant
            g == *img,
            img.wf(),
            total == img.alpha@.len(),
            cell.width > 0,
            cell.height > 0,
            rect_within(cell, *img),
            y <= cell.height,
            max_x <= cell.width,
            max_y <= cell.height,
            min_x < cell.width,
            min_y < cell.height,
            found == exists|px: int, py: int| py < y && #[trigger] opaque(g, cell, px, py),
            forall|px: int, py: int|
                py < y && #[trigger] opaque(g, cell, px, py) ==> min_x <= px < max_x && min_y <= py < max_y,
            found ==> exists|py: int| #[trigger] opaque(g, cell, min_x as int, py),
            found ==> exists|py: int| #[trigger] opaque(g, cell, max_x - 1, py),
            found ==> exists|px: int| #[trigger] opaque(g, cell, px, min_y as int),
            found ==> exists|px: int| #[trigger] opaque(g, cell, px, max_y - 1),
            !found ==> (PixelBounds { min_x, min_y, max_x, max_y }) == empty_bounds(cell),
        decreases cell.height - y,
    {
        let mut x: u32 = 0;
        while x < cell.width
            invariant
                g == *img,
                img.wf(),
                total == img.alpha@.len(),
                cell.width > 0,
                cell.height > 0,
                rect_within(cell, *img),
                y < cell.height,
                x <= cell.width,
                max_x <= cell.width,
                max_y <= cell.height,
                min_x < cell.width,
                min_y < cell.height,
                found == exists|px: int, py: int|
                    (py < y || (py == y && px < x)) && #[trigger] opaque(g, cell, px, py),
                forall|px: int, py: int|
                    (py < y || (py == y && px < x)) && #[trigger] opaque(g, cell, px, py) ==> min_x
                        <= px < max_x && min_y <= py < max_y,
                found ==> exists|py: int| #[trigger] opaque(g, cell, min_x as int, py),
                found ==> exists|py: int| #[trigger] opaque(g, cell, max_x - 1, py),
                found ==> exists|px: int| #[trigger] opaque(g, cell, px, min_y as int),
                found ==> exists|px: int| #[trigger] opaque(g, cell, px, max_y - 1),
                !found ==> (PixelBounds { min_x, min_y, max_x, max_y }) == empty_bounds(cell),
            decreases cell.width - x,
        {
            let row = cell.y as usize + y as usize;
            let col = cell.x as usize + x as usize;
            proof {
                lemma_pixel_in_sheet(row as int, col as int, img.width as int, img.height as int);
            }
            let a = img.alpha[row * (img.width as usize) + col];
            if a != 0 {
                assert(opaque(g, cell, x as int, y as int));
                if x < min_x {
                    min_x = x;
                }
                if x + 1 > max_x {
                    max_x = x + 1;
                    assert(opaque(g, cell, max_x - 1, y as int));
                }
                if y < min_y {
                    min_y = y;
                }
                if y + 1 > max_y {
                    max_y = y + 1;
                    assert(opaque(g, cell, x as int, max_y - 1));
                }
                found = true;
            } else {
                assert(!opaque(g, cell, x as int, y as int));
            }
            x = x + 1;
        }
        y = y + 1;
    }
    let r = PixelBounds { min_x, min_y, max_x, max_y };
    assert(has_opaque(g, cell) == found);
    if found {
        assert(forall|px: int, py: int|
            #[trigger] opaque(g, cell, px, py) ==> r.min_x <= px < r.max_x && r.min_y <= py < r.max_y);
    }
    assert(is_tight(g, cell, r));
    proof {
        lemma_tight_unique(g, cell, r, tight_bounds(g, cell));
    }
    r
}

/// The hurtbox of a cell `cw` by `ch` whose opaque pixels lie in `b`.
pub fn hurtbox_from_bounds(b: PixelBounds, cw: u32, ch: u32) -> (r: WorldBox)
    ensures
        r == hurtbox_of(b, cw as int, ch as int),
{
    WorldBox {
        min_x: 2 * (b.min_x as i64) - cw as i64,
        min_y: ch as i64 - 2 * (b.max_y as i64),
        max_x: 2 * (b.max_x as i64) - cw as i64,
        max_y: ch as i64 - 2 * (b.min_y as i64),
    }
}

/// The hitbox of the authored cell-local rectangle `rect` in a cell `cw` by `ch`.
pub fn hitbox_from_rect(rect: PixelRect, cw: u32, ch: u32) -> (r: WorldBox)
    ensures
        r == hitbox_of(rect, cw as int, ch as int),
{
    let left = rect.x as i64;
    let top = rect.y as i64;
    WorldBox {
        min_x: 2 * left - cw as i64,
        min_y: ch as i64 - 2 * (top + rect.height as i64),
        max_x: 2 * (left + rect.width as i64) - cw as i64,
        max_y: ch as i64 - 2 * top,
    }
}

} // verus!
