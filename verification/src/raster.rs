//! Nearest-neighbour sampling of grayscale frames onto braille dots and
//! terminal cells.
//!
//! A frame is a row-major buffer of `src_w × src_h` luminance bytes.  A
//! target of `tw × th` points (dots or cells) samples, for point `(x, y)`,
//! the source pixel `(x·src_w / tw, y·src_h / th)`.

use vstd::prelude::*;
use dotmax::BrailleGrid;
use crate::grid::{grid_dimensions, grid_set_dot, grid_chars, grid_colors, grid_dots, grid_height, grid_size, grid_width, no_dots};

verus! {

/// Row-major index of the source pixel that point `(x, y)` of a `tw × th`
/// target samples from a `src_w × src_h` frame.
pub open spec fn sample_index(x: int, y: int, tw: int, th: int, src_w: int, src_h: int) -> int {
    (y * src_h / th) * src_w + x * src_w / tw
}

/// The byte that point `(x, y)` samples, or 0 when its index falls outside
/// the frame.
pub open spec fn sample_value(
    frame: Seq<u8>,
    x: int,
    y: int,
    tw: int,
    th: int,
    src_w: int,
    src_h: int,
) -> u8 {
    let i = sample_index(x, y, tw, th, src_w, src_h);
    if 0 <= i < frame.len() {
        frame[i]
    } else {
        0
    }
}

/// Whether dot `(x, y)` of a `dot_w × dot_h` dot area is lit: its sampled
/// pixel lies inside the frame and is brighter than `threshold`.
pub open spec fn dot_lit(
    frame: Seq<u8>,
    x: int,
    y: int,
    dot_w: int,
    dot_h: int,
    src_w: int,
    src_h: int,
    threshold: u8,
) -> bool {
    let i = sample_index(x, y, dot_w, dot_h, src_w, src_h);
    0 <= i < frame.len() && frame[i] > threshold
}

/// The lit dots among those of row `< row`, or of row `row` and column
/// `< col`.
pub open spec fn lit_dots_before(
    frame: Seq<u8>,
    dot_w: int,
    dot_h: int,
    src_w: int,
    src_h: int,
    threshold: u8,
    row: int,
    col: int,
) -> Set<(int, int)> {
    Set::new(
        |p: (int, int)|
            0 <= p.0 < dot_w && 0 <= p.1 < dot_h && (p.1 < row || (p.1 == row && p.0 < col))
                && dot_lit(frame, p.0, p.1, dot_w, dot_h, src_w, src_h, threshold),
    )
}

/// Every lit dot of the `dot_w × dot_h` dot area.
pub open spec fn lit_dots(
    frame: Seq<u8>,
    dot_w: int,
    dot_h: int,
    src_w: int,
    src_h: int,
    threshold: u8,
) -> Set<(int, int)> {
    Set::new(
        |p: (int, int)|
            0 <= p.0 < dot_w && 0 <= p.1 < dot_h && dot_lit(
                frame,
                p.0,
                p.1,
                dot_w,
                dot_h,
                src_w,
                src_h,
                threshold,
            ),
    )
}

/// The samples of a `cols × rows` cell target in row-major order.
pub open spec fn cell_sample_seq(
    frame: Seq<u8>,
    cols: int,
    rows: int,
    src_w: int,
    src_h: int,
) -> Seq<u8> {
    Seq::new(
        (cols * rows) as nat,
        |i: int| sample_value(frame, i % cols, i / cols, cols, rows, src_w, src_h),
    )
}

/// Sum of the bytes of a sequence.
pub open spec fn byte_sum(s: Seq<u8>) -> nat
    decreases s.len(),
{
    if s.len() == 0 {
        0
    } else {
        byte_sum(s.drop_last()) + s.last() as nat
    }
}

/// Mean brightness of a frame, rounded down; 0 for an empty frame.
pub open spec fn mean_brightness(s: Seq<u8>) -> int {
    if s.len() == 0 {
        0
    } else {
        byte_sum(s) as int / s.len() as int
    }
}

proof fn byte_sum_bound(s: Seq<u8>)
    ensures
        byte_sum(s) <= 255 * s.len(),
    decreases s.len(),
{
    if s.len() > 0 {
        byte_sum_bound(s.drop_last());
    }
}

/// The source index sampled by point `(x, y)`, computed without overflow.
fn source_index(x: usize, y: usize, tw: usize, th: usize, src_w: usize, src_h: usize) -> (i: u128)
    requires
        tw > 0,
        th > 0,
        x < tw,
        y < th,
    ensures
        i as int == sample_index(x as int, y as int, tw as int, th as int, src_w as int, src_h as int),
{
    assert(x as int * src_w as int <= 0xffff_ffff_ffff_ffff * 0xffff_ffff_ffff_ffff)
        by (nonlinear_arith)
        requires
            x <= 0xffff_ffff_ffff_ffff,
            src_w <= 0xffff_ffff_ffff_ffff,
    ;
    assert(y as int * src_h as int <= 0xffff_ffff_ffff_ffff * 0xffff_ffff_ffff_ffff)
        by (nonlinear_arith)
        requires
            y <= 0xffff_ffff_ffff_ffff,
            src_h <= 0xffff_ffff_ffff_ffff,
    ;
    let xw: u128 = x as u128 * src_w as u128;
    let yh: u128 = y as u128 * src_h as u128;
    let sx: u128 = xw / tw as u128;
    let sy: u128 = yh / th as u128;
    assert(sy <= src_h) by (nonlinear_arith)
        requires
            sy as int == (y as int * src_h as int) / th as int,
            y < th,
            yh as int == y as int * src_h as int,
    {
        assert(y * src_h <= th * src_h);
    }
    assert(sx <= src_w) by (nonlinear_arith)
        requires
            sx as int == (x as int * src_w as int) / tw as int,
            x < tw,
    {
        assert(x * src_w <= tw * src_w);
    }
    assert(sy * src_w <= src_h * src_w) by (nonlinear_arith)
        requires
            sy <= src_h,
    ;
    assert(src_h * src_w < 0x1_0000_0000_0000_0000 * 0x1_0000_0000_0000_0000 - 0x1_0000_0000_0000_0000)
        by (nonlinear_arith)
        requires
            src_h < 0x1_0000_0000_0000_0000,
            src_w < 0x1_0000_0000_0000_0000,
    ;
    sy * src_w as u128 + sx
}

/// Lights, on a grid whose dots are all dark, every dot whose sampled pixel
/// of the `src_w × src_h` frame is brighter than `threshold`.
pub fn draw_threshold_dots(
    grid: &mut BrailleGrid,
    frame: &[u8],
    src_w: usize,
    src_h: usize,
    threshold: u8,
)
    requires
        grid_dots(*old(grid)) == no_dots(),
    ensures
        grid_size(*final(grid)) == grid_size(*old(grid)),
        grid_chars(*final(grid)) == grid_chars(*old(grid)),
        grid_colors(*final(grid)) == grid_colors(*old(grid)),
        grid_dots(*final(grid)) == lit_dots(
            frame@,
            (2 * grid_width(*old(grid))) as int,
            (4 * grid_height(*old(grid))) as int,
            src_w as int,
            src_h as int,
            threshold,
        ),
{
    let (gw, gh) = grid_dimensions(grid);
    let dot_w: usize = gw * 2;
    let dot_h: usize = gh * 4;
    let ghost g0 = *grid;
    let ghost fr = frame@;
    let mut y: usize = 0;
    while y < dot_h
        invariant
            dot_w == 2 * grid_width(g0),
            dot_h == 4 * grid_height(g0),
            0 < dot_w,
            0 < dot_h,
            y <= dot_h,
            fr == frame@,
            grid_size(*grid) == grid_size(g0),
            grid_chars(*grid) == grid_chars(g0),
            grid_colors(*grid) == grid_colors(g0),
            grid_dots(*grid) == lit_dots_before(
                fr,
                dot_w as int,
                dot_h as int,
                src_w as int,
                src_h as int,
                threshold,
                y as int,
                0,
            ),
        decreases dot_h - y,
    {
        let mut x: usize = 0;
        while x < dot_w
            invariant
                dot_w == 2 * grid_width(g0),
                dot_h == 4 * grid_height(g0),
                0 < dot_w,
                y < dot_h,
                x <= dot_w,
                fr == frame@,
                grid_size(*grid) == grid_size(g0),
                grid_chars(*grid) == grid_chars(g0),
                grid_colors(*grid) == grid_colors(g0),
                grid_dots(*grid) == lit_dots_before(
                    fr,
                    dot_w as int,
                    dot_h as int,
                    src_w as int,
                    src_h as int,
                    threshold,
                    y as int,
                    x as int,
                ),
            decreases dot_w - x,
        {
            let idx = source_index(x, y, dot_w, dot_h, src_w, src_h);
            let lit = idx < frame.len() as u128 && frame[idx as usize] > threshold;
            if lit {
                let _ = grid_set_dot(grid, x, y);
            }
            assert(grid_dots(*grid) =~= lit_dots_before(
                fr,
                dot_w as int,
                dot_h as int,
                src_w as int,
                src_h as int,
                threshold,
                y as int,
                x + 1,
            ));
            x = x + 1;
        }
        assert(lit_dots_before(
            fr,
            dot_w as int,
            dot_h as int,
            src_w as int,
            src_h as int,
            threshold,
            y as int,
            dot_w as int,
        ) =~= lit_dots_before(
            fr,
            dot_w as int,
            dot_h as int,
            src_w as int,
            src_h as int,
            threshold,
            y + 1,
            0,
        ));
        y = y + 1;
    }
    assert(lit_dots_before(
        fr,
        dot_w as int,
        dot_h as int,
        src_w as int,
        src_h as int,
        threshold,
        dot_h as int,
        0,
    ) =~= lit_dots(fr, dot_w as int, dot_h as int, src_w as int, src_h as int, threshold));
}


/// The dots marked in `lit`, a row-major flag per dot of a `dot_w × dot_h`
/// area, among those of row `< row`, or of row `row` and column `< col`.
pub open spec fn marked_dots_before(lit: Seq<bool>, dot_w: int, dot_h: int, row: int, col: int) -> Set<
    (int, int),
> {
    Set::new(
        |p: (int, int)|
            0 <= p.0 < dot_w && 0 <= p.1 < dot_h && (p.1 < row || (p.1 == row && p.0 < col))
                && lit[p.1 * dot_w + p.0],
    )
}

/// The dots marked in `lit`, a row-major flag per dot of a `dot_w × dot_h`
/// area.
pub open spec fn marked_dots(lit: Seq<bool>, dot_w: int, dot_h: int) -> Set<(int, int)> {
    Set::new(|p: (int, int)| 0 <= p.0 < dot_w && 0 <= p.1 < dot_h && lit[p.1 * dot_w + p.0])
}

/// Lights, on a grid whose dots are all dark, the dots marked in `lit`, a
/// row-major flag per dot of the grid's dot area.
pub fn draw_marked_dots(grid: &mut BrailleGrid, lit: &[bool])
    requires
        grid_dots(*old(grid)) == no_dots(),
        lit@.len() == (2 * grid_width(*old(grid))) * (4 * grid_height(*old(grid))),
    ensures
        grid_size(*final(grid)) == grid_size(*old(grid)),
        grid_chars(*final(grid)) == grid_chars(*old(grid)),
        grid_colors(*final(grid)) == grid_colors(*old(grid)),
        grid_dots(*final(grid)) == marked_dots(
            lit@,
            (2 * grid_width(*old(grid))) as int,
            (4 * grid_height(*old(grid))) as int,
        ),
{
    let (gw, gh) = grid_dimensions(grid);
    let dot_w: usize = gw * 2;
    let dot_h: usize = gh * 4;
    let ghost g0 = *grid;
    let ghost fl = lit@;
    let n = lit.len();
    assert(marked_dots_before(fl, dot_w as int, dot_h as int, 0, 0) =~= no_dots());
    let mut y: usize = 0;
    while y < dot_h
        invariant
            dot_w == 2 * grid_width(g0),
            dot_h == 4 * grid_height(g0),
            0 < dot_w <= 20000,
            0 < dot_h <= 40000,
            y <= dot_h,
            fl == lit@,
            fl.len() == dot_w * dot_h,
            n == fl.len(),
            grid_size(*grid) == grid_size(g0),
            grid_chars(*grid) == grid_chars(g0),
            grid_colors(*grid) == grid_colors(g0),
            grid_dots(*grid) == marked_dots_before(fl, dot_w as int, dot_h as int, y as int, 0),
        decreases dot_h - y,
    {
        let mut x: usize = 0;
        while x < dot_w
            invariant
                dot_w == 2 * grid_width(g0),
                dot_h == 4 * grid_height(g0),
                0 < dot_w <= 20000,
                0 < dot_h <= 40000,
                y < dot_h,
                x <= dot_w,
                fl == lit@,
                fl.len() == dot_w * dot_h,
                n == fl.len(),
                grid_size(*grid) == grid_size(g0),
                grid_chars(*grid) == grid_chars(g0),
                grid_colors(*grid) == grid_colors(g0),
                grid_dots(*grid) == marked_dots_before(
                    fl,
                    dot_w as int,
                    dot_h as int,
                    y as int,
                    x as int,
                ),
            decreases dot_w - x,
        {
            assert(y * dot_w + x < dot_w * dot_h && y * dot_w <= dot_w * dot_h) by (nonlinear_arith)
                requires
                    y < dot_h,
                    x < dot_w,
            ;
            if lit[y * dot_w + x] {
                let _ = grid_set_dot(grid, x, y);
            }
            assert(grid_dots(*grid) =~= marked_dots_before(
                fl,
                dot_w as int,
                dot_h as int,
                y as int,
                x + 1,
            ));
            x = x + 1;
        }
        assert(marked_dots_before(fl, dot_w as int, dot_h as int, y as int, dot_w as int)
            =~= marked_dots_before(fl, dot_w as int, dot_h as int, y + 1, 0));
        y = y + 1;
    }
    assert(marked_dots_before(fl, dot_w as int, dot_h as int, dot_h as int, 0) =~= marked_dots(
        fl,
        dot_w as int,
        dot_h as int,
    ));
}

/// The samples of a `cols × rows` cell target, in row-major order: the byte
/// each cell samples from the `src_w × src_h` frame, or 0 where that index
/// falls outside the frame.
pub fn cell_samples(frame: &[u8], src_w: usize, src_h: usize, cols: usize, rows: usize) -> (r: Vec<u8>)
    requires
        cols > 0,
        rows > 0,
        cols * rows <= usize::MAX,
    ensures
        r@ == cell_sample_seq(frame@, cols as int, rows as int, src_w as int, src_h as int),
{
    let mut out: Vec<u8> = Vec::new();
    let mut cy: usize = 0;
    while cy < rows
        invariant
            cols > 0,
            rows > 0,
            cols * rows <= usize::MAX,
            cy <= rows,
            out@.len() == cy * cols,
            forall|i: int|
                0 <= i < out@.len() ==> #[trigger] out@[i] == sample_value(
                    frame@,
                    i % cols as int,
                    i / cols as int,
                    cols as int,
                    rows as int,
                    src_w as int,
                    src_h as int,
                ),
        decreases rows - cy,
    {
        let mut cx: usize = 0;
        while cx < cols
            invariant
                cols > 0,
                rows > 0,
                cols * rows <= usize::MAX,
                cy < rows,
                cx <= cols,
                out@.len() == cy * cols + cx,
                forall|i: int|
                    0 <= i < out@.len() ==> #[trigger] out@[i] == sample_value(
                        frame@,
                        i % cols as int,
                        i / cols as int,
                        cols as int,
                        rows as int,
                        src_w as int,
                        src_h as int,
                    ),
            decreases cols - cx,
        {
            let idx = source_index(cx, cy, cols, rows, src_w, src_h);
            let v: u8 = if idx < frame.len() as u128 {
                frame[idx as usize]
            } else {
                0
            };
            proof {
                let k = cy * cols + cx;
                assert(k % cols as int == cx as int && k / cols as int == cy as int) by (nonlinear_arith)
                    requires
                        k == cy * cols + cx,
                        cx < cols,
                        cols > 0,
                {
                    vstd::arithmetic::div_mod::lemma_fundamental_div_mod_converse(
                        k as int,
                        cols as int,
                        cy as int,
                        cx as int,
                    );
                }
            }
            out.push(v);
            cx = cx + 1;
        }
        assert((cy + 1) * cols == cy * cols + cols) by (nonlinear_arith);
        cy = cy + 1;
    }
    assert(rows * cols == cols * rows) by (nonlinear_arith);
    assert(out@ =~= cell_sample_seq(frame@, cols as int, rows as int, src_w as int, src_h as int));
    out
}

/// Mean brightness of a frame, rounded down, or 0 for an empty frame.
pub fn frame_average(frame: &[u8]) -> (avg: u8)
    ensures
        avg as int == mean_brightness(frame@),
{
    let n = frame.len();
    if n == 0 {
        return 0;
    }
    let mut sum: u128 = 0;
    let mut i: usize = 0;
    while i < n
        invariant
            n == frame@.len(),
            i <= n,
            sum as nat == byte_sum(frame@.take(i as int)),
            sum <= 255 * i,
        decreases n - i,
    {
        assert(frame@.take(i + 1).drop_last() =~= frame@.take(i as int));
        sum = sum + frame[i] as u128;
        i = i + 1;
    }
    assert(frame@.take(n as int) =~= frame@);
    proof {
        byte_sum_bound(frame@);
        assert(sum / (n as u128) <= 255) by (nonlinear_arith)
            requires
                sum <= 255 * n,
                n > 0,
        ;
    }
    (sum / n as u128) as u8
}


/// Raising the threshold never lights more dots: every dot lit at the
/// higher threshold is lit at the lower one.
pub proof fn higher_threshold_fewer_dots(
    frame: Seq<u8>,
    dot_w: int,
    dot_h: int,
    src_w: int,
    src_h: int,
    low: u8,
    high: u8,
)
    requires
        low <= high,
    ensures
        lit_dots(frame, dot_w, dot_h, src_w, src_h, high).subset_of(
            lit_dots(frame, dot_w, dot_h, src_w, src_h, low),
        ),
{
}

/// Every lit dot lies inside the dot area, and samples a pixel inside the
/// frame.
pub proof fn lit_dots_in_area(
    frame: Seq<u8>,
    dot_w: int,
    dot_h: int,
    src_w: int,
    src_h: int,
    threshold: u8,
    p: (int, int),
)
    requires
        lit_dots(frame, dot_w, dot_h, src_w, src_h, threshold).contains(p),
    ensures
        0 <= p.0 < dot_w,
        0 <= p.1 < dot_h,
        0 <= sample_index(p.0, p.1, dot_w, dot_h, src_w, src_h) < frame.len(),
{
}

/// The mean brightness of a frame is a byte value.
pub proof fn mean_brightness_is_byte(s: Seq<u8>)
    ensures
        0 <= mean_brightness(s) <= 255,
{
    if s.len() > 0 {
        byte_sum_bound(s);
        assert(byte_sum(s) as int / s.len() as int <= 255) by (nonlinear_arith)
            requires
                byte_sum(s) <= 255 * s.len(),
                s.len() > 0,
        ;
    }
}

/// The cell samples come in row-major order: sample `cy · cols + cx` is
/// the one of cell `(cx, cy)`, the byte of the source pixel at column
/// `cx · src_w / cols` and row `cy · src_h / rows`, or 0 when that pixel
/// lies outside the frame.
pub proof fn cell_samples_row_major(
    frame: Seq<u8>,
    cols: int,
    rows: int,
    src_w: int,
    src_h: int,
    cx: int,
    cy: int,
)
    requires
        0 <= cx < cols,
        0 <= cy < rows,
    ensures
        ({
            let samples = cell_sample_seq(frame, cols, rows, src_w, src_h);
            let px = cx * src_w / cols;
            let py = cy * src_h / rows;
            let idx = py * src_w + px;
            &&& samples.len() == cols * rows
            &&& samples[cy * cols + cx] == if 0 <= idx < frame.len() {
                frame[idx]
            } else {
                0
            }
        }),
{
    let k = cy * cols + cx;
    assert(0 <= k < cols * rows) by (nonlinear_arith)
        requires
            0 <= cx < cols,
            0 <= cy < rows,
            k == cy * cols + cx,
    ;
    vstd::arithmetic::div_mod::lemma_fundamental_div_mod_converse(k, cols, cy, cx);
}

/// The dots drawn from a row-major list of flags: dot `(x, y)` is drawn
/// exactly when flag `y · dot_w + x` is set.
pub proof fn marked_dots_row_major(lit: Seq<bool>, dot_w: int, dot_h: int, x: int, y: int)
    requires
        0 <= x < dot_w,
        0 <= y < dot_h,
    ensures
        marked_dots(lit, dot_w, dot_h).contains((x, y)) == lit[y * dot_w + x],
{
}

/// Dot `(x, y)` of a `dot_w × dot_h` dot area is lit exactly when the
/// source pixel at column `x · src_w / dot_w` and row `y · src_h / dot_h`
/// lies inside the frame and is brighter than the threshold.
pub proof fn lit_dot_samples_its_pixel(
    frame: Seq<u8>,
    dot_w: int,
    dot_h: int,
    src_w: int,
    src_h: int,
    threshold: u8,
    x: int,
    y: int,
)
    requires
        0 <= x < dot_w,
        0 <= y < dot_h,
    ensures
        ({
            let idx = (y * src_h / dot_h) * src_w + x * src_w / dot_w;
            lit_dots(frame, dot_w, dot_h, src_w, src_h, threshold).contains((x, y)) == (0 <= idx
                < frame.len() && frame[idx] > threshold)
        }),
{
}

} // verus!
