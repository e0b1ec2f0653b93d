//! The braille grid, density sets and colour schemes of the `dotmax` crate,
//! as seen from verified code.
//!
//! A grid is `width × height` terminal cells; each cell holds a 2×4 block of
//! braille dots, so the grid is `2·width × 4·height` dots.  Its contents are
//! modelled as the set of lit dots, the text characters that override cells,
//! and the colours attached to cells.

use vstd::prelude::*;
use dotmax::color::schemes::ColorScheme;
use dotmax::density::DensitySet;
use dotmax::BrailleGrid;
use dotmax::DotmaxError;

verus! {

#[verifier::external_type_specification]
#[verifier::external_body]
pub struct ExBrailleGrid(BrailleGrid);

#[verifier::external_type_specification]
#[verifier::external_body]
pub struct ExDotmaxError(DotmaxError);

#[verifier::external_type_specification]
#[verifier::external_body]
pub struct ExDensitySet(DensitySet);

#[verifier::external_type_specification]
#[verifier::external_body]
pub struct ExColorScheme(ColorScheme);

/// Width and height of a grid, in cells.
pub uninterp spec fn grid_size(g: BrailleGrid) -> (nat, nat);

/// What a grid holds: the set of lit dots `(dot_x, dot_y)`, the text
/// characters set on cells `(cell_x, cell_y)`, and the colours `(r, g, b)`
/// attached to cells.
pub uninterp spec fn grid_contents(g: BrailleGrid) -> (
    Set<(int, int)>,
    Map<(int, int), char>,
    Map<(int, int), (u8, u8, u8)>,
);

/// The characters of a density set, from sparsest to densest.
pub uninterp spec fn density_characters(d: DensitySet) -> Seq<char>;

/// The colour stops `(r, g, b)` of a colour scheme, from intensity 0 to 1.
pub uninterp spec fn scheme_stops(s: ColorScheme) -> Seq<(u8, u8, u8)>;

pub open spec fn grid_width(g: BrailleGrid) -> nat {
    grid_size(g).0
}

pub open spec fn grid_height(g: BrailleGrid) -> nat {
    grid_size(g).1
}

pub open spec fn grid_dots(g: BrailleGrid) -> Set<(int, int)> {
    grid_contents(g).0
}

pub open spec fn grid_chars(g: BrailleGrid) -> Map<(int, int), char> {
    grid_contents(g).1
}

pub open spec fn grid_colors(g: BrailleGrid) -> Map<(int, int), (u8, u8, u8)> {
    grid_contents(g).2
}

pub open spec fn no_dots() -> Set<(int, int)> {
    Set::empty()
}

pub open spec fn no_chars() -> Map<(int, int), char> {
    Map::empty()
}

pub open spec fn no_colors() -> Map<(int, int), (u8, u8, u8)> {
    Map::empty()
}

/// Largest width or height, in cells, that a grid can have.
pub open spec fn max_grid_side() -> nat {
    10000
}

/// `BrailleGrid::new`: succeeds exactly when both sides are in `1..=10000`,
/// and then gives a grid of that size with no dot lit, no character and no
/// colour.
#[verifier::external_body]
pub(crate) fn new_grid(width: usize, height: usize) -> (r: Result<BrailleGrid, DotmaxError>)
    ensures
        r.is_ok() <==> (0 < width <= max_grid_side() && 0 < height <= max_grid_side()),
        r matches Ok(g) ==> {
            &&& grid_size(g) == (width as nat, height as nat)
            &&& grid_contents(g).0 == no_dots()
            &&& grid_contents(g).1 == no_chars()
            &&& grid_contents(g).2 == no_colors()
        },
{
    BrailleGrid::new(width, height)
}

/// `BrailleGrid::dimensions`: the grid's width and height in cells, which
/// every grid keeps within `1..=10000`.
#[verifier::external_body]
pub(crate) fn grid_dimensions(g: &BrailleGrid) -> (r: (usize, usize))
    ensures
        r.0 as nat == grid_width(*g),
        r.1 as nat == grid_height(*g),
        0 < r.0 <= max_grid_side(),
        0 < r.1 <= max_grid_side(),
{
    g.dimensions()
}

/// `BrailleGrid::clear`: unlights every dot and drops every colour; the size
/// and the characters stay.
#[verifier::external_body]
pub(crate) fn grid_clear(g: &mut BrailleGrid)
    ensures
        grid_size(*final(g)) == grid_size(*old(g)),
        grid_contents(*final(g)).0 == no_dots(),
        grid_contents(*final(g)).1 == grid_contents(*old(g)).1,
        grid_contents(*final(g)).2 == no_colors(),
{
    g.clear()
}

/// `BrailleGrid::clear_characters`: drops every text character; dots,
/// colours and size stay.
#[verifier::external_body]
pub(crate) fn grid_clear_characters(g: &mut BrailleGrid)
    ensures
        grid_size(*final(g)) == grid_size(*old(g)),
        grid_contents(*final(g)).0 == grid_contents(*old(g)).0,
        grid_contents(*final(g)).1 == no_chars(),
        grid_contents(*final(g)).2 == grid_contents(*old(g)).2,
{
    g.clear_characters()
}

/// `BrailleGrid::clear_colors`: drops every colour; dots, characters and
/// size stay.
#[verifier::external_body]
pub(crate) fn grid_clear_colors(g: &mut BrailleGrid)
    ensures
        grid_size(*final(g)) == grid_size(*old(g)),
        grid_contents(*final(g)).0 == grid_contents(*old(g)).0,
        grid_contents(*final(g)).1 == grid_contents(*old(g)).1,
        grid_contents(*final(g)).2 == no_colors(),
{
    g.clear_colors()
}

/// `BrailleGrid::set_dot`: lights dot `(x, y)` when it lies inside the
/// `2·width × 4·height` dot area and fails, changing nothing, otherwise.
#[verifier::external_body]
pub(crate) fn grid_set_dot(g: &mut BrailleGrid, x: usize, y: usize) -> (r: Result<(), DotmaxError>)
    ensures
        r.is_ok() <==> (x < 2 * grid_width(*old(g)) && y < 4 * grid_height(*old(g))),
        grid_size(*final(g)) == grid_size(*old(g)),
        grid_contents(*final(g)).1 == grid_contents(*old(g)).1,
        grid_contents(*final(g)).2 == grid_contents(*old(g)).2,
        r.is_ok() ==> grid_contents(*final(g)).0 == grid_contents(*old(g)).0.insert((x as int, y as int)),
        r.is_err() ==> grid_contents(*final(g)).0 == grid_contents(*old(g)).0,
{
    g.set_dot(x, y)
}

/// `DensitySet::ascii`: the 69-character ASCII ramp.
#[verifier::external_body]
pub(crate) fn ascii_density() -> (d: DensitySet)
    ensures
        density_characters(d)
            == " .'`^\",:;Il!i><~+_-?][}{1)(|/tfjrxnuvczXYUJCLQ0OZmwqpdbkhao*#MW&8%B@$"@,
{
    DensitySet::ascii()
}

/// `DensitySet::simple`: the ten-character ramp ` .:-=+*#%@`.
#[verifier::external_body]
pub(crate) fn simple_density() -> (d: DensitySet)
    ensures
        density_characters(d) == " .:-=+*#%@"@,
{
    DensitySet::simple()
}

/// `DensitySet::blocks`: space and the four shade blocks.
#[verifier::external_body]
pub(crate) fn blocks_density() -> (d: DensitySet)
    ensures
        density_characters(d) == seq![' ', '\u{2591}', '\u{2592}', '\u{2593}', '\u{2588}'],
{
    DensitySet::blocks()
}

/// `dotmax::rainbow`: seven stops computed in `f32` from hues 0°, 50°, …,
/// 300° at full saturation and value, each channel truncated to a byte:
/// red, orange, yellow-green, spring green, azure, violet, magenta.
#[verifier::external_body]
pub(crate) fn rainbow_scheme() -> (s: ColorScheme)
    ensures
        scheme_stops(s) == seq![
            (255u8, 0u8, 0u8),
            (255u8, 212u8, 0u8),
            (85u8, 255u8, 0u8),
            (0u8, 255u8, 127u8),
            (0u8, 170u8, 255u8),
            (42u8, 0u8, 255u8),
            (255u8, 0u8, 255u8),
        ],
{
    dotmax::color::schemes::rainbow()
}

/// `dotmax::heat_map`: black, red, orange, yellow, white.
#[verifier::external_body]
pub(crate) fn heat_map_scheme() -> (s: ColorScheme)
    ensures
        scheme_stops(s) == seq![
            (0u8, 0u8, 0u8),
            (255u8, 0u8, 0u8),
            (255u8, 165u8, 0u8),
            (255u8, 255u8, 0u8),
            (255u8, 255u8, 255u8),
        ],
{
    dotmax::color::schemes::heat_map()
}

/// `dotmax::blue_purple`: blue to purple.
#[verifier::external_body]
pub(crate) fn blue_purple_scheme() -> (s: ColorScheme)
    ensures
        scheme_stops(s) == seq![(0u8, 0u8, 255u8), (128u8, 0u8, 127u8)],
{
    dotmax::color::schemes::blue_purple()
}

/// `dotmax::green_yellow`: green to yellow.
#[verifier::external_body]
pub(crate) fn green_yellow_scheme() -> (s: ColorScheme)
    ensures
        scheme_stops(s) == seq![(0u8, 255u8, 0u8), (255u8, 255u8, 0u8)],
{
    dotmax::color::schemes::green_yellow()
}

/// `dotmax::cyan_magenta`: cyan to magenta.
#[verifier::external_body]
pub(crate) fn cyan_magenta_scheme() -> (s: ColorScheme)
    ensures
        scheme_stops(s) == seq![(0u8, 255u8, 255u8), (255u8, 0u8, 255u8)],
{
    dotmax::color::schemes::cyan_magenta()
}

/// `dotmax::grayscale`: black to white.
#[verifier::external_body]
pub(crate) fn grayscale_scheme() -> (s: ColorScheme)
    ensures
        scheme_stops(s) == seq![(0u8, 0u8, 0u8), (255u8, 255u8, 255u8)],
{
    dotmax::color::schemes::grayscale()
}

} // verus!
