//! Live webcam view: stream state, device selection, brightness threshold,
//! render and colour modes, and the drawing of each captured frame.
//!
//! Capture runs outside; each captured grayscale frame of `width × height`
//! bytes is handed to `update`, which draws it and says which cell samples
//! the density ramp and the colour scheme are to be applied to.

use vstd::prelude::*;
use dotmax::color::schemes::ColorScheme;
use dotmax::density::DensitySet;
use dotmax::BrailleGrid;
use crate::grid::{
    ascii_density, blocks_density, blue_purple_scheme, cyan_magenta_scheme, density_characters,
    grayscale_scheme, green_yellow_scheme, grid_chars, grid_clear, grid_clear_characters,
    grid_clear_colors, grid_colors, grid_dimensions, grid_dots, grid_height, grid_size,
    grid_width, heat_map_scheme, new_grid, no_chars, no_colors, no_dots, rainbow_scheme,
    scheme_stops, simple_density,
};
use crate::modes::{ColorMode, DitherMode, RenderMode};
use crate::dither::{dither, dithered};
use crate::raster::{
    cell_sample_seq, cell_samples, draw_marked_dots, draw_threshold_dots, frame_average, lit_dots,
    marked_dots, mean_brightness,
};
use crate::video::{valid_grid_size, PlayerError};

verus! {

/// Brightness threshold a new webcam view starts with.
pub const DEFAULT_THRESHOLD: u8 = 80;

/// Amount one press raises or lowers the brightness threshold.
pub const THRESHOLD_STEP: u8 = 10;

impl RenderMode {
    /// The density ramp of the mode: none for braille dots.
    pub fn density_set(&self) -> (d: Option<DensitySet>)
        ensures
            d is None <==> *self == RenderMode::Braille,
            d matches Some(ds) ==> density_characters(ds) == match *self {
                RenderMode::Ascii => " .'`^\",:;Il!i><~+_-?][}{1)(|/tfjrxnuvczXYUJCLQ0OZmwqpdbkhao*#MW&8%B@$"@,
                RenderMode::Simple => " .:-=+*#%@"@,
                _ => seq![' ', '\u{2591}', '\u{2592}', '\u{2593}', '\u{2588}'],
            },
    {
        match self {
            RenderMode::Braille => None,
            RenderMode::Ascii => Some(ascii_density()),
            RenderMode::Simple => Some(simple_density()),
            RenderMode::Blocks => Some(blocks_density()),
        }
    }
}

impl ColorMode {
    /// The colour scheme of the mode: none for plain output.
    pub fn color_scheme(&self) -> (s: Option<ColorScheme>)
        ensures
            s is None <==> *self == ColorMode::NoColor,
            s matches Some(cs) ==> match *self {
                ColorMode::Rainbow => scheme_stops(cs) == seq![
                    (255u8, 0u8, 0u8),
                    (255u8, 212u8, 0u8),
                    (85u8, 255u8, 0u8),
                    (0u8, 255u8, 127u8),
                    (0u8, 170u8, 255u8),
                    (42u8, 0u8, 255u8),
                    (255u8, 0u8, 255u8),
                ],
                ColorMode::HeatMap => scheme_stops(cs) == seq![
                    (0u8, 0u8, 0u8),
                    (255u8, 0u8, 0u8),
                    (255u8, 165u8, 0u8),
                    (255u8, 255u8, 0u8),
                    (255u8, 255u8, 255u8),
                ],
                ColorMode::BluePurple => scheme_stops(cs) == seq![
                    (0u8, 0u8, 255u8),
                    (128u8, 0u8, 127u8),
                ],
                ColorMode::GreenYellow => scheme_stops(cs) == seq![
                    (0u8, 255u8, 0u8),
                    (255u8, 255u8, 0u8),
                ],
                ColorMode::CyanMagenta => scheme_stops(cs) == seq![
                    (0u8, 255u8, 255u8),
                    (255u8, 0u8, 255u8),
                ],
                _ => scheme_stops(cs) == seq![(0u8, 0u8, 0u8), (255u8, 255u8, 255u8)],
            },
    {
        match self {
            ColorMode::NoColor => None,
            ColorMode::Rainbow => Some(rainbow_scheme()),
            ColorMode::HeatMap => Some(heat_map_scheme()),
            ColorMode::BluePurple => Some(blue_purple_scheme()),
            ColorMode::GreenYellow => Some(green_yellow_scheme()),
            ColorMode::CyanMagenta => Some(cyan_magenta_scheme()),
            ColorMode::Grayscale => Some(grayscale_scheme()),
        }
    }
}

/// Cell samples still to be shaded after a frame is drawn: those the
/// density ramp turns into characters (density modes only) and those the
/// colour scheme turns into cell colours (when a scheme is on).  Each is in
/// row-major cell order, one byte per cell, and stands for intensity
/// `byte / 255`.
pub struct ShadePlan {
    pub density_samples: Option<Vec<u8>>,
    pub color_samples: Option<Vec<u8>>,
}

/// A webcam view: the capture size, the stream's state and counters, the
/// display settings, and the braille grid frames are drawn into.
/// `last_samples` holds the cell samples of the last frame drawn in a
/// density mode.
pub struct WebcamPlayer {
    pub grid: BrailleGrid,
    pub is_streaming: bool,
    pub device_index: usize,
    pub available_devices: Vec<String>,
    pub width: usize,
    pub height: usize,
    pub frame_count: usize,
    pub last_frame_size: usize,
    pub last_frame_avg: u8,
    pub render_mode: RenderMode,
    pub color_mode: ColorMode,
    pub dither_mode: DitherMode,
    pub brightness_threshold: u8,
    pub last_samples: Vec<u8>,
}

impl WebcamPlayer {
    /// Whether `self` equals `old` in everything but the fields named by
    /// the flags that are set.
    pub open spec fn same_except(
        self,
        old: WebcamPlayer,
        grid: bool,
        stream: bool,
        device: bool,
        size: bool,
        counters: bool,
        modes: bool,
        threshold: bool,
        samples: bool,
    ) -> bool {
        &&& grid || self.grid == old.grid
        &&& stream || self.is_streaming == old.is_streaming
        &&& device || self.device_index == old.device_index
        &&& self.available_devices@ == old.available_devices@
        &&& size || (self.width == old.width && self.height == old.height)
        &&& counters || (self.frame_count == old.frame_count && self.last_frame_size
            == old.last_frame_size && self.last_frame_avg == old.last_frame_avg)
        &&& modes || (self.render_mode == old.render_mode && self.color_mode == old.color_mode
            && self.dither_mode == old.dither_mode)
        &&& threshold || self.brightness_threshold == old.brightness_threshold
        &&& samples || self.last_samples@ == old.last_samples@
    }

    /// The cell samples of `frame` for the current grid and capture size.
    pub open spec fn frame_cells(self, frame: Seq<u8>) -> Seq<u8> {
        cell_sample_seq(
            frame,
            grid_width(self.grid) as int,
            grid_height(self.grid) as int,
            self.width as int,
            self.height as int,
        )
    }

    /// The brightness samples of `frame` for the dots of the grid, in
    /// row-major order.
    pub open spec fn dot_samples(self, frame: Seq<u8>) -> Seq<u8> {
        cell_sample_seq(
            frame,
            (2 * grid_width(self.grid)) as int,
            (4 * grid_height(self.grid)) as int,
            self.width as int,
            self.height as int,
        )
    }

    /// The dots braille mode lights for `frame`: without dithering those
    /// whose sampled pixel is brighter than the threshold, and otherwise
    /// those the dithering mode lights in the dot samples.
    pub open spec fn braille_dots(self, frame: Seq<u8>) -> Set<(int, int)> {
        let dot_w = 2 * grid_width(self.grid);
        let dot_h = 4 * grid_height(self.grid);
        if self.dither_mode == DitherMode::NoDither {
            lit_dots(
                frame,
                dot_w as int,
                dot_h as int,
                self.width as int,
                self.height as int,
                self.brightness_threshold,
            )
        } else {
            marked_dots(
                dithered(
                    self.dot_samples(frame),
                    dot_w as int,
                    dot_h as int,
                    self.brightness_threshold,
                    self.dither_mode,
                ),
                dot_w as int,
                dot_h as int,
            )
        }
    }

    /// What drawing `frame` does to the view and what is left to shade: a
    /// frame of the wrong size changes nothing; otherwise the grid is
    /// cleared of dots, characters and colours, braille mode lights the dots
    /// of `braille_dots`, a density mode keeps the frame's cell samples, and
    /// the plan lists the samples left to shade.
    pub open spec fn drew(self, old: WebcamPlayer, frame: Seq<u8>, plan: Option<ShadePlan>) -> bool {
        if frame.len() != old.width * old.height {
            plan is None && self == old
        } else {
            &&& self.same_except(old, true, false, false, false, false, false, false, true)
            &&& grid_size(self.grid) == grid_size(old.grid)
            &&& grid_chars(self.grid) == no_chars()
            &&& grid_colors(self.grid) == no_colors()
            &&& if old.render_mode == RenderMode::Braille {
                &&& grid_dots(self.grid) == old.braille_dots(frame)
                &&& self.last_samples@ == old.last_samples@
            } else {
                &&& grid_dots(self.grid) == no_dots()
                &&& self.last_samples@ == old.frame_cells(frame)
            }
            &&& plan matches Some(p) && {
                &&& (p.density_samples is Some <==> old.render_mode != RenderMode::Braille)
                &&& (p.density_samples matches Some(d) ==> d@ == self.last_samples@)
                &&& (p.color_samples is Some <==> old.color_mode != ColorMode::NoColor)
                &&& (p.color_samples matches Some(c) ==> c@ == old.frame_cells(frame))
            }
        }
    }

    /// A view with a `grid_width × grid_height` cell grid capturing at its
    /// dot size, on the first of `available_devices`, not streaming, in
    /// braille mode without colour at the default threshold; fails when the
    /// grid cannot have that size.
    pub fn new(grid_width: usize, grid_height: usize, available_devices: Vec<String>) -> (r: Result<
        WebcamPlayer,
        PlayerError,
    >)
        ensures
            r.is_ok() <==> valid_grid_size(grid_width as int, grid_height as int),
            r is Err ==> r == Err::<WebcamPlayer, PlayerError>(PlayerError::InvalidGridSize),
            r matches Ok(p) ==> {
                &&& grid_size(p.grid) == (grid_width as nat, grid_height as nat)
                &&& grid_dots(p.grid) == no_dots()
                &&& grid_chars(p.grid) == no_chars()
                &&& grid_colors(p.grid) == no_colors()
                &&& !p.is_streaming
                &&& p.device_index == 0
                &&& p.available_devices@ == available_devices@
                &&& p.width == 2 * grid_width
                &&& p.height == 4 * grid_height
                &&& p.frame_count == 0
                &&& p.last_frame_size == 0
                &&& p.last_frame_avg == 0
                &&& p.render_mode == RenderMode::Braille
                &&& p.color_mode == ColorMode::NoColor
                &&& p.dither_mode == DitherMode::NoDither
                &&& p.brightness_threshold == DEFAULT_THRESHOLD
                &&& p.last_samples@.len() == 0
            },
    {
        match new_grid(grid_width, grid_height) {
            Ok(grid) => Ok(
                WebcamPlayer {
                    grid,
                    is_streaming: false,
                    device_index: 0,
                    available_devices,
                    width: grid_width * 2,
                    height: grid_height * 4,
                    frame_count: 0,
                    last_frame_size: 0,
                    last_frame_avg: 0,
                    render_mode: RenderMode::Braille,
                    color_mode: ColorMode::NoColor,
                    dither_mode: DitherMode::NoDither,
                    brightness_threshold: DEFAULT_THRESHOLD,
                    last_samples: Vec::new(),
                },
            ),
            Err(_) => Err(PlayerError::InvalidGridSize),
        }
    }

    pub fn cycle_render_mode(&mut self)
        ensures
            final(self).render_mode == old(self).render_mode.following(),
            final(self).color_mode == old(self).color_mode,
            final(self).dither_mode == old(self).dither_mode,
            final(self).same_except(*old(self), false, false, false, false, false, true, false, false),
    {
        self.render_mode = self.render_mode.next();
    }

    pub fn cycle_color_mode(&mut self)
        ensures
            final(self).color_mode == old(self).color_mode.following(),
            final(self).render_mode == old(self).render_mode,
            final(self).dither_mode == old(self).dither_mode,
            final(self).same_except(*old(self), false, false, false, false, false, true, false, false),
    {
        self.color_mode = self.color_mode.next();
    }

    pub fn cycle_dither_mode(&mut self)
        ensures
            final(self).dither_mode == old(self).dither_mode.following(),
            final(self).render_mode == old(self).render_mode,
            final(self).color_mode == old(self).color_mode,
            final(self).same_except(*old(self), false, false, false, false, false, true, false, false),
    {
        self.dither_mode = self.dither_mode.next();
    }

    /// Raises the threshold by `THRESHOLD_STEP`, stopping at 255.
    pub fn increase_threshold(&mut self)
        ensures
            final(self).brightness_threshold == if old(self).brightness_threshold + THRESHOLD_STEP
                > 255 {
                255
            } else {
                old(self).brightness_threshold + THRESHOLD_STEP
            },
            final(self).same_except(*old(self), false, false, false, false, false, false, true, false),
    {
        self.brightness_threshold = self.brightness_threshold.saturating_add(THRESHOLD_STEP);
    }

    /// Lowers the threshold by `THRESHOLD_STEP`, stopping at 0.
    pub fn decrease_threshold(&mut self)
        ensures
            final(self).brightness_threshold == if old(self).brightness_threshold < THRESHOLD_STEP {
                0
            } else {
                old(self).brightness_threshold - THRESHOLD_STEP
            },
            final(self).same_except(*old(self), false, false, false, false, false, false, true, false),
    {
        self.brightness_threshold = self.brightness_threshold.saturating_sub(THRESHOLD_STEP);
    }

    /// First step of starting the stream: when not streaming yet, sizes the
    /// capture to the grid's dot area, resets the frame count and returns
    /// `true` (a capture is to be launched); when already streaming, changes
    /// nothing and returns `false`.
    pub fn start_streaming(&mut self) -> (launch: bool)
        ensures
            launch == !old(self).is_streaming,
            !launch ==> *final(self) == *old(self),
            launch ==> {
                &&& final(self).width == 2 * grid_width(old(self).grid)
                &&& final(self).height == 4 * grid_height(old(self).grid)
                &&& final(self).frame_count == 0
                &&& final(self).last_frame_size == old(self).last_frame_size
                &&& final(self).last_frame_avg == old(self).last_frame_avg
                &&& final(self).same_except(*old(self), false, false, false, true, true, false, false, false)
            },
    {
        if self.is_streaming {
            return false;
        }
        let (gw, gh) = grid_dimensions(&self.grid);
        self.width = gw * 2;
        self.height = gh * 4;
        self.frame_count = 0;
        true
    }

    /// Last step of starting the stream, once the capture runs.
    pub fn stream_started(&mut self)
        ensures
            final(self).is_streaming,
            final(self).same_except(*old(self), false, true, false, false, false, false, false, false),
    {
        self.is_streaming = true;
    }

    pub fn stop_streaming(&mut self)
        ensures
            !final(self).is_streaming,
            final(self).same_except(*old(self), false, true, false, false, false, false, false, false),
    {
        self.is_streaming = false;
    }

    /// Stops a running stream, or takes the first step of starting one (see
    /// `start_streaming`); returns whether a capture is to be launched.
    pub fn toggle_streaming(&mut self) -> (launch: bool)
        ensures
            launch == !old(self).is_streaming,
            old(self).is_streaming ==> !final(self).is_streaming && final(self).same_except(
                *old(self),
                false,
                true,
                false,
                false,
                false,
                false,
                false,
                false,
            ),
            launch ==> {
                &&& final(self).width == 2 * grid_width(old(self).grid)
                &&& final(self).height == 4 * grid_height(old(self).grid)
                &&& final(self).frame_count == 0
                &&& final(self).last_frame_size == old(self).last_frame_size
                &&& final(self).last_frame_avg == old(self).last_frame_avg
                &&& final(self).same_except(*old(self), false, false, false, true, true, false, false, false)
            },
    {
        if self.is_streaming {
            self.stop_streaming();
            false
        } else {
            self.start_streaming()
        }
    }

    pub fn has_devices(&self) -> (r: bool)
        ensures
            r == (self.available_devices@.len() > 0),
    {
        self.available_devices.len() > 0
    }

    /// Switches to the next device, wrapping round to the first; returns
    /// whether a running stream must be restarted on it.  Without devices
    /// nothing changes.
    pub fn next_device(&mut self) -> (restart: bool)
        requires
            old(self).available_devices@.len() > 0 ==> old(self).device_index < usize::MAX,
        ensures
            old(self).available_devices@.len() == 0 ==> *final(self) == *old(self) && !restart,
            old(self).available_devices@.len() > 0 ==> {
                &&& final(self).device_index == next_device_index(
                    old(self).device_index as nat,
                    old(self).available_devices@.len(),
                )
                &&& restart == old(self).is_streaming
            },
            final(self).same_except(*old(self), false, false, true, false, false, false, false, false),
    {
        if self.available_devices.len() == 0 {
            return false;
        }
        self.device_index = (self.device_index + 1) % self.available_devices.len();
        self.is_streaming
    }

    /// Draws a captured frame (see `drew`); returns what is left to shade,
    /// or `None` when the frame does not have the capture size.
    pub fn render_frame(&mut self, frame: &[u8]) -> (plan: Option<ShadePlan>)
        requires
            old(self).width * old(self).height <= usize::MAX,
        ensures
            final(self).drew(*old(self), frame@, plan),
    {
        let expected = self.width * self.height;
        if frame.len() != expected {
            return None;
        }
        let (gw, gh) = grid_dimensions(&self.grid);
        assert(gw * gh <= 100_000_000) by (nonlinear_arith)
            requires
                gw <= 10000,
                gh <= 10000,
        ;
        grid_clear(&mut self.grid);
        grid_clear_characters(&mut self.grid);
        grid_clear_colors(&mut self.grid);
        let density_samples = match self.render_mode {
            RenderMode::Braille => {
                if self.dither_mode == DitherMode::NoDither {
                    draw_threshold_dots(
                        &mut self.grid,
                        frame,
                        self.width,
                        self.height,
                        self.brightness_threshold,
                    );
                } else {
                    let dot_w = gw * 2;
                    let dot_h = gh * 4;
                    assert(dot_w * dot_h <= 800_000_000) by (nonlinear_arith)
                        requires
                            dot_w <= 20000,
                            dot_h <= 40000,
                    ;
                    assert(dot_w * dot_h == (2 * grid_width(self.grid)) * (4 * grid_height(
                        self.grid,
                    )));
                    let samples = cell_samples(frame, self.width, self.height, dot_w, dot_h);
                    let lit = dither(
                        samples.as_slice(),
                        dot_w,
                        dot_h,
                        self.brightness_threshold,
                        self.dither_mode,
                    );
                    draw_marked_dots(&mut self.grid, lit.as_slice());
                }
                None
            },
            _ => {
                self.last_samples = cell_samples(frame, self.width, self.height, gw, gh);
                Some(self.last_samples.clone())
            },
        };
        let color_samples = if self.color_mode != ColorMode::NoColor {
            match &density_samples {
                Some(d) => Some(d.clone()),
                None => Some(cell_samples(frame, self.width, self.height, gw, gh)),
            }
        } else {
            None
        };
        Some(ShadePlan { density_samples, color_samples })
    }

    /// Handles the latest captured frame, if the view is streaming and one
    /// came: records its size and mean brightness, draws it (see `drew`) and
    /// counts it.  Otherwise changes nothing.
    pub fn update(&mut self, latest_frame: Option<&[u8]>) -> (plan: Option<ShadePlan>)
        requires
            old(self).is_streaming && latest_frame is Some ==> old(self).frame_count < usize::MAX
                && old(self).width * old(self).height <= usize::MAX,
        ensures
            !(old(self).is_streaming && latest_frame is Some) ==> *final(self) == *old(self)
                && plan is None,
            old(self).is_streaming ==> (latest_frame matches Some(f) ==> {
                &&& final(self).frame_count == old(self).frame_count + 1
                &&& final(self).last_frame_size == f@.len()
                &&& final(self).last_frame_avg == mean_brightness(f@)
                &&& (WebcamPlayer { frame_count: old(self).frame_count, ..*final(self) }).drew(
                    WebcamPlayer {
                        last_frame_size: f@.len() as usize,
                        last_frame_avg: mean_brightness(f@) as u8,
                        ..*old(self)
                    },
                    f@,
                    plan,
                )
            }),
    {
        if !self.is_streaming {
            return None;
        }
        match latest_frame {
            None => None,
            Some(frame) => {
                self.last_frame_size = frame.len();
                self.last_frame_avg = frame_average(frame);
                let plan = self.render_frame(frame);
                self.frame_count = self.frame_count + 1;
                plan
            },
        }
    }

    /// Name of the selected device, or `No device` when the index is past
    /// the list.
    pub fn current_device_name(&self) -> (name: &str)
        ensures
            self.device_index < self.available_devices@.len() ==> name@
                == self.available_devices@[self.device_index as int]@,
            self.device_index >= self.available_devices@.len() ==> name@ == "No device"@,
    {
        if self.device_index < self.available_devices.len() {
            self.available_devices[self.device_index].as_str()
        } else {
            "No device"
        }
    }
}


/// Threshold after one raise.
pub open spec fn raised(t: u8) -> u8 {
    if t + THRESHOLD_STEP > 255 {
        255
    } else {
        (t + THRESHOLD_STEP) as u8
    }
}

/// Threshold after one lowering.
pub open spec fn lowered(t: u8) -> u8 {
    if t < THRESHOLD_STEP {
        0
    } else {
        (t - THRESHOLD_STEP) as u8
    }
}

/// Lowering undoes a raise that did not hit 255, and raising undoes a
/// lowering that did not hit 0; raising never lowers and lowering never
/// raises.
pub proof fn threshold_steps_undo(t: u8)
    ensures
        t + THRESHOLD_STEP <= 255 ==> lowered(raised(t)) == t,
        t >= THRESHOLD_STEP ==> raised(lowered(t)) == t,
        raised(t) >= t,
        lowered(t) <= t,
{
}

/// The device selected after switching from device `i` among `n` devices.
pub open spec fn next_device_index(i: nat, n: nat) -> nat {
    (i + 1) % n
}

/// Switching devices keeps the selection on an existing device, and
/// switching as many times as there are devices comes back to the start.
pub proof fn device_cycle(i: nat, n: nat)
    requires
        n > 0,
        i < n,
    ensures
        next_device_index(i, n) < n,
        cycle_from(i, n, n) == i,
{
    cycle_mod(i, n, n);
    vstd::arithmetic::div_mod::lemma_mod_add_multiples_vanish(i as int, n as int);
    vstd::arithmetic::div_mod::lemma_small_mod(i, n);
}

/// The device index after `k` switches among `n` devices, from `i`.
pub open spec fn cycle_from(i: nat, n: nat, k: nat) -> nat
    decreases k,
{
    if k == 0 {
        i
    } else {
        next_device_index(cycle_from(i, n, (k - 1) as nat), n)
    }
}

proof fn cycle_mod(i: nat, n: nat, k: nat)
    requires
        n > 0,
        i < n,
    ensures
        cycle_from(i, n, k) == (i + k) % n,
    decreases k,
{
    if k == 0 {
        vstd::arithmetic::div_mod::lemma_small_mod(i, n);
    } else {
        cycle_mod(i, n, (k - 1) as nat);
        vstd::arithmetic::div_mod::lemma_add_mod_noop((i + k - 1) as int, 1, n as int);
        if n > 1 {
            vstd::arithmetic::div_mod::lemma_small_mod(1, n);
        }
    }
}

} // verus!
