//! Playback of a decoded video: the frames, the playback position and its
//! controls, and the braille rendering of the current frame.
//!
//! Decoding, timing and terminal output happen outside; this player holds
//! the grayscale frames, decides what each control does and draws frames
//! into its braille grid.

use vstd::prelude::*;
use dotmax::BrailleGrid;
use crate::grid::{
    grid_clear, grid_colors, grid_chars, grid_dimensions, grid_dots, grid_height, grid_size,
    grid_width, max_grid_side, new_grid, no_chars, no_colors, no_dots,
};
use crate::raster::{draw_threshold_dots, lit_dots};
use crate::rate::{chosen_rate, probe_fraction, FrameRate};
use crate::text::{clock_pair_text, format_clock_pair};

verus! {

/// Brightness a video pixel must exceed to light its dot.
pub const VIDEO_THRESHOLD: u8 = 80;

/// Most frames a video keeps.
pub const MAX_FRAMES: usize = 3600;

/// Why a player could not be made or loaded.
#[derive(Clone, Copy, Debug, PartialEq, Eq, Structural)]
pub enum PlayerError {
    /// The braille grid cannot have this many cells.
    InvalidGridSize,
    /// Loading produced no frame.
    NoFrames,
    /// An extracted frame file is not an image that decodes.
    BadFrame,
}

/// The grayscale pixels, eight bits each, row by row, of the image that the
/// bytes `image_file` encode; `None` when they encode no image that decodes.
pub uninterp spec fn gray_pixels(image_file: Seq<u8>) -> Option<Seq<u8>>;

/// Decodes an image file held in memory with `image::load_from_memory`,
/// which detects the format from the bytes, and turns it into 8-bit
/// grayscale pixels with `to_luma8().into_raw()`. The contract names the
/// result `gray_pixels`; what the pixels are is left to the image crate.
#[verifier::external_body]
fn decode_gray_frame(image_file: &[u8]) -> (r: Option<Vec<u8>>)
    ensures
        match r {
            Some(v) => gray_pixels(image_file@) == Some(v@),
            None => gray_pixels(image_file@) is None,
        },
{
    match image::load_from_memory(image_file) {
        Ok(img) => Some(img.to_luma8().into_raw()),
        Err(_) => None,
    }
}

/// Whether every file of `files` decodes to an image.
pub open spec fn all_decode(files: Seq<Seq<u8>>) -> bool {
    forall|i: int| 0 <= i < files.len() ==> (#[trigger] gray_pixels(files[i])) is Some
}

/// The grayscale frames decoded from `files`, in order.
pub open spec fn decoded(files: Seq<Seq<u8>>) -> Seq<Seq<u8>> {
    files.map_values(|f: Seq<u8>| gray_pixels(f)->0)
}

/// The files of `files` that loading reads: at most `MAX_FRAMES`, from the
/// first.
pub open spec fn kept_files(files: Seq<Vec<u8>>) -> Seq<Seq<u8>> {
    let n = if files.len() > MAX_FRAMES {
        MAX_FRAMES as int
    } else {
        files.len() as int
    };
    files.take(n).map_values(|f: Vec<u8>| f@)
}

/// A video player: grayscale frames of `width × height` bytes, a playback
/// position, and the braille grid the current frame is drawn into.
pub struct VideoPlayer {
    pub grid: BrailleGrid,
    pub is_playing: bool,
    pub current_frame: usize,
    pub total_frames: usize,
    pub rate: FrameRate,
    pub width: u32,
    pub height: u32,
    pub frames: Vec<Vec<u8>>,
}

/// Whether both grid sides are acceptable to the braille grid.
pub open spec fn valid_grid_size(w: int, h: int) -> bool {
    0 < w <= max_grid_side() && 0 < h <= max_grid_side()
}

impl VideoPlayer {
    /// The frames as byte sequences.
    pub open spec fn frame_seq(self) -> Seq<Seq<u8>> {
        self.frames@.map_values(|f: Vec<u8>| f@)
    }

    /// Whether `self` equals `old` in everything but the grid.
    pub open spec fn same_but_grid(self, old: VideoPlayer) -> bool {
        &&& self.is_playing == old.is_playing
        &&& self.current_frame == old.current_frame
        &&& self.total_frames == old.total_frames
        &&& self.rate == old.rate
        &&& self.width == old.width
        &&& self.height == old.height
        &&& self.frames@ == old.frames@
    }

    /// Whether `self.grid` shows frame `i` of `old`: the grid keeps its size
    /// and characters, loses its colours, and its lit dots are the dots whose
    /// sampled pixel is brighter than `VIDEO_THRESHOLD`.
    pub open spec fn grid_shows(self, old: VideoPlayer, i: int) -> bool {
        &&& grid_size(self.grid) == grid_size(old.grid)
        &&& grid_chars(self.grid) == grid_chars(old.grid)
        &&& grid_colors(self.grid) == no_colors()
        &&& grid_dots(self.grid) == lit_dots(
            old.frame_seq()[i],
            (2 * grid_width(old.grid)) as int,
            (4 * grid_height(old.grid)) as int,
            old.width as int,
            old.height as int,
            VIDEO_THRESHOLD,
        )
    }

    /// What rendering the current frame does: nothing when there is no such
    /// frame, and otherwise the grid shows it.
    pub open spec fn rendered(self, old: VideoPlayer) -> bool {
        &&& self.same_but_grid(old)
        &&& if old.frames@.len() == 0 || old.current_frame >= old.frames@.len() {
            self.grid == old.grid
        } else {
            self.grid_shows(old, old.current_frame as int)
        }
    }

    /// The position after one seek forward: five seconds on, but not past
    /// the last frame.
    pub open spec fn forward_position(self) -> nat {
        let target = self.current_frame + self.rate.seek_frames();
        let last = if self.total_frames > 0 {
            self.total_frames - 1
        } else {
            0
        };
        if target < last {
            target as nat
        } else {
            last as nat
        }
    }

    /// The position after one seek backward: five seconds back, but not
    /// before the first frame.
    pub open spec fn backward_position(self) -> nat {
        if self.current_frame >= self.rate.seek_frames() {
            (self.current_frame - self.rate.seek_frames()) as nat
        } else {
            0
        }
    }

    /// The player after a press of play/pause: the same, with playback
    /// switched.
    pub open spec fn after_toggle(self) -> VideoPlayer {
        VideoPlayer { is_playing: !self.is_playing, ..self }
    }

    /// The frame that playback moves to from the current one: the next,
    /// or the first after the last.
    pub open spec fn next_position(self) -> nat {
        if self.current_frame + 1 >= self.total_frames {
            0
        } else {
            (self.current_frame + 1) as nat
        }
    }

    /// A player with a `grid_width × grid_height` cell grid, no video, at 30
    /// frames per second and a 160 × 96 frame size; it fails when the grid
    /// cannot have that size.
    pub fn new(grid_width: usize, grid_height: usize) -> (r: Result<VideoPlayer, PlayerError>)
        ensures
            r.is_ok() <==> valid_grid_size(grid_width as int, grid_height as int),
            r is Err ==> r == Err::<VideoPlayer, PlayerError>(PlayerError::InvalidGridSize),
            r matches Ok(p) ==> {
                &&& grid_size(p.grid) == (grid_width as nat, grid_height as nat)
                &&& grid_dots(p.grid) == no_dots()
                &&& grid_chars(p.grid) == no_chars()
                &&& grid_colors(p.grid) == no_colors()
                &&& !p.is_playing
                &&& p.current_frame == 0
                &&& p.total_frames == 0
                &&& p.rate.fraction() == (30nat, 1nat)
                &&& p.width == 160
                &&& p.height == 96
                &&& p.frames@.len() == 0
            },
    {
        match new_grid(grid_width, grid_height) {
            Ok(grid) => Ok(
                VideoPlayer {
                    grid,
                    is_playing: false,
                    current_frame: 0,
                    total_frames: 0,
                    rate: FrameRate::standard(),
                    width: 160,
                    height: 96,
                    frames: Vec::new(),
                },
            ),
            Err(_) => Err(PlayerError::InvalidGridSize),
        }
    }

    pub fn play(&mut self)
        ensures
            final(self).is_playing,
            final(self).grid == old(self).grid,
            final(self).current_frame == old(self).current_frame,
            final(self).total_frames == old(self).total_frames,
            final(self).rate == old(self).rate,
            final(self).width == old(self).width,
            final(self).height == old(self).height,
            final(self).frames@ == old(self).frames@,
    {
        self.is_playing = true;
    }

    pub fn pause(&mut self)
        ensures
            !final(self).is_playing,
            final(self).grid == old(self).grid,
            final(self).current_frame == old(self).current_frame,
            final(self).total_frames == old(self).total_frames,
            final(self).rate == old(self).rate,
            final(self).width == old(self).width,
            final(self).height == old(self).height,
            final(self).frames@ == old(self).frames@,
    {
        self.is_playing = false;
    }

    pub fn toggle_playback(&mut self)
        ensures
            *final(self) == old(self).after_toggle(),
    {
        self.is_playing = !self.is_playing;
    }

    /// Stops playback and rewinds to the first frame.
    pub fn stop(&mut self)
        ensures
            !final(self).is_playing,
            final(self).current_frame == 0,
            final(self).grid == old(self).grid,
            final(self).total_frames == old(self).total_frames,
            final(self).rate == old(self).rate,
            final(self).width == old(self).width,
            final(self).height == old(self).height,
            final(self).frames@ == old(self).frames@,
    {
        self.is_playing = false;
        self.current_frame = 0;
    }

    /// Moves five seconds forward, stopping at the last frame.
    pub fn seek_forward(&mut self)
        requires
            old(self).current_frame + old(self).rate.seek_frames() <= usize::MAX,
        ensures
            final(self).current_frame == old(self).forward_position(),
            final(self).is_playing == old(self).is_playing,
            final(self).grid == old(self).grid,
            final(self).total_frames == old(self).total_frames,
            final(self).rate == old(self).rate,
            final(self).width == old(self).width,
            final(self).height == old(self).height,
            final(self).frames@ == old(self).frames@,
    {
        let skip = self.rate.seek_step();
        let target = self.current_frame + skip;
        let last = self.total_frames.saturating_sub(1);
        self.current_frame = if target < last {
            target
        } else {
            last
        };
    }

    /// Moves five seconds back, stopping at the first frame.
    pub fn seek_backward(&mut self)
        ensures
            final(self).current_frame == old(self).backward_position(),
            final(self).is_playing == old(self).is_playing,
            final(self).grid == old(self).grid,
            final(self).total_frames == old(self).total_frames,
            final(self).rate == old(self).rate,
            final(self).width == old(self).width,
            final(self).height == old(self).height,
            final(self).frames@ == old(self).frames@,
    {
        let skip = self.rate.seek_step();
        self.current_frame = self.current_frame.saturating_sub(skip);
    }

    pub fn has_video(&self) -> (r: bool)
        ensures
            r == (self.frames@.len() > 0),
    {
        self.frames.len() > 0
    }

    /// Milliseconds each frame stays on screen at the player's rate.
    pub fn frame_duration_ms(&self) -> (ms: u64)
        ensures
            ms == self.rate.frame_ms(),
    {
        self.rate.frame_duration_ms()
    }

    /// Draws the current frame into the grid, scaled to the grid's dot
    /// area by nearest-neighbour sampling; does nothing when there is no
    /// current frame.
    pub fn render_current_frame(&mut self)
        ensures
            final(self).rendered(*old(self)),
    {
        if self.frames.len() == 0 || self.current_frame >= self.frames.len() {
            return;
        }
        let src_w = self.width as usize;
        let src_h = self.height as usize;
        let cur = self.current_frame;
        grid_clear(&mut self.grid);
        draw_threshold_dots(&mut self.grid, self.frames[cur].as_slice(), src_w, src_h, VIDEO_THRESHOLD);
        assert(self.frame_seq()[cur as int] == self.frames@[cur as int]@);
    }

    /// Fits the grid to a `width × height` cell area: when the grid has
    /// another size and the area is a valid grid size, takes a fresh grid of
    /// that size, draws the current frame into it and returns `true`;
    /// otherwise changes nothing and returns `false`.
    pub fn fit_grid(&mut self, width: usize, height: usize) -> (refit: bool)
        ensures
            refit == (grid_size(old(self).grid) != (width as nat, height as nat) && valid_grid_size(
                width as int,
                height as int,
            )),
            !refit ==> *final(self) == *old(self),
            refit ==> {
                &&& grid_size(final(self).grid) == (width as nat, height as nat)
                &&& grid_chars(final(self).grid) == no_chars()
                &&& grid_colors(final(self).grid) == no_colors()
                &&& final(self).same_but_grid(*old(self))
                &&& grid_dots(final(self).grid) == if old(self).frames@.len() == 0
                    || old(self).current_frame >= old(self).frames@.len() {
                    no_dots()
                } else {
                    lit_dots(
                        old(self).frame_seq()[old(self).current_frame as int],
                        2 * width as int,
                        4 * height as int,
                        old(self).width as int,
                        old(self).height as int,
                        VIDEO_THRESHOLD,
                    )
                }
            },
    {
        let (gw, gh) = grid_dimensions(&self.grid);
        if gw == width && gh == height {
            return false;
        }
        match new_grid(width, height) {
            Ok(g) => {
                self.grid = g;
                self.render_current_frame();
                true
            },
            Err(_) => false,
        }
    }

    /// One tick of playback after `elapsed_ms` milliseconds on the current
    /// frame: when playing a video and the frame's time is up, moves to the
    /// next frame (back to the first after the last), draws it and returns
    /// `true`; otherwise changes nothing and returns `false`.
    pub fn update(&mut self, elapsed_ms: u64) -> (moved: bool)
        requires
            old(self).is_playing && old(self).frames@.len() > 0 && elapsed_ms
                >= old(self).rate.frame_ms() ==> old(self).current_frame < usize::MAX,
        ensures
            moved == (old(self).is_playing && old(self).frames@.len() > 0 && elapsed_ms
                >= old(self).rate.frame_ms()),
            !moved ==> *final(self) == *old(self),
            moved ==> {
                let next = old(self).next_position();
                &&& final(self).current_frame == next
                &&& final(self).is_playing == old(self).is_playing
                &&& final(self).total_frames == old(self).total_frames
                &&& final(self).rate == old(self).rate
                &&& final(self).width == old(self).width
                &&& final(self).height == old(self).height
                &&& final(self).frames@ == old(self).frames@
                &&& if next < old(self).frames@.len() {
                    final(self).grid_shows(*old(self), next as int)
                } else {
                    final(self).grid == old(self).grid
                }
            },
    {
        if !self.is_playing || self.frames.len() == 0 {
            return false;
        }
        if elapsed_ms >= self.rate.frame_duration_ms() {
            self.current_frame = self.current_frame + 1;
            if self.current_frame >= self.total_frames {
                self.current_frame = 0;
            }
            self.render_current_frame();
            true
        } else {
            false
        }
    }

    /// `current / total` playing time as `m:ss / m:ss`; `0:00 / 0:00` when
    /// there is no video.
    pub fn duration_str(&self) -> (s: String)
        ensures
            self.total_frames == 0 ==> s@ == clock_pair_text(0, 0, 0, 0),
            self.total_frames > 0 ==> {
                let cur = self.rate.seconds_of(self.current_frame as nat);
                let tot = self.rate.seconds_of(self.total_frames as nat);
                s@ == clock_pair_text(cur / 60, cur % 60, tot / 60, tot % 60)
            },
    {
        if self.total_frames == 0 {
            return format_clock_pair(0, 0, 0, 0);
        }
        let cur = self.rate.seconds_for(self.current_frame);
        let tot = self.rate.seconds_for(self.total_frames);
        format_clock_pair(cur / 60, cur % 60, tot / 60, tot % 60)
    }

    /// First step of loading a video: drops the current one, rewinds and
    /// stops playback.
    pub fn begin_load(&mut self)
        ensures
            final(self).frames@.len() == 0,
            final(self).current_frame == 0,
            !final(self).is_playing,
            final(self).grid == old(self).grid,
            final(self).total_frames == old(self).total_frames,
            final(self).rate == old(self).rate,
            final(self).width == old(self).width,
            final(self).height == old(self).height,
    {
        self.frames = Vec::new();
        self.current_frame = 0;
        self.is_playing = false;
    }

    /// Takes the frame rate from a prober's output (see `chosen_rate`).
    pub fn apply_probe(&mut self, probe_output: &[u8])
        ensures
            final(self).rate.fraction() == chosen_rate(
                old(self).rate.fraction(),
                probe_fraction(probe_output@),
            ),
            final(self).grid == old(self).grid,
            final(self).is_playing == old(self).is_playing,
            final(self).current_frame == old(self).current_frame,
            final(self).total_frames == old(self).total_frames,
            final(self).width == old(self).width,
            final(self).height == old(self).height,
            final(self).frames@ == old(self).frames@,
    {
        self.rate = self.rate.after_probe(probe_output);
    }

    /// Frame size to extract a video at: the grid's dot area.
    pub fn extraction_size(&self) -> (r: (usize, usize))
        ensures
            r.0 == 2 * grid_width(self.grid),
            r.1 == 4 * grid_height(self.grid),
            0 < r.0 <= 2 * max_grid_side(),
            0 < r.1 <= 4 * max_grid_side(),
    {
        let (w, h) = grid_dimensions(&self.grid);
        (w * 2, h * 4)
    }

    /// Last step of loading a video: keeps at most `MAX_FRAMES` of the
    /// extracted frames, records their size as the grid's dot area, and
    /// fails when there is none.
    pub fn finish_load(&mut self, frames: Vec<Vec<u8>>) -> (r: Result<(), PlayerError>)
        ensures
            r is Ok <==> frames@.len() > 0,
            r is Err ==> r == Err::<(), PlayerError>(PlayerError::NoFrames),
            final(self).frames@ == frames@.take(
                if frames@.len() > MAX_FRAMES {
                    MAX_FRAMES as int
                } else {
                    frames@.len() as int
                },
            ),
            final(self).total_frames == final(self).frames@.len(),
            final(self).width == 2 * grid_width(old(self).grid),
            final(self).height == 4 * grid_height(old(self).grid),
            final(self).grid == old(self).grid,
            final(self).is_playing == old(self).is_playing,
            final(self).current_frame == old(self).current_frame,
            final(self).rate == old(self).rate,
    {
        let (w, h) = self.extraction_size();
        let mut frames = frames;
        if frames.len() > MAX_FRAMES {
            frames.truncate(MAX_FRAMES);
        }
        let n = frames.len();
        self.frames = frames;
        self.total_frames = n;
        self.width = w as u32;
        self.height = h as u32;
        if n == 0 {
            Err(PlayerError::NoFrames)
        } else {
            Ok(())
        }
    }

    /// Loads a video from its extracted frame files, in order: decodes at
    /// most `MAX_FRAMES` of them to grayscale frames and keeps them as
    /// `finish_load` does. When one of those files does not decode, fails
    /// with `BadFrame`, keeping as frames those decoded before it and
    /// leaving everything else, frame count and size included, as it was.
    pub fn load_frames(&mut self, files: &Vec<Vec<u8>>) -> (r: Result<(), PlayerError>)
        ensures
            !all_decode(kept_files(files@)) <==> r == Err::<(), PlayerError>(PlayerError::BadFrame),
            !all_decode(kept_files(files@)) ==> {
                let bad = final(self).frames@.len() as int;
                &&& bad < kept_files(files@).len()
                &&& gray_pixels(kept_files(files@)[bad]) is None
                &&& all_decode(kept_files(files@).take(bad))
                &&& final(self).frame_seq() == decoded(kept_files(files@).take(bad))
                &&& final(self).grid == old(self).grid
                &&& final(self).is_playing == old(self).is_playing
                &&& final(self).current_frame == old(self).current_frame
                &&& final(self).total_frames == old(self).total_frames
                &&& final(self).rate == old(self).rate
                &&& final(self).width == old(self).width
                &&& final(self).height == old(self).height
            },
            all_decode(kept_files(files@)) ==> {
                &&& r is Ok <==> files@.len() > 0
                &&& r is Err ==> r == Err::<(), PlayerError>(PlayerError::NoFrames)
                &&& final(self).frame_seq() == decoded(kept_files(files@))
                &&& final(self).total_frames == final(self).frames@.len()
                &&& final(self).width == 2 * grid_width(old(self).grid)
                &&& final(self).height == 4 * grid_height(old(self).grid)
                &&& final(self).grid == old(self).grid
                &&& final(self).is_playing == old(self).is_playing
                &&& final(self).current_frame == old(self).current_frame
                &&& final(self).rate == old(self).rate
            },
    {
        let ghost kept = kept_files(files@);
        let n = if files.len() > MAX_FRAMES {
            MAX_FRAMES
        } else {
            files.len()
        };
        let mut frames: Vec<Vec<u8>> = Vec::new();
        let mut i: usize = 0;
        while i < n
            invariant
                i <= n <= files@.len(),
                n <= MAX_FRAMES,
                kept == kept_files(files@),
                kept.len() == n,
                frames@.len() == i,
                forall|j: int| 0 <= j < i ==> (#[trigger] gray_pixels(kept[j])) is Some,
                forall|j: int| 0 <= j < i ==> #[trigger] frames@[j]@ == gray_pixels(kept[j])->0,
                *self == *old(self),
            decreases n - i,
        {
            assert(kept[i as int] == files@[i as int]@);
            match decode_gray_frame(files[i].as_slice()) {
                Some(pixels) => {
                    frames.push(pixels);
                },
                None => {
                    self.frames = frames;
                    assert forall|j: int| 0 <= j < i implies (#[trigger] gray_pixels(
                        kept.take(i as int)[j],
                    )) is Some by {
                        assert(kept.take(i as int)[j] == kept[j]);
                    }
                    assert(self.frame_seq() =~= decoded(kept.take(i as int)));
                    return Err(PlayerError::BadFrame);
                },
            }
            i = i + 1;
        }
        let ghost got = frames@;
        let r = self.finish_load(frames);
        assert(got.take(n as int) =~= got);
        assert(self.frame_seq() =~= decoded(kept));
        r
    }
}


/// Pressing play/pause twice leaves the player as it was.
pub proof fn toggle_twice_restores(p: VideoPlayer)
    ensures
        p.after_toggle().after_toggle() == p,
{
}

/// Seeking keeps a position inside the video: forward never passes the
/// last frame, and backward never moves a position inside the video out
/// of it.
pub proof fn seek_stays_in_video(p: VideoPlayer)
    requires
        p.total_frames > 0,
    ensures
        p.forward_position() < p.total_frames,
        p.current_frame < p.total_frames ==> p.backward_position() < p.total_frames,
        p.backward_position() <= p.current_frame,
{
}

/// A seek forward that is not stopped by the end of the video is undone by
/// a seek backward.
pub proof fn seek_round_trip(p: VideoPlayer, q: VideoPlayer)
    requires
        p.current_frame + p.rate.seek_frames() < p.total_frames,
        q.current_frame == p.forward_position(),
        q.rate == p.rate,
    ensures
        q.backward_position() == p.current_frame,
{
}

/// A seek backward from inside the video that is not stopped by its start
/// is undone by a seek forward.
pub proof fn seek_back_round_trip(p: VideoPlayer, q: VideoPlayer)
    requires
        p.rate.seek_frames() <= p.current_frame < p.total_frames,
        q.current_frame == p.backward_position(),
        q.total_frames == p.total_frames,
        q.rate == p.rate,
    ensures
        q.forward_position() == p.current_frame,
{
}

/// Playback wraps round: the frame after the last one is the first, and
/// playback from a frame inside the video stays inside it.
pub proof fn playback_stays_in_video(p: VideoPlayer)
    requires
        p.current_frame < p.total_frames,
    ensures
        p.next_position() < p.total_frames,
        p.current_frame + 1 == p.total_frames ==> p.next_position() == 0,
        p.current_frame + 1 < p.total_frames ==> p.next_position() == p.current_frame + 1,
{
}

/// The elapsed time shown never exceeds the total time shown.
pub proof fn elapsed_within_total(r: FrameRate, current: nat, total: nat)
    requires
        current <= total,
        r.numer() > 0,
    ensures
        r.seconds_of(current) <= r.seconds_of(total),
{
    assert(current * r.denom() <= total * r.denom()) by (nonlinear_arith)
        requires
            current <= total,
    ;
    vstd::arithmetic::div_mod::lemma_div_is_ordered(
        (current * r.denom()) as int,
        (total * r.denom()) as int,
        r.numer() as int,
    );
}

} // verus!
