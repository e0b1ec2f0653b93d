//! Rendering and colour modes of the webcam view, and how they cycle.

use vstd::prelude::*;

verus! {

/// How a webcam frame is drawn into the terminal grid.
#[derive(Clone, Copy, Debug, PartialEq, Eq, Structural)]
pub enum RenderMode {
    /// Binary braille dots.
    Braille,
    /// Full ASCII density ramp.
    Ascii,
    /// Short ten-character density ramp.
    Simple,
    /// Unicode block characters.
    Blocks,
}

impl RenderMode {
    /// The mode that follows `self` in the cycle Braille, Ascii, Simple, Blocks.
    pub open spec fn following(self) -> RenderMode {
        match self {
            RenderMode::Braille => RenderMode::Ascii,
            RenderMode::Ascii => RenderMode::Simple,
            RenderMode::Simple => RenderMode::Blocks,
            RenderMode::Blocks => RenderMode::Braille,
        }
    }

    /// The display name of the mode.
    pub open spec fn title(self) -> Seq<char> {
        match self {
            RenderMode::Braille => "Braille"@,
            RenderMode::Ascii => "ASCII"@,
            RenderMode::Simple => "Simple"@,
            RenderMode::Blocks => "Blocks"@,
        }
    }

    pub fn next(&self) -> (r: Self)
        ensures
            r == self.following(),
    {
        match self {
            RenderMode::Braille => RenderMode::Ascii,
            RenderMode::Ascii => RenderMode::Simple,
            RenderMode::Simple => RenderMode::Blocks,
            RenderMode::Blocks => RenderMode::Braille,
        }
    }

    pub fn name(&self) -> (s: &'static str)
        ensures
            s@ == self.title(),
    {
        match self {
            RenderMode::Braille => "Braille",
            RenderMode::Ascii => "ASCII",
            RenderMode::Simple => "Simple",
            RenderMode::Blocks => "Blocks",
        }
    }
}

/// Colour scheme applied over the rendered grid.
#[derive(Clone, Copy, Debug, PartialEq, Eq, Structural)]
pub enum ColorMode {
    /// No colour scheme: plain white output.
    NoColor,
    Rainbow,
    HeatMap,
    BluePurple,
    GreenYellow,
    CyanMagenta,
    Grayscale,
}

impl ColorMode {
    /// The mode that follows `self` in the cycle None, Rainbow, HeatMap,
    /// BluePurple, GreenYellow, CyanMagenta, Grayscale.
    pub open spec fn following(self) -> ColorMode {
        match self {
            ColorMode::NoColor => ColorMode::Rainbow,
            ColorMode::Rainbow => ColorMode::HeatMap,
            ColorMode::HeatMap => ColorMode::BluePurple,
            ColorMode::BluePurple => ColorMode::GreenYellow,
            ColorMode::GreenYellow => ColorMode::CyanMagenta,
            ColorMode::CyanMagenta => ColorMode::Grayscale,
            ColorMode::Grayscale => ColorMode::NoColor,
        }
    }

    /// The display name of the mode.
    pub open spec fn title(self) -> Seq<char> {
        match self {
            ColorMode::NoColor => "None"@,
            ColorMode::Rainbow => "Rainbow"@,
            ColorMode::HeatMap => "HeatMap"@,
            ColorMode::BluePurple => "BluePurple"@,
            ColorMode::GreenYellow => "GreenYellow"@,
            ColorMode::CyanMagenta => "CyanMagenta"@,
            ColorMode::Grayscale => "Grayscale"@,
        }
    }

    pub fn next(&self) -> (r: Self)
        ensures
            r == self.following(),
    {
        match self {
            ColorMode::NoColor => ColorMode::Rainbow,
            ColorMode::Rainbow => ColorMode::HeatMap,
            ColorMode::HeatMap => ColorMode::BluePurple,
            ColorMode::BluePurple => ColorMode::GreenYellow,
            ColorMode::GreenYellow => ColorMode::CyanMagenta,
            ColorMode::CyanMagenta => ColorMode::Grayscale,
            ColorMode::Grayscale => ColorMode::NoColor,
        }
    }

    pub fn name(&self) -> (s: &'static str)
        ensures
            s@ == self.title(),
    {
        match self {
            ColorMode::NoColor => "None",
            ColorMode::Rainbow => "Rainbow",
            ColorMode::HeatMap => "HeatMap",
            ColorMode::BluePurple => "BluePurple",
            ColorMode::GreenYellow => "GreenYellow",
            ColorMode::CyanMagenta => "CyanMagenta",
            ColorMode::Grayscale => "Grayscale",
        }
    }
}

/// How braille mode turns brightness into dots.
#[derive(Clone, Copy, Debug, PartialEq, Eq, Structural)]
pub enum DitherMode {
    /// A plain threshold: each dot is lit when its sample is brighter.
    NoDither,
    /// Error diffusion to the right and the row below, in sixteenths.
    FloydSteinberg,
    /// Error diffusion of three quarters of the error, in eighths.
    Atkinson,
    /// An ordered 4 × 4 Bayer pattern around the threshold.
    Bayer,
}

impl DitherMode {
    /// The mode that follows `self` in the cycle None, Floyd-Steinberg,
    /// Atkinson, Bayer.
    pub open spec fn following(self) -> DitherMode {
        match self {
            DitherMode::NoDither => DitherMode::FloydSteinberg,
            DitherMode::FloydSteinberg => DitherMode::Atkinson,
            DitherMode::Atkinson => DitherMode::Bayer,
            DitherMode::Bayer => DitherMode::NoDither,
        }
    }

    /// The display name of the mode.
    pub open spec fn title(self) -> Seq<char> {
        match self {
            DitherMode::NoDither => "None"@,
            DitherMode::FloydSteinberg => "Floyd-Steinberg"@,
            DitherMode::Atkinson => "Atkinson"@,
            DitherMode::Bayer => "Bayer"@,
        }
    }

    pub fn next(&self) -> (r: Self)
        ensures
            r == self.following(),
    {
        match self {
            DitherMode::NoDither => DitherMode::FloydSteinberg,
            DitherMode::FloydSteinberg => DitherMode::Atkinson,
            DitherMode::Atkinson => DitherMode::Bayer,
            DitherMode::Bayer => DitherMode::NoDither,
        }
    }

    pub fn name(&self) -> (s: &'static str)
        ensures
            s@ == self.title(),
    {
        match self {
            DitherMode::NoDither => "None",
            DitherMode::FloydSteinberg => "Floyd-Steinberg",
            DitherMode::Atkinson => "Atkinson",
            DitherMode::Bayer => "Bayer",
        }
    }
}

/// Cycling the dithering mode four times returns to the starting mode, and
/// the cycle visits every mode.
pub proof fn dither_mode_cycle(m: DitherMode, target: DitherMode)
    ensures
        m.following().following().following().following() == m,
        target == m || target == m.following() || target == m.following().following()
            || target == m.following().following().following(),
{
}

/// Cycling the render mode four times returns to the starting mode, and the
/// cycle visits every mode: each mode is reached from `m` in fewer than four
/// steps.
pub proof fn render_mode_cycle(m: RenderMode, target: RenderMode)
    ensures
        m.following().following().following().following() == m,
        target == m || target == m.following() || target == m.following().following()
            || target == m.following().following().following(),
{
}

/// Cycling the colour mode seven times returns to the starting mode, and no
/// fewer than seven steps do.
pub proof fn color_mode_cycle(m: ColorMode)
    ensures
        m.following().following().following().following().following().following().following()
            == m,
        m.following() != m,
        m.following().following() != m,
        m.following().following().following() != m,
        m.following().following().following().following() != m,
        m.following().following().following().following().following() != m,
        m.following().following().following().following().following().following() != m,
{
}

/// Distinct render modes have distinct names.
pub proof fn render_mode_names_distinct(a: RenderMode, b: RenderMode)
    requires
        a != b,
    ensures
        a.title() != b.title(),
{
    reveal_strlit("Braille");
    reveal_strlit("ASCII");
    reveal_strlit("Simple");
    reveal_strlit("Blocks");
    if a.title() == b.title() {
        assert(a.title().len() == b.title().len());
        assert(a.title()[0] == b.title()[0]);
        assert(a.title()[1] == b.title()[1]);
    }
}

/// Distinct colour modes have distinct names.
pub proof fn color_mode_names_distinct(a: ColorMode, b: ColorMode)
    requires
        a != b,
    ensures
        a.title() != b.title(),
{
    reveal_strlit("None");
    reveal_strlit("Rainbow");
    reveal_strlit("HeatMap");
    reveal_strlit("BluePurple");
    reveal_strlit("GreenYellow");
    reveal_strlit("CyanMagenta");
    reveal_strlit("Grayscale");
    if a.title() == b.title() {
        assert(a.title().len() == b.title().len());
        assert(a.title()[0] == b.title()[0]);
        assert(a.title()[1] == b.title()[1]);
    }
}

} // verus!
