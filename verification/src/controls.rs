//! The keyboard controls: which view is shown, and what each key asks for
//! in it.

use vstd::prelude::*;

verus! {

/// A key press, as far as the controls tell keys apart.
#[derive(Clone, Copy, Debug, PartialEq, Eq, Structural)]
pub enum Key {
    Char(char),
    Enter,
    Up,
    Down,
    Left,
    Right,
    Backspace,
    Other,
}

/// The view on screen: the video browser and player, or the live webcam.
#[derive(Clone, Copy, Debug, PartialEq, Eq, Structural)]
pub enum ViewMode {
    Video,
    Webcam,
}

impl ViewMode {
    /// The view that `w` switches to from `self`.
    pub open spec fn other(self) -> ViewMode {
        match self {
            ViewMode::Video => ViewMode::Webcam,
            ViewMode::Webcam => ViewMode::Video,
        }
    }

    /// The view that `w` switches to.
    pub fn switched(&self) -> (r: ViewMode)
        ensures
            r == self.other(),
    {
        match self {
            ViewMode::Video => ViewMode::Webcam,
            ViewMode::Webcam => ViewMode::Video,
        }
    }

    /// The display name of the view.
    pub fn name(&self) -> (s: &'static str)
        ensures
            s@ == match *self {
                ViewMode::Video => "Video"@,
                ViewMode::Webcam => "Webcam"@,
            },
    {
        match self {
            ViewMode::Video => "Video",
            ViewMode::Webcam => "Webcam",
        }
    }
}

/// What a key press asks for.
#[derive(Clone, Copy, Debug, PartialEq, Eq, Structural)]
pub enum Action {
    Quit,
    SwitchMode,
    Previous,
    Next,
    ParentDirectory,
    Select,
    TogglePlayback,
    SeekBackward,
    SeekForward,
    Stop,
    ToggleStreaming,
    StopStreaming,
    NextDevice,
    CycleRenderMode,
    CycleColorMode,
    CycleDithering,
    RaiseThreshold,
    LowerThreshold,
    Nothing,
}

/// The action of each key in view `mode`. In both views `q` quits, `w`
/// switches views, Up/`k` and Down/`j` move the selection and Backspace
/// goes to the parent directory. In the video view Enter plays the
/// selection, space plays or pauses, Left/`h` and Right/`l` seek and `s`
/// stops. In the webcam view space starts or stops the stream, `s` stops
/// it, `n` switches device, `m`, `c` and `d` cycle the render mode, the
/// colour scheme and the dithering, and `+` and `-` raise and lower the
/// brightness threshold. Other keys do nothing.
pub open spec fn key_action(mode: ViewMode, key: Key) -> Action {
    match key {
        Key::Char('q') => Action::Quit,
        Key::Char('w') => Action::SwitchMode,
        Key::Up | Key::Char('k') => Action::Previous,
        Key::Down | Key::Char('j') => Action::Next,
        Key::Backspace => Action::ParentDirectory,
        _ => match mode {
            ViewMode::Video => match key {
                Key::Enter => Action::Select,
                Key::Char(' ') => Action::TogglePlayback,
                Key::Left | Key::Char('h') => Action::SeekBackward,
                Key::Right | Key::Char('l') => Action::SeekForward,
                Key::Char('s') => Action::Stop,
                _ => Action::Nothing,
            },
            ViewMode::Webcam => match key {
                Key::Char(' ') => Action::ToggleStreaming,
                Key::Char('s') => Action::StopStreaming,
                Key::Char('n') => Action::NextDevice,
                Key::Char('m') => Action::CycleRenderMode,
                Key::Char('c') => Action::CycleColorMode,
                Key::Char('d') => Action::CycleDithering,
                Key::Char('+') => Action::RaiseThreshold,
                Key::Char('-') => Action::LowerThreshold,
                _ => Action::Nothing,
            },
        },
    }
}

/// The action a key press asks for in view `mode` (see `key_action`).
pub fn action_for(mode: ViewMode, key: Key) -> (a: Action)
    ensures
        a == key_action(mode, key),
{
    match key {
        Key::Char('q') => Action::Quit,
        Key::Char('w') => Action::SwitchMode,
        Key::Up | Key::Char('k') => Action::Previous,
        Key::Down | Key::Char('j') => Action::Next,
        Key::Backspace => Action::ParentDirectory,
        _ => match mode {
            ViewMode::Video => match key {
                Key::Enter => Action::Select,
                Key::Char(' ') => Action::TogglePlayback,
                Key::Left | Key::Char('h') => Action::SeekBackward,
                Key::Right | Key::Char('l') => Action::SeekForward,
                Key::Char('s') => Action::Stop,
                _ => Action::Nothing,
            },
            ViewMode::Webcam => match key {
                Key::Char(' ') => Action::ToggleStreaming,
                Key::Char('s') => Action::StopStreaming,
                Key::Char('n') => Action::NextDevice,
                Key::Char('m') => Action::CycleRenderMode,
                Key::Char('c') => Action::CycleColorMode,
                Key::Char('d') => Action::CycleDithering,
                Key::Char('+') => Action::RaiseThreshold,
                Key::Char('-') => Action::LowerThreshold,
                _ => Action::Nothing,
            },
        },
    }
}

/// Switching views twice comes back to the first view.
pub proof fn switch_twice_restores(mode: ViewMode)
    ensures
        mode.other().other() == mode,
        mode.other() != mode,
{
}

} // verus!
