use rustvidya::controls::{action_for, Action, Key, ViewMode};

#[test]
fn general_keys_act_in_both_views() {
    for mode in [ViewMode::Video, ViewMode::Webcam] {
        assert_eq!(action_for(mode, Key::Char('q')), Action::Quit);
        assert_eq!(action_for(mode, Key::Char('w')), Action::SwitchMode);
        assert_eq!(action_for(mode, Key::Up), Action::Previous);
        assert_eq!(action_for(mode, Key::Char('k')), Action::Previous);
        assert_eq!(action_for(mode, Key::Down), Action::Next);
        assert_eq!(action_for(mode, Key::Char('j')), Action::Next);
        assert_eq!(action_for(mode, Key::Backspace), Action::ParentDirectory);
        assert_eq!(action_for(mode, Key::Char('Q')), Action::Nothing);
        assert_eq!(action_for(mode, Key::Other), Action::Nothing);
    }
}

#[test]
fn video_view_keys() {
    let v = ViewMode::Video;
    assert_eq!(action_for(v, Key::Char(' ')), Action::TogglePlayback);
    assert_eq!(action_for(v, Key::Enter), Action::Select);
    assert_eq!(action_for(v, Key::Left), Action::SeekBackward);
    assert_eq!(action_for(v, Key::Char('h')), Action::SeekBackward);
    assert_eq!(action_for(v, Key::Right), Action::SeekForward);
    assert_eq!(action_for(v, Key::Char('l')), Action::SeekForward);
    assert_eq!(action_for(v, Key::Char('s')), Action::Stop);
    assert_eq!(action_for(v, Key::Char('d')), Action::Nothing);
    assert_eq!(action_for(v, Key::Char('n')), Action::Nothing);
}

#[test]
fn webcam_view_keys() {
    let w = ViewMode::Webcam;
    assert_eq!(action_for(w, Key::Char(' ')), Action::ToggleStreaming);
    assert_eq!(action_for(w, Key::Char('s')), Action::StopStreaming);
    assert_eq!(action_for(w, Key::Char('n')), Action::NextDevice);
    assert_eq!(action_for(w, Key::Char('m')), Action::CycleRenderMode);
    assert_eq!(action_for(w, Key::Char('c')), Action::CycleColorMode);
    assert_eq!(action_for(w, Key::Char('d')), Action::CycleDithering);
    assert_eq!(action_for(w, Key::Char('+')), Action::RaiseThreshold);
    assert_eq!(action_for(w, Key::Char('-')), Action::LowerThreshold);
    assert_eq!(action_for(w, Key::Enter), Action::Nothing);
    assert_eq!(action_for(w, Key::Left), Action::Nothing);
}

#[test]
fn switching_views_twice_comes_back() {
    assert_eq!(ViewMode::Video.switched(), ViewMode::Webcam);
    assert_eq!(ViewMode::Webcam.switched(), ViewMode::Video);
    assert_eq!(ViewMode::Video.switched().switched(), ViewMode::Video);
    assert_eq!(ViewMode::Video.name(), "Video");
    assert_eq!(ViewMode::Webcam.name(), "Webcam");
}
