use rustvidya::dither::dither;
use rustvidya::modes::{ColorMode, DitherMode, RenderMode};
use rustvidya::video::PlayerError;
use rustvidya::webcam::WebcamPlayer;

fn cams(names: &[&str]) -> Vec<String> {
    names.iter().map(|s| s.to_string()).collect()
}

#[test]
fn new_webcam_defaults() {
    let w = WebcamPlayer::new(10, 5, cams(&["Cam A"])).unwrap();
    assert!(!w.is_streaming);
    assert_eq!((w.width, w.height), (20, 20));
    assert_eq!(w.device_index, 0);
    assert_eq!(w.frame_count, 0);
    assert_eq!(w.render_mode, RenderMode::Braille);
    assert_eq!(w.color_mode, ColorMode::NoColor);
    assert_eq!(w.brightness_threshold, 80);
    assert!(w.has_devices());
    assert_eq!(w.current_device_name(), "Cam A");
    assert_eq!(WebcamPlayer::new(0, 5, cams(&[])).err(), Some(PlayerError::InvalidGridSize));
}

#[test]
fn threshold_saturates() {
    let mut w = WebcamPlayer::new(1, 1, cams(&[])).unwrap();
    w.increase_threshold();
    assert_eq!(w.brightness_threshold, 90);
    w.decrease_threshold();
    assert_eq!(w.brightness_threshold, 80);
    w.brightness_threshold = 250;
    w.increase_threshold();
    assert_eq!(w.brightness_threshold, 255);
    w.brightness_threshold = 5;
    w.decrease_threshold();
    assert_eq!(w.brightness_threshold, 0);
}

#[test]
fn cycling_modes() {
    let mut w = WebcamPlayer::new(1, 1, cams(&[])).unwrap();
    w.cycle_render_mode();
    assert_eq!(w.render_mode, RenderMode::Ascii);
    w.cycle_color_mode();
    assert_eq!(w.color_mode, ColorMode::Rainbow);
}

#[test]
fn next_device_wraps_and_asks_restart_when_streaming() {
    let mut w = WebcamPlayer::new(1, 1, cams(&["A", "B", "C"])).unwrap();
    assert!(!w.next_device());
    assert_eq!(w.device_index, 1);
    assert_eq!(w.current_device_name(), "B");
    w.next_device();
    w.stream_started();
    assert!(w.next_device());
    assert_eq!(w.device_index, 0);
    let mut none = WebcamPlayer::new(1, 1, cams(&[])).unwrap();
    assert!(!none.next_device());
    assert_eq!(none.device_index, 0);
    assert!(!none.has_devices());
    assert_eq!(none.current_device_name(), "No device");
}

#[test]
fn start_and_stop_streaming() {
    let mut w = WebcamPlayer::new(3, 2, cams(&["A"])).unwrap();
    w.width = 7;
    w.frame_count = 9;
    assert!(w.start_streaming());
    assert_eq!((w.width, w.height, w.frame_count), (6, 8, 0));
    assert!(!w.is_streaming);
    w.stream_started();
    assert!(w.is_streaming);
    assert!(!w.start_streaming());
    w.stop_streaming();
    assert!(!w.is_streaming);
}

#[test]
fn update_ignores_frames_when_not_streaming() {
    let mut w = WebcamPlayer::new(1, 1, cams(&[])).unwrap();
    let frame = vec![255u8; 8];
    assert!(w.update(Some(&frame)).is_none());
    assert_eq!(w.frame_count, 0);
    w.stream_started();
    assert!(w.update(None).is_none());
    assert_eq!(w.frame_count, 0);
}

#[test]
fn update_records_and_draws_a_frame() {
    let mut w = WebcamPlayer::new(1, 1, cams(&[])).unwrap();
    w.stream_started();
    let frame = vec![10u8, 20, 30, 40, 50, 60, 200, 90];
    let plan = w.update(Some(&frame)).unwrap();
    assert_eq!(w.frame_count, 1);
    assert_eq!(w.last_frame_size, 8);
    assert_eq!(w.last_frame_avg, 62);
    assert!(plan.density_samples.is_none());
    assert!(plan.color_samples.is_none());
    // (0,3) -> 200 and (1,3) -> 90 exceed 80: dots 7 and 8.
    assert_eq!(w.grid.get_char(0, 0), char::from_u32(0x2800 + 0x40 + 0x80).unwrap());
}

#[test]
fn frame_of_wrong_size_is_counted_but_not_drawn() {
    let mut w = WebcamPlayer::new(1, 1, cams(&[])).unwrap();
    w.stream_started();
    let plan = w.update(Some(&[255u8; 3]));
    assert!(plan.is_none());
    assert_eq!(w.frame_count, 1);
    assert_eq!(w.last_frame_size, 3);
    assert_eq!(w.last_frame_avg, 255);
    assert_eq!(w.grid.get_char(0, 0), '⠀');
    assert!(w.render_frame(&[0u8; 9]).is_none());
}

#[test]
fn density_mode_samples_cells() {
    let mut w = WebcamPlayer::new(2, 1, cams(&[])).unwrap();
    w.render_mode = RenderMode::Ascii;
    w.color_mode = ColorMode::HeatMap;
    // 4 x 4 frame; cell (x, 0) samples pixel (2x, 0).
    let mut frame = vec![0u8; 16];
    frame[0] = 7;
    frame[2] = 9;
    let plan = w.render_frame(&frame).unwrap();
    assert_eq!(plan.density_samples, Some(vec![7, 9]));
    assert_eq!(plan.color_samples, Some(vec![7, 9]));
    assert_eq!(w.last_samples, vec![7, 9]);
}

#[test]
fn braille_mode_colours_use_this_frames_samples() {
    let mut w = WebcamPlayer::new(2, 1, cams(&[])).unwrap();
    w.color_mode = ColorMode::Grayscale;
    let mut frame = vec![0u8; 16];
    frame[0] = 100;
    frame[2] = 3;
    let plan = w.render_frame(&frame).unwrap();
    assert_eq!(plan.color_samples, Some(vec![100, 3]));
    assert!(w.last_samples.is_empty());
    w.last_samples = vec![1, 2];
    let plan = w.render_frame(&frame).unwrap();
    assert_eq!(plan.color_samples, Some(vec![100, 3]));
}

#[test]
fn list_devices_reads_video_section() {
    let listing = b"[AVFoundation indev @ 0x1] AVFoundation video devices:\n\
[AVFoundation indev @ 0x1] [0] FaceTime HD Camera\r\n\
[AVFoundation indev @ 0x1] [1] Capture screen 0\n\
[AVFoundation indev @ 0x1] AVFoundation audio devices:\n\
[AVFoundation indev @ 0x1] [0] Microphone\n";
    assert_eq!(
        WebcamPlayer::list_devices(listing),
        cams(&["FaceTime HD Camera", "Capture screen 0"])
    );
}

#[test]
fn list_devices_defaults_to_one_camera() {
    assert_eq!(WebcamPlayer::list_devices(b""), cams(&["Default Camera"]));
    let no_video = b"[x] [0] Something\n[x] AVFoundation audio devices:\n";
    assert_eq!(WebcamPlayer::list_devices(no_video), cams(&["Default Camera"]));
}

#[test]
fn list_devices_replaces_invalid_utf8() {
    let listing = b"AVFoundation video devices:\n[a] [0] Cam\xff\n";
    assert_eq!(WebcamPlayer::list_devices(listing), cams(&["Cam\u{FFFD}"]));
}

#[test]
fn higher_threshold_lights_fewer_dots() {
    let frame = vec![10u8, 95, 30, 85, 50, 60, 200, 90];
    let mut low = WebcamPlayer::new(1, 1, cams(&[])).unwrap();
    low.brightness_threshold = 80;
    low.render_frame(&frame).unwrap();
    let mut high = WebcamPlayer::new(1, 1, cams(&[])).unwrap();
    high.brightness_threshold = 90;
    high.render_frame(&frame).unwrap();
    let bits = |c: char| c as u32 - 0x2800;
    let (l, h) = (bits(low.grid.get_char(0, 0)), bits(high.grid.get_char(0, 0)));
    assert_eq!(h & !l, 0);
    assert!(h != l);
}

#[test]
fn switching_devices_round_trip() {
    let mut w = WebcamPlayer::new(1, 1, cams(&["A", "B", "C"])).unwrap();
    w.device_index = 1;
    for _ in 0..3 {
        w.next_device();
        assert!(w.device_index < 3);
    }
    assert_eq!(w.device_index, 1);
}

#[test]
fn threshold_raise_then_lower_restores() {
    let mut w = WebcamPlayer::new(1, 1, cams(&[])).unwrap();
    w.brightness_threshold = 37;
    w.increase_threshold();
    w.decrease_threshold();
    assert_eq!(w.brightness_threshold, 37);
}

#[test]
fn dithering_cycles_and_starts_off() {
    let mut w = WebcamPlayer::new(1, 1, cams(&[])).unwrap();
    assert_eq!(w.dither_mode, DitherMode::NoDither);
    w.cycle_dither_mode();
    assert_eq!(w.dither_mode, DitherMode::FloydSteinberg);
    w.cycle_dither_mode();
    assert_eq!(w.dither_mode, DitherMode::Atkinson);
    w.cycle_dither_mode();
    assert_eq!(w.dither_mode, DitherMode::Bayer);
    w.cycle_dither_mode();
    assert_eq!(w.dither_mode, DitherMode::NoDither);
    assert_eq!(w.render_mode, RenderMode::Braille);
}

#[test]
fn plain_threshold_without_dithering() {
    let lit = dither(&[10, 81, 80, 200], 2, 2, 80, DitherMode::NoDither);
    assert_eq!(lit, vec![false, true, false, true]);
}

#[test]
fn bayer_pattern_around_threshold() {
    // Threshold of dot (x, y) is 80 + 16 * index + 8 - 128.
    let lit = dither(&[0, 0, 0, 0, 0, 0, 0, 0], 4, 2, 80, DitherMode::Bayer);
    // indices 0, 8, 2, 10 / 12, 4, 14, 6: thresholds -40, 88, -8, 120 / 152, 24, 184, 56.
    assert_eq!(lit, vec![true, false, true, false, false, false, false, false]);
    let lit = dither(&[100; 4], 4, 1, 80, DitherMode::Bayer);
    assert_eq!(lit, vec![true, true, true, false]);
}

#[test]
fn floyd_steinberg_spreads_error() {
    // Row of mid grey: 128 lights (error -127), right neighbour gets
    // floor(-127 * 7 / 16) = -56, so 72 stays dark (error 72), and so on.
    let lit = dither(&[128, 128, 128, 128], 4, 1, 127, DitherMode::FloydSteinberg);
    assert_eq!(lit, vec![true, false, true, false]);
    let lit = dither(&[0, 255, 0, 255], 2, 2, 127, DitherMode::FloydSteinberg);
    assert_eq!(lit, vec![false, true, false, true]);
}

#[test]
fn atkinson_spreads_three_quarters() {
    // 100 stays dark and gives 12 to each neighbour in the row; 132 then
    // lights and gives floor(-123 / 8) = -16, leaving 116 dark.
    let lit = dither(&[100, 120, 120], 3, 1, 127, DitherMode::Atkinson);
    assert_eq!(lit, vec![false, true, false]);
}

#[test]
fn braille_mode_with_dithering_draws_dithered_dots() {
    let mut w = WebcamPlayer::new(1, 1, cams(&[])).unwrap();
    w.dither_mode = DitherMode::Bayer;
    w.brightness_threshold = 40;
    let frame = vec![0u8; 8];
    w.render_frame(&frame).unwrap();
    // On black at 40 the dots with Bayer index below 5 light: (0,0), (1,1)
    // and (0,2), braille bits 0x01, 0x10 and 0x04.
    let bits = w.grid.get_char(0, 0) as u32 - 0x2800;
    assert_eq!(bits, 0x15);
}

#[test]
fn toggle_streaming_starts_then_stops() {
    let mut w = WebcamPlayer::new(2, 1, cams(&["A"])).unwrap();
    w.frame_count = 5;
    assert!(w.toggle_streaming());
    assert_eq!(w.frame_count, 0);
    assert_eq!((w.width, w.height), (4, 4));
    w.stream_started();
    assert!(!w.toggle_streaming());
    assert!(!w.is_streaming);
}

#[test]
fn device_names_of_valid_utf8_are_decoded() {
    let listing = "AVFoundation video devices:\n[a] [0] Caméra ü\n".as_bytes();
    assert_eq!(WebcamPlayer::list_devices(listing), cams(&["Caméra ü"]));
}
