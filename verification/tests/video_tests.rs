use dotmax::BrailleGrid;
use rustvidya::video::{PlayerError, VideoPlayer};

fn frames(n: usize, len: usize, value: u8) -> Vec<Vec<u8>> {
    (0..n).map(|_| vec![value; len]).collect()
}

#[test]
fn test_video_loading_and_rendering() {
    // Same checks as a real load, with 100 synthetic frames in place of a decoded file.
    let mut player = VideoPlayer::new(40, 12).expect("Failed to create player");
    player.begin_load();
    player.apply_probe(b"30/1\n");
    let (w, h) = player.extraction_size();
    let result = player.finish_load(frames(100, w * h, 200));
    assert!(result.is_ok(), "Failed to load video: {:?}", result.err());

    assert!(player.total_frames > 0, "No frames loaded");
    assert!(player.has_video(), "has_video() should return true");

    player.render_current_frame();
    let (w, h) = player.grid.dimensions();
    assert_eq!(w, 40);
    assert_eq!(h, 12);

    player.play();
    assert!(player.is_playing);
    player.pause();
    assert!(!player.is_playing);
    player.toggle_playback();
    assert!(player.is_playing);
    player.stop();
    assert!(!player.is_playing);
    assert_eq!(player.current_frame, 0);

    player.current_frame = 50;
    player.seek_forward();
    assert!(player.current_frame > 50);
    player.seek_backward();

    let progress = player.current_frame as f64 / player.total_frames as f64;
    assert!(progress >= 0.0 && progress <= 1.0);

    let dur = player.duration_str();
    assert!(dur.contains("/"));

    player.render_current_frame();
    let chars = player.grid.to_unicode_grid();
    assert_eq!(chars.len(), 12);

    let new_grid = BrailleGrid::new(60, 18).expect("Failed to create new grid");
    player.grid = new_grid;
    player.render_current_frame();
    let (new_w, new_h) = player.grid.dimensions();
    assert_eq!(new_w, 60);
    assert_eq!(new_h, 18);
    assert_eq!(player.grid.get_char(59, 17), '⣿');
}

#[test]
fn new_player_defaults() {
    let p = VideoPlayer::new(80, 20).unwrap();
    assert!(!p.is_playing);
    assert_eq!(p.current_frame, 0);
    assert_eq!(p.total_frames, 0);
    assert_eq!((p.width, p.height), (160, 96));
    assert_eq!((p.rate.numerator(), p.rate.denominator()), (30, 1));
    assert_eq!(p.frame_duration_ms(), 33);
    assert!(!p.has_video());
    assert_eq!(p.duration_str(), "0:00 / 0:00");
}

#[test]
fn new_player_rejects_bad_grid_sizes() {
    assert_eq!(VideoPlayer::new(0, 20).err(), Some(PlayerError::InvalidGridSize));
    assert_eq!(VideoPlayer::new(20, 0).err(), Some(PlayerError::InvalidGridSize));
    assert_eq!(VideoPlayer::new(10_001, 5).err(), Some(PlayerError::InvalidGridSize));
    assert!(VideoPlayer::new(10_000, 1).is_ok());
}

#[test]
fn finish_load_without_frames_fails() {
    let mut p = VideoPlayer::new(10, 5).unwrap();
    assert_eq!(p.finish_load(Vec::new()), Err(PlayerError::NoFrames));
    assert_eq!(p.total_frames, 0);
    assert_eq!((p.width, p.height), (20, 20));
}

#[test]
fn finish_load_keeps_at_most_3600_frames() {
    let mut p = VideoPlayer::new(1, 1).unwrap();
    assert!(p.finish_load(frames(3700, 8, 0)).is_ok());
    assert_eq!(p.total_frames, 3600);
    assert_eq!(p.frames.len(), 3600);
}

#[test]
fn render_lights_bright_pixels() {
    let mut p = VideoPlayer::new(1, 1).unwrap();
    // 2 x 4 frame: bright at (0,0) and (1,3); 80 itself stays dark.
    let mut f = vec![0u8; 8];
    f[0] = 200;
    f[7] = 81;
    f[2] = 80;
    p.finish_load(vec![f]).unwrap();
    p.render_current_frame();
    assert_eq!(p.grid.get_char(0, 0), char::from_u32(0x2800 + 0x01 + 0x80).unwrap());
}

#[test]
fn render_scales_source_to_grid() {
    // A 4 x 8 frame on a 1 x 1 grid: dot (x, y) samples pixel (2x, 2y).
    let mut p = VideoPlayer::new(1, 1).unwrap();
    p.finish_load(vec![vec![0u8; 8]]).unwrap();
    p.width = 4;
    p.height = 8;
    let mut f = vec![0u8; 32];
    f[2] = 255; // pixel (2, 0) -> dot (1, 0)
    f[1] = 255; // pixel (1, 0) is never sampled
    p.frames = vec![f];
    p.render_current_frame();
    assert_eq!(p.grid.get_char(0, 0), char::from_u32(0x2800 + 0x08).unwrap());
}

#[test]
fn render_without_current_frame_does_nothing() {
    let mut p = VideoPlayer::new(1, 1).unwrap();
    p.render_current_frame();
    assert_eq!(p.grid.get_char(0, 0), '⠀');
    p.finish_load(vec![vec![255u8; 8]]).unwrap();
    p.current_frame = 5;
    p.render_current_frame();
    assert_eq!(p.grid.get_char(0, 0), '⠀');
}

#[test]
fn seeking_moves_five_seconds_and_clamps() {
    let mut p = VideoPlayer::new(1, 1).unwrap();
    p.finish_load(frames(400, 8, 0)).unwrap();
    p.current_frame = 10;
    p.seek_forward();
    assert_eq!(p.current_frame, 160);
    p.seek_backward();
    assert_eq!(p.current_frame, 10);
    p.seek_backward();
    assert_eq!(p.current_frame, 0);
    p.current_frame = 300;
    p.seek_forward();
    assert_eq!(p.current_frame, 399);
}

#[test]
fn seek_forward_in_empty_player_stays_at_zero() {
    let mut p = VideoPlayer::new(1, 1).unwrap();
    p.seek_forward();
    assert_eq!(p.current_frame, 0);
}

#[test]
fn update_waits_for_frame_time_and_wraps() {
    let mut p = VideoPlayer::new(1, 1).unwrap();
    p.finish_load(frames(3, 8, 255)).unwrap();
    assert!(!p.update(1000));
    p.play();
    assert!(!p.update(32));
    assert_eq!(p.current_frame, 0);
    assert!(p.update(33));
    assert_eq!(p.current_frame, 1);
    assert_eq!(p.grid.get_char(0, 0), '⣿');
    assert!(p.update(40));
    assert!(p.update(40));
    assert_eq!(p.current_frame, 0);
}

#[test]
fn duration_text() {
    let mut p = VideoPlayer::new(1, 1).unwrap();
    p.finish_load(frames(3600, 8, 0)).unwrap();
    p.current_frame = 1800;
    assert_eq!(p.duration_str(), "1:00 / 2:00");
    p.current_frame = 45;
    assert_eq!(p.duration_str(), "0:01 / 2:00");
    p.apply_probe(b"25/1");
    assert_eq!(p.duration_str(), "0:01 / 2:24");
}

#[test]
fn probe_output_sets_frame_rate() {
    let mut p = VideoPlayer::new(1, 1).unwrap();
    p.apply_probe(b"30000/1001\n");
    assert_eq!((p.rate.numerator(), p.rate.denominator()), (30000, 1001));
    assert_eq!(p.frame_duration_ms(), 33);
    assert_eq!(p.rate.seek_step(), 149);
    assert_eq!(p.rate.capped(), (30000, 1001));
    p.apply_probe(b"  60/1,extra\r\n");
    assert_eq!((p.rate.numerator(), p.rate.denominator()), (60, 1));
    assert_eq!(p.rate.capped(), (30, 1));
    assert_eq!(p.frame_duration_ms(), 16);
}

#[test]
fn probe_output_out_of_range_falls_back_to_30() {
    let mut p = VideoPlayer::new(1, 1).unwrap();
    p.apply_probe(b"24/1");
    p.apply_probe(b"240/1");
    assert_eq!((p.rate.numerator(), p.rate.denominator()), (30, 1));
    p.apply_probe(b"24/1");
    p.apply_probe(b"0/1");
    assert_eq!((p.rate.numerator(), p.rate.denominator()), (30, 1));
}

#[test]
fn unreadable_probe_output_keeps_rate() {
    let mut p = VideoPlayer::new(1, 1).unwrap();
    p.apply_probe(b"24/1");
    for out in [&b""[..], b"abc", b"24", b"25/0", b"1/2/3", b"/1", b"1/"] {
        p.apply_probe(out);
        assert_eq!((p.rate.numerator(), p.rate.denominator()), (24, 1));
    }
}

#[test]
fn begin_load_resets_position() {
    let mut p = VideoPlayer::new(1, 1).unwrap();
    p.finish_load(frames(10, 8, 0)).unwrap();
    p.current_frame = 5;
    p.play();
    p.begin_load();
    assert!(!p.is_playing);
    assert_eq!(p.current_frame, 0);
    assert!(!p.has_video());
}

#[test]
fn probe_output_with_decimals_and_signs() {
    let mut p = VideoPlayer::new(1, 1).unwrap();
    p.apply_probe(b"29.97/1");
    assert_eq!((p.rate.numerator(), p.rate.denominator()), (2997, 100));
    assert_eq!(p.frame_duration_ms(), 33);
    p.apply_probe(b"+25/1");
    assert_eq!((p.rate.numerator(), p.rate.denominator()), (25, 1));
    p.apply_probe(b"-5/1");
    assert_eq!((p.rate.numerator(), p.rate.denominator()), (30, 1));
    p.apply_probe(b"5./1");
    assert_eq!((p.rate.numerator(), p.rate.denominator()), (5, 1));
    p.apply_probe(b".5/1");
    assert_eq!((p.rate.numerator(), p.rate.denominator()), (5, 10));
    p.apply_probe(b"30000/1001.0");
    assert_eq!((p.rate.numerator(), p.rate.denominator()), (300000, 10010));
    p.apply_probe(b"24/-1");
    assert_eq!((p.rate.numerator(), p.rate.denominator()), (300000, 10010));
    p.apply_probe(b"-0/1");
    assert_eq!((p.rate.numerator(), p.rate.denominator()), (30, 1));
    p.apply_probe(b"120.5/1");
    assert_eq!((p.rate.numerator(), p.rate.denominator()), (30, 1));
    p.apply_probe(b"120.0/1.0");
    assert_eq!((p.rate.numerator(), p.rate.denominator()), (1200, 10));
}

#[test]
fn probe_output_with_exponents() {
    let mut p = VideoPlayer::new(1, 1).unwrap();
    p.apply_probe(b"2.5e1/1");
    assert_eq!((p.rate.numerator(), p.rate.denominator()), (25, 1));
    p.apply_probe(b"1E2/1");
    assert_eq!((p.rate.numerator(), p.rate.denominator()), (100, 1));
    p.apply_probe(b"3e-1/1");
    assert_eq!((p.rate.numerator(), p.rate.denominator()), (3, 10));
    p.apply_probe(b"1e3/1");
    assert_eq!((p.rate.numerator(), p.rate.denominator()), (30, 1));
    p.apply_probe(b"6e+1/2e0");
    assert_eq!((p.rate.numerator(), p.rate.denominator()), (60, 2));
    p.apply_probe(b"0e99999999999999999999/1");
    assert_eq!((p.rate.numerator(), p.rate.denominator()), (30, 1));
}

#[test]
fn malformed_decimals_keep_rate() {
    let mut p = VideoPlayer::new(1, 1).unwrap();
    p.apply_probe(b"24/1");
    for out in [
        &b"./1"[..], b"1.2.3/1", b"+/1", b"--5/1", b"5/+", b" 2 4/1", b"1e/1", b"1e+/1", b"e3/1",
        b"1e3e1/1", b"1/nan", b"1/-inf", b"1/-0",
    ] {
        p.apply_probe(out);
        assert_eq!((p.rate.numerator(), p.rate.denominator()), (24, 1));
    }
}

fn png_bytes(w: u32, h: u32, pixels: Vec<u8>) -> Vec<u8> {
    let img = image::GrayImage::from_raw(w, h, pixels).unwrap();
    let mut out = std::io::Cursor::new(Vec::new());
    img.write_to(&mut out, image::ImageFormat::Png).unwrap();
    out.into_inner()
}

#[test]
fn load_frames_decodes_png_files() {
    let mut p = VideoPlayer::new(1, 1).unwrap();
    let files = vec![png_bytes(2, 4, vec![9; 8]), png_bytes(2, 4, (0..8).collect())];
    p.load_frames(&files).unwrap();
    assert_eq!(p.frames, vec![vec![9u8; 8], (0..8).collect::<Vec<u8>>()]);
    assert_eq!(p.total_frames, 2);
    assert_eq!((p.width, p.height), (2, 4));
}

#[test]
fn load_frames_rejects_a_file_that_is_no_image() {
    let mut p = VideoPlayer::new(1, 1).unwrap();
    p.finish_load(frames(3, 8, 1)).unwrap();
    let files = vec![png_bytes(2, 4, vec![9; 8]), b"not an image".to_vec(), png_bytes(2, 4, vec![1; 8])];
    assert_eq!(p.load_frames(&files), Err(PlayerError::BadFrame));
    assert_eq!(p.total_frames, 3);
    assert_eq!(p.frames, vec![vec![9u8; 8]]);
    assert_eq!(p.load_frames(&Vec::new()), Err(PlayerError::NoFrames));
}

#[test]
fn toggling_playback_twice_restores() {
    let mut p = VideoPlayer::new(1, 1).unwrap();
    p.toggle_playback();
    assert!(p.is_playing);
    p.toggle_playback();
    assert!(!p.is_playing);
}

#[test]
fn clock_text_pads_seconds_only() {
    let mut p = VideoPlayer::new(1, 1).unwrap();
    p.finish_load(frames(2, 8, 0)).unwrap();
    p.total_frames = 30 * 3725;
    p.current_frame = 30 * 609;
    assert_eq!(p.duration_str(), "10:09 / 62:05");
}

#[test]
fn long_probed_rates_are_followed() {
    let mut p = VideoPlayer::new(1, 1).unwrap();
    p.apply_probe(b"25/1");
    p.apply_probe(b"18.446744073709551616/1");
    assert_eq!(
        (p.rate.numerator(), p.rate.denominator()),
        (1844674407370955161, 100000000000000000)
    );
    assert_eq!(p.frame_duration_ms(), 54);
    p.apply_probe(b"29.970029970029970029970/1");
    assert_eq!(
        (p.rate.numerator(), p.rate.denominator()),
        (2997002997002997002, 100000000000000000)
    );
    assert_eq!(p.frame_duration_ms(), 33);
    p.apply_probe(b"99999999999999999999/1");
    assert_eq!((p.rate.numerator(), p.rate.denominator()), (30, 1));
}

#[test]
fn rates_beyond_64_bit_terms_are_rounded_to_the_fixed_unit() {
    let mut p = VideoPlayer::new(1, 1).unwrap();
    p.apply_probe(b"123456789/1e20");
    assert_eq!((p.rate.numerator(), p.rate.denominator()), (88959, 1 << 56));
    p.apply_probe(b"119.999999999999999999/1.00000000000000000000");
    assert_eq!((p.rate.numerator(), p.rate.denominator()), (8646911284551352312, 1 << 56));
    p.apply_probe(b"1e-25/1");
    assert_eq!((p.rate.numerator(), p.rate.denominator()), (1, u64::MAX));
    assert_eq!(p.frame_duration_ms(), u64::MAX);
    assert_eq!(p.rate.seek_step(), 0);
}

#[test]
fn infinities_and_nan_as_a_float_reader_takes_them() {
    let mut p = VideoPlayer::new(1, 1).unwrap();
    p.apply_probe(b"24/1");
    p.apply_probe(b"inf/1");
    assert_eq!((p.rate.numerator(), p.rate.denominator()), (30, 1));
    p.apply_probe(b"24/1");
    p.apply_probe(b"1/INFINITY");
    assert_eq!((p.rate.numerator(), p.rate.denominator()), (30, 1));
    p.apply_probe(b"24/1");
    p.apply_probe(b"-Inf/1");
    assert_eq!((p.rate.numerator(), p.rate.denominator()), (30, 1));
    p.apply_probe(b"24/1");
    p.apply_probe(b"NaN/1");
    assert_eq!((p.rate.numerator(), p.rate.denominator()), (30, 1));
    p.apply_probe(b"24/1");
    p.apply_probe(b"1e999/1");
    assert_eq!((p.rate.numerator(), p.rate.denominator()), (30, 1));
    p.apply_probe(b"24/1");
    p.apply_probe(b"1e-999/1");
    assert_eq!((p.rate.numerator(), p.rate.denominator()), (30, 1));
    p.apply_probe(b"24/1");
    p.apply_probe(b"1/1e-999");
    assert_eq!((p.rate.numerator(), p.rate.denominator()), (24, 1));
}
