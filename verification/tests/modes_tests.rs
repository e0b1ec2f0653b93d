use rustvidya::modes::{ColorMode, DitherMode, RenderMode};

#[test]
fn render_mode_cycles_through_all_modes() {
    let m = RenderMode::Braille;
    assert_eq!(m.next(), RenderMode::Ascii);
    assert_eq!(m.next().next(), RenderMode::Simple);
    assert_eq!(m.next().next().next(), RenderMode::Blocks);
    assert_eq!(m.next().next().next().next(), RenderMode::Braille);
}

#[test]
fn color_mode_cycles_after_seven_steps() {
    let mut m = ColorMode::NoColor;
    let mut seen = Vec::new();
    for _ in 0..7 {
        seen.push(m);
        m = m.next();
    }
    assert_eq!(m, ColorMode::NoColor);
    assert_eq!(
        seen,
        vec![
            ColorMode::NoColor,
            ColorMode::Rainbow,
            ColorMode::HeatMap,
            ColorMode::BluePurple,
            ColorMode::GreenYellow,
            ColorMode::CyanMagenta,
            ColorMode::Grayscale
        ]
    );
}

#[test]
fn mode_names() {
    assert_eq!(RenderMode::Braille.name(), "Braille");
    assert_eq!(RenderMode::Ascii.name(), "ASCII");
    assert_eq!(RenderMode::Simple.name(), "Simple");
    assert_eq!(RenderMode::Blocks.name(), "Blocks");
    assert_eq!(ColorMode::NoColor.name(), "None");
    assert_eq!(ColorMode::Rainbow.name(), "Rainbow");
    assert_eq!(ColorMode::HeatMap.name(), "HeatMap");
    assert_eq!(ColorMode::BluePurple.name(), "BluePurple");
    assert_eq!(ColorMode::GreenYellow.name(), "GreenYellow");
    assert_eq!(ColorMode::CyanMagenta.name(), "CyanMagenta");
    assert_eq!(ColorMode::Grayscale.name(), "Grayscale");
}

#[test]
fn density_sets_of_render_modes() {
    assert!(RenderMode::Braille.density_set().is_none());
    let ascii = RenderMode::Ascii.density_set().unwrap();
    assert_eq!(ascii.characters.len(), 69);
    assert_eq!(ascii.characters[0], ' ');
    assert_eq!(ascii.characters[68], '$');
    let simple = RenderMode::Simple.density_set().unwrap();
    assert_eq!(simple.characters.iter().collect::<String>(), " .:-=+*#%@");
    let blocks = RenderMode::Blocks.density_set().unwrap();
    assert_eq!(blocks.characters, vec![' ', '░', '▒', '▓', '█']);
}

#[test]
fn color_schemes_of_color_modes() {
    assert!(ColorMode::NoColor.color_scheme().is_none());
    let rainbow = ColorMode::Rainbow.color_scheme().unwrap();
    let stops: Vec<(u8, u8, u8)> = rainbow.colors().iter().map(|c| (c.r, c.g, c.b)).collect();
    assert_eq!(
        stops,
        vec![
            (255, 0, 0),
            (255, 212, 0),
            (85, 255, 0),
            (0, 255, 127),
            (0, 170, 255),
            (42, 0, 255),
            (255, 0, 255)
        ]
    );
    let heat = ColorMode::HeatMap.color_scheme().unwrap();
    let stops: Vec<(u8, u8, u8)> = heat.colors().iter().map(|c| (c.r, c.g, c.b)).collect();
    assert_eq!(stops, vec![(0, 0, 0), (255, 0, 0), (255, 165, 0), (255, 255, 0), (255, 255, 255)]);
    let bp = ColorMode::BluePurple.color_scheme().unwrap();
    let stops: Vec<(u8, u8, u8)> = bp.colors().iter().map(|c| (c.r, c.g, c.b)).collect();
    assert_eq!(stops, vec![(0, 0, 255), (128, 0, 127)]);
    let gy = ColorMode::GreenYellow.color_scheme().unwrap();
    let stops: Vec<(u8, u8, u8)> = gy.colors().iter().map(|c| (c.r, c.g, c.b)).collect();
    assert_eq!(stops, vec![(0, 255, 0), (255, 255, 0)]);
    let cm = ColorMode::CyanMagenta.color_scheme().unwrap();
    let stops: Vec<(u8, u8, u8)> = cm.colors().iter().map(|c| (c.r, c.g, c.b)).collect();
    assert_eq!(stops, vec![(0, 255, 255), (255, 0, 255)]);
    let gs = ColorMode::Grayscale.color_scheme().unwrap();
    let stops: Vec<(u8, u8, u8)> = gs.colors().iter().map(|c| (c.r, c.g, c.b)).collect();
    assert_eq!(stops, vec![(0, 0, 0), (255, 255, 255)]);
}

#[test]
fn ascii_density_is_the_full_ramp() {
    let ascii = RenderMode::Ascii.density_set().unwrap();
    assert_eq!(
        ascii.characters.iter().collect::<String>(),
        " .'`^\",:;Il!i><~+_-?][}{1)(|/tfjrxnuvczXYUJCLQ0OZmwqpdbkhao*#MW&8%B@$"
    );
}

#[test]
fn dither_mode_cycle_and_names() {
    let m = DitherMode::NoDither;
    assert_eq!(m.next(), DitherMode::FloydSteinberg);
    assert_eq!(m.next().next(), DitherMode::Atkinson);
    assert_eq!(m.next().next().next(), DitherMode::Bayer);
    assert_eq!(m.next().next().next().next(), m);
    assert_eq!(DitherMode::NoDither.name(), "None");
    assert_eq!(DitherMode::FloydSteinberg.name(), "Floyd-Steinberg");
    assert_eq!(DitherMode::Atkinson.name(), "Atkinson");
    assert_eq!(DitherMode::Bayer.name(), "Bayer");
}
