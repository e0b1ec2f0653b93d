use rustvidya::browser::{
    is_video_file, keep_entry, listing_order, next_selection, previous_selection, scroll_offset,
    truncate_path, FileEntry,
};

#[test]
fn video_extensions_in_any_case() {
    for name in ["a.mp4", "b.MKV", "c.Avi", "d.webm", "e.mov", "f.wmv", "g.flv", "h.m4v", "x.y.MP4"] {
        assert!(is_video_file(name), "{}", name);
    }
    for name in ["a.txt", "mp4", ".mp4", "a.", "a.mp4.bak", "a.mp44", ""] {
        assert!(!is_video_file(name), "{}", name);
    }
}

#[test]
fn extension_lowercased_by_unicode_rules() {
    // KELVIN SIGN lowers to 'k'.
    assert!(is_video_file("clip.m\u{212A}v"));
    assert!(is_video_file("клип.MOV"));
}

#[test]
fn hidden_directories_are_not_listed() {
    assert!(keep_entry("src", true));
    assert!(!keep_entry(".git", true));
    assert!(keep_entry("..x", false) == false);
    assert!(keep_entry(".hidden.mp4", false));
    assert!(!keep_entry("notes.txt", false));
}

fn entry(name: &str, is_dir: bool) -> FileEntry {
    FileEntry { name: name.to_string(), is_dir }
}

#[test]
fn directories_first_then_by_lowercase_name() {
    let entries = vec![
        entry("b.mp4", false),
        entry("Zeta", true),
        entry("A.mkv", false),
        entry("alpha", true),
        entry("a.MKV", false),
    ];
    let order = listing_order(&entries);
    let names: Vec<&str> = order.iter().map(|&i| entries[i].name.as_str()).collect();
    assert_eq!(names, vec!["alpha", "Zeta", "A.mkv", "a.MKV", "b.mp4"]);
}

#[test]
fn listing_order_of_nothing() {
    assert!(listing_order(&Vec::new()).is_empty());
}

#[test]
fn selection_moves_within_list() {
    assert_eq!(next_selection(0, 3), 1);
    assert_eq!(next_selection(2, 3), 2);
    assert_eq!(next_selection(4, 0), 4);
    assert_eq!(previous_selection(2), 1);
    assert_eq!(previous_selection(0), 0);
}

#[test]
fn scrolling_keeps_selection_visible() {
    assert_eq!(scroll_offset(5, 0, 10), 0);
    assert_eq!(scroll_offset(12, 0, 10), 3);
    assert_eq!(scroll_offset(2, 4, 10), 2);
    assert_eq!(scroll_offset(3, 3, 0), 4);
}

#[test]
fn long_paths_are_shortened() {
    assert_eq!(truncate_path("/home/user", 25), "/home/user");
    let long = "/home/user/videos/holidays/2024/summer";
    let short = truncate_path(long, 25);
    assert_eq!(short, "...s/holidays/2024/summer");
    assert_eq!(short.len(), 25);
}
