use minimap_renderer::canvas_image::{compose_base_image, rgb_to_pixmap, MapImage};
use minimap_renderer::icon_image::{make_ship_icon_outline, tint_silhouette, IconImage};
use minimap_renderer::layout::{canvas_geometry, SidePanelLayout};
use minimap_renderer::text_wrap::{force_break_word, split_words, truncate_to_fit, word_wrap};

fn width_10(s: &str) -> u32 {
    10 * s.chars().count() as u32
}

#[test]
fn outline_of_single_opaque_pixel() {
    let icon = IconImage::from_rgba_bytes(1, 1, vec![255, 255, 255, 255]).unwrap();
    let out = make_ship_icon_outline(&icon, 2, [255, 215, 0], 230);
    assert_eq!((out.width(), out.height()), (5, 5));
    let gold = (255, 215, 0, 230);
    let clear = (0, 0, 0, 0);
    assert_eq!(out.pixel(2, 2), clear);
    assert_eq!(out.pixel(2, 1), gold);
    assert_eq!(out.pixel(1, 1), gold);
    assert_eq!(out.pixel(0, 2), gold);
    assert_eq!(out.pixel(2, 4), gold);
    assert_eq!(out.pixel(0, 0), clear);
    assert_eq!(out.pixel(0, 1), clear);
    assert_eq!(out.pixel(4, 4), clear);
}

#[test]
fn outline_ignores_translucent_pixels() {
    let icon = IconImage::from_rgba_bytes(2, 1, vec![255, 255, 255, 128, 9, 9, 9, 200]).unwrap();
    let out = make_ship_icon_outline(&icon, 1, [1, 2, 3], 4);
    assert_eq!((out.width(), out.height()), (4, 3));
    assert_eq!(out.pixel(1, 1), (1, 2, 3, 4));
    assert_eq!(out.pixel(2, 1), (0, 0, 0, 0));
    assert_eq!(out.pixel(2, 0), (1, 2, 3, 4));
    assert_eq!(out.pixel(0, 1), (0, 0, 0, 0));
    assert_eq!(out.pixel(3, 1), (1, 2, 3, 4));
}

#[test]
fn outline_zero_thickness_is_transparent() {
    let icon = IconImage::from_rgba_bytes(2, 2, vec![255; 16]).unwrap();
    let out = make_ship_icon_outline(&icon, 0, [255, 215, 0], 230);
    let bytes = out.into_rgba_bytes();
    assert_eq!(bytes, vec![0; 16]);
}

#[test]
fn tint_keeps_alpha() {
    let img = IconImage::from_rgba_bytes(3, 1, vec![10, 20, 30, 0, 10, 20, 30, 128, 1, 1, 1, 255]).unwrap();
    let out = tint_silhouette(&img, [7, 8, 9]);
    assert_eq!(out.into_rgba_bytes(), vec![10, 20, 30, 0, 7, 8, 9, 128, 7, 8, 9, 255]);
}

#[test]
fn icon_from_short_buffer_is_refused() {
    assert!(IconImage::from_rgba_bytes(2, 2, vec![0; 15]).is_none());
    assert!(IconImage::from_rgba_bytes(2, 2, vec![0; 16]).is_some());
}

#[test]
fn base_image_copies_map_into_minimap() {
    let g = canvas_geometry(SidePanelLayout::StatsPanel, false, false, None);
    let map = MapImage::from_rgb_bytes(2, 1, vec![1, 2, 3, 4, 5, 6]).unwrap();
    let base = compose_base_image(Some(map), &g);
    assert_eq!((base.width(), base.height()), (1920, 1200));
    assert_eq!(base.pixel(0, 0), (1, 2, 3));
    assert_eq!(base.pixel(1, 0), (4, 5, 6));
    assert_eq!(base.pixel(2, 0), (20, 25, 35));
    assert_eq!(base.pixel(0, 1), (20, 25, 35));
    assert_eq!(base.pixel(1500, 600), (20, 25, 35));
}

#[test]
fn base_image_without_map_is_flat() {
    let g = canvas_geometry(SidePanelLayout::StatsPanel, false, false, None);
    let base = compose_base_image(None, &g);
    assert_eq!(base.pixel(0, 0), (30, 40, 60));
    assert_eq!(base.pixel(1199, 1199), (30, 40, 60));
    assert_eq!(base.pixel(1200, 0), (20, 25, 35));
}

#[test]
fn rgb_to_pixmap_is_opaque_rgba() {
    let img = MapImage::from_rgb_bytes(2, 1, vec![1, 2, 3, 4, 5, 6]).unwrap();
    let pm = rgb_to_pixmap(&img);
    assert_eq!((pm.width(), pm.height()), (2, 1));
    assert_eq!(pm.data(), &[1, 2, 3, 255, 4, 5, 6, 255]);
}

#[test]
fn split_words_on_unicode_whitespace() {
    assert_eq!(split_words("  hello   world\tfoo\n"), vec!["hello", "world", "foo"]);
    assert_eq!(split_words("a\u{3000}b"), vec!["a", "b"]);
    assert_eq!(split_words("   "), Vec::<String>::new());
    let text = "x y\u{00a0}z  w";
    let expected: Vec<String> = text.split_whitespace().map(|w| w.to_string()).collect();
    assert_eq!(split_words(text), expected);
}

#[test]
fn word_wrap_greedy_lines() {
    assert_eq!(word_wrap("hello world foo", 60, &width_10), vec!["hello", "world", "foo"]);
    assert_eq!(word_wrap("hello world foo", 120, &width_10), vec!["hello world", "foo"]);
    assert_eq!(word_wrap("hello world foo", 150, &width_10), vec!["hello world foo"]);
}

#[test]
fn word_wrap_breaks_long_words() {
    assert_eq!(word_wrap("abcdefghij", 35, &width_10), vec!["abc", "def", "ghi", "j"]);
    assert_eq!(word_wrap("ab abcdefgh", 35, &width_10), vec!["ab", "abc", "def", "gh"]);
    assert_eq!(word_wrap("abcde xy", 35, &width_10), vec!["abc", "de", "xy"]);
    assert_eq!(word_wrap("abcd x", 35, &width_10), vec!["abc", "d x"]);
}

#[test]
fn word_wrap_empty_text_gives_one_empty_line() {
    assert_eq!(word_wrap("", 100, &width_10), vec![""]);
    assert_eq!(word_wrap("   ", 100, &width_10), vec![""]);
}

#[test]
fn force_break_single_characters_when_too_narrow() {
    let mut lines = vec!["keep".to_string()];
    force_break_word("abc", 5, &width_10, &mut lines);
    assert_eq!(lines, vec!["keep", "a", "b", "c"]);
}

#[test]
fn truncated_text_always_fits() {
    for max in 0..90u32 {
        for text in ["", "a", "abcdef", "hello world"] {
            let out = truncate_to_fit(text, max, &width_10);
            assert!(width_10(&out) <= max, "{:?} at {} gave {:?}", text, max, out);
        }
    }
}

#[test]
fn truncate_with_ellipsis() {
    assert_eq!(truncate_to_fit("abcdef", 50, &width_10), "abc..");
    assert_eq!(truncate_to_fit("abcdef", 60, &width_10), "abcdef");
    assert_eq!(truncate_to_fit("abcdef", 20, &width_10), "..");
    assert_eq!(truncate_to_fit("abcdef", 25, &width_10), "..");
    assert_eq!(truncate_to_fit("", 0, &width_10), "");
    assert_eq!(truncate_to_fit("abcdef", 15, &width_10), ".");
    assert_eq!(truncate_to_fit("abcdef", 10, &width_10), ".");
    assert_eq!(truncate_to_fit("abcdef", 9, &width_10), "");
}
