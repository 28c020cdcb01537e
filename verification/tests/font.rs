use demiourgos::server::font::{draw_text, glyph, text_width};

#[test]
fn text_width_accounts_for_gaps() {
    assert_eq!(text_width("iso"), 11);
    assert_eq!(text_width(""), 0);
    assert_eq!(text_width("a"), 3);
}

#[test]
fn draws_some_pixels_for_known_letters() {
    let count = draw_text("front", 0, 0, 1).len();
    assert!(count > 0);
}

#[test]
fn unknown_chars_are_blank_but_advance() {
    let count = draw_text("\u{2603}", 0, 0, 1).len();
    assert_eq!(count, 0);
}

#[test]
fn glyph_lookup_ignores_case() {
    assert_eq!(glyph('A'), glyph('a'));
    assert_eq!(glyph('a'), Some([0b010, 0b101, 0b111, 0b101, 0b101]));
    assert_eq!(glyph(' '), Some([0; 5]));
    assert_eq!(glyph('z'), None);
}

#[test]
fn scaled_glyph_pixels_and_advance() {
    // 'l' = rows 100,100,100,100,111 -> 7 lit cells; at scale 2 -> 28 pixels.
    let px = draw_text("l", 10, 20, 2);
    assert_eq!(px.len(), 28);
    assert_eq!(px[0], (10, 20));
    assert_eq!(px[1], (11, 20));
    assert_eq!(px[2], (10, 21));
    // An unknown character still advances the cursor by 4 * scale.
    let px2 = draw_text("?l", 10, 20, 2);
    assert_eq!(px2[0], (18, 20));
    assert_eq!(draw_text("  ", 0, 0, 3).len(), 0);
}

#[test]
fn drawn_text_stays_inside_its_measured_box() {
    for (text, scale) in [("front", 1u32), ("iso", 3), ("a b?", 2), ("", 4)] {
        let (ox, oy) = (7u32, 11u32);
        let w = text_width(text) * scale;
        for (x, y) in draw_text(text, ox, oy, scale) {
            assert!(ox <= x && x < ox + w, "x {x} outside for {text:?}");
            assert!(oy <= y && y < oy + 5 * scale, "y {y} outside for {text:?}");
        }
    }
}
