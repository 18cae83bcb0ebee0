use mail_platformer::anim::{gift_index_step, Animation};
use mail_platformer::text::{bubble_size, glyph_index, layout_text, Glyph};

#[test]
fn frame_at_time_loops() {
    let a = Animation::from_durations(vec![100, 0, 50, 200]).unwrap();
    assert_eq!(a.total_length, 350);
    assert_eq!(a.get_at_time(0), 0);
    assert_eq!(a.get_at_time(99), 0);
    assert_eq!(a.get_at_time(100), 2);
    assert_eq!(a.get_at_time(149), 2);
    assert_eq!(a.get_at_time(150), 3);
    assert_eq!(a.get_at_time(349), 3);
    assert_eq!(a.get_at_time(350), 0);
    assert_eq!(a.get_at_time(u32::MAX), (u32::MAX % 350 >= 150) as usize * 3 + ((u32::MAX % 350) >= 100 && (u32::MAX % 350) < 150) as usize * 2);
}

#[test]
fn animation_too_long_is_refused() {
    assert!(Animation::from_durations(vec![u32::MAX, 1]).is_none());
    assert_eq!(Animation::from_durations(vec![u32::MAX]).unwrap().total_length, u32::MAX);
    assert_eq!(Animation::from_durations(Vec::new()).unwrap().total_length, 0);
}

#[test]
fn gift_selection_wraps_backwards() {
    assert_eq!(gift_index_step(0, 5, false, true), 4);
    assert_eq!(gift_index_step(3, 5, false, true), 2);
    assert_eq!(gift_index_step(3, 5, true, false), 4);
    assert_eq!(gift_index_step(0, 5, true, true), 0);
    assert_eq!(gift_index_step(7, 5, false, false), 7);
}

#[test]
fn glyphs_of_the_font() {
    assert_eq!(glyph_index('a'), Some(0));
    assert_eq!(glyph_index('z'), Some(25));
    assert_eq!(glyph_index('0'), Some(26));
    assert_eq!(glyph_index('9'), Some(35));
    assert_eq!(glyph_index(':'), Some(36));
    assert_eq!(glyph_index('?'), Some(46));
    assert_eq!(glyph_index('H'), Some(42));
    assert_eq!(glyph_index('G'), None);
    assert_eq!(glyph_index(' '), None);
    // the font is looked up by the low byte of the code
    assert_eq!(glyph_index('\u{161}'), Some(0));
}

#[test]
fn text_layout_advances_and_breaks_lines() {
    let (g, w, h) = layout_text("ab\n  c d");
    assert_eq!(
        g,
        vec![
            Glyph { x: 0, y: 0, index: 0, color: 1 },
            Glyph { x: 4, y: 0, index: 1, color: 1 },
            Glyph { x: 0, y: 5, index: 2, color: 1 },
            Glyph { x: 8, y: 5, index: 3, color: 1 },
        ]
    );
    assert_eq!((w, h), (12, 5));
}

#[test]
fn text_layout_color_codes_and_unknown_characters() {
    let (g, w, h) = layout_text("a\u{2}bG!");
    assert_eq!(
        g,
        vec![
            Glyph { x: 0, y: 0, index: 0, color: 1 },
            Glyph { x: 4, y: 0, index: 1, color: 2 },
            Glyph { x: 8, y: 0, index: 45, color: 2 },
        ]
    );
    assert_eq!((w, h), (12, 0));
    let (g, w, h) = layout_text("");
    assert!(g.is_empty());
    assert_eq!((w, h), (0, 0));
}

fn std_bubble(text: &str) -> (u64, u64) {
    (
        text.lines().map(|l| l.trim().len()).max().unwrap_or(0) as u64,
        text.lines().count() as u64,
    )
}

#[test]
fn bubble_size_of_dialogue() {
    let text = "hi!\n                please go to the town\n                and post my mail";
    assert_eq!(bubble_size(text), (21, 3));
    assert_eq!(bubble_size("thanks!"), (7, 1));
}

#[test]
fn bubble_size_edge_cases() {
    assert_eq!(bubble_size(""), (0, 0));
    assert_eq!(bubble_size("a\n"), (1, 1));
    assert_eq!(bubble_size("\n"), (0, 1));
    assert_eq!(bubble_size("\n\nab"), (2, 3));
    assert_eq!(bubble_size("  x  \r\n y"), (1, 2));
    assert_eq!(bubble_size("caf\u{e9} "), (5, 1));
    assert_eq!(bubble_size("a\u{3000}b\u{3000}"), (5, 1));
}

#[test]
fn bubble_size_matches_lines_and_trim() {
    let samples = [
        "hi!\n                feed the bird on my roof\n                and i will let you pass \n                through here",
        "x\r\n\r\ny\n",
        "\t tab \u{a0}\u{2028}",
        "one\ntwo\n\n",
        " \u{85}lead and trail\u{205f} ",
        "\u{1f600} smile",
    ];
    for s in samples {
        assert_eq!(bubble_size(s), std_bubble(s), "{s:?}");
    }
}
