use bridget_bot::hershey_font::{char_to_int, line_to_hershey_glyph, HersheyFont};
use bridget_bot::plottable::PlotPoint;

fn point(x: i32, y: i32) -> PlotPoint {
    PlotPoint { x, y }
}

const LETTER_A: &str = "  501  9I[RFJ[ RRFZ[ RMTWT";
const SPACE: &str = "  699  1JZ";
const HYPHEN: &str = "  724  3E_IR[R";

#[test]
fn char_to_int_works() {
    assert_eq!(char_to_int(&'R'), 0);
    assert_eq!(char_to_int(&'M'), -5);
    assert_eq!(char_to_int(&'W'), 5);
    assert_eq!(char_to_int(&'Q'), -1);
}

#[test]
fn char_to_int_of_other_characters() {
    assert_eq!(char_to_int(&' '), -50);
    assert_eq!(char_to_int(&'\u{0}'), -82);
    assert_eq!(char_to_int(&'~'), 44);
    assert_eq!(char_to_int(&'\u{10FFFF}'), 0x10FFFF - 82);
}

#[test]
fn glyph_line_gives_bounds_and_strokes() {
    let glyph = line_to_hershey_glyph(LETTER_A).unwrap();
    assert_eq!(glyph.left, -9);
    assert_eq!(glyph.right, 9);
    assert_eq!(
        glyph.paths,
        vec![
            vec![point(0, -12), point(-8, 9)],
            vec![point(0, -12), point(8, 9)],
            vec![point(-5, 2), point(5, 2)],
        ]
    );
}

#[test]
fn glyph_without_strokes() {
    let glyph = line_to_hershey_glyph(SPACE).unwrap();
    assert_eq!(glyph.left, -8);
    assert_eq!(glyph.right, 8);
    assert!(glyph.paths.is_empty());
}

#[test]
fn pen_up_before_any_point_is_a_point() {
    let glyph = line_to_hershey_glyph("    1  4AB RRS R").unwrap();
    assert_eq!(glyph.left, -17);
    assert_eq!(glyph.right, -16);
    assert_eq!(glyph.paths, vec![vec![point(-50, 0), point(0, 1)]]);
}

#[test]
fn repeated_pen_up_starts_a_stroke_with_a_point() {
    let glyph = line_to_hershey_glyph("    1  5ABRS R RTU").unwrap();
    assert_eq!(
        glyph.paths,
        vec![vec![point(0, 1)], vec![point(-50, 0), point(2, 3)]]
    );
}

#[test]
fn bytes_after_the_last_pair_are_not_read() {
    let glyph = line_to_hershey_glyph("  724  3E_IR[R and more \u{e9}\r").unwrap();
    assert_eq!(glyph.left, -13);
    assert_eq!(glyph.right, 13);
    assert_eq!(glyph.paths, vec![vec![point(-9, 0), point(9, 0)]]);
}

#[test]
fn count_field_may_be_padded_or_signed() {
    assert!(line_to_hershey_glyph("     1  AB").is_some());
    assert!(line_to_hershey_glyph("      1 AB").is_some());
    assert!(line_to_hershey_glyph("     1 1AB").is_none());
    assert!(line_to_hershey_glyph("      +1AB").is_some());
    assert!(line_to_hershey_glyph("     +01AB").is_some());
    assert!(line_to_hershey_glyph("     \t 1AB").is_some());
    assert!(line_to_hershey_glyph("     1\r\nAB").is_some());
    assert_eq!(
        line_to_hershey_glyph("    1002ABRS").unwrap().paths,
        vec![vec![point(0, 1)]]
    );
    assert_eq!(
        line_to_hershey_glyph("12345 2 ABRScomment").unwrap().paths,
        vec![vec![point(0, 1)]]
    );
}

#[test]
fn malformed_glyph_lines_are_refused() {
    assert!(line_to_hershey_glyph("").is_none());
    assert!(line_to_hershey_glyph("  699  1J").is_none());
    assert!(line_to_hershey_glyph("  699   JZ").is_none());
    assert!(line_to_hershey_glyph("  699  0JZ").is_none());
    assert!(line_to_hershey_glyph("  699 -1JZ").is_none());
    assert!(line_to_hershey_glyph("  699  +JZ").is_none());
    assert!(line_to_hershey_glyph("  699 1aJZ").is_none());
    assert!(line_to_hershey_glyph("  724  3E_IR[").is_none());
    assert!(line_to_hershey_glyph("  724  4E_IR[R").is_none());
    assert!(line_to_hershey_glyph("  724  3E_\u{e9}[R").is_none());
    assert!(line_to_hershey_glyph("  724  2\u{e9}IR").is_none());
}

#[test]
fn font_has_a_glyph_for_each_line_that_is_not_empty() {
    let contents = format!("{}\n\n{}\n{}\n", SPACE, LETTER_A, HYPHEN);
    let font = HersheyFont::new(&contents).unwrap();
    assert_eq!(font.glyphs.len(), 3);
    assert_eq!(font.top, -12);
    assert_eq!(font.bottom, 9);
    assert!(font.glyphs[0].paths.is_empty());
    assert_eq!(font.glyphs[1].left, -9);
    assert_eq!(font.glyphs[2].paths, vec![vec![point(-9, 0), point(9, 0)]]);
}

#[test]
fn font_without_final_line_feed() {
    let contents = format!("{}\n{}", SPACE, HYPHEN);
    let font = HersheyFont::new(&contents).unwrap();
    assert_eq!(font.glyphs.len(), 2);
    assert_eq!(font.top, 0);
    assert_eq!(font.bottom, 0);
}

#[test]
fn empty_font_has_no_extent() {
    let font = HersheyFont::new("").unwrap();
    assert!(font.glyphs.is_empty());
    assert_eq!(font.top, i32::MAX);
    assert_eq!(font.bottom, i32::MIN);

    let blank = HersheyFont::new("\n\n\n").unwrap();
    assert!(blank.glyphs.is_empty());

    let space_only = HersheyFont::new(SPACE).unwrap();
    assert_eq!(space_only.glyphs.len(), 1);
    assert_eq!(space_only.top, i32::MAX);
    assert_eq!(space_only.bottom, i32::MIN);
}

#[test]
fn font_with_a_malformed_line_is_refused() {
    let contents = format!("{}\nbroken\n{}\n", SPACE, HYPHEN);
    assert!(HersheyFont::new(&contents).is_none());
    let last = format!("{}\n{}\nshort", SPACE, HYPHEN);
    assert!(HersheyFont::new(&last).is_none());
    assert!(HersheyFont::new("\r\n").is_none());
}

#[test]
fn get_glyph_counts_from_the_space() {
    let contents = format!("{}\n{}\n{}\n", SPACE, LETTER_A, HYPHEN);
    let font = HersheyFont::new(&contents).unwrap();
    assert!(font.get_glyph(' ').paths.is_empty());
    assert_eq!(font.get_glyph('!').left, -9);
    assert_eq!(font.get_glyph('"').right, 13);
}
