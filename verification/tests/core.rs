use fontcache::CharInfo;
use fontcache::OutputPosition;
use fontcache::RenderedFont;

fn ci(advance: (u32, u32), pixel_offset: (u32, u32)) -> CharInfo {
    CharInfo { advance, pixel_offset }
}

fn simple_font(
    char_info: Vec<(char, CharInfo)>,
    kerning: Vec<((char, char), (i32, i32))>,
) -> RenderedFont<()> {
    RenderedFont::new("demo".to_string(), 12, (), 20, 16, char_info, kerning)
}

#[test]
fn accessors_report_constructor_arguments() {
    let font = simple_font(vec![('A', ci((10, 0), (1, 2)))], vec![]);
    assert_eq!(font.name(), "demo");
    assert_eq!(font.size(), 12);
    assert_eq!(font.line_height(), 20);
    assert_eq!(font.max_width(), 16);
    assert_eq!(font.image(), &());
    let info = font.char_info('A').unwrap();
    assert_eq!(info.advance, (10, 0));
    assert_eq!(info.pixel_offset, (1, 2));
    assert!(font.char_info('B').is_none());
}

#[test]
fn kerning_absent_pair_is_zero() {
    let font = simple_font(vec![('A', ci((10, 0), (0, 0)))], vec![(('A', 'B'), (-2, 1))]);
    assert_eq!(font.kerning('A', 'B'), (-2, 1));
    assert_eq!(font.kerning('B', 'A'), (0, 0));
    assert_eq!(font.kerning('Q', 'W'), (0, 0));
}

#[test]
fn duplicate_keys_resolve_to_first_occurrence() {
    let font = simple_font(
        vec![('A', ci((10, 0), (0, 0))), ('A', ci((99, 99), (9, 9)))],
        vec![(('A', 'A'), (1, 1)), (('A', 'A'), (7, 7))],
    );
    assert_eq!(font.char_info('A').unwrap().advance, (10, 0));
    assert_eq!(font.kerning('A', 'A'), (1, 1));
}

#[test]
fn empty_text_gives_empty_output() {
    let font = simple_font(vec![('A', ci((10, 0), (0, 0)))], vec![]);
    assert!(font.positions_for("").is_empty());
}

#[test]
fn newline_only_text_gives_empty_output() {
    let font = simple_font(vec![('A', ci((10, 0), (0, 0)))], vec![]);
    assert!(font.positions_for("\n\n\n").is_empty());
}

#[test]
fn layout_is_deterministic() {
    let font = simple_font(
        vec![('A', ci((10, 0), (1, 2))), ('B', ci((7, 1), (0, 3)))],
        vec![(('A', 'B'), (-2, 1))],
    );
    let first = font.positions_for("AB\nBA");
    let second = font.positions_for("AB\nBA");
    assert_eq!(first, second);
}

#[test]
fn line_break_restarts_line() {
    let font = simple_font(
        vec![('A', ci((10, 0), (0, 0))), ('B', ci((10, 0), (0, 0)))],
        vec![],
    );
    let out = font.positions_for("A\nB");
    assert_eq!(
        out,
        vec![
            OutputPosition { c: 'A', pos: (0, 20), size: (10, 0) },
            OutputPosition { c: 'B', pos: (0, 40), size: (10, 0) },
        ]
    );
}

#[test]
fn consecutive_newlines_accumulate_line_height() {
    let font = simple_font(vec![('A', ci((10, 0), (0, 0)))], vec![]);
    let out = font.positions_for("\n\nA");
    assert_eq!(out, vec![OutputPosition { c: 'A', pos: (0, 60), size: (10, 0) }]);
}

#[test]
fn kerning_is_applied_between_pair() {
    let font = simple_font(
        vec![('A', ci((10, 0), (0, 0))), ('B', ci((10, 0), (0, 0)))],
        vec![(('A', 'B'), (-2, 0))],
    );
    let out = font.positions_for("AB");
    assert_eq!(out[0].pos, (0, 20));
    assert_eq!(out[1].pos, (8, 20));
}

#[test]
fn newline_does_not_kern_with_what_follows() {
    let font = simple_font(
        vec![('A', ci((10, 0), (0, 0))), ('B', ci((10, 0), (0, 0)))],
        vec![(('A', 'B'), (-2, 0)), (('\n', 'B'), (50, 50))],
    );
    let out = font.positions_for("A\nB");
    assert_eq!(out[1].pos, (0, 40));
}

#[test]
fn missing_glyph_skipped_but_still_kerns() {
    let font = simple_font(
        vec![('A', ci((10, 0), (0, 0))), ('B', ci((10, 0), (0, 0)))],
        vec![(('X', 'B'), (5, 0))],
    );
    let out = font.positions_for("AXB");
    assert_eq!(out.len(), 2);
    assert_eq!(out[0].c, 'A');
    assert_eq!(out[0].pos, (0, 20));
    // 'X' emitted nothing and advanced nothing; 'B' starts from x = 10 plus
    // the ('X', 'B') kerning of 5.
    assert_eq!(out[1].c, 'B');
    assert_eq!(out[1].pos, (15, 20));
}

#[test]
fn pixel_offset_shifts_draw_position() {
    let font = simple_font(vec![('A', ci((10, 4), (3, 5)))], vec![]);
    let out = font.positions_for("A");
    assert_eq!(out, vec![OutputPosition { c: 'A', pos: (3, 15), size: (10, 4) }]);
}

#[test]
fn multibyte_characters_lay_out_like_any_other() {
    let font = simple_font(
        vec![('€', ci((12, 0), (0, 0))), ('A', ci((10, 0), (0, 0)))],
        vec![(('€', 'A'), (1, 0))],
    );
    let out = font.positions_for("€A");
    assert_eq!(out.len(), 2);
    assert_eq!(out[0].c, '€');
    assert_eq!(out[0].pos, (0, 20));
    assert_eq!(out[1].pos, (13, 20));
}

#[test]
fn vertical_advance_and_kerning_move_the_baseline() {
    let font = simple_font(
        vec![('A', ci((10, 2), (0, 0))), ('B', ci((10, 0), (0, 0)))],
        vec![(('A', 'B'), (0, -1))],
    );
    let out = font.positions_for("AB");
    // 'A' draws at y = 20 and advances the pen down by 2; the (A, B) kerning
    // lifts it back up by 1.
    assert_eq!(out[0].pos, (0, 20));
    assert_eq!(out[1].pos, (10, 21));
}

#[test]
fn map_img_preserves_every_other_field() {
    let font = RenderedFont::new(
        "atlas one".to_string(),
        9,
        7u32,
        11,
        13,
        vec![('A', ci((1, 2), (3, 4)))],
        vec![(('A', 'B'), (-1, -2))],
    );
    let mapped: RenderedFont<String> = font.map_img(|old: u32| format!("was {}", old));
    assert_eq!(mapped.name(), "atlas one");
    assert_eq!(mapped.size(), 9);
    assert_eq!(mapped.line_height(), 11);
    assert_eq!(mapped.max_width(), 13);
    assert_eq!(mapped.image(), "was 7");
    assert_eq!(mapped.char_info('A').unwrap(), ci((1, 2), (3, 4)));
    assert_eq!(mapped.kerning('A', 'B'), (-1, -2));
}

#[test]
fn image_mut_changes_only_the_image() {
    let mut font = simple_font(vec![('A', ci((10, 0), (0, 0)))], vec![]);
    let mut font = font.map_img(|_| 1u32);
    *font.image_mut() = 2u32;
    assert_eq!(font.image(), &2u32);
    assert_eq!(font.name(), "demo");
    assert_eq!(font.char_info('A').unwrap().advance, (10, 0));
}
