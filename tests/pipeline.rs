use blockcode::color::{convert_color, Rgba, TermColor};
use blockcode::printer::{Printer, PrinterBuilder, Session, SyntaxQuery};
use blockcode::reader::{InputReader, LineRead};
use blockcode::render::{draw_regions, is_white_space, Segment, StyledRegion};
use blockcode::tabs::expand_tabs;
use blockcode::width::truncate_to_width;
use syntect::highlighting::ThemeSet;
use syntect::parsing::SyntaxSet;

fn glyphs(n: usize) -> String {
    "\u{2580}".repeat(n)
}

fn region(r: u8, g: u8, b: u8, a: u8, text: &str) -> StyledRegion {
    StyledRegion { style: Rgba { r, g, b, a }, text: text.to_string() }
}

fn printer(columns: usize, tabs: usize, true_color: bool) -> Printer {
    let mut builder = PrinterBuilder::new();
    builder.columns(columns).tabs(tabs).true_color(true_color);
    builder.build()
}

#[test]
fn tab_after_one_column_goes_to_the_stop() {
    assert_eq!(expand_tabs("a\tb", 4), "a   b");
}

#[test]
fn tab_after_wide_character_counts_its_width() {
    assert_eq!(expand_tabs("\u{6f22}\t", 4), "\u{6f22}  ");
}

#[test]
fn tab_at_stop_takes_a_whole_tab() {
    assert_eq!(expand_tabs("abcd\tx", 4), "abcd    x");
    assert_eq!(expand_tabs("\t", 4), "    ");
    assert_eq!(expand_tabs("ab\t\t", 3), "ab    ");
}

#[test]
fn tab_width_zero_keeps_tabs() {
    assert_eq!(expand_tabs("a\tb\t", 0), "a\tb\t");
}

#[test]
fn line_without_tabs_is_unchanged() {
    assert_eq!(expand_tabs("no tabs here", 4), "no tabs here");
    assert_eq!(expand_tabs("", 8), "");
}

#[test]
fn truncate_keeps_longest_fitting_prefix() {
    assert_eq!(truncate_to_width("hello", 3), "hel");
    assert_eq!(truncate_to_width("hello", 10), "hello");
    assert_eq!(truncate_to_width("hello", 0), "");
}

#[test]
fn truncate_never_splits_a_wide_character() {
    assert_eq!(truncate_to_width("\u{6f22}\u{5b57}", 3), "\u{6f22}");
    assert_eq!(truncate_to_width("\u{6f22}\u{5b57}", 1), "");
    assert_eq!(truncate_to_width("\u{6f22}\u{5b57}", 4), "\u{6f22}\u{5b57}");
}

#[test]
fn color_alpha_zero_is_reset() {
    let c = Rgba { r: 10, g: 20, b: 30, a: 0 };
    assert_eq!(convert_color(&c, true), TermColor::Reset);
    assert_eq!(convert_color(&c, false), TermColor::Reset);
}

#[test]
fn color_true_color_keeps_rgb() {
    let c = Rgba { r: 10, g: 20, b: 30, a: 255 };
    assert_eq!(convert_color(&c, true), TermColor::Rgb { r: 10, g: 20, b: 30 });
}

#[test]
fn color_reduced_to_palette() {
    let red = Rgba { r: 255, g: 0, b: 0, a: 255 };
    assert_eq!(convert_color(&red, false), TermColor::AnsiValue(196));
    let black = Rgba { r: 0, g: 0, b: 0, a: 255 };
    assert_eq!(convert_color(&black, false), TermColor::AnsiValue(16));
    assert_eq!(convert_color(&red, false), convert_color(&red, false));
}

#[test]
fn reader_serves_first_line_then_fetches() {
    let mut reader = InputReader::new("first\n");
    assert_eq!(reader.first_line(), "first");
    let mut buf = String::new();
    assert_eq!(reader.read_line(&mut buf), LineRead::Ready);
    assert_eq!(buf, "first");
    assert_eq!(reader.read_line(&mut buf), LineRead::Fetch);
    assert!(reader.accept_line("second\n", &mut buf));
    assert_eq!(buf, "second");
    assert!(reader.accept_line("last", &mut buf));
    assert_eq!(buf, "last");
    assert!(!reader.accept_line("", &mut buf));
    assert_eq!(reader.read_line(&mut buf), LineRead::Exhausted);
    assert_eq!(reader.first_line(), "first");
}

#[test]
fn reader_keeps_an_empty_first_line() {
    let mut reader = InputReader::new("\n");
    let mut buf = String::from("old");
    assert_eq!(reader.read_line(&mut buf), LineRead::Ready);
    assert_eq!(buf, "");
}

#[test]
fn reader_on_empty_stream_is_exhausted() {
    let mut reader = InputReader::new("");
    let mut buf = String::new();
    assert_eq!(reader.read_line(&mut buf), LineRead::Exhausted);
}

#[test]
fn budget_cuts_glyph_run() {
    let p = printer(5, 4, true);
    let regions = vec![region(1, 2, 3, 255, "   abcd")];
    let out = p.render_line(&regions);
    assert_eq!(
        out,
        vec![
            Segment::Plain("   ".to_string()),
            Segment::Fill(TermColor::Rgb { r: 1, g: 2, b: 3 }, glyphs(2)),
        ]
    );
}

#[test]
fn long_line_emits_exactly_the_budget() {
    let p = printer(80, 4, false);
    let text = "x".repeat(10000);
    let regions = vec![region(255, 0, 0, 255, &text)];
    let out = p.render_line(&regions);
    assert_eq!(out, vec![Segment::Fill(TermColor::AnsiValue(196), glyphs(80))]);
}

#[test]
fn whitespace_run_truncated_to_budget() {
    let regions = vec![region(0, 0, 0, 255, "ab"), region(0, 0, 0, 255, "      z")];
    let out = draw_regions(&regions, 4, true);
    assert_eq!(
        out,
        vec![
            Segment::Fill(TermColor::Rgb { r: 0, g: 0, b: 0 }, glyphs(2)),
            Segment::Plain("  ".to_string()),
        ]
    );
}

#[test]
fn regions_after_budget_are_dropped() {
    let regions = vec![region(9, 9, 9, 255, "abc"), region(8, 8, 8, 255, "def")];
    let out = draw_regions(&regions, 3, true);
    assert_eq!(out, vec![Segment::Fill(TermColor::Rgb { r: 9, g: 9, b: 9 }, glyphs(3))]);
}

#[test]
fn alpha_zero_region_draws_in_default_color() {
    let regions = vec![region(200, 100, 50, 0, "ab cd")];
    let out = draw_regions(&regions, usize::MAX, true);
    assert_eq!(
        out,
        vec![
            Segment::Fill(TermColor::Reset, glyphs(2)),
            Segment::Plain(" ".to_string()),
            Segment::Fill(TermColor::Reset, glyphs(2)),
        ]
    );
}

#[test]
fn wide_characters_take_two_glyphs_each() {
    let regions = vec![region(1, 1, 1, 255, "\u{6f22}\u{5b57}a")];
    let out = draw_regions(&regions, usize::MAX, true);
    assert_eq!(out, vec![Segment::Fill(TermColor::Rgb { r: 1, g: 1, b: 1 }, glyphs(5))]);
}

#[test]
fn zero_columns_draws_nothing() {
    let regions = vec![region(1, 1, 1, 255, "abc")];
    assert_eq!(draw_regions(&regions, 0, true), vec![]);
    assert_eq!(draw_regions(&vec![], 10, true), vec![]);
}

#[test]
fn builder_defaults_and_settings() {
    let p = PrinterBuilder::new().build();
    assert_eq!(p.prepare_line("a\tb"), "a   b");
    assert_eq!(p.syntax_query(true), SyntaxQuery::FileName);
    assert_eq!(p.syntax_query(false), SyntaxQuery::FirstLine);
    let mut builder = PrinterBuilder::new();
    builder.language("rs").tabs(0);
    let p = builder.build();
    assert_eq!(p.prepare_line("a\tb"), "a\tb");
    assert_eq!(p.syntax_query(true), SyntaxQuery::Token("rs".to_string()));
}

#[test]
fn plain_text_grammar_covers_line_in_one_color() {
    let syntax_set = SyntaxSet::load_defaults_nonewlines();
    let themes = ThemeSet::load_defaults();
    let theme = &themes.themes["base16-ocean.dark"];
    let syntax = syntax_set
        .find_syntax_by_extension("unknownext")
        .unwrap_or_else(|| syntax_set.find_syntax_plain_text());
    let mut session = Session::new(&syntax_set, theme, &syntax.name).unwrap();
    let p = printer(usize::MAX, 4, true);
    let out = p.print_line("hello world", &mut session);
    assert_eq!(out.len(), 3);
    let color = match &out[0] {
        Segment::Fill(c, g) => {
            assert_eq!(g, &glyphs(5));
            *c
        }
        other => panic!("unexpected {:?}", other),
    };
    assert_eq!(out[1], Segment::Plain(" ".to_string()));
    assert_eq!(out[2], Segment::Fill(color, glyphs(5)));
}

#[test]
fn session_for_unknown_grammar_is_none() {
    let syntax_set = SyntaxSet::load_defaults_nonewlines();
    let themes = ThemeSet::load_defaults();
    let theme = &themes.themes["base16-ocean.dark"];
    assert!(Session::new(&syntax_set, theme, "No Such Grammar").is_none());
    assert!(Session::new(&syntax_set, theme, "Plain Text").is_some());
}

#[test]
fn white_space_predicate_follows_unicode() {
    for c in ['\t', '\n', '\r', ' ', '\u{a0}', '\u{2003}', '\u{3000}', '\u{85}'] {
        assert!(is_white_space(c));
        assert_eq!(is_white_space(c), c.is_whitespace());
    }
    for c in ['a', '_', '\u{200b}', '\u{6f22}', '\u{0}'] {
        assert!(!is_white_space(c));
        assert_eq!(is_white_space(c), c.is_whitespace());
    }
}
