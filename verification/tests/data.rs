use std::path::PathBuf;
use text_scroll::color::Color;
use text_scroll::data::{
    AppData, CliArgs, TextLine, ABOUT, DEFAULT_FONT_SIZE, FONT_SIZE_LIMIT, MSG, NAME,
};

fn no_args() -> CliArgs {
    CliArgs { text_file: None, font_size: None, bgcolor: None, fgcolor: None }
}

fn texts(lines: &[TextLine]) -> Vec<&str> {
    lines.iter().map(|l| l.line.as_str()).collect()
}

fn assert_fresh(lines: &[TextLine]) {
    for line in lines {
        assert_eq!(line.line_height, 0);
        assert_eq!(line.line_width, 0);
        assert_eq!(line.line_offset, None);
    }
}

#[test]
fn new_line_is_fresh() {
    let line = TextLine::new("hello");
    assert_eq!(line.line, "hello");
    assert_eq!(line.line_height, 0);
    assert_eq!(line.line_width, 0);
    assert_eq!(line.line_offset, None);
    assert_eq!(TextLine::new("").line, "");
    assert_eq!(TextLine::new("  kept as it is ").line, "  kept as it is ");
}

#[test]
fn split_cuts_at_line_breaks_and_trims() {
    let lines = AppData::split_text_by_newlines("one\n  two  \n\tthree");
    assert_eq!(texts(&lines), vec!["one", "two", "three"]);
    assert_fresh(&lines);
}

#[test]
fn split_keeps_empty_pieces() {
    assert_eq!(texts(&AppData::split_text_by_newlines("")), vec![""]);
    assert_eq!(texts(&AppData::split_text_by_newlines("\n")), vec!["", ""]);
    assert_eq!(texts(&AppData::split_text_by_newlines("a\n\nb")), vec!["a", "", "b"]);
    assert_eq!(texts(&AppData::split_text_by_newlines("a\n")), vec!["a", ""]);
    assert_eq!(texts(&AppData::split_text_by_newlines("\na")), vec!["", "a"]);
    assert_eq!(texts(&AppData::split_text_by_newlines("   \n \t ")), vec!["", ""]);
    assert_eq!(texts(&AppData::split_text_by_newlines("a\r\nb\r\n")), vec!["a", "b", ""]);
}

#[test]
fn split_trims_unicode_whitespace_only_at_the_ends() {
    let lines = AppData::split_text_by_newlines("\u{a0}\u{3000}a  b\u{2003}\nüber alles \u{85}");
    assert_eq!(texts(&lines), vec!["a  b", "über alles"]);
    let lines = AppData::split_text_by_newlines("\u{200b}x\u{200b}");
    assert_eq!(texts(&lines), vec!["\u{200b}x\u{200b}"]);
}

#[test]
fn split_agrees_with_the_standard_library() {
    for text in ["", "a", "\n\n\n", " a \n b\n\nc \n", "x\ny", MSG, "\u{a0}\n\u{2028}z\n q \u{1680}"] {
        let expected: Vec<&str> = text.split("\n").map(|l| l.trim()).collect();
        assert_eq!(texts(&AppData::split_text_by_newlines(text)), expected, "{:?}", text);
    }
}

#[test]
fn default_text_has_its_lines() {
    let lines = AppData::split_text_by_newlines(MSG);
    assert_eq!(lines.len(), 19);
    assert_eq!(lines[0].line, "Lorem ipsum dolor sit amet,");
    assert_eq!(lines[1].line, "consetetur sadipscing elitr,");
    assert_eq!(lines[17].line, "dolor sit amet.");
    assert_eq!(lines[18].line, "****");
    assert_fresh(&lines);
}

#[test]
fn names_of_the_program() {
    assert_eq!(NAME, "RAYLIB TTF ANTI ALIASED DEMO");
    assert_eq!(ABOUT, "Vertical font scrolling using the raylib library.");
    assert_eq!(DEFAULT_FONT_SIZE, 64);
    assert_eq!(FONT_SIZE_LIMIT, 180);
}

#[test]
fn app_data_defaults() {
    let data = AppData::new(no_args(), None);
    assert_eq!(data.text_lines.len(), 19);
    assert_eq!(data.text_lines[18].line, "****");
    assert_eq!(data.font_size, 64);
    assert_eq!(data.bgcolor, Color { r: 0, g: 228, b: 48, a: 255 });
    assert_eq!(data.fgcolor, Color { r: 255, g: 255, b: 255, a: 255 });
    assert_eq!(data.cli_args.font_size, None);
    assert_eq!(data.cli_args.text_file, None);
}

#[test]
fn app_data_takes_the_loaded_text() {
    let data = AppData::new(no_args(), Some(String::from(" first \nsecond\n")));
    assert_eq!(texts(&data.text_lines), vec!["first", "second", ""]);
    assert_fresh(&data.text_lines);
    let data = AppData::new(no_args(), Some(String::new()));
    assert_eq!(texts(&data.text_lines), vec![""]);
}

#[test]
fn app_data_font_size_is_kept_in_range() {
    for (given, used) in [
        (None, 64),
        (Some(1), 1),
        (Some(32), 32),
        (Some(179), 179),
        (Some(180), 64),
        (Some(0), 64),
        (Some(-5), 64),
        (Some(i32::MAX), 64),
        (Some(i32::MIN), 64),
    ] {
        let mut args = no_args();
        args.font_size = given;
        let data = AppData::new(args, None);
        assert_eq!(data.font_size, used, "{:?}", given);
        assert_eq!(data.cli_args.font_size, given);
    }
}

#[test]
fn app_data_colors() {
    let mut args = no_args();
    args.bgcolor = Some(String::from("#102030"));
    args.fgcolor = Some(String::from("1-2-3"));
    args.text_file = Some(PathBuf::from("some/file.txt"));
    let data = AppData::new(args, None);
    assert_eq!(data.bgcolor, Color { r: 0x10, g: 0x20, b: 0x30, a: 255 });
    assert_eq!(data.fgcolor, Color { r: 1, g: 2, b: 3, a: 255 });
    assert_eq!(data.cli_args.bgcolor.as_deref(), Some("#102030"));
    assert_eq!(data.cli_args.fgcolor.as_deref(), Some("1-2-3"));
    assert_eq!(data.cli_args.text_file, Some(PathBuf::from("some/file.txt")));
}

#[test]
fn app_data_falls_back_on_unreadable_colors() {
    let mut args = no_args();
    args.bgcolor = Some(String::from("blue"));
    args.fgcolor = Some(String::from("300-0-0"));
    let data = AppData::new(args, None);
    assert_eq!(data.bgcolor, Color { r: 0, g: 228, b: 48, a: 255 });
    assert_eq!(data.fgcolor, Color { r: 255, g: 255, b: 255, a: 255 });
}
