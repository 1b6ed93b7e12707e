use lumi::kernel::common::ColorSupport;
use lumi::kernel::linux::{get_color_support, get_exit_code};
use lumi::shell::config::{Color, ColorPalette, ColorSpace, Config, PromptStyle, Style};
use lumi::shell::lines::{
    clone_lines, join_lines, read_lines, split_lines, split_text, trim_text, write_lines,
};
use lumi::text::{char_width, chars_of};

fn strings(items: &[&str]) -> Vec<String> {
    items.iter().map(|s| s.to_string()).collect()
}

#[test]
fn characters_take_one_to_four_bytes() {
    for c in ['\0', 'a', '\u{7f}', '\u{80}', 'é', '\u{7ff}', '\u{800}', '越', '\u{ffff}', '\u{10000}', '😀'] {
        assert_eq!(char_width(c), c.len_utf8());
    }
}

#[test]
fn characters_come_in_order() {
    assert_eq!(chars_of("aé\n"), vec!['a', 'é', '\n']);
    assert_eq!(chars_of(""), Vec::<char>::new());
}

#[test]
fn joining_puts_the_separator_between() {
    assert_eq!(join_lines(&strings(&[]), ", "), "");
    assert_eq!(join_lines(&strings(&["a"]), ", "), "a");
    assert_eq!(join_lines(&strings(&["a", "b", "c"]), ", "), "a, b, c");
    assert_eq!(join_lines(&strings(&["a", "", "c"]), ""), "ac");
    assert_eq!(join_lines(&strings(&["", ""]), " "), " ");
}

#[test]
fn splitting_gives_one_piece_more_than_separators() {
    assert_eq!(split_text("", '\n'), strings(&[""]));
    assert_eq!(split_text("a", '\n'), strings(&["a"]));
    assert_eq!(split_text("a\nb", '\n'), strings(&["a", "b"]));
    assert_eq!(split_text("a\nb\n", '\n'), strings(&["a", "b", ""]));
    assert_eq!(split_text("\n\n", '\n'), strings(&["", "", ""]));
    assert_eq!(split_text("a,b", ','), strings(&["a", "b"]));
}

#[test]
fn trimming_takes_white_space_off_both_ends() {
    assert_eq!(trim_text(""), "");
    assert_eq!(trim_text(" \t\r\n"), "");
    assert_eq!(trim_text("a"), "a");
    assert_eq!(trim_text("  a b \u{a0}"), "a b");
    assert_eq!(trim_text("a  "), "a");
    assert_eq!(trim_text("\u{3000}a"), "a");
}

#[test]
fn output_lines_are_trimmed_and_not_empty() {
    assert_eq!(split_lines(""), strings(&[]));
    assert_eq!(split_lines("\n \n"), strings(&[]));
    assert_eq!(split_lines("a\n"), strings(&["a"]));
    assert_eq!(split_lines(" a \r\n\nb  c\n   "), strings(&["a", "b  c"]));
}

#[test]
fn file_lines_end_at_line_feeds() {
    assert_eq!(read_lines(""), strings(&[]));
    assert_eq!(read_lines("a"), strings(&["a"]));
    assert_eq!(read_lines("a\n"), strings(&["a"]));
    assert_eq!(read_lines("a\n\n"), strings(&["a", ""]));
    assert_eq!(read_lines("\n"), strings(&[""]));
    assert_eq!(read_lines(" a \nb"), strings(&[" a ", "b"]));
}

#[test]
fn file_text_ends_each_line_with_a_line_feed() {
    assert_eq!(write_lines(&strings(&[])), "");
    assert_eq!(write_lines(&strings(&["hello"])), "hello\n");
    assert_eq!(write_lines(&strings(&["a", "", "b"])), "a\n\nb\n");
}

#[test]
fn written_lines_are_read_back() {
    for lines in [strings(&[]), strings(&["a"]), strings(&["a", "", " b "]), strings(&[""])] {
        assert_eq!(read_lines(&write_lines(&lines)), lines);
    }
    let captured = split_lines(" one \n\ntwo\r\n");
    assert_eq!(read_lines(&write_lines(&captured)), captured);
}

#[test]
fn line_with_a_line_feed_is_read_back_as_two() {
    assert_eq!(read_lines(&write_lines(&strings(&["a\nb"]))), strings(&["a", "b"]));
}

#[test]
fn lines_are_copied() {
    let lines = strings(&["a", "b"]);
    assert_eq!(clone_lines(&lines), lines);
}

#[test]
fn exit_code_falls_back_to_the_signal() {
    assert_eq!(get_exit_code(Some(3), None), Some(3));
    assert_eq!(get_exit_code(Some(0), Some(9)), Some(0));
    assert_eq!(get_exit_code(None, Some(9)), Some(9));
    assert_eq!(get_exit_code(None, None), None);
    assert_eq!(get_color_support(), ColorSupport::Default);
}

#[test]
fn color_space_unwraps_to_its_value() {
    assert_eq!(ColorSpace::Notice(1).unwrap(), 1);
    assert_eq!(ColorSpace::Warning("w").unwrap(), "w");
    assert_eq!(ColorSpace::Error('e').unwrap(), 'e');
    assert_eq!(ColorSpace::Dir(2u8).unwrap(), 2);
    assert_eq!(ColorSpace::User(()).unwrap(), ());
    assert_eq!(ColorSpace::Machine(String::from("m")).unwrap(), "m");
}

#[test]
fn palette_paints_by_what_a_value_stands_for() {
    let simple = ColorPalette::simple();
    let painted = simple.paint(ColorSpace::Dir("d"));
    assert_eq!(painted.value, "d");
    assert_eq!(painted.style, Style { color: Color::Cyan, dimmed: true });
    assert_eq!(simple.paint(ColorSpace::Notice(0)).style, Style { color: Color::Cyan, dimmed: false });
    assert_eq!(simple.paint(ColorSpace::Warning(0)).style, Style { color: Color::Yellow, dimmed: false });
    assert_eq!(simple.paint(ColorSpace::Error(0)).style, Style { color: Color::Red, dimmed: false });
    assert_eq!(simple.paint(ColorSpace::User(0)).style, Style { color: Color::Green, dimmed: false });
    assert_eq!(simple.paint(ColorSpace::Machine(0)).style, Style { color: Color::Yellow, dimmed: true });
    let rgb = ColorPalette::rgb();
    assert_eq!(rgb.paint(ColorSpace::Error(0)).style, Style { color: Color::Rgb(255, 67, 131), dimmed: false });
    assert_eq!(rgb.paint(ColorSpace::Notice(0)).style.color, Color::Rgb(29, 136, 241));
    assert_eq!(rgb.paint(ColorSpace::Warning(0)).style.color, Color::Rgb(249, 184, 22));
    assert_eq!(rgb.paint(ColorSpace::Dir(0)).style.color, Color::Rgb(248, 176, 104));
    assert_eq!(rgb.paint(ColorSpace::User(0)).style.color, Color::Rgb(80, 177, 255));
    assert_eq!(rgb.paint(ColorSpace::Machine(0)).style.color, Color::Rgb(255, 0, 255));
}

#[test]
fn palette_is_chosen_by_the_system() {
    assert_eq!(ColorPalette::select(true, true), ColorPalette::rgb());
    assert_eq!(ColorPalette::select(true, false), ColorPalette::simple());
    assert_eq!(ColorPalette::select(false, true), ColorPalette::simple());
    assert_eq!(ColorPalette::default(), ColorPalette::simple());
    assert!(ColorPalette::enable_windows_ascii(ColorSupport::TrueColor));
    assert!(ColorPalette::enable_windows_ascii(ColorSupport::Colors256));
    assert!(!ColorPalette::enable_windows_ascii(ColorSupport::Default));
    assert!(!ColorPalette::enable_windows_ascii(ColorSupport::NoColor));
}

#[test]
fn default_config_has_colors_and_the_lumi_prompt() {
    let config = Config::default();
    assert_eq!(*config.prompt(), PromptStyle::Lumi);
    assert_eq!(config.palette(), Some(&ColorPalette::simple()));
    let config = Config::with_palette(ColorPalette::rgb());
    assert_eq!(config.palette(), Some(&ColorPalette::rgb()));
}
