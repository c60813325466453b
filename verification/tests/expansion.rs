use untabify::expand::expand_line;
use untabify::text::{convert_line, convert_text};

/// The columns right after each tab of `line`, found by expanding the
/// prefixes that end in a tab.
fn columns_after_tabs(line: &str, width: usize) -> Vec<usize> {
    let mut columns: Vec<usize> = Vec::new();
    for (i, c) in line.char_indices() {
        if c == '\t' {
            let prefix = &line[..i + 1];
            columns.push(expand_line(prefix, width).chars().count());
        }
    }
    columns
}

#[test]
fn leading_tab_becomes_four_spaces() {
    assert_eq!(expand_line("\tfoo", 4), "    foo");
    assert_eq!(convert_text("\tfoo", 4), "    foo");
}

#[test]
fn embedded_tab_reaches_the_next_stop() {
    assert_eq!(expand_line("a\tb", 4), "a   b");
    assert_eq!(convert_text("a\tb", 4), "a   b");
}

#[test]
fn line_without_tabs_is_unchanged() {
    let lines = ["", "x", "hello, world", "  indented with spaces", "trailing  ", "naïve café"];
    for line in lines {
        for width in 1..=9usize {
            assert_eq!(expand_line(line, width), line);
        }
    }
}

#[test]
fn empty_line_stays_empty() {
    assert_eq!(expand_line("", 4), "");
    assert_eq!(convert_line("", 4), "");
    assert_eq!(convert_text("", 4), "");
}

#[test]
fn column_after_a_tab_is_a_multiple_of_the_width() {
    let lines = ["\t", "a\tb\tc", "\t\tx", "abcdefgh\ti", "ab\tcd\tefghij\tk\t", "ü\tö\tä"];
    for line in lines {
        for width in 1..=9usize {
            for column in columns_after_tabs(line, width) {
                assert_eq!(column % width, 0, "line {:?}, width {}", line, width);
            }
        }
    }
}

#[test]
fn tab_emits_width_minus_column_mod_width_spaces() {
    // Tab at column 3.
    assert_eq!(expand_line("abc\tx", 8), "abc     x");
    assert_eq!(expand_line("abc\tx", 4), "abc x");
    assert_eq!(expand_line("abc\tx", 3), "abc   x");
    assert_eq!(expand_line("abc\tx", 2), "abc x");
    for column in 0..20usize {
        for width in 1..=9usize {
            let line = format!("{}\t|", "x".repeat(column));
            let expected =
                format!("{}{}|", "x".repeat(column), " ".repeat(width - column % width));
            assert_eq!(expand_line(&line, width), expected);
        }
    }
}

#[test]
fn expanded_spaces_count_as_columns() {
    // The second tab stands at column 4, not at column 1.
    assert_eq!(expand_line("\t\tx", 4), "        x");
    assert_eq!(expand_line("a\t\tx", 4), "a       x");
    assert_eq!(expand_line("a\tbc\td", 4), "a   bc  d");
}

#[test]
fn width_one_turns_each_tab_into_one_space() {
    assert_eq!(expand_line("\ta\t\tb", 1), " a  b");
}

#[test]
fn every_character_takes_one_column() {
    assert_eq!(expand_line("é\tb", 4), "é   b");
    assert_eq!(expand_line("日本\tx", 4), "日本  x");
}

#[test]
fn no_tab_is_left() {
    let out = expand_line("\ta\t\tb\t", 5);
    assert!(!out.contains('\t'));
    assert_eq!(out, "     a         b    ");
}

#[test]
fn expansion_keeps_trailing_blanks_and_conversion_trims_them() {
    assert_eq!(expand_line("a\t", 4), "a   ");
    assert_eq!(convert_line("a\t", 4), "a");
    assert_eq!(expand_line("a  ", 4), "a  ");
    assert_eq!(convert_line("a  ", 4), "a");
    assert_eq!(convert_line("\t \t", 4), "");
    assert_eq!(convert_line("  a\tb \t ", 4), "  a b");
}
