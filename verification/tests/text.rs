use untabify::text::{convert_text, is_whitespace, split_lines, trim_line};

fn std_lines(text: &str) -> Vec<String> {
    text.lines().map(|l| l.to_string()).collect()
}

#[test]
fn lines_are_split_as_std_splits_them() {
    let texts = [
        "",
        "\n",
        "a",
        "a\n",
        "a\nb",
        "a\n\nb\n",
        "a\r\nb\r\n",
        "foo\nbar\n\r\nbaz\r",
        "\r",
        "\r\n",
        "\r\r\n",
        "a\rb\nc",
        "\n\n",
        "x\r\r",
        "tab\there\n\tand there\n",
    ];
    for text in texts {
        assert_eq!(split_lines(text), std_lines(text), "text {:?}", text);
    }
}

#[test]
fn split_lines_named_cases() {
    assert_eq!(split_lines("foo\nbar\n\r\nbaz\r"), vec!["foo", "bar", "", "baz\r"]);
    assert_eq!(split_lines("a\n"), vec!["a"]);
    assert_eq!(split_lines("\n"), vec![""]);
    assert!(split_lines("").is_empty());
}

#[test]
fn whitespace_is_what_std_calls_whitespace() {
    for n in 0..=0x10FFFFu32 {
        if let Some(c) = char::from_u32(n) {
            assert_eq!(is_whitespace(c), c.is_whitespace(), "U+{:04X}", n);
        }
    }
}

#[test]
fn trimming_agrees_with_std() {
    let lines =
        ["", " ", "a", "a ", " a", "a \t\u{A0}", "a\u{3000}b\u{2003}", "\t\t", "x\r", "é "];
    for line in lines {
        assert_eq!(trim_line(line), line.trim_end(), "line {:?}", line);
    }
}

#[test]
fn text_is_converted_line_by_line() {
    assert_eq!(convert_text("\ta\n\tb", 4), "    a\n    b");
    assert_eq!(convert_text("a\tb\nc\td\n", 4), "a   b\nc   d");
    assert_eq!(convert_text("ab\tc\n\nd", 2), "ab  c\n\nd");
}

#[test]
fn columns_start_again_on_every_line() {
    assert_eq!(convert_text("abc\n\tx", 4), "abc\n    x");
    assert_eq!(convert_text("a\n\tb\n\t\tc", 3), "a\n   b\n      c");
}

#[test]
fn lines_are_joined_with_a_single_line_feed() {
    assert_eq!(convert_text("a\r\nb\r\n", 4), "a\nb");
    assert_eq!(convert_text("a\n", 4), "a");
    assert_eq!(convert_text("\n", 4), "");
    assert_eq!(convert_text("\n\n", 4), "\n");
    assert_eq!(convert_text("a  \nb\t\n", 4), "a\nb");
}

#[test]
fn conversion_does_what_lines_map_join_does() {
    let texts = ["", "a\tb", "\tfoo\n\t\tbar\r\nbaz \n", "x\ty\tz\n\n\n", "\r\n\t\r\n"];
    for text in texts {
        for width in 1..=8usize {
            let expected = text
                .lines()
                .map(|line| untabify::expand::expand_line(line, width).trim_end().to_string())
                .collect::<Vec<String>>()
                .join("\n");
            assert_eq!(convert_text(text, width), expected);
        }
    }
}
