//! Whole-file conversion: a text is split into lines, every line has its
//! tabs expanded and its trailing whitespace removed, and the lines are
//! joined again with a single line feed between them.
//!
//! Trailing whitespace is trimmed on purpose: a converted line never ends in
//! a blank, whether the blank was typed or came out of a tab.

use vstd::prelude::*;
use vstd::string::StrSliceExecFns;

use crate::expand::{
    expand, expand_line, lemma_expand_leaves_no_tab, lemma_expand_without_tabs,
};

verus! {

/// Whether `c` is whitespace in the sense of Unicode's `White_Space`
/// property: the ASCII blanks and controls U+0009 to U+000D, and the
/// separators and spaces beyond ASCII.
pub open spec fn is_white_space(c: char) -> bool {
    let n = c as u32;
    ||| 0x09 <= n <= 0x0D
    ||| n == 0x20
    ||| n == 0x85
    ||| n == 0xA0
    ||| n == 0x1680
    ||| 0x2000 <= n <= 0x200A
    ||| n == 0x2028
    ||| n == 0x2029
    ||| n == 0x202F
    ||| n == 0x205F
    ||| n == 0x3000
}

/// `line` without the whitespace at its end.
pub open spec fn trim_end(line: Seq<char>) -> Seq<char>
    decreases line.len(),
{
    if line.len() > 0 && is_white_space(line.last()) {
        trim_end(line.drop_last())
    } else {
        line
    }
}

/// A converted line: tabs expanded, then trailing whitespace removed.
pub open spec fn converted_line(line: Seq<char>, width: nat) -> Seq<char> {
    trim_end(expand(line, width))
}

/// `line` without one carriage return at its end, if it has one.
pub open spec fn without_cr(line: Seq<char>) -> Seq<char> {
    if line.len() > 0 && line.last() == '\r' {
        line.drop_last()
    } else {
        line
    }
}

/// The characters after the last line feed of `text`: the line that is
/// still open where the text ends.
pub open spec fn open_line(text: Seq<char>) -> Seq<char>
    decreases text.len(),
{
    if text.len() == 0 || text.last() == '\n' {
        Seq::empty()
    } else {
        open_line(text.drop_last()).push(text.last())
    }
}

/// The lines of `text` that a line feed closes, in order. A line ending is
/// `"\n"` or `"\r\n"` and is not part of the line.
pub open spec fn closed_lines(text: Seq<char>) -> Seq<Seq<char>>
    decreases text.len(),
{
    if text.len() == 0 {
        Seq::empty()
    } else if text.last() == '\n' {
        closed_lines(text.drop_last()).push(without_cr(open_line(text.drop_last())))
    } else {
        closed_lines(text.drop_last())
    }
}

/// The lines of `text`. The last line needs no line ending; a text that ends
/// with one has no empty line after it. A carriage return that no line feed
/// follows belongs to its line.
pub open spec fn lines_of(text: Seq<char>) -> Seq<Seq<char>> {
    if open_line(text).len() == 0 {
        closed_lines(text)
    } else {
        closed_lines(text).push(open_line(text))
    }
}

/// The lines joined with one line feed between neighbours, none at the end.
pub open spec fn joined(lines: Seq<Seq<char>>) -> Seq<char>
    decreases lines.len(),
{
    if lines.len() == 0 {
        Seq::empty()
    } else if lines.len() == 1 {
        lines[0]
    } else {
        joined(lines.drop_last()) + seq!['\n'] + lines.last()
    }
}

/// Every line of `lines` converted.
pub open spec fn converted_lines(lines: Seq<Seq<char>>, width: nat) -> Seq<Seq<char>> {
    Seq::new(lines.len(), |i: int| converted_line(lines[i], width))
}

/// The converted form of a whole text.
pub open spec fn converted_text(text: Seq<char>, width: nat) -> Seq<char> {
    joined(converted_lines(lines_of(text), width))
}

/// The views of a list of strings.
pub open spec fn views(strings: Seq<String>) -> Seq<Seq<char>> {
    Seq::new(strings.len(), |i: int| strings[i]@)
}

/// What is left of a line after trimming is a prefix of the line.
pub proof fn lemma_trim_end_is_prefix(line: Seq<char>)
    ensures
        trim_end(line).len() <= line.len(),
        trim_end(line) == line.take(trim_end(line).len() as int),
    decreases line.len(),
{
    if line.len() > 0 && is_white_space(line.last()) {
        lemma_trim_end_is_prefix(line.drop_last());
        let n = trim_end(line).len() as int;
        assert(line.drop_last().take(n) == line.take(n));
    } else {
        assert(line.take(line.len() as int) == line);
    }
}

/// The open line holds no line feed.
pub proof fn lemma_open_line_holds_no_line_feed(text: Seq<char>)
    ensures
        forall|i: int| 0 <= i < open_line(text).len() ==> open_line(text)[i] != '\n',
    decreases text.len(),
{
    if text.len() > 0 && text.last() != '\n' {
        lemma_open_line_holds_no_line_feed(text.drop_last());
        let head = open_line(text.drop_last());
        let line = open_line(text);
        assert forall|i: int| 0 <= i < line.len() implies line[i] != '\n' by {
            if i < head.len() {
                assert(line[i] == head[i]);
            }
        }
    }
}

/// No line of a text holds a line feed.
pub proof fn lemma_lines_hold_no_line_feed(text: Seq<char>)
    ensures
        forall|k: int, i: int|
            0 <= k < lines_of(text).len() && 0 <= i < lines_of(text)[k].len() ==> lines_of(
                text,
            )[k][i] != '\n',
{
    lemma_closed_lines_hold_no_line_feed(text);
    lemma_open_line_holds_no_line_feed(text);
}

proof fn lemma_closed_lines_hold_no_line_feed(text: Seq<char>)
    ensures
        forall|k: int, i: int|
            0 <= k < closed_lines(text).len() && 0 <= i < closed_lines(text)[k].len()
                ==> closed_lines(text)[k][i] != '\n',
    decreases text.len(),
{
    if text.len() > 0 {
        let shorter = text.drop_last();
        lemma_closed_lines_hold_no_line_feed(shorter);
        lemma_open_line_holds_no_line_feed(shorter);
        let all = closed_lines(text);
        assert forall|k: int, i: int| 0 <= k < all.len() && 0 <= i < all[k].len() implies all[k][i]
            != '\n' by {
            if k < closed_lines(shorter).len() {
                assert(all[k] == closed_lines(shorter)[k]);
            } else {
                assert(all[k][i] == open_line(shorter)[i]);
            }
        }
    }
}

/// A trimmed line is empty or ends in a character that is no whitespace.
pub proof fn lemma_trim_end_leaves_no_blank(line: Seq<char>)
    ensures
        trim_end(line).len() == 0 || !is_white_space(trim_end(line).last()),
    decreases line.len(),
{
    if line.len() > 0 && is_white_space(line.last()) {
        lemma_trim_end_leaves_no_blank(line.drop_last());
    }
}

/// A line without tabs that does not end in whitespace is converted to
/// itself, whatever the tab width.
pub proof fn lemma_clean_line_is_unchanged(line: Seq<char>, width: nat)
    requires
        forall|i: int| 0 <= i < line.len() ==> line[i] != '\t',
        line.len() == 0 || !is_white_space(line.last()),
    ensures
        converted_line(line, width) == line,
{
    lemma_expand_without_tabs(line, width);
}

/// No tab is left in a converted line.
pub proof fn lemma_converted_line_has_no_tab(line: Seq<char>, width: nat)
    ensures
        forall|i: int|
            0 <= i < converted_line(line, width).len() ==> converted_line(line, width)[i] != '\t',
{
    let expanded = expand(line, width);
    lemma_expand_leaves_no_tab(line, width);
    lemma_trim_end_is_prefix(expanded);
    let out = converted_line(line, width);
    assert forall|i: int| 0 <= i < out.len() implies out[i] != '\t' by {
        assert(out[i] == expanded[i]);
    }
}

/// Joining lines that hold no tab gives a text that holds no tab.
pub proof fn lemma_joined_has_no_tab(lines: Seq<Seq<char>>)
    requires
        forall|k: int, i: int|
            0 <= k < lines.len() && 0 <= i < lines[k].len() ==> lines[k][i] != '\t',
    ensures
        forall|i: int| 0 <= i < joined(lines).len() ==> joined(lines)[i] != '\t',
    decreases lines.len(),
{
    if lines.len() > 1 {
        let front = lines.drop_last();
        assert forall|k: int, i: int|
            0 <= k < front.len() && 0 <= i < front[k].len() implies front[k][i] != '\t' by {
            assert(front[k] == lines[k]);
        }
        lemma_joined_has_no_tab(front);
        let head = joined(front);
        let last = lines.last();
        let whole = joined(lines);
        assert forall|i: int| 0 <= i < whole.len() implies whole[i] != '\t' by {
            if i < head.len() {
                assert(whole[i] == head[i]);
            } else if i == head.len() {
                assert(whole[i] == '\n');
            } else {
                assert(whole[i] == last[i - head.len() - 1]);
                assert(last == lines[lines.len() - 1]);
            }
        }
    }
}

/// No tab is left in a converted text.
pub proof fn lemma_converted_text_has_no_tab(text: Seq<char>, width: nat)
    ensures
        forall|i: int|
            0 <= i < converted_text(text, width).len() ==> converted_text(text, width)[i] != '\t',
{
    let lines = converted_lines(lines_of(text), width);
    assert forall|k: int, i: int|
        0 <= k < lines.len() && 0 <= i < lines[k].len() implies lines[k][i] != '\t' by {
        lemma_converted_line_has_no_tab(lines_of(text)[k], width);
    }
    lemma_joined_has_no_tab(lines);
}

/// Tells whether `c` is whitespace.
pub fn is_whitespace(c: char) -> (b: bool)
    ensures
        b == is_white_space(c),
{
    let n: u32 = c as u32;
    (0x09 <= n && n <= 0x0D) || n == 0x20 || n == 0x85 || n == 0xA0 || n == 0x1680 || (0x2000 <= n
        && n <= 0x200A) || n == 0x2028 || n == 0x2029 || n == 0x202F || n == 0x205F || n == 0x3000
}

/// The number of characters of `line` that trimming keeps.
fn trimmed_len(line: &str) -> (n: usize)
    ensures
        n == trim_end(line@).len(),
{
    let total: usize = line.unicode_len();
    let mut keep: usize = 0;
    let mut seen: usize = 0;
    let chars = line.chars();
    for c in it: chars
        invariant
            it.seq() == line@,
            total == line@.len(),
            seen == it.index(),
            keep == trim_end(line@.take(it.index())).len(),
            keep <= seen,
    {
        proof {
            let k = it.index();
            assert(line@.take(k + 1).drop_last() == line@.take(k));
        }
        seen = seen + 1;
        if !is_whitespace(c) {
            keep = seen;
        }
    }
    assert(line@.take(line@.len() as int) == line@);
    keep
}

/// Removes the whitespace at the end of `line`.
pub fn trim_line(line: &str) -> (out: &str)
    ensures
        out@ == trim_end(line@),
{
    let keep: usize = trimmed_len(line);
    proof {
        lemma_trim_end_is_prefix(line@);
    }
    line.substring_char(0, keep)
}

/// Converts one line: expands its tabs and trims the whitespace at its end.
pub fn convert_line(line: &str, tab_size: usize) -> (out: String)
    requires
        tab_size >= 1,
    ensures
        out@ == converted_line(line@, tab_size as nat),
{
    let expanded = expand_line(line, tab_size);
    trim_line(expanded.as_str()).to_owned()
}

/// Splits a text into its lines.
pub fn split_lines(text: &str) -> (lines: Vec<String>)
    ensures
        views(lines@) == lines_of(text@),
{
    let mut lines: Vec<String> = Vec::new();
    let mut cur = String::new();
    // A carriage return that was read last and is not yet part of `cur`.
    let mut held_cr = false;
    let chars = text.chars();
    for c in it: chars
        invariant
            it.seq() == text@,
            views(lines@) == closed_lines(text@.take(it.index())),
            open_line(text@.take(it.index())) == if held_cr {
                cur@.push('\r')
            } else {
                cur@
            },
            !held_cr ==> without_cr(cur@) == cur@,
    {
        proof {
            let k = it.index();
            assert(text@.take(k + 1).drop_last() == text@.take(k));
        }
        if c == '\n' {
            let ghost before = views(lines@);
            let ghost line = cur@;
            assert(line.push('\r').drop_last() == line);
            lines.push(cur);
            assert(views(lines@) == before.push(line));
            cur = String::new();
            held_cr = false;
        } else if c == '\r' {
            if held_cr {
                cur.push('\r');
            }
            held_cr = true;
        } else {
            if held_cr {
                cur.push('\r');
                held_cr = false;
            }
            cur.push(c);
        }
    }
    assert(text@.take(text@.len() as int) == text@);
    if held_cr {
        cur.push('\r');
    }
    if !cur.as_str().is_empty() {
        let ghost before = views(lines@);
        let ghost line = cur@;
        lines.push(cur);
        assert(views(lines@) == before.push(line));
    }
    lines
}

/// Converts a whole text: every line has its tabs expanded with tab stops
/// every `tab_size` columns and its trailing whitespace trimmed; the lines
/// are joined with `"\n"`.
pub fn convert_text(text: &str, tab_size: usize) -> (out: String)
    requires
        tab_size >= 1,
    ensures
        out@ == converted_text(text@, tab_size as nat),
        forall|i: int| 0 <= i < out@.len() ==> out@[i] != '\t',
{
    proof {
        lemma_converted_text_has_no_tab(text@, tab_size as nat);
    }
    let lines = split_lines(text);
    let ghost target = converted_lines(lines_of(text@), tab_size as nat);
    let mut out = String::new();
    let mut i: usize = 0;
    while i < lines.len()
        invariant
            tab_size >= 1,
            i <= lines.len(),
            views(lines@) == lines_of(text@),
            target == converted_lines(lines_of(text@), tab_size as nat),
            out@ == joined(target.take(i as int)),
        decreases lines.len() - i,
    {
        let line = convert_line(lines[i].as_str(), tab_size);
        proof {
            assert(views(lines@)[i as int] == lines@[i as int]@);
            assert(target.take(i + 1).drop_last() == target.take(i as int));
            assert(target.take(i + 1).last() == line@);
            if i == 0 {
                assert(target.take(1)[0] == line@);
            }
        }
        if i > 0 {
            out.push('\n');
        }
        out.append(line.as_str());
        i = i + 1;
    }
    assert(target.take(lines.len() as int) == target);
    out
}

} // verus!
