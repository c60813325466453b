//! The tab expander: one line in, the same line with every tab replaced by
//! the spaces that reach the next tab stop.

use vstd::prelude::*;

verus! {

/// `n` space characters.
pub open spec fn spaces(n: nat) -> Seq<char> {
    Seq::new(n, |i: int| ' ')
}

/// The number of spaces a tab emits when it stands at column `col`:
/// the distance to the next multiple of `width`.
pub open spec fn tab_gap(col: nat, width: nat) -> nat {
    (width - col % width) as nat
}

/// The expansion of `line` with tab stops every `width` columns.
///
/// Columns count the characters already emitted, expanded spaces included.
/// A tab emits `tab_gap` spaces; any other character is copied and takes
/// one column.
pub open spec fn expand(line: Seq<char>, width: nat) -> Seq<char>
    decreases line.len(),
{
    if line.len() == 0 {
        Seq::empty()
    } else {
        let head = expand(line.drop_last(), width);
        if line.last() == '\t' {
            head + spaces(tab_gap(head.len(), width))
        } else {
            head.push(line.last())
        }
    }
}

/// One more character at the end of a line: a tab fills the gap to the next
/// stop, any other character is copied.
pub proof fn lemma_expand_push(line: Seq<char>, c: char, width: nat)
    ensures
        expand(line.push(c), width) == if c == '\t' {
            expand(line, width) + spaces(tab_gap(expand(line, width).len(), width))
        } else {
            expand(line, width).push(c)
        },
{
    assert(line.push(c).drop_last() == line);
}

/// The column at which the character of index `k` stands once everything
/// before it is expanded. For `k == line.len()` it is the width of the whole
/// expanded line.
pub open spec fn column(line: Seq<char>, k: int, width: nat) -> nat {
    expand(line.take(k), width).len()
}

/// A line without tabs expands to itself, whatever the tab width.
pub proof fn lemma_expand_without_tabs(line: Seq<char>, width: nat)
    requires
        forall|i: int| 0 <= i < line.len() ==> line[i] != '\t',
    ensures
        expand(line, width) == line,
    decreases line.len(),
{
    if line.len() > 0 {
        lemma_expand_without_tabs(line.drop_last(), width);
        assert(line.drop_last().push(line.last()) == line);
    }
}

/// No tab is left in an expanded line.
pub proof fn lemma_expand_leaves_no_tab(line: Seq<char>, width: nat)
    ensures
        forall|i: int| 0 <= i < expand(line, width).len() ==> expand(line, width)[i] != '\t',
    decreases line.len(),
{
    if line.len() > 0 {
        lemma_expand_leaves_no_tab(line.drop_last(), width);
        let head = expand(line.drop_last(), width);
        let whole = expand(line, width);
        assert forall|i: int| 0 <= i < whole.len() implies whole[i] != '\t' by {
            if i < head.len() {
                assert(whole[i] == head[i]);
            }
        }
    }
}

/// Expanding a prefix of a line gives a prefix of the expanded line: the
/// columns of `column` are positions in the expansion of the whole line.
pub proof fn lemma_expand_prefix(line: Seq<char>, k: int, width: nat)
    requires
        0 <= k <= line.len(),
    ensures
        column(line, k, width) <= expand(line, width).len(),
        expand(line, width).take(column(line, k, width) as int) == expand(line.take(k), width),
    decreases line.len(),
{
    if k == line.len() {
        assert(line.take(k) == line);
        assert(expand(line, width).take(expand(line, width).len() as int) == expand(line, width));
    } else {
        let shorter = line.drop_last();
        assert(shorter.take(k) == line.take(k));
        lemma_expand_prefix(shorter, k, width);
        let col = column(line, k, width) as int;
        assert(expand(line, width).take(col) == expand(shorter, width).take(col));
    }
}

/// The column right after an expanded tab is a multiple of the tab width.
pub proof fn lemma_tab_lands_on_stop(line: Seq<char>, k: int, width: nat)
    requires
        width >= 1,
        0 <= k < line.len(),
        line[k] == '\t',
    ensures
        column(line, k + 1, width) % width == 0,
{
    assert(line.take(k + 1) == line.take(k).push('\t'));
    lemma_expand_push(line.take(k), '\t', width);
    lemma_tab_reaches_stop(column(line, k, width), width);
}

/// A tab at column `col` becomes exactly `width - col % width` spaces, at
/// least one and at most `width`, and the next character stands right after
/// them.
pub proof fn lemma_tab_emits_gap(line: Seq<char>, k: int, width: nat)
    requires
        width >= 1,
        0 <= k < line.len(),
        line[k] == '\t',
    ensures
        ({
            let col = column(line, k, width) as int;
            let gap = width - col % (width as int);
            &&& 1 <= gap <= width
            &&& column(line, k + 1, width) == col + gap
            &&& col + gap <= expand(line, width).len()
            &&& expand(line, width).subrange(col, col + gap) == spaces(gap as nat)
        }),
{
    let col = column(line, k, width) as int;
    let gap = tab_gap(col as nat, width) as int;
    assert(line.take(k + 1) == line.take(k).push('\t'));
    lemma_expand_push(line.take(k), '\t', width);
    lemma_tab_reaches_stop(col as nat, width);
    lemma_expand_prefix(line, k + 1, width);
    let after = expand(line.take(k + 1), width);
    assert(after.subrange(col, col + gap) == spaces(gap as nat));
    assert(expand(line, width).take(col + gap).subrange(col, col + gap) == expand(
        line,
        width,
    ).subrange(col, col + gap));
}

/// A character other than a tab is copied unchanged and takes one column.
pub proof fn lemma_other_character_is_copied(line: Seq<char>, k: int, width: nat)
    requires
        0 <= k < line.len(),
        line[k] != '\t',
    ensures
        column(line, k + 1, width) == column(line, k, width) + 1,
        column(line, k, width) < expand(line, width).len(),
        expand(line, width)[column(line, k, width) as int] == line[k],
{
    let col = column(line, k, width) as int;
    assert(line.take(k + 1) == line.take(k).push(line[k]));
    lemma_expand_push(line.take(k), line[k], width);
    lemma_expand_prefix(line, k + 1, width);
    assert(expand(line, width).take(col + 1)[col] == expand(line, width)[col]);
}

/// The column after a tab is a tab stop.
proof fn lemma_tab_reaches_stop(col: nat, width: nat)
    requires
        width >= 1,
    ensures
        1 <= tab_gap(col, width) <= width,
        (col + tab_gap(col, width)) % width == 0,
{
    let c = col as int;
    let w = width as int;
    assert(0 <= c % w < w && (c + (w - c % w)) % w == 0) by (nonlinear_arith)
        requires
            c >= 0,
            w >= 1,
    ;
}

/// The column after an ordinary character, modulo the tab width.
proof fn lemma_column_step(col: nat, width: nat)
    requires
        width >= 1,
    ensures
        (col + 1) % width == if col % width + 1 == width {
            0
        } else {
            col % width + 1
        },
{
    let c = col as int;
    let w = width as int;
    assert((c + 1) % w == if c % w + 1 == w {
        0
    } else {
        c % w + 1
    }) by (nonlinear_arith)
        requires
            c >= 0,
            w >= 1,
    ;
}

/// Appends `n` spaces to `out`.
fn push_spaces(out: &mut String, n: usize)
    ensures
        final(out)@ == old(out)@ + spaces(n as nat),
{
    let mut i: usize = 0;
    while i < n
        invariant
            i <= n,
            out@ == old(out)@ + spaces(i as nat),
        decreases n - i,
    {
        out.push(' ');
        i = i + 1;
    }
}

/// Expands the tabs of one line.
pub fn expand_line(line: &str, tab_size: usize) -> (out: String)
    requires
        tab_size >= 1,
    ensures
        out@ == expand(line@, tab_size as nat),
        forall|i: int| 0 <= i < out@.len() ==> out@[i] != '\t',
{
    proof {
        lemma_expand_leaves_no_tab(line@, tab_size as nat);
    }
    let mut out = String::new();
    let mut col: usize = 0;
    let chars = line.chars();
    for c in it: chars
        invariant
            tab_size >= 1,
            it.seq() == line@,
            out@ == expand(line@.take(it.index()), tab_size as nat),
            col == out@.len() % (tab_size as nat),
    {
        proof {
            let k = it.index();
            assert(line@.take(k + 1) == line@.take(k).push(c));
            lemma_expand_push(line@.take(k), c, tab_size as nat);
            lemma_tab_reaches_stop(out@.len(), tab_size as nat);
            lemma_column_step(out@.len(), tab_size as nat);
        }
        if c == '\t' {
            let gap: usize = tab_size - col;
            push_spaces(&mut out, gap);
            col = 0;
        } else {
            out.push(c);
            col = if col + 1 == tab_size { 0 } else { col + 1 };
        }
    }
    assert(line@.take(line@.len() as int) == line@);
    out
}

} // verus!
