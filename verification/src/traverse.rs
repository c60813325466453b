//! The traverser's decisions: what a run does with its arguments, and which
//! of the entries met under a directory are converted.
//!
//! Walking the tree, reading and writing are the caller's. The caller hands
//! in what it found; the rules are here.

use vstd::prelude::*;

use crate::args::Args;
use crate::pattern::{glob_matches, glob_syntax_ok, parse_pattern, pattern_text};
use crate::text::views;

verus! {

/// One entry met while walking a directory tree.
pub struct Entry {
    /// The full path of the entry, as the walk gives it.
    pub path: String,
    /// Whether the entry is a regular file; false for directories, symbolic
    /// links and special files.
    pub is_file: bool,
}

/// Whether an entry is converted: it is a regular file, and the pattern, if
/// there is one, matches its full path.
pub open spec fn is_selected(entry: Entry, pattern: Option<Seq<char>>) -> bool {
    entry.is_file && match pattern {
        Some(text) => glob_matches(text, entry.path@),
        None => true,
    }
}

/// The paths to convert among `entries`, in the order of the walk.
pub open spec fn selected(entries: Seq<Entry>, pattern: Option<Seq<char>>) -> Seq<Seq<char>>
    decreases entries.len(),
{
    if entries.len() == 0 {
        Seq::empty()
    } else {
        let head = selected(entries.drop_last(), pattern);
        if is_selected(entries.last(), pattern) {
            head.push(entries.last().path@)
        } else {
            head
        }
    }
}

/// The text of an optional pattern.
pub open spec fn pattern_view(pattern: Option<&glob::Pattern>) -> Option<Seq<char>> {
    match pattern {
        Some(p) => Some(pattern_text(*p)),
        None => None,
    }
}

/// Selecting from two walks one after the other gives the first selection
/// followed by the second: every entry is judged alone, and the order of
/// the walk is kept.
pub proof fn lemma_selected_concat(a: Seq<Entry>, b: Seq<Entry>, pattern: Option<Seq<char>>)
    ensures
        selected(a + b, pattern) == selected(a, pattern) + selected(b, pattern),
    decreases b.len(),
{
    if b.len() == 0 {
        assert(a + b == a);
    } else {
        lemma_selected_concat(a, b.drop_last(), pattern);
        assert((a + b).drop_last() == a + b.drop_last());
    }
}

/// A path is selected exactly if it is the path of a selected entry.
pub proof fn lemma_selected_paths(entries: Seq<Entry>, pattern: Option<Seq<char>>, path: Seq<char>)
    ensures
        selected(entries, pattern).contains(path) <==> exists|i: int|
            0 <= i < entries.len() && is_selected(entries[i], pattern) && entries[i].path@ == path,
    decreases entries.len(),
{
    if entries.len() > 0 {
        let shorter = entries.drop_last();
        let head = selected(shorter, pattern);
        let last = entries.last();
        lemma_selected_paths(shorter, pattern, path);
        if selected(entries, pattern).contains(path) {
            if head.contains(path) {
                let i = choose|i: int|
                    0 <= i < shorter.len() && is_selected(shorter[i], pattern) && shorter[i].path@
                        == path;
                assert(is_selected(entries[i], pattern) && entries[i].path@ == path);
            } else {
                let j = choose|j: int|
                    0 <= j < selected(entries, pattern).len() && selected(entries, pattern)[j]
                        == path;
                assert(j == head.len());
                assert(is_selected(entries[entries.len() - 1], pattern) && entries[entries.len()
                    - 1].path@ == path);
            }
        }
        if exists|i: int|
            0 <= i < entries.len() && is_selected(entries[i], pattern) && entries[i].path@ == path {
            let i = choose|i: int|
                0 <= i < entries.len() && is_selected(entries[i], pattern) && entries[i].path@
                    == path;
            if i < shorter.len() {
                assert(is_selected(shorter[i], pattern) && shorter[i].path@ == path);
                let j = choose|j: int| 0 <= j < head.len() && head[j] == path;
                assert(selected(entries, pattern)[j] == path);
            } else {
                assert(selected(entries, pattern)[head.len() as int] == path);
            }
        }
    }
}

/// Without a pattern every regular file is selected.
pub proof fn lemma_no_pattern_selects_every_file(entries: Seq<Entry>, i: int)
    requires
        0 <= i < entries.len(),
        entries[i].is_file,
    ensures
        selected(entries, None).contains(entries[i].path@),
{
    lemma_selected_paths(entries, None, entries[i].path@);
}

/// Picks the files to convert: the regular files among `entries` whose full
/// path matches `pattern`, or all regular files where there is no pattern.
/// The order of `entries` is kept.
pub fn select_files(entries: &Vec<Entry>, pattern: Option<&glob::Pattern>) -> (paths: Vec<String>)
    ensures
        views(paths@) == selected(entries@, pattern_view(pattern)),
{
    let mut paths: Vec<String> = Vec::new();
    let mut i: usize = 0;
    while i < entries.len()
        invariant
            i <= entries@.len(),
            views(paths@) == selected(entries@.take(i as int), pattern_view(pattern)),
        decreases entries@.len() - i,
    {
        let entry = &entries[i];
        let keep = entry.is_file && match pattern {
            Some(p) => p.matches(entry.path.as_str()),
            None => true,
        };
        proof {
            assert(entries@.take(i + 1).drop_last() == entries@.take(i as int));
            assert(entries@.take(i + 1).last() == *entry);
        }
        if keep {
            let ghost before = views(paths@);
            paths.push(entry.path.clone());
            assert(views(paths@) == before.push(entry.path@));
        }
        i = i + 1;
    }
    assert(entries@.take(entries@.len() as int) == entries@);
    paths
}

/// What the caller found out about the arguments before planning.
pub struct Probe {
    /// Whether `dir` names a directory. Of no account where no `dir` is given.
    pub dir_is_directory: bool,
    /// Whether `file_path` is an absolute path.
    pub file_is_absolute: bool,
    /// Whether something exists at `file_path`.
    pub file_exists: bool,
}

/// What a conversion run does.
pub enum Plan {
    /// `dir` is no directory: report it and do nothing else.
    NotADirectory { dir: String },
    /// Nothing exists at the absolute path: report it and do nothing else.
    MissingFile { path: String },
    /// Convert the one file at the path. No pattern applies.
    ConvertFile { path: String },
    /// The pattern does not compile: stop before any file is touched.
    BadPattern { text: String },
    /// Walk the tree under `root` and convert what `select_files` picks
    /// with `pattern`.
    Walk { root: String, pattern: glob::Pattern },
}

/// A plan as plain values; a compiled pattern stands as its text.
pub enum PlanView {
    NotADirectory { dir: Seq<char> },
    MissingFile { path: Seq<char> },
    ConvertFile { path: Seq<char> },
    BadPattern { text: Seq<char> },
    Walk { root: Seq<char>, pattern: Seq<char> },
}

impl View for Plan {
    type V = PlanView;

    open spec fn view(&self) -> PlanView {
        match *self {
            Plan::NotADirectory { dir } => PlanView::NotADirectory { dir: dir@ },
            Plan::MissingFile { path } => PlanView::MissingFile { path: path@ },
            Plan::ConvertFile { path } => PlanView::ConvertFile { path: path@ },
            Plan::BadPattern { text } => PlanView::BadPattern { text: text@ },
            Plan::Walk { root, pattern } => PlanView::Walk {
                root: root@,
                pattern: pattern_text(pattern),
            },
        }
    }
}

/// The directory a walk starts from: `dir`, or the current directory.
pub open spec fn walk_root(dir: Option<String>) -> Seq<char> {
    match dir {
        Some(d) => d@,
        None => "."@,
    }
}

/// Whether `file_path` names a single file and not a pattern: an absolute
/// path does, and so does a relative path at which something exists when no
/// `dir` is given.
pub open spec fn names_single_file(args: Args, probe: Probe) -> bool {
    probe.file_is_absolute || (args.dir is None && probe.file_exists)
}

/// The plan for `args`, given what `probe` says of them.
///
/// A `dir` that is no directory ends the run. Otherwise `file_path` names a
/// single file where it is absolute, or where no `dir` is given and
/// something exists at it; the file is converted if it exists. Any other
/// `file_path` is a pattern for a walk from `dir`.
pub open spec fn planned(args: Args, probe: Probe) -> PlanView {
    if args.dir is Some && !probe.dir_is_directory {
        PlanView::NotADirectory { dir: args.dir->0@ }
    } else if names_single_file(args, probe) {
        if probe.file_exists {
            PlanView::ConvertFile { path: args.file_path@ }
        } else {
            PlanView::MissingFile { path: args.file_path@ }
        }
    } else if glob_syntax_ok(args.file_path@) {
        PlanView::Walk { root: walk_root(args.dir), pattern: args.file_path@ }
    } else {
        PlanView::BadPattern { text: args.file_path@ }
    }
}

/// Decides what a conversion run does.
pub fn plan_run(args: &Args, probe: &Probe) -> (plan: Plan)
    ensures
        plan@ == planned(*args, *probe),
{
    let root = match &args.dir {
        Some(dir) => {
            if !probe.dir_is_directory {
                return Plan::NotADirectory { dir: dir.clone() };
            }
            dir.clone()
        },
        None => ".".to_owned(),
    };
    if probe.file_is_absolute || (args.dir.is_none() && probe.file_exists) {
        if probe.file_exists {
            Plan::ConvertFile { path: args.file_path.clone() }
        } else {
            Plan::MissingFile { path: args.file_path.clone() }
        }
    } else {
        match parse_pattern(args.file_path.as_str()) {
            Ok(pattern) => Plan::Walk { root, pattern },
            Err(e) => Plan::BadPattern { text: e.pattern },
        }
    }
}

} // verus!
