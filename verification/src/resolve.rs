//! The tab size resolver: which width applies to a file.
//!
//! An explicit width wins. Without one the file's extension, in lowercase,
//! is looked up in the configuration; a file without an extension uses the
//! default entry.

use vstd::prelude::*;

use crate::config::{default_key, lookup_tab_size, storage_key, Config};
use crate::strings::{lowercase, to_lowercase};

verus! {

/// The index of the last `c` in `s`, or -1 where `s` has none.
pub open spec fn last_index_of(s: Seq<char>, c: char) -> int
    decreases s.len(),
{
    if s.len() == 0 {
        -1
    } else if s.last() == c {
        s.len() - 1
    } else {
        last_index_of(s.drop_last(), c)
    }
}

/// The file name of a path: what follows its last `/`, or all of it.
pub open spec fn file_name(path: Seq<char>) -> Seq<char> {
    path.skip(last_index_of(path, '/') + 1)
}

/// The extension of a path: what follows the last `.` of its file name.
/// A file name without a `.` has none.
pub open spec fn extension(path: Seq<char>) -> Option<Seq<char>> {
    let name = file_name(path);
    let dot = last_index_of(name, '.');
    if dot < 0 {
        None
    } else {
        Some(name.skip(dot + 1))
    }
}

/// The key under which the width for `path` is looked up.
pub open spec fn lookup_key(path: Seq<char>) -> Seq<char> {
    match extension(path) {
        Some(e) => lowercase(e),
        None => default_key(),
    }
}

/// The width that applies to `path`: the explicit `tab_size` where there is
/// one, else what the table gives for the path's extension.
pub open spec fn effective_tab_size(
    path: Seq<char>,
    tab_size: Option<usize>,
    sizes: Map<Seq<char>, usize>,
) -> usize {
    match tab_size {
        Some(w) => w,
        None => lookup_tab_size(sizes, lookup_key(path)),
    }
}

/// `last_index_of` is the index of an occurrence, and no occurrence follows
/// it.
pub proof fn lemma_last_index_of(s: Seq<char>, c: char)
    ensures
        -1 <= last_index_of(s, c) < s.len(),
        last_index_of(s, c) >= 0 ==> s[last_index_of(s, c)] == c,
        forall|j: int| last_index_of(s, c) < j < s.len() ==> s[j] != c,
    decreases s.len(),
{
    if s.len() > 0 && s.last() != c {
        let shorter = s.drop_last();
        lemma_last_index_of(shorter, c);
        assert forall|j: int| last_index_of(s, c) < j < s.len() implies s[j] != c by {
            if j < shorter.len() {
                assert(shorter[j] != c);
            }
        }
    }
}

/// How one more character changes the extension: a `/` starts a new file
/// name, a `.` starts a new extension, anything else lengthens the
/// extension if there is one.
pub proof fn lemma_extension_push(path: Seq<char>, c: char)
    ensures
        extension(path.push(c)) == if c == '/' {
            None
        } else if c == '.' {
            Some(Seq::empty())
        } else {
            match extension(path) {
                Some(e) => Some(e.push(c)),
                None => None,
            }
        },
{
    let longer = path.push(c);
    assert(longer.drop_last() == path);
    lemma_last_index_of(path, '/');
    if c == '/' {
        assert(file_name(longer) == Seq::<char>::empty());
    } else {
        let name = file_name(path);
        assert(file_name(longer) == name.push(c));
        assert(name.push(c).drop_last() == name);
        lemma_last_index_of(name, '.');
        let dot = last_index_of(name, '.');
        if c == '.' {
            assert(name.push(c).skip(name.len() as int + 1) == Seq::<char>::empty());
        } else if dot >= 0 {
            assert(name.push(c).skip(dot + 1) == name.skip(dot + 1).push(c));
        }
    }
}

/// An explicit tab size is the one that applies, whatever the path and
/// whatever the table holds.
pub proof fn lemma_override_wins(path: Seq<char>, width: usize, sizes: Map<Seq<char>, usize>)
    ensures
        effective_tab_size(path, Some(width), sizes) == width,
{
}

/// Without an explicit tab size, a file whose extension has no entry gets
/// the default entry's width, and 4 where there is no default entry either.
pub proof fn lemma_unknown_extension_uses_default(path: Seq<char>, sizes: Map<Seq<char>, usize>)
    requires
        !sizes.contains_key(lookup_key(path)),
    ensures
        sizes.contains_key(default_key()) ==> effective_tab_size(path, None, sizes)
            == sizes[default_key()],
        !sizes.contains_key(default_key()) ==> effective_tab_size(path, None, sizes) == 4,
{
}

/// A width stored for an extension applies to every file with that
/// extension, however either of the two is capitalised.
pub proof fn lemma_stored_width_applies(
    sizes: Map<Seq<char>, usize>,
    stored: Seq<char>,
    width: usize,
    path: Seq<char>,
)
    requires
        extension(path) matches Some(e) && lowercase(e) == lowercase(stored),
    ensures
        effective_tab_size(path, None, sizes.insert(storage_key(Some(stored)), width)) == width,
{
}

/// The extension of `path`, if it has one.
pub fn extension_of(path: &str) -> (ext: Option<String>)
    ensures
        match ext {
            Some(e) => extension(path@) == Some(e@),
            None => extension(path@) is None,
        },
{
    let mut ext: Option<String> = None;
    let chars = path.chars();
    for c in it: chars
        invariant
            it.seq() == path@,
            match ext {
                Some(e) => extension(path@.take(it.index())) == Some(e@),
                None => extension(path@.take(it.index())) is None,
            },
    {
        proof {
            let k = it.index();
            assert(path@.take(k + 1) == path@.take(k).push(c));
            lemma_extension_push(path@.take(k), c);
        }
        if c == '/' {
            ext = None;
        } else if c == '.' {
            ext = Some(String::new());
        } else {
            ext = match ext {
                Some(mut e) => {
                    e.push(c);
                    Some(e)
                },
                None => None,
            };
        }
    }
    assert(path@.take(path@.len() as int) == path@);
    ext
}

/// Resolves the tab size for the file at `path`.
///
/// Returns the width that applies, or `None` where that width is zero: zero
/// is no tab width, and the resolver never hands it out. A configuration
/// holds no zero, so `None` comes exactly where the explicit tab size is
/// zero.
pub fn resolve_tab_size(path: &str, tab_size: Option<usize>, config: &Config) -> (r: Option<usize>)
    ensures
        r == if effective_tab_size(path@, tab_size, config@) >= 1 {
            Some(effective_tab_size(path@, tab_size, config@))
        } else {
            None
        },
        r is None <==> tab_size == Some(0usize),
{
    let width: usize = match tab_size {
        Some(w) => w,
        None => {
            let key = match extension_of(path) {
                Some(e) => to_lowercase(e.as_str()),
                None => "default".to_owned(),
            };
            *config.get_tab_size(key.as_str())
        },
    };
    if width >= 1 {
        Some(width)
    } else {
        None
    }
}

} // verus!
