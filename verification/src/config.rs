//! The configuration: a table from file extension to tab width, and the
//! place where it is kept.
//!
//! Keys are extensions in lowercase, or `"default"` for files without a
//! known extension. Every width in a configuration is at least one: a width
//! of zero is neither stored nor taken over from a loaded table. The library
//! never touches the disk: `entries` hands the table out for saving and
//! `from_entries` takes a loaded one in.

use vstd::prelude::*;
use vstd::string::StringExecFns;

use crate::args::{ConfigAction, SetAction};
use crate::strings::{lowercase, to_lowercase};

verus! {

/// The key of the width used where an extension has none of its own.
pub open spec fn default_key() -> Seq<char> {
    "default"@
}

/// The width used where the table has neither the extension nor a default.
pub const FALLBACK_TAB_SIZE: usize = 4;

/// The table a fresh configuration starts with.
pub open spec fn builtin_tab_sizes() -> Map<Seq<char>, usize> {
    Map::empty().insert("default"@, 4usize).insert("sql"@, 5usize).insert("xml"@, 2usize)
}

/// The width that `sizes` gives to `extension`: its own entry, else the
/// default entry, else `FALLBACK_TAB_SIZE`.
pub open spec fn lookup_tab_size(sizes: Map<Seq<char>, usize>, extension: Seq<char>) -> usize {
    if sizes.contains_key(extension) {
        sizes[extension]
    } else if sizes.contains_key(default_key()) {
        sizes[default_key()]
    } else {
        FALLBACK_TAB_SIZE
    }
}

/// The key under which the width of `extension` is stored: the extension in
/// lowercase, or the default key where none is named.
pub open spec fn storage_key(extension: Option<Seq<char>>) -> Seq<char> {
    match extension {
        Some(e) => lowercase(e),
        None => default_key(),
    }
}

/// The view of an optional string.
pub open spec fn option_view(s: Option<String>) -> Option<Seq<char>> {
    match s {
        Some(s) => Some(s@),
        None => None,
    }
}

/// The table after `action`.
pub open spec fn configured(sizes: Map<Seq<char>, usize>, action: ConfigAction) -> Map<
    Seq<char>,
    usize,
> {
    match action {
        ConfigAction::Path => sizes,
        ConfigAction::Print => sizes,
        ConfigAction::Reset => builtin_tab_sizes(),
        ConfigAction::Change { action: SetAction::TabSize { tab_size, extension } } => if tab_size
            >= 1 {
            sizes.insert(storage_key(option_view(extension)), tab_size)
        } else {
            sizes
        },
    }
}

/// Whether `action` changes the table, so that it has to be saved.
pub open spec fn changes_table(action: ConfigAction) -> bool {
    match action {
        ConfigAction::Path => false,
        ConfigAction::Print => false,
        ConfigAction::Reset => true,
        ConfigAction::Change { action: SetAction::TabSize { tab_size, extension } } => tab_size
            >= 1,
    }
}

/// The table holds no width of zero.
pub open spec fn positive_tab_sizes(sizes: Map<Seq<char>, usize>) -> bool {
    forall|k: Seq<char>| sizes.contains_key(k) ==> sizes[k] >= 1
}

/// A table is valid when it has a default entry and holds no width of zero.
pub open spec fn valid_tab_sizes(sizes: Map<Seq<char>, usize>) -> bool {
    &&& sizes.contains_key(default_key())
    &&& positive_tab_sizes(sizes)
}

/// The table that a list of entries stands for. Where a key occurs twice the
/// later entry counts.
pub open spec fn table_of(entries: Seq<(String, usize)>) -> Map<Seq<char>, usize>
    decreases entries.len(),
{
    if entries.len() == 0 {
        Map::empty()
    } else {
        table_of(entries.drop_last()).insert(entries.last().0@, entries.last().1)
    }
}

/// No key occurs twice in the list.
pub open spec fn distinct_keys(entries: Seq<(String, usize)>) -> bool {
    forall|i: int, j: int| 0 <= i < j < entries.len() ==> entries[i].0@ != entries[j].0@
}

/// No entry of the list has a width of zero.
pub open spec fn positive_widths(entries: Seq<(String, usize)>) -> bool {
    forall|i: int| 0 <= i < entries.len() ==> entries[i].1 >= 1
}

/// A list without a width of zero stands for a table without one.
pub proof fn lemma_positive_table(entries: Seq<(String, usize)>)
    requires
        positive_widths(entries),
    ensures
        positive_tab_sizes(table_of(entries)),
    decreases entries.len(),
{
    if entries.len() > 0 {
        let shorter = entries.drop_last();
        assert(positive_widths(shorter)) by {
            assert forall|i: int| 0 <= i < shorter.len() implies shorter[i].1 >= 1 by {
                assert(shorter[i] == entries[i]);
            }
        }
        lemma_positive_table(shorter);
        assert(entries[entries.len() - 1].1 >= 1);
    }
}

/// The keys of the table are the keys of the list.
pub proof fn lemma_table_keys(entries: Seq<(String, usize)>, key: Seq<char>)
    ensures
        table_of(entries).contains_key(key) <==> exists|i: int|
            0 <= i < entries.len() && entries[i].0@ == key,
    decreases entries.len(),
{
    if entries.len() > 0 {
        let shorter = entries.drop_last();
        lemma_table_keys(shorter, key);
        if table_of(entries).contains_key(key) {
            if entries.last().0@ == key {
                assert(entries[entries.len() - 1].0@ == key);
            } else {
                let i = choose|i: int| 0 <= i < shorter.len() && shorter[i].0@ == key;
                assert(entries[i].0@ == key);
            }
        }
        if exists|i: int| 0 <= i < entries.len() && entries[i].0@ == key {
            let i = choose|i: int| 0 <= i < entries.len() && entries[i].0@ == key;
            if i < shorter.len() {
                assert(shorter[i].0@ == key);
            }
        }
    }
}

/// In a list without repeated keys every entry is the table's entry.
pub proof fn lemma_table_entry(entries: Seq<(String, usize)>, i: int)
    requires
        distinct_keys(entries),
        0 <= i < entries.len(),
    ensures
        table_of(entries).contains_key(entries[i].0@),
        table_of(entries)[entries[i].0@] == entries[i].1,
    decreases entries.len(),
{
    let shorter = entries.drop_last();
    if i < entries.len() - 1 {
        assert(distinct_keys(shorter)) by {
            assert forall|a: int, b: int| 0 <= a < b < shorter.len() implies shorter[a].0@
                != shorter[b].0@ by {
                assert(entries[a].0@ != entries[b].0@);
            }
        }
        lemma_table_entry(shorter, i);
        assert(shorter[i] == entries[i]);
        assert(entries[i].0@ != entries[entries.len() - 1].0@);
    }
}

/// Replacing the width of entry `i` is an insertion into the table, and
/// leaves the keys distinct.
proof fn lemma_table_replace(entries: Seq<(String, usize)>, i: int, entry: (String, usize))
    requires
        distinct_keys(entries),
        0 <= i < entries.len(),
        entry.0@ == entries[i].0@,
    ensures
        distinct_keys(entries.update(i, entry)),
        table_of(entries.update(i, entry)) == table_of(entries).insert(entry.0@, entry.1),
    decreases entries.len(),
{
    let updated = entries.update(i, entry);
    assert forall|a: int, b: int| 0 <= a < b < updated.len() implies updated[a].0@
        != updated[b].0@ by {
        assert(entries[a].0@ != entries[b].0@);
    }
    let shorter = entries.drop_last();
    if i == entries.len() - 1 {
        assert(updated.drop_last() == shorter);
        assert(table_of(updated) == table_of(entries).insert(entry.0@, entry.1));
    } else {
        assert(distinct_keys(shorter)) by {
            assert forall|a: int, b: int| 0 <= a < b < shorter.len() implies shorter[a].0@
                != shorter[b].0@ by {
                assert(entries[a].0@ != entries[b].0@);
            }
        }
        lemma_table_replace(shorter, i, entry);
        assert(updated.drop_last() == shorter.update(i, entry));
        assert(updated.last() == entries.last());
        assert(entries[i].0@ != entries[entries.len() - 1].0@);
        assert(table_of(updated) == table_of(entries).insert(entry.0@, entry.1));
    }
}

/// The built-in table is valid.
pub proof fn lemma_builtin_is_valid()
    ensures
        valid_tab_sizes(builtin_tab_sizes()),
{
}

/// Storing a width of at least one keeps a table valid.
pub proof fn lemma_insert_keeps_valid(sizes: Map<Seq<char>, usize>, key: Seq<char>, width: usize)
    requires
        valid_tab_sizes(sizes),
        width >= 1,
    ensures
        valid_tab_sizes(sizes.insert(key, width)),
{
}

/// A valid table never gives a width of zero.
pub proof fn lemma_valid_lookup_is_positive(sizes: Map<Seq<char>, usize>, extension: Seq<char>)
    requires
        valid_tab_sizes(sizes),
    ensures
        lookup_tab_size(sizes, extension) >= 1,
{
}

/// An extension without an entry gets the default entry's width, and
/// `FALLBACK_TAB_SIZE` where there is no default entry either.
pub proof fn lemma_unknown_extension_falls_back(sizes: Map<Seq<char>, usize>, extension: Seq<char>)
    requires
        !sizes.contains_key(extension),
    ensures
        sizes.contains_key(default_key()) ==> lookup_tab_size(sizes, extension)
            == sizes[default_key()],
        !sizes.contains_key(default_key()) ==> lookup_tab_size(sizes, extension) == 4,
{
}

/// A width that was stored for an extension is the width looked up for it,
/// however the extension was capitalised when it was stored.
pub proof fn lemma_stored_width_is_found(
    sizes: Map<Seq<char>, usize>,
    extension: Seq<char>,
    width: usize,
)
    ensures
        lookup_tab_size(sizes.insert(storage_key(Some(extension)), width), lowercase(extension))
            == width,
{
}

/// The index of the entry for `key`, if there is one.
fn position(entries: &Vec<(String, usize)>, key: &String) -> (r: Option<usize>)
    ensures
        match r {
            Some(i) => i < entries@.len() && entries@[i as int].0@ == key@,
            None => forall|j: int| 0 <= j < entries@.len() ==> entries@[j].0@ != key@,
        },
{
    let mut i: usize = 0;
    while i < entries.len()
        invariant
            i <= entries@.len(),
            forall|j: int| 0 <= j < i ==> entries@[j].0@ != key@,
        decreases entries@.len() - i,
    {
        if entries[i].0 == *key {
            return Some(i);
        }
        i = i + 1;
    }
    None
}

/// A copy of the list.
fn copy_entries(entries: &Vec<(String, usize)>) -> (list: Vec<(String, usize)>)
    ensures
        list@ == entries@,
{
    let mut list: Vec<(String, usize)> = Vec::new();
    let mut i: usize = 0;
    while i < entries.len()
        invariant
            i <= entries@.len(),
            list@ == entries@.take(i as int),
        decreases entries@.len() - i,
    {
        list.push((entries[i].0.clone(), entries[i].1));
        assert(list@ == entries@.take(i + 1));
        i = i + 1;
    }
    assert(entries@.take(entries@.len() as int) == entries@);
    list
}

/// Stores `width` under `key`: in the entry that has the key, or in a new
/// one at the end.
fn put_entry(entries: &mut Vec<(String, usize)>, key: String, width: usize)
    requires
        distinct_keys(old(entries)@),
        positive_widths(old(entries)@),
        width >= 1,
    ensures
        distinct_keys(final(entries)@),
        positive_widths(final(entries)@),
        table_of(final(entries)@) == table_of(old(entries)@).insert(key@, width),
{
    match position(entries, &key) {
        Some(i) => {
            proof {
                lemma_table_replace(entries@, i as int, (key, width));
            }
            entries.set(i, (key, width));
        },
        None => {
            entries.push((key, width));
            assert(entries@.drop_last() == old(entries)@);
        },
    }
    assert forall|j: int| 0 <= j < entries@.len() implies entries@[j].1 >= 1 by {
        if j < old(entries)@.len() && entries@[j] != (key, width) {
            assert(entries@[j] == old(entries)@[j]);
        }
    }
}

/// The tab widths by extension, and the path of the file that holds them.
pub struct Config {
    config_path: String,
    tab_sizes: Vec<(String, usize)>,
}

impl View for Config {
    type V = Map<Seq<char>, usize>;

    closed spec fn view(&self) -> Map<Seq<char>, usize> {
        table_of(self.tab_sizes@)
    }
}

impl Clone for Config {
    fn clone(&self) -> (copy: Self)
        ensures
            copy@ == self@,
            copy.path() == self.path(),
    {
        proof {
            use_type_invariant(self);
        }
        Config { config_path: self.config_path.clone(), tab_sizes: copy_entries(&self.tab_sizes) }
    }
}

impl Config {
    #[verifier::type_invariant]
    spec fn well_formed(&self) -> bool {
        distinct_keys(self.tab_sizes@) && positive_widths(self.tab_sizes@)
    }

    /// The path of the configuration file.
    pub closed spec fn path(&self) -> Seq<char> {
        self.config_path@
    }

    /// A configuration with the built-in tab sizes, kept at `config_path`.
    pub fn with_defaults(config_path: String) -> (config: Config)
        ensures
            config@ == builtin_tab_sizes(),
            config.path() == config_path@,
            valid_tab_sizes(config@),
    {
        let mut tab_sizes: Vec<(String, usize)> = Vec::new();
        tab_sizes.push(("default".to_owned(), 4));
        tab_sizes.push(("sql".to_owned(), 5));
        tab_sizes.push(("xml".to_owned(), 2));
        proof {
            reveal_strlit("default");
            reveal_strlit("sql");
            reveal_strlit("xml");
            reveal_with_fuel(table_of, 4);
            assert(tab_sizes@.drop_last().drop_last().drop_last().len() == 0);
            assert("default"@.len() == 7 && "sql"@.len() == 3);
            assert("sql"@[0] == 's' && "xml"@[0] == 'x');
        }
        Config { config_path, tab_sizes }
    }

    /// The path of the configuration file.
    pub fn config_path(&self) -> (p: &str)
        ensures
            p@ == self.path(),
    {
        self.config_path.as_str()
    }

    /// The tab size for `extension`: its own, else the default one, else
    /// `FALLBACK_TAB_SIZE`. The extension is looked up as it is written. The
    /// result is never zero.
    pub fn get_tab_size(&self, extension: &str) -> (w: &usize)
        ensures
            *w == lookup_tab_size(self@, extension@),
            *w >= 1,
    {
        proof {
            use_type_invariant(self);
            lemma_positive_table(self.tab_sizes@);
            lemma_table_keys(self.tab_sizes@, extension@);
            lemma_table_keys(self.tab_sizes@, default_key());
        }
        match position(&self.tab_sizes, &extension.to_owned()) {
            Some(i) => {
                proof {
                    lemma_table_entry(self.tab_sizes@, i as int);
                }
                &self.tab_sizes[i].1
            },
            None => match position(&self.tab_sizes, &"default".to_owned()) {
                Some(i) => {
                    proof {
                        lemma_table_entry(self.tab_sizes@, i as int);
                    }
                    &self.tab_sizes[i].1
                },
                None => &FALLBACK_TAB_SIZE,
            },
        }
    }

    /// Stores `tab_size` for `extension`, in lowercase, or as the default
    /// where no extension is named. Every other entry stays as it is.
    ///
    /// A tab size of zero is not stored: the table stays as it is and the
    /// result is `false`.
    pub fn set_tab_size(&mut self, tab_size: &usize, extension: Option<&str>) -> (stored: bool)
        ensures
            final(self).path() == old(self).path(),
            stored == (*tab_size >= 1),
            *tab_size >= 1 ==> final(self)@ == old(self)@.insert(
                storage_key(
                    match extension {
                        Some(e) => Some(e@),
                        None => None,
                    },
                ),
                *tab_size,
            ),
            *tab_size == 0 ==> final(self)@ == old(self)@,
            positive_tab_sizes(final(self)@),
            valid_tab_sizes(old(self)@) ==> valid_tab_sizes(final(self)@),
    {
        if *tab_size == 0 {
            proof {
                use_type_invariant(&*self);
                lemma_positive_table(self.tab_sizes@);
            }
            return false;
        }
        let key = match extension {
            Some(e) => to_lowercase(e),
            None => "default".to_owned(),
        };
        self.put(key, *tab_size);
        true
    }

    /// Puts the built-in tab sizes back. The path stays.
    pub fn reset(&mut self)
        ensures
            final(self).path() == old(self).path(),
            final(self)@ == builtin_tab_sizes(),
            valid_tab_sizes(final(self)@),
    {
        let fresh = Config::with_defaults(String::new());
        proof {
            use_type_invariant(&fresh);
        }
        self.tab_sizes = fresh.tab_sizes;
    }

    /// Carries out a configuration command on the table and tells whether
    /// the table has to be saved afterwards. Showing the path or the table
    /// changes nothing, and neither does setting a tab size of zero, which
    /// is refused.
    pub fn apply(&mut self, action: &ConfigAction) -> (save: bool)
        ensures
            final(self).path() == old(self).path(),
            final(self)@ == configured(old(self)@, *action),
            save == changes_table(*action),
            positive_tab_sizes(final(self)@),
            valid_tab_sizes(old(self)@) ==> valid_tab_sizes(final(self)@),
    {
        match action {
            ConfigAction::Path => {
                proof {
                    use_type_invariant(&*self);
                    lemma_positive_table(self.tab_sizes@);
                }
                false
            },
            ConfigAction::Print => {
                proof {
                    use_type_invariant(&*self);
                    lemma_positive_table(self.tab_sizes@);
                }
                false
            },
            ConfigAction::Reset => {
                self.reset();
                true
            },
            ConfigAction::Change { action: SetAction::TabSize { tab_size, extension } } => {
                match extension {
                    Some(e) => self.set_tab_size(tab_size, Some(e.as_str())),
                    None => self.set_tab_size(tab_size, None),
                }
            },
        }
    }

    /// The table as a list, each key once and no width of zero, for saving.
    pub fn entries(&self) -> (list: Vec<(String, usize)>)
        ensures
            table_of(list@) == self@,
            distinct_keys(list@),
            positive_widths(list@),
    {
        proof {
            use_type_invariant(self);
        }
        copy_entries(&self.tab_sizes)
    }

    /// The configuration kept at `config_path` that holds `entries`, or
    /// `None` where an entry has a width of zero: such a list is no
    /// configuration. Where a key occurs twice the later entry counts. Keys
    /// are taken as they are.
    pub fn from_entries(config_path: String, entries: Vec<(String, usize)>) -> (config: Option<
        Config,
    >)
        ensures
            match config {
                Some(c) => {
                    &&& c.path() == config_path@
                    &&& c@ == table_of(entries@)
                    &&& positive_widths(entries@)
                    &&& positive_tab_sizes(c@)
                },
                None => exists|i: int| 0 <= i < entries@.len() && entries@[i].1 == 0,
            },
    {
        let mut config = Config { config_path, tab_sizes: Vec::new() };
        let mut i: usize = 0;
        while i < entries.len()
            invariant
                i <= entries@.len(),
                config.path() == config_path@,
                config@ == table_of(entries@.take(i as int)),
                forall|j: int| 0 <= j < i ==> entries@[j].1 >= 1,
            decreases entries@.len() - i,
        {
            let width: usize = entries[i].1;
            if width == 0 {
                assert(entries@[i as int].1 == 0);
                return None;
            }
            let key = entries[i].0.clone();
            config.put(key, width);
            assert(entries@.take(i + 1).drop_last() == entries@.take(i as int));
            i = i + 1;
        }
        assert(entries@.take(entries@.len() as int) == entries@);
        proof {
            lemma_positive_table(entries@);
        }
        Some(config)
    }

    /// A configuration with the built-in tab sizes, kept at the default
    /// path, or `None` where the platform names no configuration directory.
    pub fn at_default_path() -> (config: Option<Config>)
        ensures
            config matches Some(c) ==> c@ == builtin_tab_sizes() && exists|dir: Seq<char>|
                c.path() == config_file_under(dir),
    {
        // Whether there is a default path is the platform's to say.
        let path = ConfigDefaults::config_path();
        let config = Config::with_defaults_at(path);
        config
    }

    /// Stores `width` under `key` as it is written.
    fn put(&mut self, key: String, width: usize)
        requires
            width >= 1,
        ensures
            final(self).path() == old(self).path(),
            final(self)@ == old(self)@.insert(key@, width),
            positive_tab_sizes(final(self)@),
    {
        proof {
            use_type_invariant(&*self);
        }
        let mut entries: Vec<(String, usize)> = Vec::new();
        std::mem::swap(&mut self.tab_sizes, &mut entries);
        put_entry(&mut entries, key, width);
        proof {
            lemma_positive_table(entries@);
        }
        self.tab_sizes = entries;
    }
}

/// The configuration file below the configuration directory `dir`:
/// `untabify/config.json`, joined to `dir` by a `/` unless `dir` is empty or
/// ends in one already.
pub open spec fn config_file_under(dir: Seq<char>) -> Seq<char> {
    if dir.len() == 0 || dir.last() == '/' {
        dir + "untabify/config.json"@
    } else {
        dir.push('/') + "untabify/config.json"@
    }
}

/// Calls `dirs::config_dir`, which finds the user's configuration directory
/// from the variables and the user database of the running process. Nothing
/// is claimed of the result: it can differ from one call to the next, and it
/// is `None` where the platform knows no such directory or its name is not
/// valid Unicode.
#[verifier::external_body]
fn user_config_dir() -> (dir: Option<String>) {
    match dirs::config_dir() {
        Some(path) => path.into_os_string().into_string().ok(),
        None => None,
    }
}

/// Where the configuration is kept when nothing else is said.
pub struct ConfigDefaults;

impl ConfigDefaults {
    /// The path of the configuration file below the directory `dir`.
    pub fn config_path_under(dir: &str) -> (path: String)
        ensures
            path@ == config_file_under(dir@),
    {
        // Whether `dir` ends in a character other than `/`.
        let mut open = false;
        let chars = dir.chars();
        for c in it: chars
            invariant
                it.seq() == dir@,
                open == (it.index() > 0 && dir@[it.index() - 1] != '/'),
        {
            open = c != '/';
        }
        let mut path = dir.to_owned();
        if open {
            path.push('/');
        }
        path.append("untabify/config.json");
        path
    }

    /// The path of the configuration file below the user's configuration
    /// directory, or `None` where the platform names no such directory.
    pub fn config_path() -> (path: Option<String>)
        ensures
            path matches Some(p) ==> exists|dir: Seq<char>| p@ == config_file_under(dir),
    {
        ConfigDefaults::config_path_from(user_config_dir())
    }

    /// The path of the configuration file, given the user's configuration
    /// directory: below that directory, or `None` where there is none.
    pub fn config_path_from(dir: Option<String>) -> (path: Option<String>)
        ensures
            option_view(path) == default_config_path(option_view(dir)),
    {
        match dir {
            Some(dir) => Some(ConfigDefaults::config_path_under(dir.as_str())),
            None => None,
        }
    }
}

/// The default path of the configuration file, given the user's
/// configuration directory if the platform names one.
pub open spec fn default_config_path(dir: Option<Seq<char>>) -> Option<Seq<char>> {
    match dir {
        Some(dir) => Some(config_file_under(dir)),
        None => None,
    }
}

impl Config {
    /// A configuration with the built-in tab sizes, kept at `path`, or
    /// `None` where there is no path to keep it at.
    pub fn with_defaults_at(path: Option<String>) -> (config: Option<Config>)
        ensures
            match path {
                Some(p) => config matches Some(c) && c@ == builtin_tab_sizes() && c.path() == p@,
                None => config is None,
            },
    {
        match path {
            Some(path) => Some(Config::with_defaults(path)),
            None => None,
        }
    }
}

} // verus!
