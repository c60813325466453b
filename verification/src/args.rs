//! The command surface as plain data: what a run was asked to do.

use vstd::prelude::*;

verus! {

/// The arguments of one run.
pub struct Args {
    /// An absolute file path, or a wildcard pattern such as `*.sql`.
    pub file_path: String,
    /// The number of spaces per tab stop; overrides the configuration.
    pub tab_size: Option<usize>,
    /// The directory under which the pattern selects files.
    pub dir: Option<String>,
    /// A command to run in place of a conversion.
    pub cmd: Option<Command>,
}

/// The commands besides conversion.
pub enum Command {
    /// Manage the configuration.
    Config { action: ConfigAction },
}

/// What to do with the configuration.
pub enum ConfigAction {
    /// Show where the configuration file lies.
    Path,
    /// Show the configuration.
    Print,
    /// Put the built-in tab sizes back.
    Reset,
    /// Change a setting.
    Change { action: SetAction },
}

/// The settings that can be changed.
pub enum SetAction {
    /// The tab size of one extension, or the default one where no extension
    /// is named.
    TabSize { tab_size: usize, extension: Option<String> },
}

impl Clone for SetAction {
    fn clone(&self) -> (copy: Self)
        ensures
            copy == *self,
    {
        match self {
            SetAction::TabSize { tab_size, extension } => SetAction::TabSize {
                tab_size: *tab_size,
                extension: match extension {
                    Some(e) => Some(e.clone()),
                    None => None,
                },
            },
        }
    }
}

impl Clone for ConfigAction {
    fn clone(&self) -> (copy: Self)
        ensures
            copy == *self,
    {
        match self {
            ConfigAction::Path => ConfigAction::Path,
            ConfigAction::Print => ConfigAction::Print,
            ConfigAction::Reset => ConfigAction::Reset,
            ConfigAction::Change { action } => ConfigAction::Change { action: action.clone() },
        }
    }
}

impl Clone for Command {
    fn clone(&self) -> (copy: Self)
        ensures
            copy == *self,
    {
        match self {
            Command::Config { action } => Command::Config { action: action.clone() },
        }
    }
}

} // verus!
