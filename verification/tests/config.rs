use untabify::args::{ConfigAction, SetAction};
use untabify::config::{Config, ConfigDefaults};
use untabify::resolve::{extension_of, resolve_tab_size};

fn sorted_entries(config: &Config) -> Vec<(String, usize)> {
    let mut entries = config.entries();
    entries.sort();
    entries
}

fn builtin() -> Vec<(String, usize)> {
    vec![("default".to_string(), 4), ("sql".to_string(), 5), ("xml".to_string(), 2)]
}

#[test]
fn fresh_configuration_has_the_built_in_sizes() {
    let config = Config::with_defaults("cfg.json".to_string());
    assert_eq!(config.config_path(), "cfg.json");
    assert_eq!(sorted_entries(&config), builtin());
    assert_eq!(*config.get_tab_size("default"), 4);
    assert_eq!(*config.get_tab_size("sql"), 5);
    assert_eq!(*config.get_tab_size("xml"), 2);
}

#[test]
fn reset_restores_the_built_in_sizes() {
    let mut config = Config::with_defaults("cfg.json".to_string());
    config.set_tab_size(&8, Some("py"));
    config.set_tab_size(&3, Some("sql"));
    config.set_tab_size(&6, None);
    assert_ne!(sorted_entries(&config), builtin());
    let save = config.apply(&ConfigAction::Reset);
    assert!(save);
    assert_eq!(sorted_entries(&config), builtin());
    assert_eq!(config.config_path(), "cfg.json");
}

#[test]
fn reset_method_restores_the_built_in_sizes() {
    let mut config = Config::from_entries("p".to_string(), vec![("rs".to_string(), 9)]).unwrap();
    config.reset();
    assert_eq!(sorted_entries(&config), builtin());
    assert_eq!(config.config_path(), "p");
}

#[test]
fn extension_is_matched_without_regard_to_case() {
    let mut config = Config::with_defaults("cfg.json".to_string());
    config.set_tab_size(&8, Some("py"));
    assert_eq!(resolve_tab_size("foo.PY", None, &config), Some(8));
    assert_eq!(resolve_tab_size("foo.Py", None, &config), Some(8));
    assert_eq!(resolve_tab_size("foo.py", None, &config), Some(8));
}

#[test]
fn stored_extension_is_lowercased() {
    let mut config = Config::with_defaults("cfg.json".to_string());
    config.set_tab_size(&8, Some("PY"));
    assert_eq!(*config.get_tab_size("py"), 8);
    // Looked up as written: "PY" has no entry of its own.
    assert_eq!(*config.get_tab_size("PY"), 4);
    assert_eq!(resolve_tab_size("dir/Script.pY", None, &config), Some(8));
    assert!(sorted_entries(&config).contains(&("py".to_string(), 8)));
}

#[test]
fn explicit_tab_size_wins() {
    let config = Config::with_defaults("cfg.json".to_string());
    assert_eq!(resolve_tab_size("x.sql", Some(3), &config), Some(3));
    assert_eq!(resolve_tab_size("x.xml", Some(3), &config), Some(3));
    assert_eq!(resolve_tab_size("x.unknown", Some(3), &config), Some(3));
    assert_eq!(resolve_tab_size("noextension", Some(3), &config), Some(3));
}

#[test]
fn configured_sizes_apply_without_an_explicit_one() {
    let config = Config::with_defaults("cfg.json".to_string());
    assert_eq!(resolve_tab_size("x.sql", None, &config), Some(5));
    assert_eq!(resolve_tab_size("dir/y.xml", None, &config), Some(2));
}

#[test]
fn unknown_extension_falls_back_to_default() {
    let mut config = Config::with_defaults("cfg.json".to_string());
    assert_eq!(resolve_tab_size("a.txt", None, &config), Some(4));
    assert_eq!(resolve_tab_size("Makefile", None, &config), Some(4));
    config.set_tab_size(&7, None);
    assert_eq!(resolve_tab_size("a.txt", None, &config), Some(7));
    assert_eq!(resolve_tab_size("Makefile", None, &config), Some(7));
    assert_eq!(*config.get_tab_size("txt"), 7);
}

#[test]
fn missing_default_falls_back_to_four() {
    let config =
        Config::from_entries("cfg.json".to_string(), vec![("sql".to_string(), 5)]).unwrap();
    assert_eq!(*config.get_tab_size("txt"), 4);
    assert_eq!(resolve_tab_size("a.txt", None, &config), Some(4));
    assert_eq!(resolve_tab_size("Makefile", None, &config), Some(4));
    assert_eq!(resolve_tab_size("a.sql", None, &config), Some(5));
    let empty = Config::from_entries("cfg.json".to_string(), Vec::new()).unwrap();
    assert_eq!(resolve_tab_size("a.sql", None, &empty), Some(4));
}

#[test]
fn zero_is_never_resolved() {
    let config = Config::with_defaults("cfg.json".to_string());
    assert_eq!(resolve_tab_size("a.sql", Some(0), &config), None);
    assert_eq!(resolve_tab_size("Makefile", Some(0), &config), None);
    assert_eq!(resolve_tab_size("a.sql", Some(1), &config), Some(1));
    assert_eq!(resolve_tab_size("a.sql", None, &config), Some(5));
}

#[test]
fn zero_is_never_stored() {
    let mut config = Config::with_defaults("cfg.json".to_string());
    assert!(!config.set_tab_size(&0, Some("sql")));
    assert!(!config.set_tab_size(&0, Some("py")));
    assert!(!config.set_tab_size(&0, None));
    assert_eq!(sorted_entries(&config), builtin());
    assert_eq!(resolve_tab_size("a.sql", None, &config), Some(5));
    assert_eq!(resolve_tab_size("a.py", None, &config), Some(4));
    assert!(config.set_tab_size(&1, Some("sql")));
    assert_eq!(*config.get_tab_size("sql"), 1);
}

#[test]
fn command_to_store_zero_changes_nothing() {
    let mut config = Config::with_defaults("cfg.json".to_string());
    let zero = ConfigAction::Change {
        action: SetAction::TabSize { tab_size: 0, extension: Some("sql".to_string()) },
    };
    assert!(!config.apply(&zero));
    let zero_default =
        ConfigAction::Change { action: SetAction::TabSize { tab_size: 0, extension: None } };
    assert!(!config.apply(&zero_default));
    assert_eq!(sorted_entries(&config), builtin());
}

#[test]
fn loaded_table_with_a_zero_is_refused() {
    assert!(Config::from_entries("cfg.json".to_string(), vec![("sql".to_string(), 0)]).is_none());
    let entries = vec![("default".to_string(), 4), ("sql".to_string(), 0), ("xml".to_string(), 2)];
    assert!(Config::from_entries("cfg.json".to_string(), entries).is_none());
    // A zero counts even where a later entry has the same key.
    let entries = vec![("sql".to_string(), 0), ("sql".to_string(), 3)];
    assert!(Config::from_entries("cfg.json".to_string(), entries).is_none());
    let entries = vec![("default".to_string(), 1)];
    assert!(Config::from_entries("cfg.json".to_string(), entries).is_some());
}

#[test]
fn every_width_handed_out_is_positive() {
    let mut config = Config::with_defaults("cfg.json".to_string());
    config.set_tab_size(&0, Some("rs"));
    config.set_tab_size(&3, Some("rs"));
    for (_, width) in config.entries() {
        assert!(width >= 1);
    }
    for extension in ["rs", "sql", "xml", "default", "unknown", ""] {
        assert!(*config.get_tab_size(extension) >= 1);
    }
}

#[test]
fn set_replaces_and_adds() {
    let mut config = Config::with_defaults("cfg.json".to_string());
    config.set_tab_size(&3, Some("sql"));
    config.set_tab_size(&8, Some("py"));
    assert_eq!(
        sorted_entries(&config),
        vec![
            ("default".to_string(), 4),
            ("py".to_string(), 8),
            ("sql".to_string(), 3),
            ("xml".to_string(), 2)
        ]
    );
}

#[test]
fn apply_follows_the_command() {
    let mut config = Config::with_defaults("cfg.json".to_string());
    assert!(!config.apply(&ConfigAction::Path));
    assert!(!config.apply(&ConfigAction::Print));
    assert_eq!(sorted_entries(&config), builtin());
    let set = ConfigAction::Change {
        action: SetAction::TabSize { tab_size: 8, extension: Some("Py".to_string()) },
    };
    assert!(config.apply(&set));
    assert_eq!(*config.get_tab_size("py"), 8);
    let set_default =
        ConfigAction::Change { action: SetAction::TabSize { tab_size: 6, extension: None } };
    assert!(config.apply(&set_default));
    assert_eq!(*config.get_tab_size("default"), 6);
    assert_eq!(*config.get_tab_size("nothing"), 6);
}

#[test]
fn later_entries_override_earlier_ones() {
    let config = Config::from_entries(
        "cfg.json".to_string(),
        vec![("a".to_string(), 1), ("b".to_string(), 2), ("a".to_string(), 3)],
    )
    .unwrap();
    assert_eq!(sorted_entries(&config), vec![("a".to_string(), 3), ("b".to_string(), 2)]);
    assert_eq!(*config.get_tab_size("a"), 3);
}

#[test]
fn entries_round_trip() {
    let mut config = Config::with_defaults("cfg.json".to_string());
    config.set_tab_size(&8, Some("py"));
    let again =
        Config::from_entries(config.config_path().to_string(), config.entries()).unwrap();
    assert_eq!(sorted_entries(&again), sorted_entries(&config));
    assert_eq!(again.config_path(), "cfg.json");
}

#[test]
fn extension_is_what_follows_the_last_dot_of_the_file_name() {
    assert_eq!(extension_of("report.sql"), Some("sql".to_string()));
    assert_eq!(extension_of("a/b/report.SQL"), Some("SQL".to_string()));
    assert_eq!(extension_of("archive.tar.gz"), Some("gz".to_string()));
    assert_eq!(extension_of("dir.d/file"), None);
    assert_eq!(extension_of("Makefile"), None);
    assert_eq!(extension_of(""), None);
    assert_eq!(extension_of("name."), Some(String::new()));
    assert_eq!(extension_of(".bashrc"), Some("bashrc".to_string()));
    assert_eq!(extension_of("dir/"), None);
}

#[test]
fn configuration_file_lies_below_the_configuration_directory() {
    assert_eq!(
        ConfigDefaults::config_path_under("/home/alice/.config"),
        "/home/alice/.config/untabify/config.json"
    );
    assert_eq!(ConfigDefaults::config_path_under("/etc/"), "/etc/untabify/config.json");
    assert_eq!(ConfigDefaults::config_path_under(""), "untabify/config.json");
}

#[test]
fn default_path_ends_in_the_file_name() {
    if let Some(path) = ConfigDefaults::config_path() {
        assert!(path.ends_with("untabify/config.json"));
    }
    if let Some(config) = Config::at_default_path() {
        assert!(config.config_path().ends_with("untabify/config.json"));
        assert_eq!(sorted_entries(&config), builtin());
    }
}

#[test]
fn default_path_follows_the_configuration_directory() {
    assert_eq!(
        ConfigDefaults::config_path_from(Some("/home/alice/.config".to_string())),
        Some("/home/alice/.config/untabify/config.json".to_string())
    );
    assert_eq!(ConfigDefaults::config_path_from(None), None);
}

#[test]
fn defaults_are_kept_at_the_given_path_if_there_is_one() {
    match Config::with_defaults_at(Some("cfg.json".to_string())) {
        Some(config) => {
            assert_eq!(config.config_path(), "cfg.json");
            assert_eq!(sorted_entries(&config), builtin());
        }
        None => panic!("no configuration"),
    }
    assert!(Config::with_defaults_at(None).is_none());
}
