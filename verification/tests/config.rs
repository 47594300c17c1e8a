use herdr_scratch::config::{
    valid_scratch_name, validate_popup, Config, ConfigError, Dimension, LoadedConfig, PopupSize,
    Profile, ProfileMatch, ScratchDefinition, TmuxMode,
};
use herdr_scratch::name_map::NameMap;

fn size(width: &str, height: &str) -> PopupSize {
    PopupSize {
        width: width.into(),
        height: height.into(),
    }
}

fn scratch(command: &[&str]) -> ScratchDefinition {
    ScratchDefinition {
        command: command.iter().map(|part| part.to_string()).collect(),
        shell: false,
        clear_tmux_env: false,
        tmux_mode: TmuxMode::Minimal,
        tmux_prefix: None,
        tmx_type: None,
        key: None,
        popup: None,
    }
}

fn popups(entries: &[(&str, PopupSize)]) -> NameMap<PopupSize> {
    let mut map = NameMap::new();
    for (name, size) in entries {
        map.insert(name.to_string(), size.clone());
    }
    map
}

/// The shipped default configuration: `nvim`, `shell` (workspace mode with
/// its own prefix) and `tmux` scratches, a laptop and an ultrawide profile.
fn default_config_with(tmux_prefix: &str, height: &str) -> Config {
    let mut scratches = NameMap::new();
    let mut nvim = scratch(&["nvim"]);
    nvim.tmx_type = Some("vim".into());
    nvim.key = Some("alt+i".into());
    scratches.insert("nvim".to_string(), nvim);
    let mut shell = scratch(&[]);
    shell.shell = true;
    shell.tmux_mode = TmuxMode::Workspace;
    shell.tmux_prefix = Some(tmux_prefix.into());
    shell.tmx_type = Some("sh".into());
    shell.key = Some("alt+o".into());
    scratches.insert("shell".to_string(), shell);
    let mut tmux = scratch(&[]);
    tmux.shell = true;
    tmux.clear_tmux_env = true;
    tmux.tmx_type = Some("tmux".into());
    tmux.key = Some("alt+t".into());
    scratches.insert("tmux".to_string(), tmux);
    Config {
        default_popup: size("90%", height),
        scratches,
        profiles: vec![
            Profile {
                name: "laptop".into(),
                selector: ProfileMatch {
                    min_client_width: None,
                    max_client_width: Some(310),
                },
                popups: popups(&[("nvim", size("95%", height)), ("shell", size("95%", height))]),
            },
            Profile {
                name: "full-ultrawide".into(),
                selector: ProfileMatch {
                    min_client_width: Some(400),
                    max_client_width: None,
                },
                popups: popups(&[("nvim", size("70%", height)), ("shell", size("80%", height))]),
            },
        ],
    }
}

fn config() -> LoadedConfig {
    LoadedConfig::new(
        "/tmp/config.yaml".into(),
        default_config_with("ctrl+g", "99%"),
    )
    .unwrap()
}

#[test]
fn selects_profiles_in_order() {
    let config = config();

    assert_eq!(config.popup("nvim", Some(300)).unwrap().size.width, "95%");
    assert_eq!(config.popup("nvim", Some(330)).unwrap().size.width, "90%");
    assert_eq!(config.popup("nvim", Some(380)).unwrap().size.width, "90%");
    let full = config.popup("nvim", Some(512)).unwrap();
    assert_eq!(
        full.size,
        PopupSize {
            width: "70%".into(),
            height: "99%".into()
        }
    );
    assert_eq!(full.profile.as_deref(), Some("full-ultrawide"));
}

#[test]
fn resolves_commands_and_tmux_shell() {
    let config = config();
    let shell = Some("/bin/zsh");

    assert_eq!(
        config.scratch("nvim", shell.as_deref()).unwrap().command,
        ["nvim"]
    );
    let tmux = config.scratch("tmux", shell.as_deref()).unwrap();
    assert_eq!(
        &tmux.command[..7],
        ["env", "-u", "TMUX", "-u", "TMUX_PANE", "-u", "TMUX_TMPDIR"]
    );
    assert_eq!(tmux.command.last().map(String::as_str), Some("-l"));
    assert!(tmux.clear_tmux_env);
}

#[test]
fn resolves_workspace_mode_and_prefix() {
    let config = config();

    let nvim = config.scratch("nvim", None).unwrap();
    assert_eq!(nvim.tmux_mode, TmuxMode::Minimal);
    assert_eq!(nvim.tmux_prefix, None);

    let shell = config.scratch("shell", None).unwrap();
    assert_eq!(shell.tmux_mode, TmuxMode::Workspace);
    assert_eq!(shell.tmux_prefix.as_deref(), Some("C-g"));
}

#[test]
fn rejects_invalid_explicit_tmux_prefix() {
    let source = default_config_with("cmd+g", "99%");

    assert!(source.validate().is_err());
}

#[test]
fn rejects_invalid_popup_size() {
    let source = default_config_with("ctrl+g", "120%");

    assert!(source.validate().is_err());
}

#[test]
fn popup_sizes_are_cells_or_percentages() {
    for good in ["1", "300", "65535", "1%", "50%", "100%", "+5", "007%"] {
        assert!(validate_popup(&size(good, "10")).is_ok(), "{good}");
    }
    for bad in ["0", "0%", "101%", "120%", "", "%", "-5", "65536", "5 %", "abc", "50%%"] {
        match validate_popup(&size("10", bad)) {
            Err(ConfigError::InvalidPopupSize { dimension, value }) => {
                assert_eq!(dimension, Dimension::Height);
                assert_eq!(value, bad);
            }
            other => panic!("{bad}: unexpected {other:?}"),
        }
    }
    assert!(matches!(
        validate_popup(&size("0", "0")),
        Err(ConfigError::InvalidPopupSize {
            dimension: Dimension::Width,
            ..
        })
    ));
}

#[test]
fn scratch_names_are_restricted() {
    assert!(valid_scratch_name("lazy_git-2"));
    assert!(!valid_scratch_name(""));
    assert!(!valid_scratch_name("lazy git"));
    assert!(!valid_scratch_name("a/b"));
    assert!(!valid_scratch_name("é"));
}

fn single(name: &str, definition: ScratchDefinition) -> Config {
    let mut scratches = NameMap::new();
    scratches.insert(name.to_string(), definition);
    Config {
        default_popup: size("90%", "99%"),
        scratches,
        profiles: Vec::new(),
    }
}

#[test]
fn each_rule_has_its_error() {
    let empty = Config {
        default_popup: size("90%", "99%"),
        scratches: NameMap::new(),
        profiles: Vec::new(),
    };
    assert!(matches!(empty.validate(), Err(ConfigError::NoScratches)));

    assert!(matches!(
        single("bad name", scratch(&["x"])).validate(),
        Err(ConfigError::InvalidScratchName { .. })
    ));

    let mut both = scratch(&["x"]);
    both.shell = true;
    assert!(matches!(
        single("a", both).validate(),
        Err(ConfigError::ShellAndCommand { .. })
    ));

    assert!(matches!(
        single("a", scratch(&[])).validate(),
        Err(ConfigError::MissingCommand { .. })
    ));

    assert!(matches!(
        single("a", scratch(&["x", ""])).validate(),
        Err(ConfigError::EmptyCommandArgument { .. })
    ));

    let mut workspace = scratch(&["x"]);
    workspace.tmux_mode = TmuxMode::Workspace;
    assert!(matches!(
        single("a", workspace).validate(),
        Err(ConfigError::WorkspaceWithoutPrefix { .. })
    ));

    let mut bad_prefix = scratch(&["x"]);
    bad_prefix.tmux_prefix = Some("cmd+g".into());
    match single("a", bad_prefix).validate() {
        Err(ConfigError::InvalidTmuxPrefix { name, .. }) => assert_eq!(name, "a"),
        other => panic!("unexpected {other:?}"),
    }

    let mut bad_popup = scratch(&["x"]);
    bad_popup.popup = Some(size("0", "10"));
    assert!(matches!(
        single("a", bad_popup).validate(),
        Err(ConfigError::InvalidPopupSize { .. })
    ));

    let mut config = single("a", scratch(&["x"]));
    config.profiles.push(Profile {
        name: "  ".into(),
        selector: ProfileMatch {
            min_client_width: None,
            max_client_width: None,
        },
        popups: NameMap::new(),
    });
    assert!(matches!(config.validate(), Err(ConfigError::EmptyProfileName)));

    let mut config = single("a", scratch(&["x"]));
    config.profiles.push(Profile {
        name: "p".into(),
        selector: ProfileMatch {
            min_client_width: Some(300),
            max_client_width: Some(200),
        },
        popups: NameMap::new(),
    });
    assert!(matches!(
        config.validate(),
        Err(ConfigError::ProfileWidthRange { .. })
    ));

    let mut config = single("a", scratch(&["x"]));
    config.profiles.push(Profile {
        name: "p".into(),
        selector: ProfileMatch {
            min_client_width: None,
            max_client_width: None,
        },
        popups: popups(&[("b", size("10", "10"))]),
    });
    match config.validate() {
        Err(ConfigError::UnknownProfileScratch { profile, name }) => {
            assert_eq!(profile, "p");
            assert_eq!(name, "b");
        }
        other => panic!("unexpected {other:?}"),
    }

    let loaded = self::config();
    assert!(matches!(
        loaded.scratch("missing", None),
        Err(ConfigError::UnknownScratch { .. })
    ));
    assert!(matches!(
        loaded.popup("missing", None),
        Err(ConfigError::UnknownScratch { .. })
    ));
}

#[test]
fn loaded_configs_are_validated() {
    assert!(LoadedConfig::new("/c".into(), default_config_with("cmd+g", "99%")).is_err());
    let loaded = config();
    assert_eq!(loaded.path(), "/tmp/config.yaml");
}

#[test]
fn names_and_keys_come_in_name_order() {
    let config = config();
    assert_eq!(config.names(), ["nvim", "shell", "tmux"]);
    assert_eq!(config.keys(), ["alt+i", "alt+o", "alt+t"]);
}

#[test]
fn popups_fall_back_to_scratch_then_default_size() {
    let config = config();
    // no width: no profile
    let popup = config.popup("nvim", None).unwrap();
    assert_eq!(popup.size, size("90%", "99%"));
    assert_eq!(popup.profile, None);
    // a matching profile that names no size for the scratch keeps the base
    let popup = config.popup("tmux", Some(300)).unwrap();
    assert_eq!(popup.size, size("90%", "99%"));
    assert_eq!(popup.profile.as_deref(), Some("laptop"));
    // bounds are inclusive
    assert_eq!(config.popup("shell", Some(310)).unwrap().size.width, "95%");
    assert_eq!(config.popup("shell", Some(400)).unwrap().size.width, "80%");
    // a scratch-level size replaces the default
    let mut own = scratch(&["x"]);
    own.popup = Some(size("50", "20"));
    let loaded = LoadedConfig::new("/c".into(), single("own", own)).unwrap();
    assert_eq!(loaded.popup("own", Some(1)).unwrap().size, size("50", "20"));
}

#[test]
fn login_shells_use_the_known_shell() {
    let config = config();
    assert_eq!(
        config.scratch("shell", Some("/usr/bin/fish")).unwrap().command,
        ["/usr/bin/fish", "-l"]
    );
    assert_eq!(
        config.scratch("shell", None).unwrap().command,
        ["/bin/sh", "-l"]
    );
    let nvim = config.scratch("nvim", None).unwrap();
    assert_eq!(nvim.tmx_type, "vim");
    assert_eq!(nvim.key.as_deref(), Some("alt+i"));
    let plain = LoadedConfig::new("/c".into(), single("lazygit", scratch(&["lazygit"]))).unwrap();
    assert_eq!(plain.scratch("lazygit", None).unwrap().tmx_type, "lazygit");
}

#[test]
fn name_map_keeps_names_sorted_and_unique() {
    let mut map = NameMap::new();
    map.insert("b".to_string(), 2);
    map.insert("a".to_string(), 1);
    map.insert("c".to_string(), 3);
    map.insert("b".to_string(), 20);
    map.insert("ab".to_string(), 4);
    assert_eq!(map.len(), 4);
    let names: Vec<&str> = (0..map.len()).map(|i| map.name_at(i).as_str()).collect();
    assert_eq!(names, ["a", "ab", "b", "c"]);
    assert_eq!(map.get("b"), Some(&20));
    assert_eq!(map.get("zz"), None);
    assert!(map.contains_key("ab"));
    assert!(!NameMap::<u8>::new().contains_key("a"));
}

#[test]
fn config_errors_describe_themselves() {
    assert_eq!(
        validate_popup(&size("90%", "120%")).unwrap_err().message(),
        "popup height `120%` must be positive cells or 1%-100%"
    );
    assert_eq!(
        LoadedConfig::new("/c".into(), default_config_with("cmd+g", "99%"))
            .err()
            .unwrap()
            .message(),
        "scratch `shell` has invalid `tmux_prefix`: Herdr prefix `cmd+g` uses Command/Super, which tmux cannot receive"
    );
    assert_eq!(
        config().scratch("missing", None).unwrap_err().message(),
        "unknown scratch `missing`"
    );
    let mut bad = single("a", scratch(&["x"]));
    bad.profiles.push(Profile {
        name: "p".into(),
        selector: ProfileMatch {
            min_client_width: Some(5),
            max_client_width: Some(4),
        },
        popups: NameMap::new(),
    });
    assert_eq!(
        bad.validate().unwrap_err().message(),
        "profile `p` has min width above max width"
    );
}
