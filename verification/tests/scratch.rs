use herdr_scratch::config::{
    Config, ConfigError, LoadedConfig, PopupSize, Profile, ProfileMatch, ScratchDefinition,
    TmuxMode,
};
use herdr_scratch::context::SourcePane;
use herdr_scratch::name_map::NameMap;
use herdr_scratch::tmux::{HerdrEnvironment, RunStage};
use herdr_scratch::{hide_keys, run_popup, show_config, toggle};

fn definition(command: &[&str], key: Option<&str>) -> ScratchDefinition {
    ScratchDefinition {
        command: command.iter().map(|part| part.to_string()).collect(),
        shell: false,
        clear_tmux_env: false,
        tmux_mode: TmuxMode::Minimal,
        tmux_prefix: None,
        tmx_type: None,
        key: key.map(str::to_string),
        popup: None,
    }
}

fn loaded(key: Option<&str>) -> LoadedConfig {
    let mut scratches = NameMap::new();
    scratches.insert("nvim".to_string(), definition(&["nvim"], Some("alt+i")));
    scratches.insert("git".to_string(), definition(&["lazygit"], key));
    let mut popups = NameMap::new();
    popups.insert(
        "nvim".to_string(),
        PopupSize {
            width: "70%".into(),
            height: "80%".into(),
        },
    );
    LoadedConfig::new(
        "/cfg/config.yaml".into(),
        Config {
            default_popup: PopupSize {
                width: "90%".into(),
                height: "99%".into(),
            },
            scratches,
            profiles: vec![Profile {
                name: "wide".into(),
                selector: ProfileMatch {
                    min_client_width: Some(400),
                    max_client_width: None,
                },
                popups,
            }],
        },
    )
    .unwrap()
}

fn source() -> SourcePane {
    SourcePane {
        pane_id: "w1:p1".into(),
        cwd: "/work".into(),
    }
}

#[test]
fn toggle_opens_the_popup_at_the_chosen_size() {
    let config = loaded(None);
    let args = toggle("nvim", &source(), &config, Some(500), "C-a").unwrap();
    assert!(args.windows(2).any(|pair| pair == ["--entrypoint", "nvim"]));
    assert!(args.windows(2).any(|pair| pair == ["--width", "70%"]));
    assert!(args.windows(2).any(|pair| pair == ["--height", "80%"]));
    assert!(args.iter().any(|arg| arg == "HERDR_SCRATCH_SOURCE_PANE=w1:p1"));
    assert!(args.iter().any(|arg| arg == "HERDR_SCRATCH_SOURCE_CWD=/work"));
    assert!(args.iter().any(|arg| arg == "HERDR_SCRATCH_PREFIX=C-a"));
    let args = toggle("git", &source(), &config, None, "C-a").unwrap();
    assert!(args.windows(2).any(|pair| pair == ["--width", "90%"]));
    assert!(matches!(
        toggle("missing", &source(), &config, None, "C-a"),
        Err(ConfigError::UnknownScratch { .. })
    ));
}

#[test]
fn show_config_lists_every_scratch() {
    let config = loaded(None);
    assert_eq!(
        show_config(&config, Some(512)).unwrap(),
        [
            "config: /cfg/config.yaml",
            "client_width: 512",
            "git: 90% x 99% (wide, unbound)",
            "nvim: 70% x 80% (wide, alt+i)",
        ]
    );
    assert_eq!(
        show_config(&config, None).unwrap()[..2],
        ["config: /cfg/config.yaml", "client_width: unavailable"]
    );
}

#[test]
fn hide_keys_are_translated_in_name_order() {
    assert_eq!(hide_keys(&loaded(Some("alt+g"))).unwrap(), ["M-g", "M-i"]);
    assert!(matches!(
        hide_keys(&loaded(Some("cmd+g"))),
        Err(ConfigError::InvalidKey { .. })
    ));
}

#[test]
fn run_popup_prepares_the_session() {
    let config = loaded(Some("alt+g"));
    let env = HerdrEnvironment::from_process(Some("/tmp/herdr.sock".into()), None, None);
    let run = run_popup(&config, "nvim", None, "w2:p1", "/work", &env, "/state", "C-b").unwrap();
    assert_eq!(run.session_name(), "hs/nvim/0cb0c5e4a746/w2-p1");
    assert_eq!(run.state_dir(), "/state");
    assert_eq!(run.stage(), RunStage::CheckSession);
    assert!(matches!(
        run_popup(&config, "nope", None, "p", "/w", &env, "/s", "C-b"),
        Err(ConfigError::UnknownScratch { .. })
    ));
    let bad = loaded(Some("hyper+g"));
    assert!(matches!(
        run_popup(&bad, "nvim", None, "p", "/w", &env, "/s", "C-b"),
        Err(ConfigError::InvalidKey { .. })
    ));
}
