use herdr_scratch::config::{ResolvedScratch, TmuxMode};
use herdr_scratch::tmux::{
    configured_session_args, exact_target, flatten_commands, run, sanitize,
    server_configuration_args, session_environment, session_metadata_needs_recreation,
    session_name, short_hash, tmux_args, workspace_overlay_command, CommandOutcome,
    HerdrEnvironment, RunStage, SessionSpec, TmuxOperation, TmuxStep, ENV_VERSION,
    MINIMAL_SERVER_NAME, WORKSPACE_SERVER_NAME,
};

#[test]
fn session_identity_is_per_kind_pane_and_server() {
    let nvim = session_name("nvim", "w2:p1", "/tmp/herdr.sock");
    let shell = session_name("shell", "w2:p1", "/tmp/herdr.sock");
    let other_pane = session_name("nvim", "w2:p2", "/tmp/herdr.sock");
    let other_server = session_name("nvim", "w2:p1", "/tmp/other.sock");

    assert_eq!(nvim, "hs/nvim/0cb0c5e4a746/w2-p1");
    assert_ne!(nvim, shell);
    assert_ne!(nvim, other_pane);
    assert_ne!(nvim, other_server);
}

#[test]
fn minimal_mode_keeps_the_stripped_down_server() {
    let args = server_configuration_args(TmuxMode::Minimal, "C-a", &["M-i".into(), "M-o".into()]);

    assert!(args
        .windows(4)
        .any(|part| part == ["bind-key", "-n", "M-i", "detach-client"]));
    assert!(args
        .windows(4)
        .any(|part| part == ["bind-key", "-n", "M-o", "detach-client"]));
    assert!(args
        .windows(5)
        .any(|part| part == ["bind-key", "-T", "prefix", "C-a", "send-prefix"]));
    assert!(args
        .windows(4)
        .any(|part| part == ["set-option", "-g", "status", "off"]));
    assert_eq!(
        tmux_args(TmuxMode::Minimal),
        ["-L", MINIMAL_SERVER_NAME, "-f", "/dev/null"]
    );
}

#[test]
fn workspace_mode_keeps_the_full_config_and_reapplies_its_overlay() {
    let hide_keys = ["M-i".into(), "M-o".into()];
    let args = server_configuration_args(TmuxMode::Workspace, "C-a", &hide_keys);
    let overlay = workspace_overlay_command("C-a", &hide_keys);

    assert_eq!(
        tmux_args(TmuxMode::Workspace),
        ["-L", WORKSPACE_SERVER_NAME]
    );
    assert!(args
        .windows(4)
        .any(|part| part == ["set-option", "-g", "prefix", "C-a"]));
    assert!(args
        .windows(4)
        .any(|part| part == ["bind-key", "-n", "M-o", "detach-client"]));
    assert!(!args
        .windows(4)
        .any(|part| part == ["set-option", "-g", "status", "off"]));
    assert!(!args.iter().any(|part| part == "unbind-key"));

    let first_hook = args
        .iter()
        .position(|part| part == "after-set-option[999]")
        .unwrap();
    let prefix = args
        .windows(4)
        .position(|part| part == ["set-option", "-g", "prefix", "C-a"])
        .unwrap();
    assert!(first_hook < prefix);

    for hook in [
        "after-set-option[999]",
        "after-bind-key[999]",
        "after-unbind-key[999]",
    ] {
        assert!(args
            .windows(4)
            .any(|part| part == ["set-hook", "-g", hook, &overlay]));
    }
}

fn shell_scratch() -> ResolvedScratch {
    ResolvedScratch {
        name: "shell".into(),
        command: vec!["fish".into(), "-l".into()],
        tmx_type: "sh".into(),
        clear_tmux_env: false,
        tmux_mode: TmuxMode::Workspace,
        tmux_prefix: Some("C-a".into()),
        key: Some("alt+o".into()),
    }
}

#[test]
fn new_session_is_created_in_the_configured_server_queue() {
    let scratch = shell_scratch();
    let herdr_environment = HerdrEnvironment::from_process(
        Some("/tmp/herdr.sock".into()),
        Some("w2".into()),
        Some("w2:t4".into()),
    );
    let hide_keys = ["M-i".into(), "M-o".into()];
    let session = SessionSpec {
        name: "hs/shell/server/pane",
        scratch: &scratch,
        pane_id: "pane",
        cwd: "/tmp/project",
        prefix: "C-a",
        hide_keys: &hide_keys,
        herdr_environment: &herdr_environment,
    };
    let args = configured_session_args(&session);

    let start = args.iter().position(|part| part == "start-server").unwrap();
    let prefix = args
        .windows(4)
        .position(|part| part == ["set-option", "-g", "prefix", "C-a"])
        .unwrap();
    let session = args.iter().position(|part| part == "new-session").unwrap();

    assert!(start < prefix);
    assert!(prefix < session);
    for variable in [
        "HERDR_ENV=1",
        "HERDR_PANE_ID=pane",
        "HERDR_SCRATCH_NAME=shell",
        "HERDR_SCRATCH_PREFIX=C-a",
        "HERDR_SCRATCH_SOURCE_CWD=/tmp/project",
        "HERDR_SOCKET_PATH=/tmp/herdr.sock",
        "HERDR_WORKSPACE_ID=w2",
        "HERDR_TAB_ID=w2:t4",
    ] {
        assert!(
            args.iter().any(|part| part == variable),
            "missing {variable}"
        );
    }
    assert_eq!(&args[args.len() - 2..], ["fish", "-l"]);
}

#[test]
fn workspace_survives_source_cwd_changes() {
    assert!(session_metadata_needs_recreation(
        TmuxMode::Minimal,
        "/old/project",
        "/new/project",
        ENV_VERSION,
    ));
    assert!(!session_metadata_needs_recreation(
        TmuxMode::Workspace,
        "/old/project",
        "/new/project",
        ENV_VERSION,
    ));
    assert!(!session_metadata_needs_recreation(
        TmuxMode::Workspace,
        "/old/project",
        "/old/project",
        "outdated",
    ));
    assert!(session_metadata_needs_recreation(
        TmuxMode::Minimal,
        "/old/project",
        "/old/project",
        "outdated",
    ));
}

#[test]
fn minimal_sessions_with_current_metadata_are_kept() {
    assert!(!session_metadata_needs_recreation(
        TmuxMode::Minimal,
        "/p",
        "/p",
        ENV_VERSION
    ));
}

#[test]
fn pane_ids_are_sanitized() {
    assert_eq!(sanitize("w2:p1"), "w2-p1");
    assert_eq!(sanitize("::w2::"), "w2");
    assert_eq!(sanitize(":::"), "pane");
    assert_eq!(sanitize(""), "pane");
    assert_eq!(sanitize("a_b-c"), "a_b-c");
    assert_eq!(sanitize("é"), "pane");
}

#[test]
fn panes_share_a_session_only_when_sanitized_alike() {
    let server = "/tmp/herdr.sock";
    assert_ne!(
        session_name("nvim", "w2:p1", server),
        session_name("nvim", "w2:p2", server)
    );
    assert_eq!(
        session_name("nvim", "w2:p1", server),
        session_name("nvim", "w2.p1", server)
    );
}

#[test]
fn short_hash_is_twelve_hex_digits_of_sha256() {
    // SHA-256("") = e3b0c44298fc1c14...
    assert_eq!(short_hash(""), "e3b0c44298fc");
    // SHA-256("abc") = ba7816bf8f01cfea...
    assert_eq!(short_hash("abc"), "ba7816bf8f01");
    assert_eq!(short_hash("/tmp/herdr.sock"), "0cb0c5e4a746");
}

#[test]
fn targets_match_exactly() {
    assert_eq!(exact_target("hs/a"), "=hs/a");
}

#[test]
fn flattening_separates_commands() {
    let args = flatten_commands(vec![
        vec!["a".into()],
        vec![],
        vec!["b".into(), "c".into()],
    ]);
    assert_eq!(args, ["a", ";", ";", "b", "c"]);
    let args = flatten_commands(vec![vec![], vec!["a".into()], vec!["b".into()]]);
    assert_eq!(args, ["a", ";", "b"]);
    assert!(flatten_commands(vec![]).is_empty());
}

#[test]
fn minimal_configuration_is_exact() {
    let args = server_configuration_args(TmuxMode::Minimal, "C-a", &["M-i".into()]);
    let expected = [
        "start-server", ";",
        "set-option", "-g", "status", "off", ";",
        "set-option", "-g", "prefix", "C-a", ";",
        "set-option", "-g", "prefix2", "None", ";",
        "set-option", "-g", "mouse", "off", ";",
        "set-option", "-s", "escape-time", "0", ";",
        "set-option", "-g", "default-terminal", "tmux-256color", ";",
        "set-option", "-g", "remain-on-exit", "off", ";",
        "unbind-key", "-a", "-T", "prefix", ";",
        "bind-key", "-T", "prefix", "x", "confirm-before", "-p", "Kill scratch session? (y/n)", "kill-session", ";",
        "bind-key", "-T", "prefix", "C-a", "send-prefix", ";",
        "bind-key", "-n", "M-i", "detach-client",
    ];
    assert_eq!(args, expected);
}

#[test]
fn overlay_text_joins_commands() {
    assert_eq!(
        workspace_overlay_command("C-a", &["M-i".into()]),
        "set-option -g @herdr_scratch_workspace 1 ; set-option -g prefix C-a ; \
         set-option -g prefix2 None ; bind-key -T prefix C-a send-prefix ; \
         bind-key -n M-i detach-client"
    );
}

#[test]
fn session_variables_without_herdr_location() {
    let scratch = shell_scratch();
    let env = HerdrEnvironment::from_process(Some(String::new()), None, None);
    let session = SessionSpec {
        name: "n",
        scratch: &scratch,
        pane_id: "w1:p1",
        cwd: "/c",
        prefix: "C-b",
        hide_keys: &[],
        herdr_environment: &env,
    };
    let vars = session_environment(&session);
    let keys: Vec<&str> = vars.iter().map(|(k, _)| k.as_str()).collect();
    assert_eq!(
        keys,
        [
            "HERDR_ENV",
            "HERDR_PANE_ID",
            "HERDR_SCRATCH_KIND",
            "HERDR_SCRATCH_NAME",
            "HERDR_SCRATCH_PREFIX",
            "HERDR_SCRATCH_SOURCE_CWD",
            "HERDR_SCRATCH_SOURCE_PANE",
            "TMX_PARENT_PANE",
            "TMX_SCRATCH",
            "TMX_SCRATCH_TYPE",
        ]
    );
    assert_eq!(vars[9].1, "sh");
    assert_eq!(env.server_identity(), "default");
}

fn ok(stdout: &str) -> CommandOutcome {
    CommandOutcome {
        spawned: true,
        success: true,
        stdout: stdout.into(),
    }
}

fn failed() -> CommandOutcome {
    CommandOutcome {
        spawned: true,
        success: false,
        stdout: String::new(),
    }
}

fn operation(step: &TmuxStep) -> TmuxOperation {
    match step {
        TmuxStep::Run { operation, .. } => *operation,
        other => panic!("unexpected {other:?}"),
    }
}

fn args(step: &TmuxStep) -> Vec<String> {
    match step {
        TmuxStep::Run { args, .. } => args.clone(),
        other => panic!("unexpected {other:?}"),
    }
}

#[test]
fn a_missing_session_is_created_then_attached() {
    let mut scratch = shell_scratch();
    scratch.tmux_mode = TmuxMode::Minimal;
    let env = HerdrEnvironment::from_process(None, None, None);
    let mut run = run(&scratch, "w1:p1", "/c", &env, "/state", "C-b", &["M-o".into()]);
    assert_eq!(run.state_dir(), "/state");
    let name = run.session_name().to_string();
    assert!(name.starts_with("hs/shell/"));
    let step = run.step();
    assert_eq!(operation(&step), TmuxOperation::InspectSession);
    assert_eq!(
        args(&step),
        ["-L", MINIMAL_SERVER_NAME, "-f", "/dev/null", "has-session", "-t", &format!("={name}")]
    );
    run.advance(failed());
    assert_eq!(run.stage(), RunStage::CheckStale);
    run.advance(failed());
    assert_eq!(run.stage(), RunStage::Create);
    let create = args(&run.step());
    assert!(create.iter().any(|part| part == "new-session"));
    run.advance(ok(""));
    let mut writes = 0;
    while let TmuxStep::Run { operation, .. } = run.step() {
        if operation == TmuxOperation::AttachSession {
            break;
        }
        writes += 1;
        run.advance(ok(""));
    }
    // three metadata options and ten variables
    assert_eq!(writes, 13);
    run.advance(failed());
    assert_eq!(run.stage(), RunStage::Attached);
    assert!(matches!(run.step(), TmuxStep::Finished));
}

#[test]
fn an_outdated_minimal_session_is_replaced() {
    let mut scratch = shell_scratch();
    scratch.tmux_mode = TmuxMode::Minimal;
    let env = HerdrEnvironment::from_process(None, None, None);
    let mut run = run(&scratch, "p", "/new", &env, "/s", "C-b", &[]);
    run.advance(ok(""));
    assert_eq!(run.stage(), RunStage::ReadSourceCwd);
    assert_eq!(
        args(&run.step())[4..],
        ["show-options", "-qv", "-t", run.session_name(), "@herdr_source_cwd"]
    );
    run.advance(ok("/old\n"));
    assert_eq!(run.stage(), RunStage::ReadVersion);
    run.advance(ok("1\n"));
    assert_eq!(run.stage(), RunStage::CheckStale);
    run.advance(ok(""));
    assert_eq!(run.stage(), RunStage::KillStale);
    assert_eq!(operation(&run.step()), TmuxOperation::ReplaceSession);
    run.advance(ok(""));
    assert_eq!(run.stage(), RunStage::Create);
}

#[test]
fn a_current_session_is_reconfigured() {
    let scratch = shell_scratch();
    let env = HerdrEnvironment::from_process(None, None, None);
    let mut run = run(&scratch, "p", "/new", &env, "/s", "C-a", &[]);
    run.advance(ok(""));
    run.advance(ok("/old"));
    run.advance(ok("1"));
    assert_eq!(run.stage(), RunStage::Configure);
    assert_eq!(args(&run.step())[..2], ["-L", WORKSPACE_SERVER_NAME]);
    run.advance(ok(""));
    assert_eq!(run.stage(), RunStage::WriteMetadata(0));
    assert_eq!(
        args(&run.step())[2..],
        ["set-option", "-t", run.session_name(), "@herdr_source_cwd", "/new"]
    );
}

#[test]
fn failures_end_the_run() {
    let scratch = shell_scratch();
    let env = HerdrEnvironment::from_process(None, None, None);
    let mut run = run(&scratch, "p", "/c", &env, "/s", "C-a", &[]);
    run.advance(CommandOutcome {
        spawned: false,
        success: false,
        stdout: String::new(),
    });
    assert_eq!(run.stage(), RunStage::Failed(TmuxOperation::InspectSession));
    assert!(matches!(
        run.step(),
        TmuxStep::Failed {
            operation: TmuxOperation::InspectSession
        }
    ));
    run.advance(ok(""));
    assert_eq!(run.stage(), RunStage::Failed(TmuxOperation::InspectSession));

    let mut run = herdr_scratch::tmux::run(&scratch, "p", "/c", &env, "/s", "C-a", &[]);
    run.advance(ok(""));
    run.advance(failed());
    assert_eq!(run.stage(), RunStage::Failed(TmuxOperation::ReadMetadata));
}

fn words(items: &[&str]) -> Vec<String> {
    items.iter().map(|item| item.to_string()).collect()
}

#[test]
fn flattened_commands_split_back_at_separators() {
    let commands = vec![
        words(&["start-server"]),
        words(&[
            "bind-key",
            "-T",
            "prefix",
            "x",
            "if-shell",
            "-F",
            "1",
            "kill-session ; detach-client",
        ]),
    ];
    let args = flatten_commands(commands.clone());
    assert_eq!(args.len(), 1 + 8 + 1);
    let split: Vec<Vec<String>> = args
        .split(|arg| arg == ";")
        .map(|part| part.to_vec())
        .collect();
    assert_eq!(split, commands);
}

#[test]
fn minimal_configuration_has_fixed_head_and_one_binding_per_key() {
    let args = server_configuration_args(TmuxMode::Minimal, "C-a", &words(&["M-i", "M-o"]));
    assert_eq!(args.len(), 56 + 5 * 2);
    assert_eq!(&args[56..61], [";", "bind-key", "-n", "M-i", "detach-client"]);
    assert_eq!(&args[61..66], [";", "bind-key", "-n", "M-o", "detach-client"]);
    assert_eq!(server_configuration_args(TmuxMode::Minimal, "C-a", &[]).len(), 56);
}

#[test]
fn sanitizing_twice_changes_nothing() {
    for value in ["w2:p1", "::", "-a-", "é:x", ""] {
        let once = sanitize(value);
        assert_eq!(sanitize(&once), once);
        assert!(!once.is_empty() && !once.starts_with('-') && !once.ends_with('-'));
    }
    assert_eq!(sanitize("-:-"), "pane");
}

#[test]
fn short_hashes_are_lowercase_hex() {
    for value in ["", "abc", "/tmp/other.sock"] {
        let hash = short_hash(value);
        assert_eq!(hash.len(), 12);
        assert!(hash.chars().all(|c| c.is_ascii_digit() || ('a'..='f').contains(&c)));
    }
}
