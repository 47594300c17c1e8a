use herdr_scratch::herdr::{open_popup_args, sized_popup_args, PopupRequest};

#[test]
fn opens_a_native_popup_with_source_identity() {
    let args = open_popup_args(&PopupRequest {
        entrypoint: "nvim",
        source_pane_id: "w2:p1".into(),
        source_cwd: "/tmp/project".into(),
        tmux_prefix: "C-a".into(),
    });

    assert!(args.windows(2).any(|pair| pair == ["--placement", "popup"]));
    assert!(args.windows(2).any(|pair| pair == ["--width", "90%"]));
    assert!(!args.iter().any(|arg| arg == "--cwd"));
    assert!(args
        .iter()
        .any(|arg| arg == "HERDR_SCRATCH_SOURCE_PANE=w2:p1"));
    assert!(args
        .iter()
        .any(|arg| arg == "HERDR_SCRATCH_SOURCE_CWD=/tmp/project"));
    assert!(args.iter().any(|arg| arg == "HERDR_SCRATCH_PREFIX=C-a"));
}

#[test]
fn popup_arguments_are_complete_and_ordered() {
    let args = sized_popup_args(
        &PopupRequest {
            entrypoint: "shell",
            source_pane_id: "w1:p2".into(),
            source_cwd: "/src".into(),
            tmux_prefix: "C-b".into(),
        },
        "120",
        "40%",
    );
    assert_eq!(
        args,
        [
            "plugin",
            "pane",
            "open",
            "--plugin",
            "shadowfax.scratch",
            "--entrypoint",
            "shell",
            "--placement",
            "popup",
            "--width",
            "120",
            "--height",
            "40%",
            "--env",
            "HERDR_SCRATCH_SOURCE_PANE=w1:p2",
            "--env",
            "HERDR_SCRATCH_SOURCE_CWD=/src",
            "--env",
            "HERDR_SCRATCH_PREFIX=C-b",
            "--focus",
        ]
    );
}
