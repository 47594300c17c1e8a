use herdr_scratch::context::{ContextError, SourcePane};

/// Reads the two context fields out of the plugin's JSON, as the command
/// does before it asks the library for the source pane.
fn from_json(raw: &str, current_dir: &str) -> Result<SourcePane, ContextError> {
    let value: serde_json::Value = serde_json::from_str(raw).unwrap();
    let field = |name: &str| {
        value
            .get(name)
            .and_then(serde_json::Value::as_str)
            .map(str::to_owned)
    };
    SourcePane::from_context(
        field("focused_pane_id"),
        field("focused_pane_cwd"),
        current_dir.into(),
    )
}

#[test]
fn reads_focused_pane_and_cwd() {
    let source = from_json(
        r#"{"focused_pane_id":"w2:p3","focused_pane_cwd":"/tmp/project"}"#,
        "/elsewhere",
    )
    .unwrap();

    assert_eq!(source.pane_id, "w2:p3");
    assert_eq!(source.cwd, "/tmp/project");
}

#[test]
fn rejects_context_without_a_pane() {
    let error = from_json(r#"{"focused_pane_cwd":"/tmp/project"}"#, "/elsewhere").unwrap_err();

    assert!(error.message().contains("no focused pane"));
    assert!(matches!(error, ContextError::NoFocusedPane));
}

#[test]
fn blank_panes_and_directories_do_not_count() {
    assert!(SourcePane::from_context(Some("  ".into()), None, "/x".into()).is_err());
    let source =
        SourcePane::from_context(Some("w1:p1".into()), Some(" \t".into()), "/work".into())
            .unwrap();
    assert_eq!(source.cwd, "/work");
    let source = SourcePane::from_context(Some("w1:p1".into()), None, "/work".into()).unwrap();
    assert_eq!(source.cwd, "/work");
}

#[test]
fn missing_context_directory_falls_back_to_the_current_one() {
    let source = from_json(r#"{"focused_pane_id":"w2:p3"}"#, "/home/me").unwrap();
    assert_eq!(source.cwd, "/home/me");
}
