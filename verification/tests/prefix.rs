use herdr_scratch::prefix::{
    normalize_tmux_key, tmux_base_key, tmux_prefix_from_config, tmux_prefix_from_setting,
    tmux_prefix_from_user_config, PrefixError,
};

#[test]
fn maps_the_current_prefix() {
    assert_eq!(
        tmux_prefix_from_config("[keys]\nprefix = \"ctrl+a\"\n").unwrap(),
        "C-a"
    );
}

#[test]
fn maps_shifted_and_named_keys() {
    assert_eq!(normalize_tmux_key("alt+shift+x").unwrap(), "M-X");
    assert_eq!(normalize_tmux_key("ctrl+space").unwrap(), "C-Space");
    assert_eq!(normalize_tmux_key("escape").unwrap(), "Escape");
}

#[test]
fn rejects_command_prefixes() {
    assert!(normalize_tmux_key("cmd+a").is_err());
}

#[test]
fn command_modifiers_report_the_whole_prefix() {
    match normalize_tmux_key("super+x") {
        Err(PrefixError::CommandModifier { prefix }) => assert_eq!(prefix, "super+x"),
        other => panic!("unexpected {other:?}"),
    }
}

#[test]
fn unknown_modifiers_are_rejected_in_order() {
    match normalize_tmux_key("hyper+cmd+a") {
        Err(PrefixError::UnsupportedModifier { modifier, prefix }) => {
            assert_eq!(modifier, "hyper");
            assert_eq!(prefix, "hyper+cmd+a");
        }
        other => panic!("unexpected {other:?}"),
    }
    assert!(matches!(
        normalize_tmux_key("cmd+hyper+a"),
        Err(PrefixError::CommandModifier { .. })
    ));
}

#[test]
fn blank_prefixes_are_rejected() {
    assert!(matches!(normalize_tmux_key(""), Err(PrefixError::Empty)));
    assert!(matches!(normalize_tmux_key(" \t\n"), Err(PrefixError::Empty)));
}

#[test]
fn unsupported_base_keys_are_rejected() {
    match normalize_tmux_key("ctrl+pageup") {
        Err(PrefixError::UnsupportedKey { key }) => assert_eq!(key, "pageup"),
        other => panic!("unexpected {other:?}"),
    }
    assert!(matches!(
        tmux_base_key("ab"),
        Err(PrefixError::UnsupportedKey { .. })
    ));
}

#[test]
fn input_is_trimmed_and_lowercased() {
    assert_eq!(normalize_tmux_key("  Ctrl+A  ").unwrap(), "C-a");
    assert_eq!(normalize_tmux_key("ESC").unwrap(), "Escape");
    assert_eq!(normalize_tmux_key("esc").unwrap(), "Escape");
}

#[test]
fn function_keys_map_to_tmux_names() {
    assert_eq!(normalize_tmux_key("f1").unwrap(), "F1");
    assert_eq!(normalize_tmux_key("F12").unwrap(), "F12");
    assert_eq!(normalize_tmux_key("f24").unwrap(), "F24");
    assert_eq!(normalize_tmux_key("f07").unwrap(), "F7");
    // out of range: an ordinary (unsupported) key
    assert!(normalize_tmux_key("f25").is_err());
    assert!(normalize_tmux_key("f0").is_err());
    // a single `f` is a plain key
    assert_eq!(normalize_tmux_key("f").unwrap(), "f");
}

#[test]
fn modifiers_come_out_in_tmux_order() {
    assert_eq!(normalize_tmux_key("shift+alt+ctrl+tab").unwrap(), "C-M-S-Tab");
    assert_eq!(normalize_tmux_key("control+option+x").unwrap(), "C-M-x");
    assert_eq!(normalize_tmux_key("meta+enter").unwrap(), "M-Enter");
    assert_eq!(normalize_tmux_key("shift+up").unwrap(), "S-Up");
    assert_eq!(normalize_tmux_key("shift+a").unwrap(), "A");
    assert_eq!(normalize_tmux_key("ctrl+shift+1").unwrap(), "C-S-1");
}

#[test]
fn named_keys_map_to_tmux_names() {
    assert_eq!(tmux_base_key("space").unwrap(), "Space");
    assert_eq!(tmux_base_key("tab").unwrap(), "Tab");
    assert_eq!(tmux_base_key("enter").unwrap(), "Enter");
    assert_eq!(tmux_base_key("return").unwrap(), "Enter");
    assert_eq!(tmux_base_key("backspace").unwrap(), "BSpace");
    assert_eq!(tmux_base_key("delete").unwrap(), "DC");
    assert_eq!(tmux_base_key("up").unwrap(), "Up");
    assert_eq!(tmux_base_key("down").unwrap(), "Down");
    assert_eq!(tmux_base_key("left").unwrap(), "Left");
    assert_eq!(tmux_base_key("right").unwrap(), "Right");
    assert_eq!(tmux_base_key("é").unwrap(), "é");
}

#[test]
fn missing_herdr_setting_falls_back_to_ctrl_b() {
    assert_eq!(tmux_prefix_from_setting(None).unwrap(), "C-b");
    assert_eq!(tmux_prefix_from_config("[theme]\nname = \"x\"\n").unwrap(), "C-b");
    assert_eq!(tmux_prefix_from_config("[keys]\nprefix = 3\n").unwrap(), "C-b");
    assert_eq!(tmux_prefix_from_user_config(None).unwrap(), "C-b");
    assert_eq!(
        tmux_prefix_from_user_config(Some("[keys]\nprefix = \"alt+space\"\n")).unwrap(),
        "M-Space"
    );
}

#[test]
fn invalid_herdr_config_is_reported() {
    assert!(matches!(
        tmux_prefix_from_config("[keys\nprefix = "),
        Err(PrefixError::InvalidConfig { .. })
    ));
    assert!(tmux_prefix_from_config("[keys]\nprefix = \"cmd+a\"\n").is_err());
}

#[test]
fn prefix_errors_describe_themselves() {
    assert_eq!(
        normalize_tmux_key("cmd+a").unwrap_err().message(),
        "Herdr prefix `cmd+a` uses Command/Super, which tmux cannot receive"
    );
    assert_eq!(
        normalize_tmux_key("hyper+a").unwrap_err().message(),
        "unsupported Herdr prefix modifier `hyper` in `hyper+a`"
    );
    assert_eq!(
        normalize_tmux_key("pageup").unwrap_err().message(),
        "unsupported Herdr prefix key `pageup`"
    );
    assert_eq!(
        normalize_tmux_key("  ").unwrap_err().message(),
        "Herdr prefix cannot be empty"
    );
    assert!(!tmux_prefix_from_config("[keys\n").unwrap_err().message().is_empty());
}

#[test]
fn modifier_order_case_and_space_do_not_matter() {
    assert_eq!(normalize_tmux_key(" SHIFT+Alt+x ").unwrap(), "M-X");
    assert_eq!(normalize_tmux_key("alt+shift+x").unwrap(), "M-X");
    assert_eq!(normalize_tmux_key("shift+ctrl+alt+f").unwrap(), "C-M-F");
    assert_eq!(normalize_tmux_key("ctrl+shift+up").unwrap(), "C-S-Up");
    assert_eq!(normalize_tmux_key("F12").unwrap(), "F12");
    assert_eq!(normalize_tmux_key("f+5").unwrap(), "F5");
    assert!(normalize_tmux_key("f25").is_err());
}
