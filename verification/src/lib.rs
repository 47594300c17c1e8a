//! Persistent per-pane scratch popups for Herdr: the scratch configuration,
//! the translation of Herdr keys into tmux keys, the popup request, and the
//! tmux protocol that keeps each scratch session alive between toggles.
use vstd::prelude::*;

pub mod config;
pub mod context;
pub mod herdr;
pub mod name_map;
pub mod prefix;
pub mod text;
pub mod tmux;

use crate::config::{
    lemma_lookup_present, lemma_valid_config_popups_are_valid,
    lemma_valid_config_resolves_scratches, resolve_popup, resolve_scratch, scratch_keys,
    ConfigError, ConfigFault, LoadedConfig, PopupSize,
};
use crate::context::SourcePane;
use crate::herdr::{popup_args, sized_popup_args, PopupRequest};
use crate::prefix::{normalize_key, normalize_tmux_key, PrefixFault};
use crate::text::{concat, decimal, decimal_string, owned, views};
use crate::tmux::{run, server_identity, session_name_spec, HerdrEnvironment, RunStage, TmuxRun};

verus! {

/// The Herdr arguments that open the popup of the scratch `name`, or why
/// the scratch cannot be opened.
pub open spec fn toggle_spec(
    config: config::Config,
    name: Seq<char>,
    pane_id: Seq<char>,
    cwd: Seq<char>,
    tmux_prefix: Seq<char>,
    client_width: Option<u16>,
) -> Result<Seq<Seq<char>>, ConfigFault> {
    match resolve_scratch(config, name, None) {
        Err(e) => Err(e),
        Ok(_) => match resolve_popup(config, name, client_width) {
            Err(e) => Err(e),
            Ok((size, _)) => Ok(popup_args(name, pane_id, cwd, tmux_prefix, size.width@, size.height@)),
        },
    }
}

pub open spec fn args_result_view(r: Result<Vec<String>, ConfigError>) -> Result<
    Seq<Seq<char>>,
    ConfigFault,
> {
    match r {
        Ok(args) => Ok(views(args@)),
        Err(e) => Err(e@),
    }
}

/// Toggles the scratch `name` for the pane `source`: checks that the
/// scratch resolves, chooses its popup size for the client width, and gives
/// the Herdr arguments that open the popup (with the source pane's identity
/// and the tmux prefix to mirror).
pub fn toggle(
    name: &str,
    source: &SourcePane,
    config: &LoadedConfig,
    client_width: Option<u16>,
    tmux_prefix: &str,
) -> (res: Result<Vec<String>, ConfigError>)
    ensures
        args_result_view(res) == toggle_spec(
            config.config_spec(),
            name@,
            source.pane_id@,
            source.cwd@,
            tmux_prefix@,
            client_width,
        ),
{
    match config.scratch(name, None) {
        Ok(_) => {},
        Err(e) => return Err(e),
    }
    let popup = match config.popup(name, client_width) {
        Ok(popup) => popup,
        Err(e) => return Err(e),
    };
    let request = PopupRequest {
        entrypoint: name,
        source_pane_id: source.pane_id.clone(),
        source_cwd: source.cwd.clone(),
        tmux_prefix: owned(tmux_prefix),
    };
    Ok(sized_popup_args(&request, popup.size.width.as_str(), popup.size.height.as_str()))
}

/// The tmux keys for Herdr keys, in order; the first key that has none is
/// the error.
pub open spec fn normalize_keys(keys: Seq<Seq<char>>) -> Result<Seq<Seq<char>>, PrefixFault>
    decreases keys.len(),
{
    if keys.len() == 0 {
        Ok(Seq::<Seq<char>>::empty())
    } else {
        match normalize_keys(keys.drop_last()) {
            Err(e) => Err(e),
            Ok(done) => match normalize_key(keys.last()) {
                Err(e) => Err(e),
                Ok(k) => Ok(done.push(k)),
            },
        }
    }
}

proof fn lemma_normalize_keys_error_persists(keys: Seq<Seq<char>>, k: int)
    requires
        0 <= k <= keys.len(),
        normalize_keys(keys.take(k)) is Err,
    ensures
        normalize_keys(keys) == normalize_keys(keys.take(k)),
    decreases keys.len() - k,
{
    if k < keys.len() {
        assert(keys.drop_last().take(k) =~= keys.take(k));
        lemma_normalize_keys_error_persists(keys.drop_last(), k);
    } else {
        assert(keys.take(k) =~= keys);
    }
}

/// Translates every hide key of the configuration into a tmux key.
pub fn hide_keys(config: &LoadedConfig) -> (res: Result<Vec<String>, ConfigError>)
    ensures
        match normalize_keys(scratch_keys(config.config_spec().scratches.entries())) {
            Ok(keys) => res matches Ok(v) && views(v@) == keys,
            Err(e) => res matches Err(err) && err@ == ConfigFault::InvalidKey(e),
        },
{
    let keys = config.keys();
    let ghost kv = views(keys@);
    let mut out: Vec<String> = Vec::new();
    let n = keys.len();
    assert(kv.take(0) =~= Seq::<Seq<char>>::empty());
    assert(views(out@) =~= Seq::<Seq<char>>::empty());
    for i in 0..n
        invariant
            n == keys@.len(),
            kv == views(keys@),
            kv == scratch_keys(config.config_spec().scratches.entries()),
            normalize_keys(kv.take(i as int)) == Ok::<Seq<Seq<char>>, PrefixFault>(views(out@)),
    {
        assert(kv.take(i + 1).drop_last() =~= kv.take(i as int));
        assert(kv.take(i + 1).last() == keys@[i as int]@);
        match normalize_tmux_key(keys[i].as_str()) {
            Ok(k) => {
                let ghost before = out@;
                out.push(k);
                assert(views(out@) =~= views(before).push(k@));
            },
            Err(cause) => {
                proof {
                    lemma_normalize_keys_error_persists(kv, i + 1);
                }
                return Err(ConfigError::InvalidKey { cause });
            },
        }
    }
    assert(kv.take(n as int) =~= kv);
    Ok(out)
}

/// Prepares the popup side of a scratch: resolves the scratch `scratch_name`
/// (a login shell runs `shell`), translates every configured hide key, and
/// starts the tmux protocol for the source pane's session.
pub fn run_popup(
    config: &LoadedConfig,
    scratch_name: &str,
    shell: Option<&str>,
    source_pane_id: &str,
    source_cwd: &str,
    herdr_environment: &HerdrEnvironment,
    state_dir: &str,
    tmux_prefix: &str,
) -> (res: Result<TmuxRun, ConfigError>)
    ensures
        match resolve_scratch(config.config_spec(), scratch_name@, shell.deep_view()) {
            Err(e) => res matches Err(err) && err@ == e,
            Ok(scratch) => match normalize_keys(scratch_keys(config.config_spec().scratches.entries())) {
                Err(e) => res matches Err(err) && err@ == ConfigFault::InvalidKey(e),
                Ok(keys) => res matches Ok(r) && r@.state_dir == state_dir@
                    && r@.session.name == session_name_spec(
                    scratch_name@,
                    source_pane_id@,
                    server_identity(herdr_environment@),
                ) && r@.session.scratch == scratch && r@.session.pane_id == source_pane_id@
                    && r@.session.cwd == source_cwd@ && r@.session.prefix == tmux_prefix@
                    && r@.session.hide_keys == keys && r@.session.herdr == herdr_environment@
                    && r@.stored_cwd == Seq::<char>::empty() && r@.stage == RunStage::CheckSession,
            },
        },
{
    let scratch = match config.scratch(scratch_name, shell) {
        Ok(scratch) => scratch,
        Err(e) => return Err(e),
    };
    let keys = match hide_keys(config) {
        Ok(keys) => keys,
        Err(e) => return Err(e),
    };
    Ok(
        run(
            &scratch,
            source_pane_id,
            source_cwd,
            herdr_environment,
            state_dir,
            tmux_prefix,
            keys.as_slice(),
        ),
    )
}

/// `config: <path>`.
pub open spec fn path_line(path: Seq<char>) -> Seq<char> {
    "config: "@ + path
}

/// `client_width: <width>`, or `unavailable`.
pub open spec fn width_line(client_width: Option<u16>) -> Seq<char> {
    "client_width: "@ + match client_width {
        Some(w) => decimal(w as nat),
        None => "unavailable"@,
    }
}

/// `<name>: <width> x <height> (<profile>, <key>)`.
pub open spec fn scratch_line(
    name: Seq<char>,
    size: PopupSize,
    profile: Option<Seq<char>>,
    key: Option<Seq<char>>,
) -> Seq<char> {
    name + ": "@ + size.width@ + " x "@ + size.height@ + " ("@ + match profile {
        Some(p) => p,
        None => "default"@,
    } + ", "@ + match key {
        Some(k) => k,
        None => "unbound"@,
    } + ")"@
}

/// One line per scratch, in the given order.
pub open spec fn scratch_lines(
    config: config::Config,
    names: Seq<Seq<char>>,
    client_width: Option<u16>,
) -> Result<Seq<Seq<char>>, ConfigFault>
    decreases names.len(),
{
    if names.len() == 0 {
        Ok(Seq::<Seq<char>>::empty())
    } else {
        match scratch_lines(config, names.drop_last(), client_width) {
            Err(e) => Err(e),
            Ok(lines) => {
                let name = names.last();
                match resolve_scratch(config, name, None) {
                    Err(e) => Err(e),
                    Ok(s) => match resolve_popup(config, name, client_width) {
                        Err(e) => Err(e),
                        Ok((size, profile)) => Ok(
                            lines.push(scratch_line(name, size, profile, s.key)),
                        ),
                    },
                }
            },
        }
    }
}

proof fn lemma_scratch_lines_error_persists(
    config: config::Config,
    names: Seq<Seq<char>>,
    client_width: Option<u16>,
    k: int,
)
    requires
        0 <= k <= names.len(),
        scratch_lines(config, names.take(k), client_width) is Err,
    ensures
        scratch_lines(config, names, client_width) == scratch_lines(
            config,
            names.take(k),
            client_width,
        ),
    decreases names.len() - k,
{
    if k < names.len() {
        assert(names.drop_last().take(k) =~= names.take(k));
        lemma_scratch_lines_error_persists(config, names.drop_last(), client_width, k);
    } else {
        assert(names.take(k) =~= names);
    }
}

/// The lines that describe the configuration for a client width: the
/// file, the width, and each scratch's popup size, profile and hide key.
pub open spec fn show_lines(l: LoadedConfig, client_width: Option<u16>) -> Result<
    Seq<Seq<char>>,
    ConfigFault,
> {
    match scratch_lines(l.config_spec(), l.config_spec().scratches.names(), client_width) {
        Err(e) => Err(e),
        Ok(lines) => Ok(seq![path_line(l.path_spec()), width_line(client_width)] + lines),
    }
}

fn scratch_line_text(name: &str, size: &PopupSize, profile: &Option<String>, key: &Option<String>) -> (line: String)
    ensures
        line@ == scratch_line(name@, *size, profile.deep_view(), key.deep_view()),
{
    let mut line = concat(name, ": ");
    line.append(size.width.as_str());
    line.append(" x ");
    line.append(size.height.as_str());
    line.append(" (");
    match profile {
        Some(p) => line.append(p.as_str()),
        None => line.append("default"),
    }
    line.append(", ");
    match key {
        Some(k) => line.append(k.as_str()),
        None => line.append("unbound"),
    }
    line.append(")");
    line
}

/// Describes the configuration as `herdr-scratch config` prints it.
pub fn show_config(config: &LoadedConfig, client_width: Option<u16>) -> (res: Result<
    Vec<String>,
    ConfigError,
>)
    ensures
        args_result_view(res) == show_lines(*config, client_width),
{
    let mut lines: Vec<String> = Vec::new();
    lines.push(concat("config: ", config.path()));
    let width_text = match client_width {
        Some(w) => decimal_string(w as u32),
        None => owned("unavailable"),
    };
    lines.push(concat("client_width: ", width_text.as_str()));
    let names = config.names();
    let ghost nv = views(names@);
    let ghost head = views(lines@);
    assert(head =~= seq![path_line(config.path_spec()), width_line(client_width)]);
    let n = names.len();
    assert(nv.take(0) =~= Seq::<Seq<char>>::empty());
    for i in 0..n
        invariant
            n == names@.len(),
            nv == views(names@),
            nv == config.config_spec().scratches.names(),
            scratch_lines(config.config_spec(), nv.take(i as int), client_width) matches Ok(done)
                && views(lines@) == head + done,
    {
        assert(nv.take(i + 1).drop_last() =~= nv.take(i as int));
        assert(nv.take(i + 1).last() == names@[i as int]@);
        let name = names[i].as_str();
        let scratch = match config.scratch(name, None) {
            Ok(scratch) => scratch,
            Err(e) => {
                proof {
                    lemma_scratch_lines_error_persists(config.config_spec(), nv, client_width, i + 1);
                }
                return Err(e);
            },
        };
        let popup = match config.popup(name, client_width) {
            Ok(popup) => popup,
            Err(e) => {
                proof {
                    lemma_scratch_lines_error_persists(config.config_spec(), nv, client_width, i + 1);
                }
                return Err(e);
            },
        };
        let ghost before = views(lines@);
        let line = scratch_line_text(name, &popup.size, &popup.profile, &scratch.key);
        lines.push(line);
        assert(views(lines@) =~= before.push(line@));
    }
    assert(nv.take(n as int) =~= nv);
    Ok(lines)
}

/// A loaded configuration opens the popup of every scratch it defines,
/// whatever the client width.
pub proof fn lemma_toggle_opens_defined_scratches(
    l: LoadedConfig,
    name: Seq<char>,
    pane_id: Seq<char>,
    cwd: Seq<char>,
    tmux_prefix: Seq<char>,
    client_width: Option<u16>,
)
    requires
        l.valid(),
        l.config_spec().scratches.get_spec(name) is Some,
    ensures
        toggle_spec(l.config_spec(), name, pane_id, cwd, tmux_prefix, client_width) is Ok,
{
    lemma_valid_config_resolves_scratches(l.config_spec(), name, None);
    lemma_valid_config_popups_are_valid(l.config_spec(), name, client_width);
}

/// A loaded configuration can always be described: every scratch it names
/// resolves and gets a popup size.
pub proof fn lemma_show_config_succeeds(l: LoadedConfig, client_width: Option<u16>)
    requires
        l.valid(),
    ensures
        show_lines(l, client_width) is Ok,
{
    let c = l.config_spec();
    let names = c.scratches.names();
    assert forall|k: int| 0 <= k <= names.len() implies scratch_lines(
        c,
        #[trigger] names.take(k),
        client_width,
    ) is Ok by {
        lemma_scratch_lines_prefix_ok(l, client_width, k);
    }
    assert(names.take(names.len() as int) =~= names);
}

proof fn lemma_scratch_lines_prefix_ok(l: LoadedConfig, client_width: Option<u16>, k: int)
    requires
        l.valid(),
        0 <= k <= l.config_spec().scratches.names().len(),
    ensures
        scratch_lines(l.config_spec(), l.config_spec().scratches.names().take(k), client_width) is Ok,
    decreases k,
{
    let c = l.config_spec();
    let names = c.scratches.names();
    if k > 0 {
        lemma_scratch_lines_prefix_ok(l, client_width, k - 1);
        assert(names.take(k).drop_last() =~= names.take(k - 1));
        let name = names[k - 1];
        assert(c.scratches.entries()[k - 1].0@ == name);
        lemma_lookup_present(c.scratches.entries(), name, k - 1);
        lemma_valid_config_resolves_scratches(c, name, None);
        lemma_valid_config_popups_are_valid(c, name, client_width);
    } else {
        assert(names.take(0) =~= Seq::<Seq<char>>::empty());
    }
}

} // verus!
