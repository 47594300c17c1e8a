//! The scratch configuration: its validation rules, how a scratch resolves
//! to a command, and how a popup's size is chosen for a client width.
use vstd::prelude::*;

use crate::name_map::{
    ascending, chars_lt, lemma_chars_lt_irreflexive, lemma_lookup_index, lemma_lookup_some, lookup,
    NameMap,
};
use crate::prefix::{key_view, normalize_key, normalize_tmux_key, PrefixError, PrefixFault};
use crate::text::{
    char_is_ascii_alphanumeric, concat3, is_ascii_alphanumeric, owned, parse_unsigned, parse_unsigned_str,
    trim, trimmed, views,
};

verus! {

/// Which tmux server a scratch lives on and how it is configured.
#[derive(Clone, Copy, Debug, PartialEq, Eq, Structural)]
pub enum TmuxMode {
    /// A private, stripped-down server without the user's tmux configuration.
    Minimal,
    /// A server that keeps the user's tmux configuration.
    Workspace,
}

/// A popup's width and height: a positive number of cells or `1%`..`100%`.
#[derive(Debug)]
pub struct PopupSize {
    pub width: String,
    pub height: String,
}

impl Clone for PopupSize {
    fn clone(&self) -> (r: Self)
        ensures
            r == *self,
    {
        PopupSize { width: self.width.clone(), height: self.height.clone() }
    }
}

impl PartialEq for PopupSize {
    fn eq(&self, other: &Self) -> (r: bool) {
        self.width == other.width && self.height == other.height
    }
}

impl vstd::std_specs::cmp::PartialEqSpecImpl for PopupSize {
    open spec fn obeys_eq_spec() -> bool {
        true
    }

    open spec fn eq_spec(&self, other: &Self) -> bool {
        self.width@ == other.width@ && self.height@ == other.height@
    }
}

/// One scratch as the configuration file defines it.
#[derive(Debug)]
pub struct ScratchDefinition {
    pub command: Vec<String>,
    pub shell: bool,
    pub clear_tmux_env: bool,
    pub tmux_mode: TmuxMode,
    pub tmux_prefix: Option<String>,
    pub tmx_type: Option<String>,
    pub key: Option<String>,
    pub popup: Option<PopupSize>,
}

/// The client widths a profile applies to (both bounds inclusive).
#[derive(Debug, Clone, Copy)]
pub struct ProfileMatch {
    pub min_client_width: Option<u16>,
    pub max_client_width: Option<u16>,
}

/// Popup sizes that apply when the client width matches.
#[derive(Debug)]
pub struct Profile {
    pub name: String,
    pub selector: ProfileMatch,
    pub popups: NameMap<PopupSize>,
}

/// The whole scratch configuration.
#[derive(Debug)]
pub struct Config {
    pub default_popup: PopupSize,
    pub scratches: NameMap<ScratchDefinition>,
    pub profiles: Vec<Profile>,
}

/// A scratch resolved for launching.
#[derive(Debug)]
pub struct ResolvedScratch {
    pub name: String,
    pub command: Vec<String>,
    pub tmx_type: String,
    pub clear_tmux_env: bool,
    pub tmux_mode: TmuxMode,
    pub tmux_prefix: Option<String>,
    pub key: Option<String>,
}

impl Clone for ResolvedScratch {
    fn clone(&self) -> (r: Self)
        ensures
            r@ == self@,
    {
        ResolvedScratch {
            name: self.name.clone(),
            command: clone_strings(&self.command),
            tmx_type: self.tmx_type.clone(),
            clear_tmux_env: self.clear_tmux_env,
            tmux_mode: self.tmux_mode,
            tmux_prefix: clone_opt_string(&self.tmux_prefix),
            key: clone_opt_string(&self.key),
        }
    }
}

/// The mathematical form of a [`ResolvedScratch`].
pub struct ScratchView {
    pub name: Seq<char>,
    pub command: Seq<Seq<char>>,
    pub tmx_type: Seq<char>,
    pub clear_tmux_env: bool,
    pub tmux_mode: TmuxMode,
    pub tmux_prefix: Option<Seq<char>>,
    pub key: Option<Seq<char>>,
}

impl View for ResolvedScratch {
    type V = ScratchView;

    open spec fn view(&self) -> ScratchView {
        ScratchView {
            name: self.name@,
            command: views(self.command@),
            tmx_type: self.tmx_type@,
            clear_tmux_env: self.clear_tmux_env,
            tmux_mode: self.tmux_mode,
            tmux_prefix: self.tmux_prefix.deep_view(),
            key: self.key.deep_view(),
        }
    }
}

/// The popup size chosen for a scratch, and the profile that chose it.
#[derive(Debug)]
pub struct ResolvedPopup {
    pub size: PopupSize,
    pub profile: Option<String>,
}

/// The dimension of a popup size.
#[derive(Debug, Clone, Copy, PartialEq, Eq, Structural)]
pub enum Dimension {
    Width,
    Height,
}

/// Why a configuration is refused, or a scratch cannot be resolved.
#[derive(Debug)]
pub enum ConfigError {
    InvalidPopupSize { dimension: Dimension, value: String },
    NoScratches,
    InvalidScratchName { name: String },
    ShellAndCommand { name: String },
    MissingCommand { name: String },
    EmptyCommandArgument { name: String },
    WorkspaceWithoutPrefix { name: String },
    InvalidTmuxPrefix { name: String, cause: PrefixError },
    EmptyProfileName,
    ProfileWidthRange { profile: String },
    UnknownProfileScratch { profile: String, name: String },
    UnknownScratch { name: String },
    InvalidKey { cause: PrefixError },
}

/// The mathematical form of a [`ConfigError`].
pub enum ConfigFault {
    InvalidPopupSize(Dimension, Seq<char>),
    NoScratches,
    InvalidScratchName(Seq<char>),
    ShellAndCommand(Seq<char>),
    MissingCommand(Seq<char>),
    EmptyCommandArgument(Seq<char>),
    WorkspaceWithoutPrefix(Seq<char>),
    InvalidTmuxPrefix(Seq<char>, PrefixFault),
    EmptyProfileName,
    ProfileWidthRange(Seq<char>),
    UnknownProfileScratch(Seq<char>, Seq<char>),
    UnknownScratch(Seq<char>),
    InvalidKey(PrefixFault),
}

impl View for ConfigError {
    type V = ConfigFault;

    open spec fn view(&self) -> ConfigFault {
        match self {
            ConfigError::InvalidPopupSize { dimension, value } => ConfigFault::InvalidPopupSize(
                *dimension,
                value@,
            ),
            ConfigError::NoScratches => ConfigFault::NoScratches,
            ConfigError::InvalidScratchName { name } => ConfigFault::InvalidScratchName(name@),
            ConfigError::ShellAndCommand { name } => ConfigFault::ShellAndCommand(name@),
            ConfigError::MissingCommand { name } => ConfigFault::MissingCommand(name@),
            ConfigError::EmptyCommandArgument { name } => ConfigFault::EmptyCommandArgument(name@),
            ConfigError::WorkspaceWithoutPrefix { name } => ConfigFault::WorkspaceWithoutPrefix(
                name@,
            ),
            ConfigError::InvalidTmuxPrefix { name, cause } => ConfigFault::InvalidTmuxPrefix(
                name@,
                cause@,
            ),
            ConfigError::EmptyProfileName => ConfigFault::EmptyProfileName,
            ConfigError::ProfileWidthRange { profile } => ConfigFault::ProfileWidthRange(profile@),
            ConfigError::UnknownProfileScratch { profile, name } =>
                ConfigFault::UnknownProfileScratch(profile@, name@),
            ConfigError::UnknownScratch { name } => ConfigFault::UnknownScratch(name@),
            ConfigError::InvalidKey { cause } => ConfigFault::InvalidKey(cause@),
        }
    }
}

impl Dimension {
    /// `width` or `height`.
    pub open spec fn name_spec(self) -> Seq<char> {
        match self {
            Dimension::Width => "width"@,
            Dimension::Height => "height"@,
        }
    }
}

impl ConfigError {
    /// The text that describes the error.
    pub open spec fn message_spec(&self) -> Seq<char> {
        match self {
            ConfigError::InvalidPopupSize { dimension, value } => "popup "@ + dimension.name_spec()
                + " `"@ + value@ + "` must be positive cells or 1%-100%"@,
            ConfigError::NoScratches => "at least one scratch definition is required"@,
            ConfigError::InvalidScratchName { name } => "scratch name `"@ + name@
                + "` may contain only letters, numbers, `_`, and `-`"@,
            ConfigError::ShellAndCommand { name } => "scratch `"@ + name@
                + "` cannot set both `shell` and `command`"@,
            ConfigError::MissingCommand { name } => "scratch `"@ + name@
                + "` must set `shell: true` or `command`"@,
            ConfigError::EmptyCommandArgument { name } => "scratch `"@ + name@
                + "` contains an empty command argument"@,
            ConfigError::WorkspaceWithoutPrefix { name } => "scratch `"@ + name@
                + "` workspace mode requires `tmux_prefix`"@,
            ConfigError::InvalidTmuxPrefix { name, cause } => "scratch `"@ + name@
                + "` has invalid `tmux_prefix`: "@ + cause.message_spec(),
            ConfigError::EmptyProfileName => "profile name cannot be empty"@,
            ConfigError::ProfileWidthRange { profile } => "profile `"@ + profile@
                + "` has min width above max width"@,
            ConfigError::UnknownProfileScratch { profile, name } => "profile `"@ + profile@
                + "` references unknown scratch `"@ + name@ + "`"@,
            ConfigError::UnknownScratch { name } => "unknown scratch `"@ + name@ + "`"@,
            ConfigError::InvalidKey { cause } => cause.message_spec(),
        }
    }

    /// The text that describes the error.
    pub fn message(&self) -> (m: String)
        ensures
            m@ == self.message_spec(),
    {
        match self {
            ConfigError::InvalidPopupSize { dimension, value } => {
                let mut m = owned("popup ");
                match dimension {
                    Dimension::Width => m.append("width"),
                    Dimension::Height => m.append("height"),
                }
                m.append(" `");
                m.append(value.as_str());
                m.append("` must be positive cells or 1%-100%");
                m
            },
            ConfigError::NoScratches => owned("at least one scratch definition is required"),
            ConfigError::InvalidScratchName { name } => concat3(
                "scratch name `",
                name.as_str(),
                "` may contain only letters, numbers, `_`, and `-`",
            ),
            ConfigError::ShellAndCommand { name } => concat3(
                "scratch `",
                name.as_str(),
                "` cannot set both `shell` and `command`",
            ),
            ConfigError::MissingCommand { name } => concat3(
                "scratch `",
                name.as_str(),
                "` must set `shell: true` or `command`",
            ),
            ConfigError::EmptyCommandArgument { name } => concat3(
                "scratch `",
                name.as_str(),
                "` contains an empty command argument",
            ),
            ConfigError::WorkspaceWithoutPrefix { name } => concat3(
                "scratch `",
                name.as_str(),
                "` workspace mode requires `tmux_prefix`",
            ),
            ConfigError::InvalidTmuxPrefix { name, cause } => {
                let mut m = concat3("scratch `", name.as_str(), "` has invalid `tmux_prefix`: ");
                let detail = cause.message();
                m.append(detail.as_str());
                m
            },
            ConfigError::EmptyProfileName => owned("profile name cannot be empty"),
            ConfigError::ProfileWidthRange { profile } => concat3(
                "profile `",
                profile.as_str(),
                "` has min width above max width",
            ),
            ConfigError::UnknownProfileScratch { profile, name } => {
                let mut m = concat3("profile `", profile.as_str(), "` references unknown scratch `");
                m.append(name.as_str());
                m.append("`");
                m
            },
            ConfigError::UnknownScratch { name } => concat3("unknown scratch `", name.as_str(), "`"),
            ConfigError::InvalidKey { cause } => cause.message(),
        }
    }
}

/// `None` for success, the fault for an error.
pub open spec fn fault_of(r: Result<(), ConfigError>) -> Option<ConfigFault> {
    match r {
        Ok(()) => None,
        Err(e) => Some(e@),
    }
}

// ---------------------------------------------------------------------------
// Validation rules
// ---------------------------------------------------------------------------

/// A popup dimension: a positive cell count, or a percentage from 1 to 100.
pub open spec fn valid_popup_value(v: Seq<char>) -> bool {
    if v.len() > 0 && v.last() == '%' {
        match parse_unsigned(v.drop_last(), 65535) {
            Some(n) => 1 <= n <= 100,
            None => false,
        }
    } else {
        match parse_unsigned(v, 65535) {
            Some(n) => n > 0,
            None => false,
        }
    }
}

pub open spec fn popup_fault(p: PopupSize) -> Option<ConfigFault> {
    if !valid_popup_value(p.width@) {
        Some(ConfigFault::InvalidPopupSize(Dimension::Width, p.width@))
    } else if !valid_popup_value(p.height@) {
        Some(ConfigFault::InvalidPopupSize(Dimension::Height, p.height@))
    } else {
        None
    }
}

/// Scratch names hold only ASCII letters, digits, `_` and `-`.
pub open spec fn valid_name(name: Seq<char>) -> bool {
    name.len() > 0 && forall|i: int|
        0 <= i < name.len() ==> is_ascii_alphanumeric(#[trigger] name[i]) || name[i] == '_'
            || name[i] == '-'
}

pub open spec fn scratch_fault(name: Seq<char>, d: ScratchDefinition) -> Option<ConfigFault> {
    if !valid_name(name) {
        Some(ConfigFault::InvalidScratchName(name))
    } else if d.shell && d.command@.len() > 0 {
        Some(ConfigFault::ShellAndCommand(name))
    } else if !d.shell && d.command@.len() == 0 {
        Some(ConfigFault::MissingCommand(name))
    } else if exists|i: int| 0 <= i < d.command@.len() && (#[trigger] d.command@[i])@.len() == 0 {
        Some(ConfigFault::EmptyCommandArgument(name))
    } else if d.tmux_mode == TmuxMode::Workspace && d.tmux_prefix is None {
        Some(ConfigFault::WorkspaceWithoutPrefix(name))
    } else {
        match d.tmux_prefix {
            Some(p) if normalize_key(p@) is Err => Some(
                ConfigFault::InvalidTmuxPrefix(name, normalize_key(p@)->Err_0),
            ),
            _ => match d.popup {
                Some(p) => popup_fault(p),
                None => None,
            },
        }
    }
}

/// The first fault that `check` finds in `s`, checking in order.
pub open spec fn first_fault<T>(s: Seq<T>, check: spec_fn(T) -> Option<ConfigFault>) -> Option<
    ConfigFault,
>
    decreases s.len(),
{
    if s.len() == 0 {
        None
    } else {
        match first_fault(s.drop_last(), check) {
            Some(f) => Some(f),
            None => check(s.last()),
        }
    }
}

pub open spec fn scratch_check() -> spec_fn((String, ScratchDefinition)) -> Option<ConfigFault> {
    |e: (String, ScratchDefinition)| scratch_fault(e.0@, e.1)
}

pub open spec fn profile_popup_check(profile: Seq<char>, scratches: NameMap<ScratchDefinition>) -> spec_fn(
    (String, PopupSize),
) -> Option<ConfigFault> {
    |e: (String, PopupSize)|
        if scratches.get_spec(e.0@) is None {
            Some(ConfigFault::UnknownProfileScratch(profile, e.0@))
        } else {
            popup_fault(e.1)
        }
}

pub open spec fn profile_fault(p: Profile, scratches: NameMap<ScratchDefinition>) -> Option<
    ConfigFault,
> {
    if trimmed(p.name@).len() == 0 {
        Some(ConfigFault::EmptyProfileName)
    } else if p.selector.min_client_width is Some && p.selector.max_client_width is Some
        && p.selector.min_client_width->0 > p.selector.max_client_width->0 {
        Some(ConfigFault::ProfileWidthRange(p.name@))
    } else {
        first_fault(p.popups.entries(), profile_popup_check(p.name@, scratches))
    }
}

pub open spec fn profile_check(scratches: NameMap<ScratchDefinition>) -> spec_fn(Profile) -> Option<
    ConfigFault,
> {
    |p: Profile| profile_fault(p, scratches)
}

/// The first rule that `c` breaks: the default popup, then each scratch in
/// name order, then each profile in order.
pub open spec fn config_fault(c: Config) -> Option<ConfigFault> {
    match popup_fault(c.default_popup) {
        Some(f) => Some(f),
        None => if c.scratches.entries().len() == 0 {
            Some(ConfigFault::NoScratches)
        } else {
            match first_fault(c.scratches.entries(), scratch_check()) {
                Some(f) => Some(f),
                None => first_fault(c.profiles@, profile_check(c.scratches)),
            }
        },
    }
}

pub proof fn lemma_first_fault_persists<T>(
    s: Seq<T>,
    check: spec_fn(T) -> Option<ConfigFault>,
    k: int,
)
    requires
        0 <= k <= s.len(),
        first_fault(s.take(k), check) is Some,
    ensures
        first_fault(s, check) == first_fault(s.take(k), check),
    decreases s.len() - k,
{
    if k < s.len() {
        assert(s.drop_last().take(k) =~= s.take(k));
        lemma_first_fault_persists(s.drop_last(), check, k);
    } else {
        assert(s.take(k) =~= s);
    }
}

/// When no fault is found, no element has one.
pub proof fn lemma_first_fault_none<T>(s: Seq<T>, check: spec_fn(T) -> Option<ConfigFault>, i: int)
    requires
        first_fault(s, check) is None,
        0 <= i < s.len(),
    ensures
        check(s[i]) is None,
    decreases s.len(),
{
    if i < s.len() - 1 {
        lemma_first_fault_none(s.drop_last(), check, i);
    }
}

proof fn lemma_first_fault_step<T>(s: Seq<T>, check: spec_fn(T) -> Option<ConfigFault>, i: int)
    requires
        0 <= i < s.len(),
        first_fault(s.take(i), check) is None,
    ensures
        first_fault(s.take(i + 1), check) == check(s[i]),
{
    assert(s.take(i + 1).drop_last() =~= s.take(i));
}

// ---------------------------------------------------------------------------
// Resolution rules
// ---------------------------------------------------------------------------

/// The shell `scratch` starts when the login shell is unknown.
pub open spec fn fallback_shell() -> Seq<char> {
    "/bin/sh"@
}

/// The wrapper that removes tmux's variables from the environment.
pub open spec fn clear_tmux_env_wrapper() -> Seq<Seq<char>> {
    seq!["env"@, "-u"@, "TMUX"@, "-u"@, "TMUX_PANE"@, "-u"@, "TMUX_TMPDIR"@]
}

/// The command a scratch runs: a login shell or its own command, wrapped
/// to clear tmux's variables when asked.
pub open spec fn scratch_command(d: ScratchDefinition, shell: Option<Seq<char>>) -> Seq<Seq<char>> {
    let base = if d.shell {
        seq![
            match shell {
                Some(s) => s,
                None => fallback_shell(),
            },
            "-l"@,
        ]
    } else {
        views(d.command@)
    };
    if d.clear_tmux_env {
        clear_tmux_env_wrapper() + base
    } else {
        base
    }
}

/// What resolving the scratch `name` gives; `shell` is the login shell
/// (`$SHELL`), when known.
pub open spec fn resolve_scratch(c: Config, name: Seq<char>, shell: Option<Seq<char>>) -> Result<
    ScratchView,
    ConfigFault,
> {
    match c.scratches.get_spec(name) {
        None => Err(ConfigFault::UnknownScratch(name)),
        Some(d) => {
            let view = ScratchView {
                name: name,
                command: scratch_command(d, shell),
                tmx_type: match d.tmx_type {
                    Some(t) => t@,
                    None => name,
                },
                clear_tmux_env: d.clear_tmux_env,
                tmux_mode: d.tmux_mode,
                tmux_prefix: None,
                key: d.key.deep_view(),
            };
            match d.tmux_prefix {
                None => Ok(view),
                Some(p) => match normalize_key(p@) {
                    Ok(k) => Ok(ScratchView { tmux_prefix: Some(k), ..view }),
                    Err(e) => Err(ConfigFault::InvalidKey(e)),
                },
            }
        },
    }
}

pub open spec fn scratch_result_view(r: Result<ResolvedScratch, ConfigError>) -> Result<
    ScratchView,
    ConfigFault,
> {
    match r {
        Ok(s) => Ok(s@),
        Err(e) => Err(e@),
    }
}

/// Whether a profile applies to a client of `width` columns.
pub open spec fn profile_matches(m: ProfileMatch, width: u16) -> bool {
    (match m.min_client_width {
        Some(min) => width >= min,
        None => true,
    }) && (match m.max_client_width {
        Some(max) => width <= max,
        None => true,
    })
}

/// The position of the first profile that applies to `width`.
pub open spec fn first_matching_profile(profiles: Seq<Profile>, width: u16) -> Option<int>
    decreases profiles.len(),
{
    if profiles.len() == 0 {
        None
    } else {
        match first_matching_profile(profiles.drop_last(), width) {
            Some(i) => Some(i),
            None => if profile_matches(profiles.last().selector, width) {
                Some(profiles.len() - 1)
            } else {
                None
            },
        }
    }
}

/// The size and profile chosen for the scratch `name`.
pub open spec fn resolve_popup(c: Config, name: Seq<char>, client_width: Option<u16>) -> Result<
    (PopupSize, Option<Seq<char>>),
    ConfigFault,
> {
    match c.scratches.get_spec(name) {
        None => Err(ConfigFault::UnknownScratch(name)),
        Some(d) => {
            let base = match d.popup {
                Some(p) => p,
                None => c.default_popup,
            };
            match client_width {
                None => Ok((base, None)),
                Some(w) => match first_matching_profile(c.profiles@, w) {
                    None => Ok((base, None)),
                    Some(i) => {
                        let p = c.profiles@[i];
                        Ok(
                            (
                                match p.popups.get_spec(name) {
                                    Some(s) => s,
                                    None => base,
                                },
                                Some(p.name@),
                            ),
                        )
                    },
                },
            }
        },
    }
}

pub open spec fn popup_result_view(r: Result<ResolvedPopup, ConfigError>) -> Result<
    (PopupSize, Option<Seq<char>>),
    ConfigFault,
> {
    match r {
        Ok(p) => Ok((p.size, p.profile.deep_view())),
        Err(e) => Err(e@),
    }
}

/// The hide keys of the scratches, in name order, for those that have one.
pub open spec fn scratch_keys(entries: Seq<(String, ScratchDefinition)>) -> Seq<Seq<char>>
    decreases entries.len(),
{
    if entries.len() == 0 {
        Seq::<Seq<char>>::empty()
    } else {
        let rest = scratch_keys(entries.drop_last());
        match entries.last().1.key {
            Some(k) => rest.push(k@),
            None => rest,
        }
    }
}

/// The hide keys of the named scratches, in the order given, for those that
/// resolve to a scratch with a key.
pub open spec fn keys_of(c: Config, names: Seq<Seq<char>>) -> Seq<Seq<char>>
    decreases names.len(),
{
    if names.len() == 0 {
        Seq::<Seq<char>>::empty()
    } else {
        let rest = keys_of(c, names.drop_last());
        match resolve_scratch(c, names.last(), None) {
            Ok(s) => match s.key {
                Some(k) => rest.push(k),
                None => rest,
            },
            Err(_) => rest,
        }
    }
}

proof fn lemma_scratch_keys_follow_names(c: Config, k: int)
    requires
        config_fault(c) is None,
        ascending(c.scratches.names()),
        0 <= k <= c.scratches.entries().len(),
    ensures
        scratch_keys(c.scratches.entries().take(k)) == keys_of(c, c.scratches.names().take(k)),
    decreases k,
{
    let entries = c.scratches.entries();
    let names = c.scratches.names();
    if k == 0 {
        assert(entries.take(0) =~= Seq::<(String, ScratchDefinition)>::empty());
        assert(names.take(0) =~= Seq::<Seq<char>>::empty());
    } else {
        lemma_scratch_keys_follow_names(c, k - 1);
        assert(entries.take(k).drop_last() =~= entries.take(k - 1));
        assert(names.take(k).drop_last() =~= names.take(k - 1));
        let name = names[k - 1];
        assert(names.take(k).last() == name);
        assert(name == entries[k - 1].0@);
        assert forall|i: int| 0 <= i < k - 1 implies entries[i].0@ != name by {
            assert(names[i] == entries[i].0@);
            assert(chars_lt(names[i], names[k - 1]));
            lemma_chars_lt_irreflexive(name);
        }
        lemma_lookup_index(entries, name, k - 1);
        lemma_valid_config_resolves_scratches(c, name, None);
    }
}

// ---------------------------------------------------------------------------
// Executable checks
// ---------------------------------------------------------------------------

fn popup_value_is_valid(v: &str) -> (r: bool)
    ensures
        r == valid_popup_value(v@),
{
    let n = v.unicode_len();
    if n > 0 && v.get_char(n - 1) == '%' {
        let digits = v.substring_char(0, n - 1);
        assert(digits@ =~= v@.drop_last());
        match parse_unsigned_str(digits, 65535) {
            Some(number) => number >= 1 && number <= 100,
            None => false,
        }
    } else {
        match parse_unsigned_str(v, 65535) {
            Some(number) => number > 0,
            None => false,
        }
    }
}

/// Checks that both dimensions of a popup size are valid.
pub fn validate_popup(popup: &PopupSize) -> (res: Result<(), ConfigError>)
    ensures
        fault_of(res) == popup_fault(*popup),
{
    if !popup_value_is_valid(popup.width.as_str()) {
        return Err(
            ConfigError::InvalidPopupSize {
                dimension: Dimension::Width,
                value: popup.width.clone(),
            },
        );
    }
    if !popup_value_is_valid(popup.height.as_str()) {
        return Err(
            ConfigError::InvalidPopupSize {
                dimension: Dimension::Height,
                value: popup.height.clone(),
            },
        );
    }
    Ok(())
}

/// Whether `name` may name a scratch.
pub fn valid_scratch_name(name: &str) -> (r: bool)
    ensures
        r == valid_name(name@),
{
    let n = name.unicode_len();
    if n == 0 {
        return false;
    }
    for i in 0..n
        invariant
            n == name@.len(),
            forall|j: int|
                0 <= j < i ==> is_ascii_alphanumeric(#[trigger] name@[j]) || name@[j] == '_'
                    || name@[j] == '-',
    {
        let c = name.get_char(i);
        if !(char_is_ascii_alphanumeric(c) || c == '_' || c == '-') {
            return false;
        }
    }
    true
}

fn has_empty_argument(command: &Vec<String>) -> (r: bool)
    ensures
        r == exists|i: int| 0 <= i < command@.len() && (#[trigger] command@[i])@.len() == 0,
{
    let n = command.len();
    for i in 0..n
        invariant
            n == command@.len(),
            forall|j: int| 0 <= j < i ==> (#[trigger] command@[j])@.len() != 0,
    {
        if command[i].as_str().unicode_len() == 0 {
            assert(command@[i as int]@.len() == 0);
            return true;
        }
    }
    false
}

fn validate_scratch(name: &String, d: &ScratchDefinition) -> (res: Result<(), ConfigError>)
    ensures
        fault_of(res) == scratch_fault(name@, *d),
{
    if !valid_scratch_name(name.as_str()) {
        return Err(ConfigError::InvalidScratchName { name: name.clone() });
    }
    if d.shell && d.command.len() > 0 {
        return Err(ConfigError::ShellAndCommand { name: name.clone() });
    }
    if !d.shell && d.command.len() == 0 {
        return Err(ConfigError::MissingCommand { name: name.clone() });
    }
    if has_empty_argument(&d.command) {
        return Err(ConfigError::EmptyCommandArgument { name: name.clone() });
    }
    if d.tmux_mode == TmuxMode::Workspace && d.tmux_prefix.is_none() {
        return Err(ConfigError::WorkspaceWithoutPrefix { name: name.clone() });
    }
    if let Some(prefix) = &d.tmux_prefix {
        match normalize_tmux_key(prefix.as_str()) {
            Ok(_) => {},
            Err(cause) => {
                return Err(ConfigError::InvalidTmuxPrefix { name: name.clone(), cause });
            },
        }
    }
    if let Some(popup) = &d.popup {
        return validate_popup(popup);
    }
    Ok(())
}

fn validate_profile(profile: &Profile, scratches: &NameMap<ScratchDefinition>) -> (res: Result<
    (),
    ConfigError,
>)
    ensures
        fault_of(res) == profile_fault(*profile, *scratches),
{
    let trimmed_name = trim(profile.name.as_str());
    if trimmed_name.as_str().unicode_len() == 0 {
        return Err(ConfigError::EmptyProfileName);
    }
    if let Some(min) = profile.selector.min_client_width {
        if let Some(max) = profile.selector.max_client_width {
            if min > max {
                return Err(ConfigError::ProfileWidthRange { profile: profile.name.clone() });
            }
        }
    }
    let ghost check = profile_popup_check(profile.name@, *scratches);
    let ghost entries = profile.popups.entries();
    let n = profile.popups.len();
    assert(entries.take(0) =~= Seq::<(String, PopupSize)>::empty());
    #[verifier::loop_isolation(false)]
    for i in 0..n
        invariant
            n == entries.len(),
            entries == profile.popups.entries(),
            check == profile_popup_check(profile.name@, *scratches),
            first_fault(entries.take(i as int), check) is None,
    {
        proof {
            lemma_first_fault_step(entries, check, i as int);
        }
        let name = profile.popups.name_at(i);
        if !scratches.contains_key(name.as_str()) {
            let err = ConfigError::UnknownProfileScratch {
                profile: profile.name.clone(),
                name: name.clone(),
            };
            proof {
                lemma_first_fault_persists(entries, check, i + 1);
            }
            return Err(err);
        }
        match validate_popup(profile.popups.value_at(i)) {
            Ok(()) => {},
            Err(e) => {
                proof {
                    lemma_first_fault_persists(entries, check, i + 1);
                }
                return Err(e);
            },
        }
    }
    assert(entries.take(n as int) =~= entries);
    Ok(())
}

impl Config {
    /// Checks the configuration against every rule, in the order of
    /// [`config_fault`], and reports the first one it breaks.
    pub fn validate(&self) -> (res: Result<(), ConfigError>)
        ensures
            fault_of(res) == config_fault(*self),
    {
        match validate_popup(&self.default_popup) {
            Ok(()) => {},
            Err(e) => return Err(e),
        }
        if self.scratches.is_empty() {
            return Err(ConfigError::NoScratches);
        }
        let ghost check = scratch_check();
        let ghost entries = self.scratches.entries();
        let n = self.scratches.len();
        assert(entries.take(0) =~= Seq::<(String, ScratchDefinition)>::empty());
        #[verifier::loop_isolation(false)]
        for i in 0..n
            invariant
                n == entries.len(),
                entries == self.scratches.entries(),
                check == scratch_check(),
                first_fault(entries.take(i as int), check) is None,
        {
            proof {
                lemma_first_fault_step(entries, check, i as int);
            }
            match validate_scratch(self.scratches.name_at(i), self.scratches.value_at(i)) {
                Ok(()) => {},
                Err(e) => {
                    proof {
                        lemma_first_fault_persists(entries, check, i + 1);
                    }
                    return Err(e);
                },
            }
        }
        assert(entries.take(n as int) =~= entries);
        let ghost pcheck = profile_check(self.scratches);
        let m = self.profiles.len();
        assert(self.profiles@.take(0) =~= Seq::<Profile>::empty());
        #[verifier::loop_isolation(false)]
        for j in 0..m
            invariant
                m == self.profiles@.len(),
                pcheck == profile_check(self.scratches),
                first_fault(self.profiles@.take(j as int), pcheck) is None,
        {
            proof {
                lemma_first_fault_step(self.profiles@, pcheck, j as int);
            }
            match validate_profile(&self.profiles[j], &self.scratches) {
                Ok(()) => {},
                Err(e) => {
                    proof {
                        lemma_first_fault_persists(self.profiles@, pcheck, j + 1);
                    }
                    return Err(e);
                },
            }
        }
        assert(self.profiles@.take(m as int) =~= self.profiles@);
        Ok(())
    }
}

impl ProfileMatch {
    /// Whether the profile applies to a client of `width` columns.
    pub fn matches(&self, width: u16) -> (r: bool)
        ensures
            r == profile_matches(*self, width),
    {
        let above_min = match self.min_client_width {
            Some(min) => width >= min,
            None => true,
        };
        let below_max = match self.max_client_width {
            Some(max) => width <= max,
            None => true,
        };
        above_min && below_max
    }
}

fn clone_strings(v: &Vec<String>) -> (res: Vec<String>)
    ensures
        res@ == v@,
{
    let mut res: Vec<String> = Vec::new();
    for i in 0..v.len()
        invariant
            res@ == v@.take(i as int),
    {
        res.push(v[i].clone());
        assert(res@ =~= v@.take(i + 1));
    }
    assert(v@.take(v@.len() as int) =~= v@);
    res
}

fn clone_opt_string(v: &Option<String>) -> (res: Option<String>)
    ensures
        res == *v,
{
    match v {
        Some(s) => Some(s.clone()),
        None => None,
    }
}

impl Config {
    /// Resolves the scratch `name`: its command (a login shell runs `shell`,
    /// the value of `$SHELL` when known), its type and its tmux settings.
    pub fn scratch(&self, name: &str, shell: Option<&str>) -> (res: Result<
        ResolvedScratch,
        ConfigError,
    >)
        ensures
            scratch_result_view(res) == resolve_scratch(*self, name@, shell.deep_view()),
    {
        let d = match self.scratches.get(name) {
            Some(d) => d,
            None => return Err(ConfigError::UnknownScratch { name: owned(name) }),
        };
        let mut command: Vec<String> = if d.shell {
            let program = match shell {
                Some(s) => owned(s),
                None => owned("/bin/sh"),
            };
            vec![program, owned("-l")]
        } else {
            clone_strings(&d.command)
        };
        let ghost base = views(command@);
        let ghost spec_base = if d.shell {
            seq![
                match shell.deep_view() {
                    Some(s) => s,
                    None => fallback_shell(),
                },
                "-l"@,
            ]
        } else {
            views(d.command@)
        };
        assert(base =~= spec_base);
        if d.clear_tmux_env {
            let mut wrapper: Vec<String> = vec![
                owned("env"),
                owned("-u"),
                owned("TMUX"),
                owned("-u"),
                owned("TMUX_PANE"),
                owned("-u"),
                owned("TMUX_TMPDIR"),
            ];
            let ghost wrapper_view = views(wrapper@);
            assert(wrapper_view =~= clear_tmux_env_wrapper());
            let ghost before = command@;
            wrapper.append(&mut command);
            command = wrapper;
            assert(views(command@) =~= clear_tmux_env_wrapper() + base);
        }
        assert(views(command@) == scratch_command(*d, shell.deep_view()));
        let tmux_prefix = match &d.tmux_prefix {
            Some(p) => match normalize_tmux_key(p.as_str()) {
                Ok(key) => Some(key),
                Err(cause) => return Err(ConfigError::InvalidKey { cause }),
            },
            None => None,
        };
        let tmx_type = match &d.tmx_type {
            Some(t) => t.clone(),
            None => owned(name),
        };
        Ok(
            ResolvedScratch {
                name: owned(name),
                command,
                tmx_type,
                clear_tmux_env: d.clear_tmux_env,
                tmux_mode: d.tmux_mode,
                tmux_prefix,
                key: clone_opt_string(&d.key),
            },
        )
    }

    /// Chooses the popup size for the scratch `name`: with a client width,
    /// the first profile that applies decides; otherwise, or where that
    /// profile names no size for the scratch, the scratch's own size or the
    /// default one.
    pub fn popup(&self, name: &str, client_width: Option<u16>) -> (res: Result<
        ResolvedPopup,
        ConfigError,
    >)
        ensures
            popup_result_view(res) == resolve_popup(*self, name@, client_width),
    {
        let d = match self.scratches.get(name) {
            Some(d) => d,
            None => return Err(ConfigError::UnknownScratch { name: owned(name) }),
        };
        let base = match &d.popup {
            Some(p) => p.clone(),
            None => self.default_popup.clone(),
        };
        let width = match client_width {
            Some(w) => w,
            None => return Ok(ResolvedPopup { size: base, profile: None }),
        };
        let n = self.profiles.len();
        assert(self.profiles@.take(0) =~= Seq::<Profile>::empty());
        #[verifier::loop_isolation(false)]
        for i in 0..n
            invariant
                n == self.profiles@.len(),
                first_matching_profile(self.profiles@.take(i as int), width) is None,
        {
            assert(self.profiles@.take(i + 1).drop_last() =~= self.profiles@.take(i as int));
            if self.profiles[i].selector.matches(width) {
                proof {
                    lemma_first_match_persists(self.profiles@, width, i + 1);
                }
                let profile = &self.profiles[i];
                let size = match profile.popups.get(name) {
                    Some(s) => s.clone(),
                    None => base,
                };
                return Ok(ResolvedPopup { size, profile: Some(profile.name.clone()) });
            }
        }
        assert(self.profiles@.take(n as int) =~= self.profiles@);
        Ok(ResolvedPopup { size: base, profile: None })
    }
}

proof fn lemma_first_match_persists(profiles: Seq<Profile>, width: u16, k: int)
    requires
        0 <= k <= profiles.len(),
        first_matching_profile(profiles.take(k), width) is Some,
    ensures
        first_matching_profile(profiles, width) == first_matching_profile(profiles.take(k), width),
    decreases profiles.len() - k,
{
    if k < profiles.len() {
        assert(profiles.drop_last().take(k) =~= profiles.take(k));
        lemma_first_match_persists(profiles.drop_last(), width, k);
    } else {
        assert(profiles.take(k) =~= profiles);
    }
}

/// A configuration that satisfies every rule, and the file it came from.
pub struct LoadedConfig {
    path: String,
    config: Config,
}

impl LoadedConfig {
    pub closed spec fn path_spec(&self) -> Seq<char> {
        self.path@
    }

    pub closed spec fn config_spec(&self) -> Config {
        self.config
    }

    /// A loaded configuration breaks no rule.
    #[verifier::type_invariant]
    pub open spec fn valid(self) -> bool {
        config_fault(self.config_spec()) is None
    }

    /// Accepts `config`, read from the file at `path`, when it breaks no rule.
    pub fn new(path: String, config: Config) -> (res: Result<LoadedConfig, ConfigError>)
        ensures
            res is Ok <==> config_fault(config) is None,
            res matches Ok(l) ==> l.path_spec() == path@ && l.config_spec() == config,
            res matches Err(e) ==> config_fault(config) == Some(e@),
    {
        match config.validate() {
            Ok(()) => Ok(LoadedConfig { path, config }),
            Err(e) => Err(e),
        }
    }

    /// The file the configuration came from.
    pub fn path(&self) -> (p: &str)
        ensures
            p@ == self.path_spec(),
    {
        self.path.as_str()
    }

    /// The configuration.
    pub fn config(&self) -> (c: &Config)
        ensures
            *c == self.config_spec(),
    {
        &self.config
    }

    /// Resolves the scratch `name` (see [`Config::scratch`]).
    pub fn scratch(&self, name: &str, shell: Option<&str>) -> (res: Result<
        ResolvedScratch,
        ConfigError,
    >)
        ensures
            scratch_result_view(res) == resolve_scratch(self.config_spec(), name@, shell.deep_view()),
    {
        self.config.scratch(name, shell)
    }

    /// Chooses the popup size for the scratch `name` (see [`Config::popup`]).
    pub fn popup(&self, name: &str, client_width: Option<u16>) -> (res: Result<
        ResolvedPopup,
        ConfigError,
    >)
        ensures
            popup_result_view(res) == resolve_popup(self.config_spec(), name@, client_width),
    {
        self.config.popup(name, client_width)
    }

    /// The scratch names, in ascending order.
    pub fn names(&self) -> (res: Vec<String>)
        ensures
            views(res@) == self.config_spec().scratches.names(),
            ascending(views(res@)),
    {
        proof {
            use_type_invariant(&self.config.scratches);
        }
        let n = self.config.scratches.len();
        let mut res: Vec<String> = Vec::new();
        for i in 0..n
            invariant
                n == self.config.scratches.entries().len(),
                views(res@) == self.config.scratches.names().take(i as int),
        {
            let ghost before = res@;
            let name = self.config.scratches.name_at(i).clone();
            res.push(name);
            assert(self.config.scratches.names()[i as int]
                == self.config.scratches.entries()[i as int].0@);
            assert(views(res@) =~= views(before).push(name@));
            assert(views(res@) =~= self.config.scratches.names().take(i + 1));
        }
        assert(self.config.scratches.names().take(n as int) =~= self.config.scratches.names());
        res
    }

    /// The hide keys of the scratches that define one, in name order.
    pub fn keys(&self) -> (res: Vec<String>)
        ensures
            views(res@) == scratch_keys(self.config_spec().scratches.entries()),
            views(res@) == keys_of(self.config_spec(), self.config_spec().scratches.names()),
    {
        proof {
            use_type_invariant(self);
            use_type_invariant(&self.config.scratches);
            let c = self.config_spec();
            lemma_scratch_keys_follow_names(c, c.scratches.entries().len() as int);
            assert(c.scratches.entries().take(c.scratches.entries().len() as int)
                =~= c.scratches.entries());
            assert(c.scratches.names().take(c.scratches.names().len() as int)
                =~= c.scratches.names());
        }
        let n = self.config.scratches.len();
        let ghost entries = self.config.scratches.entries();
        let mut res: Vec<String> = Vec::new();
        assert(entries.take(0) =~= Seq::<(String, ScratchDefinition)>::empty());
        for i in 0..n
            invariant
                n == entries.len(),
                entries == self.config.scratches.entries(),
                views(res@) == scratch_keys(entries.take(i as int)),
        {
            assert(entries.take(i + 1).drop_last() =~= entries.take(i as int));
            let ghost before = res@;
            match &self.config.scratches.value_at(i).key {
                Some(k) => {
                    res.push(k.clone());
                    assert(views(res@) =~= views(before).push(k@));
                },
                None => {},
            }
        }
        assert(entries.take(n as int) =~= entries);
        res
    }
}

// ---------------------------------------------------------------------------
// Laws of the configuration
// ---------------------------------------------------------------------------

/// Profiles are checked in order and the first that applies wins: the
/// chosen profile applies and none before it does; when none is chosen,
/// none applies.
pub proof fn lemma_first_matching_profile(profiles: Seq<Profile>, width: u16)
    ensures
        match first_matching_profile(profiles, width) {
            Some(i) => 0 <= i < profiles.len() && profile_matches(profiles[i].selector, width)
                && forall|j: int|
                0 <= j < i ==> !profile_matches(#[trigger] profiles[j].selector, width),
            None => forall|j: int|
                0 <= j < profiles.len() ==> !profile_matches(#[trigger] profiles[j].selector, width),
        },
    decreases profiles.len(),
{
    if profiles.len() > 0 {
        let init = profiles.drop_last();
        lemma_first_matching_profile(init, width);
        assert forall|j: int| 0 <= j < init.len() implies init[j] == profiles[j] by {}
    }
}

/// The value stored under a name that occurs among the entries is found.
pub proof fn lemma_lookup_present<V>(entries: Seq<(String, V)>, name: Seq<char>, k: int)
    requires
        0 <= k < entries.len(),
        entries[k].0@ == name,
    ensures
        lookup(entries, name) is Some,
    decreases k,
{
    if k > 0 && entries[0].0@ != name {
        lemma_lookup_present(entries.drop_first(), name, k - 1);
    }
}

/// A configuration that breaks no rule resolves every scratch it defines:
/// only an unknown name makes `scratch` fail.
pub proof fn lemma_valid_config_resolves_scratches(
    c: Config,
    name: Seq<char>,
    shell: Option<Seq<char>>,
)
    requires
        config_fault(c) is None,
        c.scratches.get_spec(name) is Some,
    ensures
        resolve_scratch(c, name, shell) is Ok,
{
    let entries = c.scratches.entries();
    lemma_lookup_some(entries, name);
    let k = choose|k: int|
        0 <= k < entries.len() && entries[k].0@ == name && lookup(entries, name) == Some(
            entries[k].1,
        );
    lemma_first_fault_none(entries, scratch_check(), k);
    assert(scratch_fault(entries[k].0@, entries[k].1) is None);
}

/// In a configuration that breaks no rule, every scratch it defines gets a
/// popup size, and that size is a valid one, whatever the client width.
pub proof fn lemma_valid_config_popups_are_valid(
    c: Config,
    name: Seq<char>,
    client_width: Option<u16>,
)
    requires
        config_fault(c) is None,
        c.scratches.get_spec(name) is Some,
    ensures
        resolve_popup(c, name, client_width) is Ok,
        resolve_popup(c, name, client_width) matches Ok((size, _)) ==> popup_fault(size) is None,
{
    let entries = c.scratches.entries();
    lemma_lookup_some(entries, name);
    let k = choose|k: int|
        0 <= k < entries.len() && entries[k].0@ == name && lookup(entries, name) == Some(
            entries[k].1,
        );
    lemma_first_fault_none(entries, scratch_check(), k);
    assert(scratch_fault(entries[k].0@, entries[k].1) is None);
    if let Some(w) = client_width {
        lemma_first_matching_profile(c.profiles@, w);
        if let Some(i) = first_matching_profile(c.profiles@, w) {
            let p = c.profiles@[i];
            lemma_first_fault_none(c.profiles@, profile_check(c.scratches), i);
            assert(profile_fault(p, c.scratches) is None);
            let popups = p.popups.entries();
            if p.popups.get_spec(name) is Some {
                lemma_lookup_some(popups, name);
                let j = choose|j: int|
                    0 <= j < popups.len() && popups[j].0@ == name && lookup(popups, name) == Some(
                        popups[j].1,
                    );
                lemma_first_fault_none(popups, profile_popup_check(p.name@, c.scratches), j);
            }
        }
    }
}

// ---------------------------------------------------------------------------
// Laws of resolution and validation
// ---------------------------------------------------------------------------

/// A client of `width` columns is within the profile's bounds.
pub open spec fn width_within(m: ProfileMatch, width: u16) -> bool {
    &&& m.min_client_width matches Some(min) ==> min <= width
    &&& m.max_client_width matches Some(max) ==> width <= max
}

/// How a popup size is chosen. Without a client width, and when no profile
/// takes the width, it is the scratch's own size, or the default size when
/// the scratch has none. Otherwise the first profile whose bounds hold the
/// width is chosen, and the size is that profile's size for the scratch, or,
/// when the profile names none, the same size as without a profile.
pub proof fn lemma_popup_choice(c: Config, name: Seq<char>, width: u16)
    requires
        c.scratches.get_spec(name) is Some,
    ensures
        ({
            let d = c.scratches.get_spec(name)->0;
            let own = match d.popup {
                Some(p) => p,
                None => c.default_popup,
            };
            &&& resolve_popup(c, name, None) == Ok::<(PopupSize, Option<Seq<char>>), ConfigFault>(
                (own, None),
            )
            &&& (forall|i: int|
                0 <= i < c.profiles@.len() ==> !width_within(
                    #[trigger] c.profiles@[i].selector,
                    width,
                )) ==> resolve_popup(c, name, Some(width)) == Ok::<
                (PopupSize, Option<Seq<char>>),
                ConfigFault,
            >((own, None))
            &&& forall|i: int|
                0 <= i < c.profiles@.len() && width_within(#[trigger] c.profiles@[i].selector, width)
                    && (forall|j: int|
                    0 <= j < i ==> !width_within(c.profiles@[j].selector, width)) ==> resolve_popup(
                    c,
                    name,
                    Some(width),
                ) == Ok::<(PopupSize, Option<Seq<char>>), ConfigFault>(
                    (
                        match c.profiles@[i].popups.get_spec(name) {
                            Some(size) => size,
                            None => own,
                        },
                        Some(c.profiles@[i].name@),
                    ),
                )
        }),
{
    let profiles = c.profiles@;
    assert forall|i: int| 0 <= i < profiles.len() implies width_within(
        profiles[i].selector,
        width,
    ) == profile_matches(profiles[i].selector, width) by {}
    lemma_first_matching_profile(profiles, width);
    assert forall|i: int|
        0 <= i < profiles.len() && width_within(#[trigger] profiles[i].selector, width) && (forall|
            j: int,
        | 0 <= j < i ==> !width_within(profiles[j].selector, width)) implies first_matching_profile(
        profiles,
        width,
    ) == Some(i) by {
        match first_matching_profile(profiles, width) {
            Some(k) => {
                if k < i {
                    assert(!width_within(profiles[k].selector, width));
                } else if k > i {
                    assert(!profile_matches(profiles[i].selector, width));
                }
            },
            None => {
                assert(!profile_matches(profiles[i].selector, width));
            },
        }
    }
}

/// The command a scratch runs: a shell scratch runs the given login shell
/// (`/bin/sh` when none is known) with `-l`, any other its own command; with
/// `clear_tmux_env` that same command is run under
/// `env -u TMUX -u TMUX_PANE -u TMUX_TMPDIR`, and without it, as it is.
pub proof fn lemma_scratch_command(c: Config, name: Seq<char>, shell: Option<Seq<char>>)
    requires
        resolve_scratch(c, name, shell) is Ok,
    ensures
        ({
            let d = c.scratches.get_spec(name)->0;
            let cmd = resolve_scratch(c, name, shell)->Ok_0.command;
            let program = if d.shell {
                seq![
                    match shell {
                        Some(s) => s,
                        None => "/bin/sh"@,
                    },
                    "-l"@,
                ]
            } else {
                views(d.command@)
            };
            &&& c.scratches.get_spec(name) is Some
            &&& d.clear_tmux_env ==> cmd == seq![
                "env"@,
                "-u"@,
                "TMUX"@,
                "-u"@,
                "TMUX_PANE"@,
                "-u"@,
                "TMUX_TMPDIR"@,
            ] + program
            &&& !d.clear_tmux_env ==> cmd == program
        }),
{
}

/// A scratch name is valid exactly when it is not empty and made only of
/// ASCII letters (either case), ASCII digits, `_` and `-`.
pub proof fn lemma_valid_scratch_names(name: Seq<char>)
    ensures
        valid_name(name) <==> name.len() > 0 && forall|i: int|
            0 <= i < name.len() ==> ({
                let ch = #[trigger] name[i];
                ('a' <= ch && ch <= 'z') || ('A' <= ch && ch <= 'Z') || ('0' <= ch && ch <= '9')
                    || ch == '_' || ch == '-'
            }),
{
}

} // verus!
