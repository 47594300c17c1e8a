//! The private tmux servers that keep scratch sessions alive: session
//! identity, server configuration, the session's environment, and the
//! sequence of tmux commands that (re)creates and attaches a session.
use vstd::prelude::*;

use crate::config::{ResolvedScratch, ScratchView, TmuxMode};
use crate::text::{
    char_is_ascii_alphanumeric, concat, dash_class, decimal, decimal_string, extend_strings,
    is_ascii_alphanumeric, join, lemma_trim_end_shape, lemma_trim_start_shape, join_strings, owned, push_char, trim, trim_dashes, trim_end_matches, trim_matches, trim_start_matches,
    lemma_trim_end, lemma_trim_start, trimmed, views, whitespace_class,
};

verus! {

/// The tmux socket name of the minimal server.
pub const MINIMAL_SERVER_NAME: &'static str = "shadowfax-herdr-scratch";

/// The tmux socket name of the workspace server.
pub const WORKSPACE_SERVER_NAME: &'static str = "shadowfax-herdr-workspace";

/// The hook slot the workspace overlay occupies.
pub const WORKSPACE_HOOK_INDEX: u16 = 999;

/// The version of the session metadata and environment layout.
pub const ENV_VERSION: &'static str = "1";

// ---------------------------------------------------------------------------
// The Herdr server a scratch belongs to
// ---------------------------------------------------------------------------

/// The Herdr server and location the popup was opened from.
#[derive(Debug)]
pub struct HerdrEnvironment {
    socket_path: Option<String>,
    workspace_id: Option<String>,
    tab_id: Option<String>,
}

/// The mathematical form of a [`HerdrEnvironment`].
pub struct HerdrEnvironmentView {
    pub socket_path: Option<Seq<char>>,
    pub workspace_id: Option<Seq<char>>,
    pub tab_id: Option<Seq<char>>,
}

impl View for HerdrEnvironment {
    type V = HerdrEnvironmentView;

    closed spec fn view(&self) -> HerdrEnvironmentView {
        HerdrEnvironmentView {
            socket_path: self.socket_path.deep_view(),
            workspace_id: self.workspace_id.deep_view(),
            tab_id: self.tab_id.deep_view(),
        }
    }
}

/// An environment value, when it is set and not empty.
pub open spec fn nonempty(value: Option<Seq<char>>) -> Option<Seq<char>> {
    match value {
        Some(v) => if v.len() > 0 {
            Some(v)
        } else {
            None
        },
        None => None,
    }
}

fn nonempty_value(value: Option<String>) -> (res: Option<String>)
    ensures
        res.deep_view() == nonempty(value.deep_view()),
{
    match value {
        Some(v) => if v.as_str().unicode_len() > 0 {
            Some(v)
        } else {
            None
        },
        None => None,
    }
}

/// The server identity used when Herdr names no socket.
pub open spec fn default_server_identity() -> Seq<char> {
    "default"@
}

impl HerdrEnvironment {
    /// The environment from the values of `HERDR_SOCKET_PATH`,
    /// `HERDR_WORKSPACE_ID` and `HERDR_TAB_ID`; empty values count as unset.
    pub fn from_process(
        socket_path: Option<String>,
        workspace_id: Option<String>,
        tab_id: Option<String>,
    ) -> (env: HerdrEnvironment)
        ensures
            env@.socket_path == nonempty(socket_path.deep_view()),
            env@.workspace_id == nonempty(workspace_id.deep_view()),
            env@.tab_id == nonempty(tab_id.deep_view()),
    {
        HerdrEnvironment {
            socket_path: nonempty_value(socket_path),
            workspace_id: nonempty_value(workspace_id),
            tab_id: nonempty_value(tab_id),
        }
    }

    /// The Herdr server a session belongs to: its socket, or `default`.
    pub fn server_identity(&self) -> (id: &str)
        ensures
            id@ == server_identity(self@),
    {
        match &self.socket_path {
            Some(path) => path.as_str(),
            None => "default",
        }
    }
}

pub open spec fn server_identity(env: HerdrEnvironmentView) -> Seq<char> {
    match env.socket_path {
        Some(p) => p,
        None => default_server_identity(),
    }
}

// ---------------------------------------------------------------------------
// Session identity
// ---------------------------------------------------------------------------

/// The SHA-256 digest of `data`.
pub uninterp spec fn sha256_digest(data: Seq<u8>) -> Seq<u8>;

/// Calls `sha2::Sha256::digest` (through `sha2::Digest`) on `data`.
/// Claimed: the digest is the one named by `sha256_digest`, 32 bytes long.
#[verifier::external_body]
fn sha256(data: &[u8]) -> (digest: Vec<u8>)
    ensures
        digest@ == sha256_digest(data@),
        digest@.len() == 32,
{
    <sha2::Sha256 as sha2::Digest>::digest(data).to_vec()
}

pub open spec fn hex_digit(n: nat) -> char {
    if n < 10 {
        ((n + 48) as u32) as char
    } else {
        ((n + 87) as u32) as char
    }
}

/// Lower-case hexadecimal, two digits per byte.
pub open spec fn hex(bytes: Seq<u8>) -> Seq<char>
    decreases bytes.len(),
{
    if bytes.len() == 0 {
        Seq::<char>::empty()
    } else {
        hex(bytes.drop_last()) + seq![
            hex_digit((bytes.last() / 16) as nat),
            hex_digit((bytes.last() % 16) as nat),
        ]
    }
}

/// `0`-`9` or `a`-`f`.
pub open spec fn is_lower_hex(c: char) -> bool {
    ('0' <= c && c <= '9') || ('a' <= c && c <= 'f')
}

/// Hexadecimal has two lower-case hex digits per byte.
pub proof fn lemma_hex_shape(bytes: Seq<u8>)
    ensures
        hex(bytes).len() == 2 * bytes.len(),
        forall|i: int| 0 <= i < hex(bytes).len() ==> is_lower_hex(#[trigger] hex(bytes)[i]),
    decreases bytes.len(),
{
    if bytes.len() > 0 {
        lemma_hex_shape(bytes.drop_last());
        let b = bytes.last();
        assert(b / 16 < 16 && b % 16 < 16);
        let h = hex(bytes);
        let prev = hex(bytes.drop_last());
        assert forall|i: int| 0 <= i < h.len() implies is_lower_hex(#[trigger] h[i]) by {
            if i < prev.len() {
                assert(h[i] == prev[i]);
            }
        }
    }
}

/// Twelve hex digits of the SHA-256 digest of the UTF-8 encoding of `value`.
pub open spec fn short_hash_spec(value: Seq<char>) -> Seq<char> {
    hex(sha256_digest(vstd::utf8::encode_utf8(value)).take(6))
}

fn hex_char(n: u8) -> (c: char)
    requires
        n < 16,
    ensures
        c == hex_digit(n as nat),
{
    if n < 10 {
        (n + 48) as char
    } else {
        (n + 87) as char
    }
}

/// A short, stable identity for `value`.
pub fn short_hash(value: &str) -> (res: String)
    ensures
        res@ == short_hash_spec(value@),
        res@.len() == 12,
        forall|i: int| 0 <= i < 12 ==> is_lower_hex(#[trigger] res@[i]),
{
    let digest = sha256(value.as_bytes());
    let mut output = String::new();
    assert(digest@.take(0) =~= Seq::<u8>::empty());
    for i in 0..6
        invariant
            digest@.len() == 32,
            output@ == hex(digest@.take(i as int)),
    {
        let byte = digest[i];
        push_char(&mut output, hex_char(byte / 16));
        push_char(&mut output, hex_char(byte % 16));
        assert(digest@.take(i + 1).drop_last() =~= digest@.take(i as int));
        assert(output@ =~= hex(digest@.take(i + 1)));
    }
    proof {
        lemma_hex_shape(digest@.take(6));
    }
    output
}

pub open spec fn sanitize_char(c: char) -> char {
    if is_ascii_alphanumeric(c) || c == '_' || c == '-' {
        c
    } else {
        '-'
    }
}

/// A pane id made safe for a session name: other characters become `-`,
/// surrounding `-` are dropped, and nothing left gives `pane`.
pub open spec fn sanitized(value: Seq<char>) -> Seq<char> {
    let t = trim_matches(value.map_values(|c: char| sanitize_char(c)), dash_class());
    if t.len() == 0 {
        "pane"@
    } else {
        t
    }
}

/// Makes a pane id safe for a session name.
pub fn sanitize(value: &str) -> (res: String)
    ensures
        res@ == sanitized(value@),
{
    let n = value.unicode_len();
    let mut mapped = String::new();
    for i in 0..n
        invariant
            n == value@.len(),
            mapped@ == value@.take(i as int).map_values(|c: char| sanitize_char(c)),
    {
        let c = value.get_char(i);
        let kept = if char_is_ascii_alphanumeric(c) || c == '_' || c == '-' {
            c
        } else {
            '-'
        };
        push_char(&mut mapped, kept);
        assert(mapped@ =~= value@.take(i + 1).map_values(|c: char| sanitize_char(c)));
    }
    assert(value@.take(n as int) =~= value@);
    let trimmed_value = trim_dashes(mapped.as_str());
    if trimmed_value.as_str().unicode_len() == 0 {
        owned("pane")
    } else {
        trimmed_value
    }
}

/// `hs/<scratch>/<server hash>/<pane>`.
pub open spec fn session_name_spec(
    scratch_name: Seq<char>,
    pane_id: Seq<char>,
    server_identity: Seq<char>,
) -> Seq<char> {
    "hs/"@ + scratch_name + "/"@ + short_hash_spec(server_identity) + "/"@ + sanitized(pane_id)
}

/// A character that may stand in a session name's pane part.
pub open spec fn safe_char(c: char) -> bool {
    is_ascii_alphanumeric(c) || c == '_' || c == '-'
}

/// A pane part of a session name: not empty, only safe characters, and
/// neither starting nor ending with `-`.
pub open spec fn clean_pane_part(r: Seq<char>) -> bool {
    &&& r.len() > 0
    &&& forall|i: int| 0 <= i < r.len() ==> safe_char(#[trigger] r[i])
    &&& r[0] != '-'
    &&& r.last() != '-'
}

proof fn lemma_trimmed_dashes(m: Seq<char>)
    requires
        forall|i: int| 0 <= i < m.len() ==> safe_char(#[trigger] m[i]),
    ensures
        trim_matches(m, dash_class()).len() > 0 ==> clean_pane_part(trim_matches(m, dash_class())),
        trim_matches(m, dash_class()).len() == 0 <==> forall|i: int|
            0 <= i < m.len() ==> #[trigger] m[i] == '-',
{
    let p = dash_class();
    let j = lemma_trim_start_shape(m, p);
    let a = trim_start_matches(m, p);
    let k = lemma_trim_end_shape(a, p);
    let t = trim_matches(m, p);
    assert(t == a.take(k));
    assert forall|i: int| 0 <= i < t.len() implies safe_char(#[trigger] t[i]) by {
        assert(t[i] == m[j + i]);
    }
    if t.len() > 0 {
        assert(t[0] == a[0]);
        assert(!p(a[0]));
        assert(!p(t.last()));
    }
    if t.len() == 0 {
        if a.len() > 0 {
            assert(!p(a[0]));
            assert(p(a[0]));
        }
        assert forall|i: int| 0 <= i < m.len() implies #[trigger] m[i] == '-' by {
            assert(p(m[i]));
        }
    } else {
        assert(t[0] != '-');
        assert(m[j] == t[0]);
    }
}

/// `sanitize` in closed form: a value with no ASCII letter, digit or `_`
/// becomes `pane`; any other value becomes its characters with each unsafe
/// one replaced by `-`, surrounding `-` dropped. Either way the result is a
/// clean pane part, and sanitizing it again changes nothing.
pub proof fn lemma_sanitized_shape(value: Seq<char>)
    ensures
        (forall|i: int|
            0 <= i < value.len() ==> !(is_ascii_alphanumeric(#[trigger] value[i]) || value[i]
                == '_')) ==> sanitized(value) == "pane"@,
        (exists|i: int|
            0 <= i < value.len() && (is_ascii_alphanumeric(#[trigger] value[i]) || value[i]
                == '_')) ==> sanitized(value) == trim_matches(
            value.map_values(|c: char| sanitize_char(c)),
            dash_class(),
        ),
        clean_pane_part(sanitized(value)),
        sanitized(sanitized(value)) == sanitized(value),
{
    reveal_strlit("pane");
    let m = value.map_values(|c: char| sanitize_char(c));
    assert forall|i: int| 0 <= i < m.len() implies safe_char(#[trigger] m[i]) by {
        assert(m[i] == sanitize_char(value[i]));
    }
    lemma_trimmed_dashes(m);
    if exists|i: int|
        0 <= i < value.len() && (is_ascii_alphanumeric(#[trigger] value[i]) || value[i] == '_') {
        let i = choose|i: int|
            0 <= i < value.len() && (is_ascii_alphanumeric(#[trigger] value[i]) || value[i]
                == '_');
        assert(m[i] == value[i]);
        assert(m[i] != '-');
    }
    if forall|i: int|
        0 <= i < value.len() ==> !(is_ascii_alphanumeric(#[trigger] value[i]) || value[i] == '_') {
        assert forall|i: int| 0 <= i < m.len() implies #[trigger] m[i] == '-' by {
            assert(m[i] == sanitize_char(value[i]));
        }
    }
    let r = sanitized(value);
    assert(clean_pane_part("pane"@));
    assert(clean_pane_part(r));
    lemma_clean_part_is_fixed(r);
}

proof fn lemma_clean_part_is_fixed(r: Seq<char>)
    requires
        clean_pane_part(r),
    ensures
        sanitized(r) == r,
{
    let p = dash_class();
    let m = r.map_values(|c: char| sanitize_char(c));
    assert(m =~= r) by {
        assert forall|i: int| 0 <= i < r.len() implies m[i] == r[i] by {
            assert(safe_char(r[i]));
        }
    }
    assert(!p(r[0]));
    assert(trim_start_matches(r, p) == r);
    assert(!p(r.last()));
    assert(trim_end_matches(r, p) == r);
}

/// The session of a scratch, for one source pane on one Herdr server.
pub fn session_name(scratch_name: &str, pane_id: &str, server_identity: &str) -> (res: String)
    ensures
        res@ == session_name_spec(scratch_name@, pane_id@, server_identity@),
{
    let mut name = owned("hs/");
    name.append(scratch_name);
    name.append("/");
    let hash = short_hash(server_identity);
    name.append(hash.as_str());
    name.append("/");
    let pane = sanitize(pane_id);
    name.append(pane.as_str());
    name
}

/// A tmux target that matches the session name exactly.
pub open spec fn exact_target_spec(name: Seq<char>) -> Seq<char> {
    "="@ + name
}

pub fn exact_target(name: &str) -> (res: String)
    ensures
        res@ == exact_target_spec(name@),
{
    concat("=", name)
}

// ---------------------------------------------------------------------------
// Server configuration
// ---------------------------------------------------------------------------

/// The tmux arguments that select a mode's server.
pub open spec fn tmux_args_spec(mode: TmuxMode) -> Seq<Seq<char>> {
    match mode {
        TmuxMode::Minimal => seq![
            "-L"@,
            "shadowfax-herdr-scratch"@,
            "-f"@,
            "/dev/null"@,
        ],
        TmuxMode::Workspace => seq!["-L"@, "shadowfax-herdr-workspace"@],
    }
}

pub fn tmux_args(mode: TmuxMode) -> (args: Vec<String>)
    ensures
        views(args@) == tmux_args_spec(mode),
{
    match mode {
        TmuxMode::Minimal => {
            let args = vec![owned("-L"), owned(MINIMAL_SERVER_NAME), owned("-f"), owned("/dev/null")];
            assert(views(args@) =~= tmux_args_spec(mode));
            args
        },
        TmuxMode::Workspace => {
            let args = vec![owned("-L"), owned(WORKSPACE_SERVER_NAME)];
            assert(views(args@) =~= tmux_args_spec(mode));
            args
        },
    }
}

/// The views of a sequence of commands.
pub open spec fn command_views(commands: Seq<Vec<String>>) -> Seq<Seq<Seq<char>>> {
    commands.map_values(|c: Vec<String>| views(c@))
}

/// Commands in one tmux invocation, separated by `;` (a separator goes
/// before a command only when some argument came before it).
pub open spec fn flatten(commands: Seq<Seq<Seq<char>>>) -> Seq<Seq<char>>
    decreases commands.len(),
{
    if commands.len() == 0 {
        Seq::<Seq<char>>::empty()
    } else {
        let prev = flatten(commands.drop_last());
        if prev.len() > 0 {
            prev + seq![";"@] + commands.last()
        } else {
            commands.last()
        }
    }
}

/// The arguments of an invocation split at each `;` argument, as tmux
/// splits its command line into commands (always at least one piece).
pub open spec fn split_commands(args: Seq<Seq<char>>) -> Seq<Seq<Seq<char>>>
    decreases args.len(),
{
    if args.len() == 0 {
        seq![Seq::<Seq<char>>::empty()]
    } else if args.last() == ";"@ {
        split_commands(args.drop_last()).push(Seq::<Seq<char>>::empty())
    } else {
        let pieces = split_commands(args.drop_last());
        pieces.update(pieces.len() - 1, pieces.last().push(args.last()))
    }
}

/// The number of arguments of all commands together.
pub open spec fn total_len(commands: Seq<Seq<Seq<char>>>) -> nat
    decreases commands.len(),
{
    if commands.len() == 0 {
        0
    } else {
        total_len(commands.drop_last()) + commands.last().len()
    }
}

/// Every command has an argument and no argument is the separator itself.
pub open spec fn separable(commands: Seq<Seq<Seq<char>>>) -> bool {
    forall|i: int|
        0 <= i < commands.len() ==> #[trigger] commands[i].len() > 0 && !commands[i].contains(
            ";"@,
        )
}

proof fn lemma_split_commands_nonempty(args: Seq<Seq<char>>)
    ensures
        split_commands(args).len() >= 1,
    decreases args.len(),
{
    if args.len() > 0 {
        lemma_split_commands_nonempty(args.drop_last());
    }
}

proof fn lemma_split_commands_extend(x: Seq<Seq<char>>, c: Seq<Seq<char>>)
    requires
        !c.contains(";"@),
    ensures
        ({
            let pieces = split_commands(x);
            split_commands(x + c) == pieces.update(pieces.len() - 1, pieces.last() + c)
        }),
    decreases c.len(),
{
    lemma_split_commands_nonempty(x);
    let pieces = split_commands(x);
    if c.len() == 0 {
        assert(x + c =~= x);
        assert(pieces.last() + c =~= pieces.last());
        assert(pieces.update(pieces.len() - 1, pieces.last()) =~= pieces);
    } else {
        let c0 = c.drop_last();
        assert(!c0.contains(";"@)) by {
            if c0.contains(";"@) {
                let j = choose|j: int| 0 <= j < c0.len() && c0[j] == ";"@;
                assert(c[j] == ";"@);
            }
        }
        assert(c.last() != ";"@) by {
            assert(c[c.len() - 1] == c.last());
        }
        lemma_split_commands_extend(x, c0);
        assert((x + c).drop_last() =~= x + c0);
        assert((x + c).last() == c.last());
        lemma_split_commands_nonempty(x + c0);
        let mid = split_commands(x + c0);
        assert(mid == pieces.update(pieces.len() - 1, pieces.last() + c0));
        assert(split_commands(x + c) == mid.update(mid.len() - 1, mid.last().push(c.last())));
        assert(mid.len() == pieces.len());
        assert(mid.last() == mid[mid.len() - 1]);
        assert(mid.last() == pieces.last() + c0);
        assert(mid.last().push(c.last()) =~= pieces.last() + c);
        assert(pieces.last() + c0 + seq![c.last()] =~= pieces.last() + c);
        assert(mid.update(mid.len() - 1, mid.last().push(c.last())) =~= pieces.update(
            pieces.len() - 1,
            pieces.last() + c,
        ));
    }
}

/// Joining commands loses nothing: the invocation has one argument per
/// command argument plus one separator between consecutive commands, and
/// splitting it at its `;` arguments gives back the commands, as long as
/// every command has an argument and no argument is `;` itself. (An
/// argument that merely contains `;`, such as `kill-session ; detach-client`,
/// stays one argument.)
pub proof fn lemma_flatten_round_trip(commands: Seq<Seq<Seq<char>>>)
    requires
        commands.len() >= 1,
        separable(commands),
    ensures
        flatten(commands).len() == total_len(commands) + commands.len() - 1,
        split_commands(flatten(commands)) == commands,
    decreases commands.len(),
{
    let last = commands.last();
    assert(last.len() > 0 && !last.contains(";"@)) by {
        assert(commands[commands.len() - 1] == last);
    }
    if commands.len() == 1 {
        assert(commands.drop_last() =~= Seq::<Seq<Seq<char>>>::empty());
        assert(flatten(Seq::<Seq<Seq<char>>>::empty()).len() == 0);
        assert(flatten(commands.drop_last()).len() == 0);
        assert(total_len(commands.drop_last()) == 0);
        assert(flatten(commands) == last);
        assert(Seq::<Seq<char>>::empty() + last =~= last);
        lemma_split_commands_extend(Seq::<Seq<char>>::empty(), last);
        assert(seq![Seq::<Seq<char>>::empty()].update(0, Seq::<Seq<char>>::empty() + last)
            =~= commands);
    } else {
        let init = commands.drop_last();
        assert(separable(init)) by {
            assert forall|i: int| 0 <= i < init.len() implies #[trigger] init[i].len() > 0
                && !init[i].contains(";"@) by {
                assert(init[i] == commands[i]);
            }
        }
        lemma_flatten_round_trip(init);
        let prev = flatten(init);
        assert(init[0] == commands[0]);
        assert(total_len(init) >= init[0].len()) by {
            lemma_total_len_at_least(init, 0);
        }
        assert(prev.len() > 0);
        let sep = prev + seq![";"@];
        assert(flatten(commands) == sep + last);
        assert(sep.drop_last() =~= prev);
        assert(split_commands(sep) == commands.drop_last().push(Seq::<Seq<char>>::empty()));
        lemma_split_commands_extend(sep, last);
        assert(Seq::<Seq<char>>::empty() + last =~= last);
        assert(init.push(Seq::<Seq<char>>::empty()).update(init.len() as int, last) =~= commands);
    }
}

proof fn lemma_total_len_at_least(commands: Seq<Seq<Seq<char>>>, i: int)
    requires
        0 <= i < commands.len(),
    ensures
        total_len(commands) >= commands[i].len(),
    decreases commands.len(),
{
    if i < commands.len() - 1 {
        assert(commands.drop_last()[i] == commands[i]);
        lemma_total_len_at_least(commands.drop_last(), i);
    }
}

/// Joining commands that each have an argument gives one argument per
/// command argument plus one separator between consecutive commands.
pub proof fn lemma_flatten_len(commands: Seq<Seq<Seq<char>>>)
    requires
        commands.len() >= 1,
        forall|i: int| 0 <= i < commands.len() ==> #[trigger] commands[i].len() > 0,
    ensures
        flatten(commands).len() == total_len(commands) + commands.len() - 1,
    decreases commands.len(),
{
    assert(commands[commands.len() - 1] == commands.last());
    if commands.len() == 1 {
        assert(commands.drop_last() =~= Seq::<Seq<Seq<char>>>::empty());
        assert(flatten(Seq::<Seq<Seq<char>>>::empty()).len() == 0);
        assert(total_len(Seq::<Seq<Seq<char>>>::empty()) == 0);
    } else {
        let init = commands.drop_last();
        assert forall|i: int| 0 <= i < init.len() implies #[trigger] init[i].len() > 0 by {
            assert(init[i] == commands[i]);
        }
        lemma_flatten_len(init);
        assert(init[0] == commands[0]);
        lemma_total_len_at_least(init, 0);
    }
}

/// Adding a command to a non-empty invocation appends a separator and the
/// command.
proof fn lemma_flatten_push(commands: Seq<Seq<Seq<char>>>, c: Seq<Seq<char>>)
    requires
        flatten(commands).len() > 0,
    ensures
        flatten(commands.push(c)) == flatten(commands) + seq![";"@] + c,
{
    assert(commands.push(c).drop_last() =~= commands);
}

/// Joins commands into one tmux invocation, separated by `;`.
pub fn flatten_commands(commands: Vec<Vec<String>>) -> (args: Vec<String>)
    ensures
        views(args@) == flatten(command_views(commands@)),
{
    let ghost cv = command_views(commands@);
    let mut args: Vec<String> = Vec::new();
    let n = commands.len();
    assert(cv.take(0) =~= Seq::<Seq<Seq<char>>>::empty());
    for i in 0..n
        invariant
            n == commands@.len(),
            cv == command_views(commands@),
            views(args@) == flatten(cv.take(i as int)),
    {
        assert(cv.take(i + 1).drop_last() =~= cv.take(i as int));
        assert(cv.take(i + 1).last() == views(commands@[i as int]@));
        let ghost before = views(args@);
        if args.len() > 0 {
            args.push(owned(";"));
            assert(views(args@) =~= before + seq![";"@]);
        }
        extend_strings(&mut args, commands[i].as_slice());
        assert(views(args@) =~= flatten(cv.take(i + 1)));
    }
    assert(cv.take(n as int) =~= cv);
    args
}

pub open spec fn hide_key_command(key: Seq<char>) -> Seq<Seq<char>> {
    seq!["bind-key"@, "-n"@, key, "detach-client"@]
}

/// One `bind-key -n <key> detach-client` per hide key, in order.
pub open spec fn hide_key_commands(keys: Seq<Seq<char>>) -> Seq<Seq<Seq<char>>> {
    keys.map_values(|k: Seq<char>| hide_key_command(k))
}

fn push_hide_key_commands(commands: &mut Vec<Vec<String>>, hide_keys: &[String])
    ensures
        command_views(final(commands)@) == command_views(old(commands)@) + hide_key_commands(
            views(hide_keys@),
        ),
{
    let ghost start = commands@;
    let n = hide_keys.len();
    for i in 0..n
        invariant
            n == hide_keys@.len(),
            command_views(commands@) == command_views(start) + hide_key_commands(
                views(hide_keys@.take(i as int)),
            ),
    {
        let ghost before = commands@;
        let command = vec![owned("bind-key"), owned("-n"), hide_keys[i].clone(), owned("detach-client")];
        assert(views(command@) =~= hide_key_command(hide_keys@[i as int]@));
        commands.push(command);
        assert(command_views(commands@) =~= command_views(before).push(views(command@)));
        assert(hide_key_commands(views(hide_keys@.take(i + 1))) =~= hide_key_commands(
            views(hide_keys@.take(i as int)),
        ).push(hide_key_command(hide_keys@[i as int]@)));
    }
    assert(hide_keys@.take(n as int) =~= hide_keys@);
}

/// The minimal server: no status line, only the scratch's own bindings.
pub open spec fn minimal_commands(prefix: Seq<char>) -> Seq<Seq<Seq<char>>> {
    seq![
        seq!["start-server"@],
        seq!["set-option"@, "-g"@, "status"@, "off"@],
        seq!["set-option"@, "-g"@, "prefix"@, prefix],
        seq!["set-option"@, "-g"@, "prefix2"@, "None"@],
        seq!["set-option"@, "-g"@, "mouse"@, "off"@],
        seq!["set-option"@, "-s"@, "escape-time"@, "0"@],
        seq!["set-option"@, "-g"@, "default-terminal"@, "tmux-256color"@],
        seq!["set-option"@, "-g"@, "remain-on-exit"@, "off"@],
        seq!["unbind-key"@, "-a"@, "-T"@, "prefix"@],
        seq![
            "bind-key"@,
            "-T"@,
            "prefix"@,
            "x"@,
            "confirm-before"@,
            "-p"@,
            "Kill scratch session? (y/n)"@,
            "kill-session"@,
        ],
        seq!["bind-key"@, "-T"@, "prefix"@, prefix, "send-prefix"@],
    ]
}

pub open spec fn minimal_configuration(prefix: Seq<char>, keys: Seq<Seq<char>>) -> Seq<Seq<char>> {
    flatten(minimal_commands(prefix) + hide_key_commands(keys))
}

/// The minimal server's configuration is its fixed 56 arguments (eleven
/// commands and their separators), then `; bind-key -n <key> detach-client`
/// for each hide key, in order.
pub proof fn lemma_minimal_configuration_shape(prefix: Seq<char>, keys: Seq<Seq<char>>)
    ensures
        minimal_configuration(prefix, keys).len() == 56 + 5 * keys.len(),
        minimal_configuration(prefix, keys).take(56) == flatten(minimal_commands(prefix)),
        forall|i: int|
            0 <= i < keys.len() ==> minimal_configuration(prefix, keys).subrange(
                56 + 5 * i,
                61 + 5 * i,
            ) == seq![";"@, "bind-key"@, "-n"@, #[trigger] keys[i], "detach-client"@],
    decreases keys.len(),
{
    let mc = minimal_commands(prefix);
    let cfg = minimal_configuration(prefix, keys);
    if keys.len() == 0 {
        assert(hide_key_commands(keys) =~= Seq::<Seq<Seq<char>>>::empty());
        assert(mc + hide_key_commands(keys) =~= mc);
        assert forall|i: int| 0 <= i < mc.len() implies #[trigger] mc[i].len() > 0 by {}
        lemma_flatten_len(mc);
        reveal_with_fuel(total_len, 12);
        assert(total_len(mc) == 46);
        assert(cfg.take(56) =~= cfg);
    } else {
        let k0 = keys.drop_last();
        let k = keys.last();
        lemma_minimal_configuration_shape(prefix, k0);
        let prev = minimal_configuration(prefix, k0);
        assert(hide_key_commands(keys) =~= hide_key_commands(k0).push(hide_key_command(k)));
        assert(mc + hide_key_commands(keys) =~= (mc + hide_key_commands(k0)).push(
            hide_key_command(k),
        ));
        lemma_flatten_push(mc + hide_key_commands(k0), hide_key_command(k));
        assert(cfg == prev + seq![";"@] + hide_key_command(k));
        assert(cfg.take(56) =~= prev.take(56));
        assert forall|i: int| 0 <= i < keys.len() implies cfg.subrange(56 + 5 * i, 61 + 5 * i)
            == seq![";"@, "bind-key"@, "-n"@, #[trigger] keys[i], "detach-client"@] by {
            if i < k0.len() {
                assert(k0[i] == keys[i]);
                assert(cfg.subrange(56 + 5 * i, 61 + 5 * i) =~= prev.subrange(56 + 5 * i, 61 + 5 * i));
            } else {
                assert(keys[i] == k);
                assert(cfg.subrange(56 + 5 * i, 61 + 5 * i) =~= seq![
                    ";"@,
                    "bind-key"@,
                    "-n"@,
                    k,
                    "detach-client"@,
                ]);
            }
        }
    }
}

/// The configuration of the minimal server, as one tmux invocation.
pub fn minimal_server_configuration_args(prefix: &str, hide_keys: &[String]) -> (args: Vec<String>)
    ensures
        views(args@) == minimal_configuration(prefix@, views(hide_keys@)),
{
    let mut commands: Vec<Vec<String>> = vec![
        vec![owned("start-server")],
        vec![owned("set-option"), owned("-g"), owned("status"), owned("off")],
        vec![owned("set-option"), owned("-g"), owned("prefix"), owned(prefix)],
        vec![owned("set-option"), owned("-g"), owned("prefix2"), owned("None")],
        vec![owned("set-option"), owned("-g"), owned("mouse"), owned("off")],
        vec![owned("set-option"), owned("-s"), owned("escape-time"), owned("0")],
        vec![owned("set-option"), owned("-g"), owned("default-terminal"), owned("tmux-256color")],
        vec![owned("set-option"), owned("-g"), owned("remain-on-exit"), owned("off")],
        vec![owned("unbind-key"), owned("-a"), owned("-T"), owned("prefix")],
        vec![
            owned("bind-key"),
            owned("-T"),
            owned("prefix"),
            owned("x"),
            owned("confirm-before"),
            owned("-p"),
            owned("Kill scratch session? (y/n)"),
            owned("kill-session"),
        ],
        vec![owned("bind-key"), owned("-T"), owned("prefix"), owned(prefix), owned("send-prefix")],
    ];
    proof {
        let cv = command_views(commands@);
        let mc = minimal_commands(prefix@);
        assert(cv.len() == mc.len());
        assert(cv[0] =~= mc[0]);
        assert(cv[1] =~= mc[1]);
        assert(cv[2] =~= mc[2]);
        assert(cv[3] =~= mc[3]);
        assert(cv[4] =~= mc[4]);
        assert(cv[5] =~= mc[5]);
        assert(cv[6] =~= mc[6]);
        assert(cv[7] =~= mc[7]);
        assert(cv[8] =~= mc[8]);
        assert(cv[9] =~= mc[9]);
        assert(cv[10] =~= mc[10]);
        assert(cv =~= mc);
    }
    push_hide_key_commands(&mut commands, hide_keys);
    flatten_commands(commands)
}

/// The overlay the workspace server keeps on top of the user's tmux
/// configuration: the prefix, its pass-through, and the hide keys.
pub open spec fn overlay_commands(prefix: Seq<char>, keys: Seq<Seq<char>>) -> Seq<Seq<Seq<char>>> {
    seq![
        seq!["set-option"@, "-g"@, "@herdr_scratch_workspace"@, "1"@],
        seq!["set-option"@, "-g"@, "prefix"@, prefix],
        seq!["set-option"@, "-g"@, "prefix2"@, "None"@],
        seq!["bind-key"@, "-T"@, "prefix"@, prefix, "send-prefix"@],
    ] + hide_key_commands(keys)
}

pub fn workspace_overlay_commands(prefix: &str, hide_keys: &[String]) -> (commands: Vec<
    Vec<String>,
>)
    ensures
        command_views(commands@) == overlay_commands(prefix@, views(hide_keys@)),
{
    let mut commands: Vec<Vec<String>> = vec![
        vec![owned("set-option"), owned("-g"), owned("@herdr_scratch_workspace"), owned("1")],
        vec![owned("set-option"), owned("-g"), owned("prefix"), owned(prefix)],
        vec![owned("set-option"), owned("-g"), owned("prefix2"), owned("None")],
        vec![owned("bind-key"), owned("-T"), owned("prefix"), owned(prefix), owned("send-prefix")],
    ];
    proof {
        let cv = command_views(commands@);
        let oc = overlay_commands(prefix@, Seq::<Seq<char>>::empty());
        assert(cv[0] =~= oc[0]);
        assert(cv[1] =~= oc[1]);
        assert(cv[2] =~= oc[2]);
        assert(cv[3] =~= oc[3]);
        assert(hide_key_commands(Seq::<Seq<char>>::empty()) =~= Seq::<Seq<Seq<char>>>::empty());
        assert(cv =~= oc);
    }
    push_hide_key_commands(&mut commands, hide_keys);
    commands
}

/// Each command as text, its arguments separated by spaces.
pub open spec fn command_texts(commands: Seq<Seq<Seq<char>>>) -> Seq<Seq<char>> {
    commands.map_values(|c: Seq<Seq<char>>| join(c, " "@))
}

/// The overlay as the text of one tmux command list (`a b ; c d`).
pub open spec fn overlay_command_text(prefix: Seq<char>, keys: Seq<Seq<char>>) -> Seq<char> {
    join(command_texts(overlay_commands(prefix, keys)), " ; "@)
}

pub fn workspace_overlay_command(prefix: &str, hide_keys: &[String]) -> (text: String)
    ensures
        text@ == overlay_command_text(prefix@, views(hide_keys@)),
{
    let commands = workspace_overlay_commands(prefix, hide_keys);
    let ghost cv = command_views(commands@);
    let mut lines: Vec<String> = Vec::new();
    let n = commands.len();
    for i in 0..n
        invariant
            n == commands@.len(),
            cv == command_views(commands@),
            views(lines@) == command_texts(cv.take(i as int)),
    {
        let ghost before = lines@;
        let line = join_strings(&commands[i], " ");
        let ghost line_view = line@;
        lines.push(line);
        assert(cv[i as int] == views(commands@[i as int]@));
        assert(line_view == join(cv[i as int], " "@));
        assert(views(lines@) =~= views(before).push(line_view));
        assert(command_texts(cv.take(i + 1)) =~= command_texts(cv.take(i as int)).push(
            join(cv[i as int], " "@),
        ));
        assert(views(lines@) =~= command_texts(cv.take(i + 1)));
    }
    assert(cv.take(n as int) =~= cv);
    join_strings(&lines, " ; ")
}

/// The hooks after which the workspace overlay is applied again.
pub open spec fn overlay_hooks() -> Seq<Seq<char>> {
    seq!["after-set-option"@, "after-bind-key"@, "after-unbind-key"@]
}

/// `<hook>[999]`.
pub open spec fn hook_slot(hook: Seq<char>) -> Seq<char> {
    hook + seq!['['] + decimal(999) + seq![']']
}

pub open spec fn hook_command(hook: Seq<char>, overlay: Seq<char>) -> Seq<Seq<char>> {
    seq!["set-hook"@, "-g"@, hook_slot(hook), overlay]
}

pub open spec fn workspace_configuration(prefix: Seq<char>, keys: Seq<Seq<char>>) -> Seq<Seq<char>> {
    let overlay = overlay_command_text(prefix, keys);
    flatten(
        seq![
            seq!["start-server"@],
            hook_command(overlay_hooks()[0], overlay),
            hook_command(overlay_hooks()[1], overlay),
            hook_command(overlay_hooks()[2], overlay),
        ] + overlay_commands(prefix, keys),
    )
}

fn hook_command_args(hook: &str, overlay: &String) -> (command: Vec<String>)
    ensures
        views(command@) == hook_command(hook@, overlay@),
{
    let mut slot = concat(hook, "[");
    let index = decimal_string(WORKSPACE_HOOK_INDEX as u32);
    slot.append(index.as_str());
    slot.append("]");
    proof {
        reveal_strlit("[");
        reveal_strlit("]");
        assert(slot@ =~= hook_slot(hook@));
    }
    let command = vec![owned("set-hook"), owned("-g"), slot, overlay.clone()];
    assert(views(command@) =~= hook_command(hook@, overlay@));
    command
}

/// The configuration of the workspace server: it keeps the user's tmux
/// configuration and re-applies the overlay whenever options or bindings
/// change.
pub fn workspace_server_configuration_args(prefix: &str, hide_keys: &[String]) -> (args: Vec<
    String,
>)
    ensures
        views(args@) == workspace_configuration(prefix@, views(hide_keys@)),
{
    let overlay = workspace_overlay_command(prefix, hide_keys);
    let mut commands: Vec<Vec<String>> = vec![vec![owned("start-server")]];
    commands.push(hook_command_args("after-set-option", &overlay));
    commands.push(hook_command_args("after-bind-key", &overlay));
    commands.push(hook_command_args("after-unbind-key", &overlay));
    let overlay_list = workspace_overlay_commands(prefix, hide_keys);
    let ghost head = commands@;
    let ghost tail = overlay_list@;
    let mut rest = overlay_list;
    commands.append(&mut rest);
    proof {
        let head_views = seq![
            seq!["start-server"@],
            hook_command(overlay_hooks()[0], overlay@),
            hook_command(overlay_hooks()[1], overlay@),
            hook_command(overlay_hooks()[2], overlay@),
        ];
        assert(command_views(head)[0] =~= head_views[0]);
        assert(command_views(head) =~= head_views);
        assert(command_views(commands@) =~= command_views(head) + command_views(tail));
    }
    flatten_commands(commands)
}

pub open spec fn server_configuration(
    mode: TmuxMode,
    prefix: Seq<char>,
    keys: Seq<Seq<char>>,
) -> Seq<Seq<char>> {
    match mode {
        TmuxMode::Minimal => minimal_configuration(prefix, keys),
        TmuxMode::Workspace => workspace_configuration(prefix, keys),
    }
}

/// The server configuration for a mode, as one tmux invocation.
pub fn server_configuration_args(mode: TmuxMode, prefix: &str, hide_keys: &[String]) -> (args: Vec<
    String,
>)
    ensures
        views(args@) == server_configuration(mode, prefix@, views(hide_keys@)),
{
    match mode {
        TmuxMode::Minimal => minimal_server_configuration_args(prefix, hide_keys),
        TmuxMode::Workspace => workspace_server_configuration_args(prefix, hide_keys),
    }
}

/// Whether an existing session must be replaced: only minimal sessions,
/// when their metadata version or source directory is out of date.
pub open spec fn needs_recreation(
    mode: TmuxMode,
    stored_cwd: Seq<char>,
    current_cwd: Seq<char>,
    version: Seq<char>,
) -> bool {
    mode == TmuxMode::Minimal && (version != "1"@ || stored_cwd != current_cwd)
}

pub fn session_metadata_needs_recreation(
    mode: TmuxMode,
    stored_cwd: &str,
    current_cwd: &str,
    version: &str,
) -> (r: bool)
    ensures
        r == needs_recreation(mode, stored_cwd@, current_cwd@, version@),
{
    mode == TmuxMode::Minimal && (!crate::text::str_eq(version, ENV_VERSION)
        || !crate::text::str_eq(stored_cwd, current_cwd))
}

// ---------------------------------------------------------------------------
// Sessions
// ---------------------------------------------------------------------------

/// A scratch session as it is created: its name, what runs in it, and
/// where it came from.
pub struct SessionSpec<'a> {
    pub name: &'a str,
    pub scratch: &'a ResolvedScratch,
    pub pane_id: &'a str,
    pub cwd: &'a str,
    pub prefix: &'a str,
    pub hide_keys: &'a [String],
    pub herdr_environment: &'a HerdrEnvironment,
}

/// The mathematical form of a session.
pub struct SessionView {
    pub name: Seq<char>,
    pub scratch: ScratchView,
    pub pane_id: Seq<char>,
    pub cwd: Seq<char>,
    pub prefix: Seq<char>,
    pub hide_keys: Seq<Seq<char>>,
    pub herdr: HerdrEnvironmentView,
}

impl<'a> View for SessionSpec<'a> {
    type V = SessionView;

    open spec fn view(&self) -> SessionView {
        SessionView {
            name: self.name@,
            scratch: self.scratch@,
            pane_id: self.pane_id@,
            cwd: self.cwd@,
            prefix: self.prefix@,
            hide_keys: views(self.hide_keys@),
            herdr: self.herdr_environment@,
        }
    }
}

/// The views of a list of variables.
pub open spec fn pair_views(v: Seq<(String, String)>) -> Seq<(Seq<char>, Seq<char>)> {
    v.map_values(|p: (String, String)| (p.0@, p.1@))
}

pub open spec fn optional_variable(key: Seq<char>, value: Option<Seq<char>>) -> Seq<
    (Seq<char>, Seq<char>),
> {
    match value {
        Some(v) => seq![(key, v)],
        None => Seq::<(Seq<char>, Seq<char>)>::empty(),
    }
}

/// The variables a session's processes see: the scratch's identity, its
/// source pane and directory, the prefix, and where Herdr runs.
pub open spec fn session_env(s: SessionView) -> Seq<(Seq<char>, Seq<char>)> {
    seq![
        ("HERDR_ENV"@, "1"@),
        ("HERDR_PANE_ID"@, s.pane_id),
        ("HERDR_SCRATCH_KIND"@, s.scratch.name),
        ("HERDR_SCRATCH_NAME"@, s.scratch.name),
        ("HERDR_SCRATCH_PREFIX"@, s.prefix),
        ("HERDR_SCRATCH_SOURCE_CWD"@, s.cwd),
        ("HERDR_SCRATCH_SOURCE_PANE"@, s.pane_id),
        ("TMX_PARENT_PANE"@, s.pane_id),
        ("TMX_SCRATCH"@, "1"@),
        ("TMX_SCRATCH_TYPE"@, s.scratch.tmx_type),
    ] + optional_variable("HERDR_SOCKET_PATH"@, s.herdr.socket_path) + optional_variable(
        "HERDR_WORKSPACE_ID"@,
        s.herdr.workspace_id,
    ) + optional_variable("HERDR_TAB_ID"@, s.herdr.tab_id)
}

fn push_optional_variable(
    environment: &mut Vec<(String, String)>,
    key: &str,
    value: &Option<String>,
)
    ensures
        pair_views(final(environment)@) == pair_views(old(environment)@) + optional_variable(
            key@,
            value.deep_view(),
        ),
{
    let ghost before = environment@;
    match value {
        Some(v) => {
            environment.push((owned(key), v.clone()));
            assert(pair_views(environment@) =~= pair_views(before) + optional_variable(
                key@,
                value.deep_view(),
            ));
        },
        None => {
            assert(pair_views(environment@) =~= pair_views(before) + optional_variable(
                key@,
                value.deep_view(),
            ));
        },
    }
}

/// The variables of a session.
pub fn session_environment(session: &SessionSpec) -> (environment: Vec<(String, String)>)
    ensures
        pair_views(environment@) == session_env(session@),
{
    let mut environment: Vec<(String, String)> = vec![
        (owned("HERDR_ENV"), owned("1")),
        (owned("HERDR_PANE_ID"), owned(session.pane_id)),
        (owned("HERDR_SCRATCH_KIND"), session.scratch.name.clone()),
        (owned("HERDR_SCRATCH_NAME"), session.scratch.name.clone()),
        (owned("HERDR_SCRATCH_PREFIX"), owned(session.prefix)),
        (owned("HERDR_SCRATCH_SOURCE_CWD"), owned(session.cwd)),
        (owned("HERDR_SCRATCH_SOURCE_PANE"), owned(session.pane_id)),
        (owned("TMX_PARENT_PANE"), owned(session.pane_id)),
        (owned("TMX_SCRATCH"), owned("1")),
        (owned("TMX_SCRATCH_TYPE"), session.scratch.tmx_type.clone()),
    ];
    let ghost base = pair_views(environment@);
    push_optional_variable(
        &mut environment,
        "HERDR_SOCKET_PATH",
        &session.herdr_environment.socket_path,
    );
    push_optional_variable(
        &mut environment,
        "HERDR_WORKSPACE_ID",
        &session.herdr_environment.workspace_id,
    );
    push_optional_variable(&mut environment, "HERDR_TAB_ID", &session.herdr_environment.tab_id);
    assert(pair_views(environment@) =~= session_env(session@));
    environment
}

/// `-e KEY=VALUE` for each variable, in order.
pub open spec fn env_flags(env: Seq<(Seq<char>, Seq<char>)>) -> Seq<Seq<char>>
    decreases env.len(),
{
    if env.len() == 0 {
        Seq::<Seq<char>>::empty()
    } else {
        env_flags(env.drop_last()) + seq!["-e"@, env.last().0 + "="@ + env.last().1]
    }
}

/// One tmux invocation that configures the server and then creates the
/// detached session in the source directory, with its variables, running
/// the scratch's command.
pub open spec fn configured_session(s: SessionView) -> Seq<Seq<char>> {
    server_configuration(s.scratch.tmux_mode, s.prefix, s.hide_keys) + seq![
        ";"@,
        "new-session"@,
        "-d"@,
        "-s"@,
        s.name,
        "-c"@,
        s.cwd,
    ] + env_flags(session_env(s)) + s.scratch.command
}

pub fn configured_session_args(session: &SessionSpec) -> (args: Vec<String>)
    ensures
        views(args@) == configured_session(session@),
{
    let mut args = server_configuration_args(
        session.scratch.tmux_mode,
        session.prefix,
        session.hide_keys,
    );
    let tail = vec![
        owned(";"),
        owned("new-session"),
        owned("-d"),
        owned("-s"),
        owned(session.name),
        owned("-c"),
        owned(session.cwd),
    ];
    let ghost config_args = views(args@);
    extend_strings(&mut args, tail.as_slice());
    assert(views(tail@) =~= seq![
        ";"@,
        "new-session"@,
        "-d"@,
        "-s"@,
        session.name@,
        "-c"@,
        session.cwd@,
    ]);
    let environment = session_environment(session);
    let ghost env = pair_views(environment@);
    let ghost head = views(args@);
    let n = environment.len();
    assert(env.take(0) =~= Seq::<(Seq<char>, Seq<char>)>::empty());
    for i in 0..n
        invariant
            n == environment@.len(),
            env == pair_views(environment@),
            views(args@) == head + env_flags(env.take(i as int)),
    {
        let ghost before = views(args@);
        let mut assignment = environment[i].0.clone();
        assignment.append("=");
        assignment.append(environment[i].1.as_str());
        args.push(owned("-e"));
        args.push(assignment);
        assert(env.take(i + 1).drop_last() =~= env.take(i as int));
        assert(env[i as int] == (environment@[i as int].0@, environment@[i as int].1@));
        assert(views(args@) =~= before + seq!["-e"@, env[i as int].0 + "="@ + env[i as int].1]);
    }
    assert(env.take(n as int) =~= env);
    let ghost before_command = views(args@);
    extend_strings(&mut args, session.scratch.command.as_slice());
    assert(views(args@) =~= configured_session(session@));
    args
}

// ---------------------------------------------------------------------------
// The tmux commands of the protocol
// ---------------------------------------------------------------------------

/// The tmux server of one mode, whose sockets live under `state_dir`.
#[derive(Debug)]
pub struct TmuxServer {
    pub state_dir: String,
    pub mode: TmuxMode,
}

pub open spec fn has_session_args(name: Seq<char>) -> Seq<Seq<char>> {
    seq!["has-session"@, "-t"@, exact_target_spec(name)]
}

pub open spec fn show_option_args(name: Seq<char>, key: Seq<char>) -> Seq<Seq<char>> {
    seq!["show-options"@, "-qv"@, "-t"@, name, key]
}

pub open spec fn set_option_args(name: Seq<char>, key: Seq<char>, value: Seq<char>) -> Seq<
    Seq<char>,
> {
    seq!["set-option"@, "-t"@, name, key, value]
}

pub open spec fn kill_session_args(name: Seq<char>) -> Seq<Seq<char>> {
    seq!["kill-session"@, "-t"@, exact_target_spec(name)]
}

pub open spec fn attach_args(name: Seq<char>) -> Seq<Seq<char>> {
    seq!["attach-session"@, "-t"@, exact_target_spec(name)]
}

/// The session options that record where a session came from.
pub open spec fn metadata_commands(s: SessionView) -> Seq<Seq<Seq<char>>> {
    seq![
        set_option_args(s.name, "@herdr_source_cwd"@, s.cwd),
        set_option_args(s.name, "@herdr_source_pane"@, s.pane_id),
        set_option_args(s.name, "@herdr_env_version"@, "1"@),
    ]
}

pub open spec fn set_environment_args(name: Seq<char>, var: (Seq<char>, Seq<char>)) -> Seq<
    Seq<char>,
> {
    seq!["set-environment"@, "-t"@, exact_target_spec(name), var.0, var.1]
}

/// One `set-environment` per session variable, in order.
pub open spec fn environment_commands(s: SessionView) -> Seq<Seq<Seq<char>>> {
    session_env(s).map_values(|v: (Seq<char>, Seq<char>)| set_environment_args(s.name, v))
}

impl TmuxServer {
    /// A tmux invocation on this server.
    pub fn command(&self, args: Vec<String>) -> (argv: Vec<String>)
        ensures
            views(argv@) == tmux_args_spec(self.mode) + views(args@),
    {
        let mut argv = tmux_args(self.mode);
        extend_strings(&mut argv, args.as_slice());
        argv
    }

    pub fn session_exists(&self, name: &str) -> (argv: Vec<String>)
        ensures
            views(argv@) == tmux_args_spec(self.mode) + has_session_args(name@),
    {
        let args = vec![owned("has-session"), owned("-t"), exact_target(name)];
        assert(views(args@) =~= has_session_args(name@));
        self.command(args)
    }

    pub fn session_option(&self, name: &str, key: &str) -> (argv: Vec<String>)
        ensures
            views(argv@) == tmux_args_spec(self.mode) + show_option_args(name@, key@),
    {
        let args = vec![owned("show-options"), owned("-qv"), owned("-t"), owned(name), owned(key)];
        assert(views(args@) =~= show_option_args(name@, key@));
        self.command(args)
    }

    pub fn set_session_option(&self, name: &str, key: &str, value: &str) -> (argv: Vec<String>)
        ensures
            views(argv@) == tmux_args_spec(self.mode) + set_option_args(name@, key@, value@),
    {
        let args = vec![owned("set-option"), owned("-t"), owned(name), owned(key), owned(value)];
        assert(views(args@) =~= set_option_args(name@, key@, value@));
        self.command(args)
    }

    pub fn kill_session(&self, name: &str) -> (argv: Vec<String>)
        ensures
            views(argv@) == tmux_args_spec(self.mode) + kill_session_args(name@),
    {
        let args = vec![owned("kill-session"), owned("-t"), exact_target(name)];
        assert(views(args@) =~= kill_session_args(name@));
        self.command(args)
    }

    pub fn attach_session(&self, name: &str) -> (argv: Vec<String>)
        ensures
            views(argv@) == tmux_args_spec(self.mode) + attach_args(name@),
    {
        let args = vec![owned("attach-session"), owned("-t"), exact_target(name)];
        assert(views(args@) =~= attach_args(name@));
        self.command(args)
    }

    pub fn configure(&self, prefix: &str, hide_keys: &[String]) -> (argv: Vec<String>)
        ensures
            views(argv@) == tmux_args_spec(self.mode) + server_configuration(
                self.mode,
                prefix@,
                views(hide_keys@),
            ),
    {
        self.command(server_configuration_args(self.mode, prefix, hide_keys))
    }

    pub fn create_session(&self, session: &SessionSpec) -> (argv: Vec<String>)
        ensures
            views(argv@) == tmux_args_spec(self.mode) + configured_session(session@),
    {
        self.command(configured_session_args(session))
    }

    /// The `i`-th command that records the session's metadata.
    pub fn update_session_metadata(&self, session: &SessionSpec, i: usize) -> (argv: Vec<String>)
        requires
            i < 3,
        ensures
            views(argv@) == tmux_args_spec(self.mode) + metadata_commands(session@)[i as int],
    {
        if i == 0 {
            self.set_session_option(session.name, "@herdr_source_cwd", session.cwd)
        } else if i == 1 {
            self.set_session_option(session.name, "@herdr_source_pane", session.pane_id)
        } else {
            self.set_session_option(session.name, "@herdr_env_version", ENV_VERSION)
        }
    }

    /// The `i`-th command that updates the session's variables.
    pub fn update_session_environment(&self, session: &SessionSpec, i: usize) -> (argv: Vec<
        String,
    >)
        requires
            i < session_env(session@).len(),
        ensures
            views(argv@) == tmux_args_spec(self.mode) + environment_commands(session@)[i as int],
    {
        let environment = session_environment(session);
        let var = &environment[i];
        let args = vec![
            owned("set-environment"),
            owned("-t"),
            exact_target(session.name),
            var.0.clone(),
            var.1.clone(),
        ];
        assert(pair_views(environment@)[i as int] == (var.0@, var.1@));
        assert(views(args@) =~= environment_commands(session@)[i as int]);
        self.command(args)
    }
}

// ---------------------------------------------------------------------------
// The protocol that brings a session up and attaches to it
// ---------------------------------------------------------------------------

/// What a tmux command of the protocol does; it decides how its outcome is
/// read.
#[derive(Clone, Copy, Debug, PartialEq, Eq, Structural)]
pub enum TmuxOperation {
    InspectSession,
    ReadMetadata,
    ReplaceSession,
    CreateSession,
    ConfigureServer,
    WriteMetadata,
    UpdateEnvironment,
    AttachSession,
}

/// Where a run of the protocol stands.
#[derive(Clone, Copy, Debug, PartialEq, Eq, Structural)]
pub enum RunStage {
    /// Does the session exist?
    CheckSession,
    /// Read the source directory the session was created for.
    ReadSourceCwd,
    /// Read the metadata version the session was created with.
    ReadVersion,
    /// Before creating: does a session of that name still exist?
    CheckStale,
    /// Kill the stale session.
    KillStale,
    /// Configure the server and create the session.
    Create,
    /// Configure the server for the existing session.
    Configure,
    /// Record the `i`-th piece of metadata.
    WriteMetadata(usize),
    /// Set the `i`-th session variable.
    WriteEnvironment(usize),
    /// Attach the popup's terminal to the session.
    Attach,
    /// The popup was attached and has detached again.
    Attached,
    /// A command failed.
    Failed(TmuxOperation),
}

/// The next thing to do.
#[derive(Debug)]
pub enum TmuxStep {
    /// Run `tmux` with `args` (with `TMUX_TMPDIR` set to the state
    /// directory and `TMUX`, `TMUX_PANE` removed), then report its outcome.
    Run { args: Vec<String>, operation: TmuxOperation },
    /// The run is over.
    Finished,
    /// The run failed at `operation`.
    Failed { operation: TmuxOperation },
}

/// The mathematical form of a [`TmuxStep`].
pub enum StepView {
    Run(Seq<Seq<char>>, TmuxOperation),
    Finished,
    Failed(TmuxOperation),
}

impl View for TmuxStep {
    type V = StepView;

    open spec fn view(&self) -> StepView {
        match self {
            TmuxStep::Run { args, operation } => StepView::Run(views(args@), *operation),
            TmuxStep::Finished => StepView::Finished,
            TmuxStep::Failed { operation } => StepView::Failed(*operation),
        }
    }
}

/// How a command ran: whether it could be started, whether it exited
/// successfully, and what it printed (decoded lossily as UTF-8).
#[derive(Debug)]
pub struct CommandOutcome {
    pub spawned: bool,
    pub success: bool,
    pub stdout: String,
}

/// A run of the protocol for one session.
#[derive(Debug)]
pub struct TmuxRun {
    server: TmuxServer,
    name: String,
    scratch: ResolvedScratch,
    pane_id: String,
    cwd: String,
    prefix: String,
    hide_keys: Vec<String>,
    herdr_environment: HerdrEnvironment,
    stored_cwd: String,
    stage: RunStage,
}

/// The mathematical form of a [`TmuxRun`].
pub struct RunView {
    pub state_dir: Seq<char>,
    pub session: SessionView,
    pub stored_cwd: Seq<char>,
    pub stage: RunStage,
}

impl View for TmuxRun {
    type V = RunView;

    closed spec fn view(&self) -> RunView {
        RunView {
            state_dir: self.server.state_dir@,
            session: SessionView {
                name: self.name@,
                scratch: self.scratch@,
                pane_id: self.pane_id@,
                cwd: self.cwd@,
                prefix: self.prefix@,
                hide_keys: views(self.hide_keys@),
                herdr: self.herdr_environment@,
            },
            stored_cwd: self.stored_cwd@,
            stage: self.stage,
        }
    }
}

/// The command each stage runs, with the operation it belongs to; `None`
/// once the run is over.
pub open spec fn stage_command(r: RunView) -> Option<(Seq<Seq<char>>, TmuxOperation)> {
    let s = r.session;
    let tmux = tmux_args_spec(s.scratch.tmux_mode);
    match r.stage {
        RunStage::CheckSession => Some((tmux + has_session_args(s.name), TmuxOperation::InspectSession)),
        RunStage::ReadSourceCwd => Some(
            (tmux + show_option_args(s.name, "@herdr_source_cwd"@), TmuxOperation::ReadMetadata),
        ),
        RunStage::ReadVersion => Some(
            (tmux + show_option_args(s.name, "@herdr_env_version"@), TmuxOperation::ReadMetadata),
        ),
        RunStage::CheckStale => Some((tmux + has_session_args(s.name), TmuxOperation::InspectSession)),
        RunStage::KillStale => Some((tmux + kill_session_args(s.name), TmuxOperation::ReplaceSession)),
        RunStage::Create => Some((tmux + configured_session(s), TmuxOperation::CreateSession)),
        RunStage::Configure => Some(
            (
                tmux + server_configuration(s.scratch.tmux_mode, s.prefix, s.hide_keys),
                TmuxOperation::ConfigureServer,
            ),
        ),
        RunStage::WriteMetadata(i) => Some(
            (tmux + metadata_commands(s)[i as int], TmuxOperation::WriteMetadata),
        ),
        RunStage::WriteEnvironment(i) => Some(
            (tmux + environment_commands(s)[i as int], TmuxOperation::UpdateEnvironment),
        ),
        RunStage::Attach => Some((tmux + attach_args(s.name), TmuxOperation::AttachSession)),
        RunStage::Attached => None,
        RunStage::Failed(_) => None,
    }
}

/// The step a run takes next.
pub open spec fn stage_step(r: RunView) -> StepView {
    match stage_command(r) {
        Some((args, op)) => StepView::Run(args, op),
        None => match r.stage {
            RunStage::Failed(op) => StepView::Failed(op),
            _ => StepView::Finished,
        },
    }
}

/// A command that started and exited successfully.
pub open spec fn succeeded(spawned: bool, success: bool) -> bool {
    spawned && success
}

/// The stage after the current command's outcome.
pub open spec fn next_stage(r: RunView, spawned: bool, success: bool, stdout: Seq<char>) -> RunStage {
    let ok = succeeded(spawned, success);
    match r.stage {
        RunStage::CheckSession => if !spawned {
            RunStage::Failed(TmuxOperation::InspectSession)
        } else if success {
            RunStage::ReadSourceCwd
        } else {
            RunStage::CheckStale
        },
        RunStage::ReadSourceCwd => if ok {
            RunStage::ReadVersion
        } else {
            RunStage::Failed(TmuxOperation::ReadMetadata)
        },
        RunStage::ReadVersion => if !ok {
            RunStage::Failed(TmuxOperation::ReadMetadata)
        } else if needs_recreation(
            r.session.scratch.tmux_mode,
            r.stored_cwd,
            r.session.cwd,
            trimmed(stdout),
        ) {
            RunStage::CheckStale
        } else {
            RunStage::Configure
        },
        RunStage::CheckStale => if !spawned {
            RunStage::Failed(TmuxOperation::InspectSession)
        } else if success {
            RunStage::KillStale
        } else {
            RunStage::Create
        },
        RunStage::KillStale => if ok {
            RunStage::Create
        } else {
            RunStage::Failed(TmuxOperation::ReplaceSession)
        },
        RunStage::Create => if ok {
            RunStage::WriteMetadata(0)
        } else {
            RunStage::Failed(TmuxOperation::CreateSession)
        },
        RunStage::Configure => if ok {
            RunStage::WriteMetadata(0)
        } else {
            RunStage::Failed(TmuxOperation::ConfigureServer)
        },
        RunStage::WriteMetadata(i) => if !ok {
            RunStage::Failed(TmuxOperation::WriteMetadata)
        } else if i + 1 < 3 {
            RunStage::WriteMetadata((i + 1) as usize)
        } else {
            RunStage::WriteEnvironment(0)
        },
        RunStage::WriteEnvironment(i) => if !ok {
            RunStage::Failed(TmuxOperation::UpdateEnvironment)
        } else if i + 1 < session_env(r.session).len() {
            RunStage::WriteEnvironment((i + 1) as usize)
        } else {
            RunStage::Attach
        },
        RunStage::Attach => if spawned {
            RunStage::Attached
        } else {
            RunStage::Failed(TmuxOperation::AttachSession)
        },
        RunStage::Attached => RunStage::Attached,
        RunStage::Failed(op) => RunStage::Failed(op),
    }
}

/// The run after the current command's outcome: the next stage, and the
/// source directory read by the first metadata query.
pub open spec fn advance_run(r: RunView, spawned: bool, success: bool, stdout: Seq<char>) -> RunView {
    RunView {
        stage: next_stage(r, spawned, success, stdout),
        stored_cwd: if r.stage == RunStage::ReadSourceCwd && succeeded(spawned, success) {
            trimmed(stdout)
        } else {
            r.stored_cwd
        },
        ..r
    }
}

/// The stages a run can be in: the metadata and variable positions are in
/// range.
pub open spec fn stage_in_range(r: RunView) -> bool {
    match r.stage {
        RunStage::WriteMetadata(i) => i < 3,
        RunStage::WriteEnvironment(i) => i < session_env(r.session).len(),
        _ => true,
    }
}

impl TmuxRun {
    #[verifier::type_invariant]
    closed spec fn inv(self) -> bool {
        &&& stage_in_range(self@)
        &&& self.server.mode == self.scratch.tmux_mode
    }

    /// The directory that holds the servers' sockets.
    pub fn state_dir(&self) -> (dir: &str)
        ensures
            dir@ == self@.state_dir,
    {
        self.server.state_dir.as_str()
    }

    /// The name of the session this run brings up.
    pub fn session_name(&self) -> (name: &str)
        ensures
            name@ == self@.session.name,
    {
        self.name.as_str()
    }

    /// The current stage.
    pub fn stage(&self) -> (stage: RunStage)
        ensures
            stage == self@.stage,
    {
        self.stage
    }

    /// What to do next.
    pub fn step(&self) -> (step: TmuxStep)
        ensures
            step@ == stage_step(self@),
    {
        proof {
            use_type_invariant(self);
        }
        let session = SessionSpec {
            name: self.name.as_str(),
            scratch: &self.scratch,
            pane_id: self.pane_id.as_str(),
            cwd: self.cwd.as_str(),
            prefix: self.prefix.as_str(),
            hide_keys: self.hide_keys.as_slice(),
            herdr_environment: &self.herdr_environment,
        };
        assert(session@ == self@.session);
        let server = &self.server;
        match self.stage {
            RunStage::CheckSession => TmuxStep::Run {
                args: server.session_exists(session.name),
                operation: TmuxOperation::InspectSession,
            },
            RunStage::ReadSourceCwd => TmuxStep::Run {
                args: server.session_option(session.name, "@herdr_source_cwd"),
                operation: TmuxOperation::ReadMetadata,
            },
            RunStage::ReadVersion => TmuxStep::Run {
                args: server.session_option(session.name, "@herdr_env_version"),
                operation: TmuxOperation::ReadMetadata,
            },
            RunStage::CheckStale => TmuxStep::Run {
                args: server.session_exists(session.name),
                operation: TmuxOperation::InspectSession,
            },
            RunStage::KillStale => TmuxStep::Run {
                args: server.kill_session(session.name),
                operation: TmuxOperation::ReplaceSession,
            },
            RunStage::Create => TmuxStep::Run {
                args: server.create_session(&session),
                operation: TmuxOperation::CreateSession,
            },
            RunStage::Configure => TmuxStep::Run {
                args: server.configure(session.prefix, session.hide_keys),
                operation: TmuxOperation::ConfigureServer,
            },
            RunStage::WriteMetadata(i) => TmuxStep::Run {
                args: server.update_session_metadata(&session, i),
                operation: TmuxOperation::WriteMetadata,
            },
            RunStage::WriteEnvironment(i) => TmuxStep::Run {
                args: server.update_session_environment(&session, i),
                operation: TmuxOperation::UpdateEnvironment,
            },
            RunStage::Attach => TmuxStep::Run {
                args: server.attach_session(session.name),
                operation: TmuxOperation::AttachSession,
            },
            RunStage::Attached => TmuxStep::Finished,
            RunStage::Failed(operation) => TmuxStep::Failed { operation },
        }
    }

    /// Takes in the outcome of the command of the current stage.
    pub fn advance(&mut self, outcome: CommandOutcome)
        ensures
            final(self)@ == advance_run(old(self)@, outcome.spawned, outcome.success, outcome.stdout@),
    {
        proof {
            use_type_invariant(&*self);
        }
        let ok = outcome.spawned && outcome.success;
        let ghost before = self@;
        match self.stage {
            RunStage::CheckSession => {
                self.stage = if !outcome.spawned {
                    RunStage::Failed(TmuxOperation::InspectSession)
                } else if outcome.success {
                    RunStage::ReadSourceCwd
                } else {
                    RunStage::CheckStale
                };
            },
            RunStage::ReadSourceCwd => {
                if ok {
                    self.stored_cwd = trim(outcome.stdout.as_str());
                    self.stage = RunStage::ReadVersion;
                } else {
                    self.stage = RunStage::Failed(TmuxOperation::ReadMetadata);
                }
            },
            RunStage::ReadVersion => {
                if !ok {
                    self.stage = RunStage::Failed(TmuxOperation::ReadMetadata);
                } else {
                    let version = trim(outcome.stdout.as_str());
                    let recreate = session_metadata_needs_recreation(
                        self.scratch.tmux_mode,
                        self.stored_cwd.as_str(),
                        self.cwd.as_str(),
                        version.as_str(),
                    );
                    self.stage = if recreate {
                        RunStage::CheckStale
                    } else {
                        RunStage::Configure
                    };
                }
            },
            RunStage::CheckStale => {
                self.stage = if !outcome.spawned {
                    RunStage::Failed(TmuxOperation::InspectSession)
                } else if outcome.success {
                    RunStage::KillStale
                } else {
                    RunStage::Create
                };
            },
            RunStage::KillStale => {
                self.stage = if ok {
                    RunStage::Create
                } else {
                    RunStage::Failed(TmuxOperation::ReplaceSession)
                };
            },
            RunStage::Create => {
                self.stage = if ok {
                    RunStage::WriteMetadata(0)
                } else {
                    RunStage::Failed(TmuxOperation::CreateSession)
                };
            },
            RunStage::Configure => {
                self.stage = if ok {
                    RunStage::WriteMetadata(0)
                } else {
                    RunStage::Failed(TmuxOperation::ConfigureServer)
                };
            },
            RunStage::WriteMetadata(i) => {
                proof {
                    lemma_session_env_len(self@.session);
                }
                self.stage = if !ok {
                    RunStage::Failed(TmuxOperation::WriteMetadata)
                } else if i + 1 < 3 {
                    RunStage::WriteMetadata(i + 1)
                } else {
                    RunStage::WriteEnvironment(0)
                };
            },
            RunStage::WriteEnvironment(i) => {
                let count = self.environment_len();
                self.stage = if !ok {
                    RunStage::Failed(TmuxOperation::UpdateEnvironment)
                } else if i + 1 < count {
                    RunStage::WriteEnvironment(i + 1)
                } else {
                    RunStage::Attach
                };
            },
            RunStage::Attach => {
                self.stage = if outcome.spawned {
                    RunStage::Attached
                } else {
                    RunStage::Failed(TmuxOperation::AttachSession)
                };
            },
            RunStage::Attached => {},
            RunStage::Failed(_) => {},
        }
    }

    /// The number of session variables.
    fn environment_len(&self) -> (n: usize)
        ensures
            n == session_env(self@.session).len(),
    {
        let session = SessionSpec {
            name: self.name.as_str(),
            scratch: &self.scratch,
            pane_id: self.pane_id.as_str(),
            cwd: self.cwd.as_str(),
            prefix: self.prefix.as_str(),
            hide_keys: self.hide_keys.as_slice(),
            herdr_environment: &self.herdr_environment,
        };
        assert(session@ == self@.session);
        session_environment(&session).len()
    }
}

/// A session always has at least the ten scratch variables.
pub proof fn lemma_session_env_len(s: SessionView)
    ensures
        session_env(s).len() >= 10,
{
}

fn clone_environment(env: &HerdrEnvironment) -> (res: HerdrEnvironment)
    ensures
        res@ == env@,
{
    HerdrEnvironment {
        socket_path: match &env.socket_path {
            Some(v) => Some(v.clone()),
            None => None,
        },
        workspace_id: match &env.workspace_id {
            Some(v) => Some(v.clone()),
            None => None,
        },
        tab_id: match &env.tab_id {
            Some(v) => Some(v.clone()),
            None => None,
        },
    }
}

/// Starts the protocol that brings up the session of `scratch` for the
/// source pane `pane_id` and attaches to it: the session is named after the
/// scratch, the pane and the Herdr server, and lives on the scratch's
/// server under `state_dir`.
pub fn run(
    scratch: &ResolvedScratch,
    pane_id: &str,
    cwd: &str,
    herdr_environment: &HerdrEnvironment,
    state_dir: &str,
    prefix: &str,
    hide_keys: &[String],
) -> (r: TmuxRun)
    ensures
        r@.state_dir == state_dir@,
        r@.session == (SessionView {
            name: session_name_spec(scratch.name@, pane_id@, server_identity(herdr_environment@)),
            scratch: scratch@,
            pane_id: pane_id@,
            cwd: cwd@,
            prefix: prefix@,
            hide_keys: views(hide_keys@),
            herdr: herdr_environment@,
        }),
        r@.stored_cwd == Seq::<char>::empty(),
        r@.stage == RunStage::CheckSession,
{
    let name = session_name(scratch.name.as_str(), pane_id, herdr_environment.server_identity());
    let mut keys: Vec<String> = Vec::new();
    extend_strings(&mut keys, hide_keys);
    assert(views(keys@) =~= views(hide_keys@));
    TmuxRun {
        server: TmuxServer { state_dir: owned(state_dir), mode: scratch.tmux_mode },
        name,
        scratch: scratch.clone(),
        pane_id: owned(pane_id),
        cwd: owned(cwd),
        prefix: owned(prefix),
        hide_keys: keys,
        herdr_environment: clone_environment(herdr_environment),
        stored_cwd: String::new(),
        stage: RunStage::CheckSession,
    }
}

// ---------------------------------------------------------------------------
// Laws of the protocol
// ---------------------------------------------------------------------------

/// A measure that every step of a run lowers until the run is over.
pub open spec fn stage_rank(r: RunView) -> nat {
    let e = session_env(r.session).len();
    match r.stage {
        RunStage::CheckSession => e + 10,
        RunStage::ReadSourceCwd => e + 9,
        RunStage::ReadVersion => e + 8,
        RunStage::CheckStale => e + 7,
        RunStage::KillStale => e + 6,
        RunStage::Create => e + 5,
        RunStage::Configure => e + 5,
        RunStage::WriteMetadata(i) => (e + 4 - i) as nat,
        RunStage::WriteEnvironment(i) => (e + 1 - i) as nat,
        RunStage::Attach => 1,
        RunStage::Attached => 0,
        RunStage::Failed(_) => 0,
    }
}

pub open spec fn is_over(stage: RunStage) -> bool {
    stage == RunStage::Attached || stage is Failed
}

/// Every run ends: each outcome of a command moves the run to a stage of
/// lower rank, so a run takes at most `stage_rank` commands; the stages it
/// reaches stay in range.
pub proof fn lemma_run_progresses(r: RunView, spawned: bool, success: bool, stdout: Seq<char>)
    requires
        stage_in_range(r),
        !is_over(r.stage),
    ensures
        stage_rank(advance_run(r, spawned, success, stdout)) < stage_rank(r),
        stage_in_range(advance_run(r, spawned, success, stdout)),
{
    lemma_session_env_len(r.session);
}

/// Once a run is over it stays over, and it runs no further command.
pub proof fn lemma_run_over_is_final(r: RunView, spawned: bool, success: bool, stdout: Seq<char>)
    requires
        is_over(r.stage),
    ensures
        advance_run(r, spawned, success, stdout).stage == r.stage,
        stage_command(r) is None,
        r.stage == RunStage::Attached ==> stage_step(r) == StepView::Finished,
        r.stage matches RunStage::Failed(op) ==> stage_step(r) == StepView::Failed(op),
{
}

/// A command of a run that fails to start ends the run with that command's
/// failure; so does one that exits unsuccessfully, except the inspection of
/// a session (which answers "no such session") and the attachment (whose
/// exit status is that of the popup's terminal).
pub proof fn lemma_failures_end_the_run(r: RunView, spawned: bool, success: bool, stdout: Seq<char>)
    requires
        !is_over(r.stage),
        !spawned || (!success && r.stage != RunStage::CheckSession && r.stage
            != RunStage::CheckStale && r.stage != RunStage::Attach),
    ensures
        stage_command(r) matches Some((_, op)) && advance_run(r, spawned, success, stdout).stage
            == RunStage::Failed(op),
{
}

/// Every command of a run goes to the scratch's own tmux server.
pub proof fn lemma_commands_address_the_server(r: RunView)
    ensures
        stage_command(r) matches Some((args, _)) ==> tmux_args_spec(
            r.session.scratch.tmux_mode,
        ).is_prefix_of(args),
{
    let tmux = tmux_args_spec(r.session.scratch.tmux_mode);
    if let Some((args, _)) = stage_command(r) {
        assert(args.subrange(0, tmux.len() as int) =~= tmux);
    }
}

/// A session that does not exist is created: the run checks again for a
/// stale session of that name, and creates it when there is none.
pub proof fn lemma_missing_session_is_created(r: RunView, first: Seq<char>, second: Seq<char>)
    requires
        r.stage == RunStage::CheckSession,
    ensures
        advance_run(r, true, false, first).stage == RunStage::CheckStale,
        advance_run(advance_run(r, true, false, first), true, false, second).stage
            == RunStage::Create,
{
}

/// An existing session is replaced exactly when its metadata says so;
/// otherwise only the server is configured again.
pub proof fn lemma_existing_session_recreation(
    r: RunView,
    cwd_output: Seq<char>,
    version_output: Seq<char>,
)
    requires
        r.stage == RunStage::CheckSession,
    ensures
        ({
            let read_cwd = advance_run(r, true, true, Seq::<char>::empty());
            let read_version = advance_run(read_cwd, true, true, cwd_output);
            let decided = advance_run(read_version, true, true, version_output);
            &&& read_cwd.stage == RunStage::ReadSourceCwd
            &&& read_version.stage == RunStage::ReadVersion
            &&& read_version.stored_cwd == trimmed(cwd_output)
            &&& decided.stage == (if needs_recreation(
                r.session.scratch.tmux_mode,
                trimmed(cwd_output),
                r.session.cwd,
                trimmed(version_output),
            ) {
                RunStage::CheckStale
            } else {
                RunStage::Configure
            })
        }),
{
}

/// The popup attaches only after the last session variable was set.
pub proof fn lemma_attach_follows_environment(
    r: RunView,
    spawned: bool,
    success: bool,
    stdout: Seq<char>,
)
    requires
        stage_in_range(r),
        advance_run(r, spawned, success, stdout).stage == RunStage::Attach,
    ensures
        r.stage == RunStage::WriteEnvironment((session_env(r.session).len() - 1) as usize),
        succeeded(spawned, success),
{
}

/// Workspace sessions survive changes of the source directory and of the
/// metadata version; minimal sessions are replaced when either differs.
pub proof fn lemma_recreation_policy(stored_cwd: Seq<char>, current_cwd: Seq<char>, version: Seq<char>)
    ensures
        !needs_recreation(TmuxMode::Workspace, stored_cwd, current_cwd, version),
        needs_recreation(TmuxMode::Minimal, stored_cwd, current_cwd, version) <==> (version
            != "1"@ || stored_cwd != current_cwd),
{
}

/// Scratches with different names never share a session, whatever the
/// panes and servers.
pub proof fn lemma_sessions_differ_by_scratch(
    a: Seq<char>,
    b: Seq<char>,
    pane_a: Seq<char>,
    pane_b: Seq<char>,
    server_a: Seq<char>,
    server_b: Seq<char>,
)
    requires
        crate::config::valid_name(a),
        crate::config::valid_name(b),
        a != b,
    ensures
        session_name_spec(a, pane_a, server_a) != session_name_spec(b, pane_b, server_b),
{
    reveal_strlit("hs/");
    reveal_strlit("/");
    let x = session_name_spec(a, pane_a, server_a);
    let y = session_name_spec(b, pane_b, server_b);
    assert(x =~= "hs/"@ + a + ("/"@ + short_hash_spec(server_a) + "/"@ + sanitized(pane_a)));
    assert(y =~= "hs/"@ + b + ("/"@ + short_hash_spec(server_b) + "/"@ + sanitized(pane_b)));
    if x == y {
        assert forall|k: int| 0 <= k < a.len() implies x[3 + k] == a[k] by {}
        assert forall|k: int| 0 <= k < b.len() implies y[3 + k] == b[k] by {}
        if a.len() == b.len() {
            assert forall|k: int| 0 <= k < a.len() implies a[k] == b[k] by {
                assert(x[3 + k] == y[3 + k]);
            }
            assert(a =~= b);
        } else if a.len() < b.len() {
            assert(x[3 + a.len() as int] == '/');
            assert(y[3 + a.len() as int] == b[a.len() as int]);
        } else {
            assert(y[3 + b.len() as int] == '/');
            assert(x[3 + b.len() as int] == a[b.len() as int]);
        }
    }
}

/// Panes of one scratch on one server have sessions of their own, as long
/// as their identities differ once sanitized.
pub proof fn lemma_sessions_differ_by_pane(
    scratch_name: Seq<char>,
    pane_a: Seq<char>,
    pane_b: Seq<char>,
    server: Seq<char>,
)
    requires
        sanitized(pane_a) != sanitized(pane_b),
    ensures
        session_name_spec(scratch_name, pane_a, server) != session_name_spec(
            scratch_name,
            pane_b,
            server,
        ),
{
    let head = "hs/"@ + scratch_name + "/"@ + short_hash_spec(server) + "/"@;
    let x = session_name_spec(scratch_name, pane_a, server);
    let y = session_name_spec(scratch_name, pane_b, server);
    assert(x == head + sanitized(pane_a));
    assert(y == head + sanitized(pane_b));
    if x == y {
        assert(x.subrange(head.len() as int, x.len() as int) =~= sanitized(pane_a));
        assert(y.subrange(head.len() as int, y.len() as int) =~= sanitized(pane_b));
    }
}

/// `cmd` occurs in `args` as a contiguous run of arguments.
pub open spec fn contains_command(args: Seq<Seq<char>>, cmd: Seq<Seq<char>>) -> bool {
    exists|p: int|
        0 <= p && p + cmd.len() <= args.len() && #[trigger] args.subrange(p, p + cmd.len()) == cmd
}

/// Every command of a list occurs, whole, in the list's invocation.
pub proof fn lemma_flatten_contains(commands: Seq<Seq<Seq<char>>>, i: int)
    requires
        0 <= i < commands.len(),
    ensures
        contains_command(flatten(commands), commands[i]),
    decreases commands.len(),
{
    let all = flatten(commands);
    let prev = flatten(commands.drop_last());
    let cmd = commands[i];
    if prev.len() > 0 {
        assert(all == prev + seq![";"@] + commands.last());
    } else {
        assert(all == commands.last());
    }
    if i < commands.len() - 1 {
        assert(commands.drop_last()[i] == cmd);
        lemma_flatten_contains(commands.drop_last(), i);
        let p = choose|p: int|
            0 <= p && p + cmd.len() <= prev.len() && #[trigger] prev.subrange(p, p + cmd.len())
                == cmd;
        if prev.len() > 0 {
            assert(all.subrange(p, p + cmd.len()) =~= prev.subrange(p, p + cmd.len()));
            assert(all.subrange(p, p + cmd.len()) == cmd);
        } else {
            assert(cmd.len() == 0);
            assert(all.subrange(0, 0) =~= cmd);
            assert(all.subrange(0int, 0int + cmd.len()) == cmd);
        }
    } else {
        assert(commands.last() == cmd);
        if prev.len() > 0 {
            let p = prev.len() + 1int;
            assert(all.subrange(p, p + cmd.len()) =~= cmd);
        } else {
            assert(all.subrange(0int, 0int + cmd.len()) =~= cmd);
        }
    }
}

/// The prefix key sends the prefix through to the program in the session.
pub open spec fn send_prefix_command(prefix: Seq<char>) -> Seq<Seq<char>> {
    seq!["bind-key"@, "-T"@, "prefix"@, prefix, "send-prefix"@]
}

/// The server's prefix is the Herdr prefix handed to the run.
pub open spec fn set_prefix_command(prefix: Seq<char>) -> Seq<Seq<char>> {
    seq!["set-option"@, "-g"@, "prefix"@, prefix]
}

/// In both modes, the server takes the Herdr prefix as its own, every
/// configured hide key detaches the popup's client and the prefix key
/// pressed twice passes the prefix through; the minimal server also binds
/// `prefix x` to a confirmed kill of the session.
pub proof fn lemma_configuration_binds_keys(mode: TmuxMode, prefix: Seq<char>, keys: Seq<Seq<char>>)
    ensures
        forall|i: int|
            0 <= i < keys.len() ==> contains_command(
                server_configuration(mode, prefix, keys),
                hide_key_command(#[trigger] keys[i]),
            ),
        contains_command(server_configuration(mode, prefix, keys), set_prefix_command(prefix)),
        contains_command(server_configuration(mode, prefix, keys), send_prefix_command(prefix)),
        mode == TmuxMode::Minimal ==> contains_command(
            server_configuration(mode, prefix, keys),
            minimal_commands(prefix)[9],
        ),
{
    let hides = hide_key_commands(keys);
    match mode {
        TmuxMode::Minimal => {
            let cmds = minimal_commands(prefix) + hides;
            assert forall|i: int| 0 <= i < keys.len() implies contains_command(
                server_configuration(mode, prefix, keys),
                hide_key_command(#[trigger] keys[i]),
            ) by {
                assert(cmds[11 + i] == hide_key_command(keys[i]));
                lemma_flatten_contains(cmds, 11 + i);
            }
            assert(cmds[2] == set_prefix_command(prefix));
            lemma_flatten_contains(cmds, 2);
            assert(cmds[10] == send_prefix_command(prefix));
            lemma_flatten_contains(cmds, 10);
            assert(cmds[9] == minimal_commands(prefix)[9]);
            lemma_flatten_contains(cmds, 9);
        },
        TmuxMode::Workspace => {
            let overlay = overlay_command_text(prefix, keys);
            let cmds = seq![
                seq!["start-server"@],
                hook_command(overlay_hooks()[0], overlay),
                hook_command(overlay_hooks()[1], overlay),
                hook_command(overlay_hooks()[2], overlay),
            ] + overlay_commands(prefix, keys);
            assert forall|i: int| 0 <= i < keys.len() implies contains_command(
                server_configuration(mode, prefix, keys),
                hide_key_command(#[trigger] keys[i]),
            ) by {
                assert(cmds[8 + i] == hide_key_command(keys[i]));
                lemma_flatten_contains(cmds, 8 + i);
            }
            assert(cmds[5] == set_prefix_command(prefix));
            lemma_flatten_contains(cmds, 5);
            assert(cmds[7] == send_prefix_command(prefix));
            lemma_flatten_contains(cmds, 7);
        },
    }
}

/// Sessions expose the compatibility variables: `TMX_SCRATCH=1`, the
/// scratch type, the parent pane, the scratch kind and source pane, and the
/// Herdr socket exactly when Herdr provides one.
pub proof fn lemma_session_exports_compatibility_variables(s: SessionView)
    ensures
        session_env(s).contains(("TMX_SCRATCH"@, "1"@)),
        session_env(s).contains(("TMX_SCRATCH_TYPE"@, s.scratch.tmx_type)),
        session_env(s).contains(("TMX_PARENT_PANE"@, s.pane_id)),
        session_env(s).contains(("HERDR_SCRATCH_KIND"@, s.scratch.name)),
        session_env(s).contains(("HERDR_SCRATCH_SOURCE_PANE"@, s.pane_id)),
        s.herdr.socket_path matches Some(p) ==> session_env(s).contains(("HERDR_SOCKET_PATH"@, p)),
{
    let env = session_env(s);
    assert(env[8] == ("TMX_SCRATCH"@, "1"@));
    assert(env[9] == ("TMX_SCRATCH_TYPE"@, s.scratch.tmx_type));
    assert(env[7] == ("TMX_PARENT_PANE"@, s.pane_id));
    assert(env[2] == ("HERDR_SCRATCH_KIND"@, s.scratch.name));
    assert(env[6] == ("HERDR_SCRATCH_SOURCE_PANE"@, s.pane_id));
    if let Some(p) = s.herdr.socket_path {
        assert(env[10] == ("HERDR_SOCKET_PATH"@, p));
    }
}

// ---------------------------------------------------------------------------
// Whole runs
// ---------------------------------------------------------------------------

/// The tmux commands a run issues when its commands have the given
/// outcomes (started, exited successfully, printed), one per command,
/// until it is over or the outcomes run out.
pub open spec fn issued(r: RunView, outcomes: Seq<(bool, bool, Seq<char>)>) -> Seq<Seq<Seq<char>>>
    decreases outcomes.len(),
{
    if outcomes.len() == 0 {
        Seq::<Seq<Seq<char>>>::empty()
    } else {
        match stage_command(r) {
            None => Seq::<Seq<Seq<char>>>::empty(),
            Some((args, _)) => seq![args] + issued(
                advance_run(r, outcomes[0].0, outcomes[0].1, outcomes[0].2),
                outcomes.drop_first(),
            ),
        }
    }
}

/// Where a run stands after its commands had the given outcomes.
pub open spec fn run_after(r: RunView, outcomes: Seq<(bool, bool, Seq<char>)>) -> RunView
    decreases outcomes.len(),
{
    if outcomes.len() == 0 || stage_command(r) is None {
        r
    } else {
        run_after(
            advance_run(r, outcomes[0].0, outcomes[0].1, outcomes[0].2),
            outcomes.drop_first(),
        )
    }
}

/// Commands as invocations of the server of `mode`.
pub open spec fn on_server(mode: TmuxMode, commands: Seq<Seq<Seq<char>>>) -> Seq<Seq<Seq<char>>> {
    commands.map_values(|c: Seq<Seq<char>>| tmux_args_spec(mode) + c)
}

/// The commands every successful run ends with: the metadata, the session
/// variables, and the attachment.
pub open spec fn finishing_commands(s: SessionView) -> Seq<Seq<Seq<char>>> {
    metadata_commands(s) + environment_commands(s) + seq![attach_args(s.name)]
}

/// Outcomes where every command starts and succeeds, except that the last
/// one (the attachment) only has to start.
pub open spec fn all_run(outcomes: Seq<(bool, bool, Seq<char>)>) -> bool {
    &&& outcomes.len() > 0
    &&& forall|k: int| 0 <= k < outcomes.len() - 1 ==> #[trigger] outcomes[k].0 && outcomes[k].1
    &&& outcomes.last().0
}

pub open spec fn finishing_index(r: RunView) -> int {
    match r.stage {
        RunStage::WriteMetadata(m) => m as int,
        RunStage::WriteEnvironment(j) => 3 + j,
        RunStage::Attach => 3 + session_env(r.session).len() as int,
        _ => -1,
    }
}

proof fn lemma_finishing(r: RunView, o: Seq<(bool, bool, Seq<char>)>)
    requires
        finishing_index(r) >= 0,
        stage_in_range(r),
        o.len() == finishing_commands(r.session).len() - finishing_index(r),
        all_run(o),
    ensures
        issued(r, o) == on_server(
            r.session.scratch.tmux_mode,
            finishing_commands(r.session).skip(finishing_index(r)),
        ),
        run_after(r, o).stage == RunStage::Attached,
    decreases o.len(),
{
    let s = r.session;
    let f = finishing_commands(s);
    let i = finishing_index(r);
    let n = session_env(s).len();
    let tmux = tmux_args_spec(s.scratch.tmux_mode);
    assert(environment_commands(s).len() == n);
    assert(f.len() == 4 + n);
    match r.stage {
        RunStage::WriteMetadata(m) => {
            assert(f[i] == metadata_commands(s)[i]);
        },
        RunStage::WriteEnvironment(j) => {
            assert(f[i] == environment_commands(s)[j as int]);
        },
        _ => {
            assert(f[i] == attach_args(s.name));
        },
    }
    assert(stage_command(r) matches Some((args, _)) && args == tmux + f[i]);
    let next = advance_run(r, o[0].0, o[0].1, o[0].2);
    let rest = o.drop_first();
    lemma_run_progresses(r, o[0].0, o[0].1, o[0].2);
    assert(f.skip(i) =~= seq![f[i]] + f.skip(i + 1));
    if o.len() == 1 {
        assert(r.stage == RunStage::Attach);
        assert(o[0] == o.last());
        assert(next.stage == RunStage::Attached);
        assert(rest.len() == 0);
        assert(issued(next, rest) == Seq::<Seq<Seq<char>>>::empty());
        assert(issued(r, o) == seq![tmux + f[i]] + issued(next, rest));
        assert(run_after(r, o) == run_after(next, rest));
        assert(f.skip(i + 1) =~= Seq::<Seq<Seq<char>>>::empty());
        assert(on_server(s.scratch.tmux_mode, f.skip(i)) =~= seq![tmux + f[i]]);
    } else {
        assert(o[0].0 && o[0].1);
        assert(next.session == s);
        assert(finishing_index(next) == i + 1);
        assert(all_run(rest)) by {
            assert forall|k: int| 0 <= k < rest.len() - 1 implies #[trigger] rest[k].0
                && rest[k].1 by {
                assert(rest[k] == o[k + 1]);
                assert(o[k + 1].0 && o[k + 1].1);
            }
            assert(rest.len() > 0);
            assert(rest.last() == o.last());
            assert(rest.last().0);
        }
        lemma_finishing(next, rest);
        assert(issued(r, o) == seq![tmux + f[i]] + issued(next, rest));
        assert(run_after(r, o) == run_after(next, rest));
        assert(on_server(s.scratch.tmux_mode, f.skip(i)) =~= seq![tmux + f[i]] + on_server(
            s.scratch.tmux_mode,
            f.skip(i + 1),
        ));
    }
}

/// A fresh run: when tmux has no session of that name (both checks answer
/// "no") and every later command succeeds, the run issues, in order, the
/// two checks, the creation of the configured session, the three pieces of
/// metadata, one `set-environment` per session variable and the
/// attachment, all on the scratch's own server, and then it is over
/// successfully, whatever the attachment's exit status.
pub proof fn lemma_fresh_run(r: RunView, o: Seq<(bool, bool, Seq<char>)>)
    requires
        r.stage == RunStage::CheckSession,
        o.len() == 7 + session_env(r.session).len(),
        o[0].0 && !o[0].1,
        o[1].0 && !o[1].1,
        all_run(o.skip(2)),
    ensures
        issued(r, o) == on_server(
            r.session.scratch.tmux_mode,
            seq![
                has_session_args(r.session.name),
                has_session_args(r.session.name),
                configured_session(r.session),
            ] + finishing_commands(r.session),
        ),
        run_after(r, o).stage == RunStage::Attached,
{
    let s = r.session;
    let mode = s.scratch.tmux_mode;
    let tmux = tmux_args_spec(mode);
    let o1 = o.drop_first();
    let o2 = o1.drop_first();
    let o3 = o2.drop_first();
    assert(o2 =~= o.skip(2));
    assert(o2[0] == o[2]);
    assert(o2[0].0 && o2[0].1);
    let r1 = advance_run(r, o[0].0, o[0].1, o[0].2);
    assert(r1.stage == RunStage::CheckStale);
    assert(o1[0] == o[1]);
    let r2 = advance_run(r1, o1[0].0, o1[0].1, o1[0].2);
    assert(r2.stage == RunStage::Create);
    let r3 = advance_run(r2, o2[0].0, o2[0].1, o2[0].2);
    assert(r3.stage == RunStage::WriteMetadata(0));
    assert(r3.session == s);
    assert(all_run(o3)) by {
        assert forall|k: int| 0 <= k < o3.len() - 1 implies #[trigger] o3[k].0 && o3[k].1 by {
            assert(o3[k] == o2[k + 1]);
            assert(o2[k + 1].0 && o2[k + 1].1);
        }
        assert(o3.last() == o2.last());
    }
    lemma_finishing(r3, o3);
    let f = finishing_commands(s);
    assert(f.skip(0) =~= f);
    assert(issued(r, o) == seq![tmux + has_session_args(s.name)] + issued(r1, o1));
    assert(issued(r1, o1) == seq![tmux + has_session_args(s.name)] + issued(r2, o2));
    assert(issued(r2, o2) == seq![tmux + configured_session(s)] + issued(r3, o3));
    assert(run_after(r, o) == run_after(r1, o1));
    assert(run_after(r1, o1) == run_after(r2, o2));
    assert(run_after(r2, o2) == run_after(r3, o3));
    assert(on_server(mode, seq![has_session_args(s.name), has_session_args(s.name), configured_session(s)] + f)
        =~= seq![tmux + has_session_args(s.name)] + (seq![tmux + has_session_args(s.name)] + (seq![
        tmux + configured_session(s)] + on_server(mode, f))));
}

proof fn lemma_all_run_tail(o: Seq<(bool, bool, Seq<char>)>)
    requires
        all_run(o),
        o.len() > 1,
    ensures
        all_run(o.drop_first()),
        o[0].0 && o[0].1,
{
    let rest = o.drop_first();
    assert(o[0].0 && o[0].1);
    assert forall|k: int| 0 <= k < rest.len() - 1 implies #[trigger] rest[k].0 && rest[k].1 by {
        assert(rest[k] == o[k + 1]);
        assert(o[k + 1].0 && o[k + 1].1);
    }
    assert(rest.last() == o.last());
}

/// The commands of a run whose session exists, after the check and the two
/// metadata reads: the session is replaced (checked once more, killed,
/// created again) when its metadata calls for it, else the server is only
/// configured again.
pub open spec fn existing_session_commands(
    s: SessionView,
    stored_cwd_output: Seq<char>,
    version_output: Seq<char>,
) -> Seq<Seq<Seq<char>>> {
    let mode = s.scratch.tmux_mode;
    seq![
        has_session_args(s.name),
        show_option_args(s.name, "@herdr_source_cwd"@),
        show_option_args(s.name, "@herdr_env_version"@),
    ] + (if needs_recreation(mode, trimmed(stored_cwd_output), s.cwd, trimmed(version_output)) {
        seq![has_session_args(s.name), kill_session_args(s.name), configured_session(s)]
    } else {
        seq![server_configuration(mode, s.prefix, s.hide_keys)]
    }) + finishing_commands(s)
}

/// A run on an existing session where every command succeeds: it reads the
/// stored source directory and metadata version, then either replaces the
/// session (when `needs_recreation` says so) or configures the server again,
/// and finishes as a fresh run does, over successfully.
pub proof fn lemma_existing_session_run(r: RunView, o: Seq<(bool, bool, Seq<char>)>)
    requires
        r.stage == RunStage::CheckSession,
        o.len() >= 3,
        o.len() == existing_session_commands(r.session, o[1].2, o[2].2).len(),
        all_run(o),
    ensures
        issued(r, o) == on_server(
            r.session.scratch.tmux_mode,
            existing_session_commands(r.session, o[1].2, o[2].2),
        ),
        run_after(r, o).stage == RunStage::Attached,
{
    let s = r.session;
    let mode = s.scratch.tmux_mode;
    let tmux = tmux_args_spec(mode);
    let n = session_env(s).len();
    let f = finishing_commands(s);
    assert(environment_commands(s).len() == n);
    assert(f.len() == 4 + n);
    let recreate = needs_recreation(mode, trimmed(o[1].2), s.cwd, trimmed(o[2].2));
    let o1 = o.drop_first();
    let o2 = o1.drop_first();
    let o3 = o2.drop_first();
    lemma_all_run_tail(o);
    lemma_all_run_tail(o1);
    lemma_all_run_tail(o2);
    assert(o1[0] == o[1]);
    assert(o2[0] == o[2]);
    let r1 = advance_run(r, o[0].0, o[0].1, o[0].2);
    assert(r1.stage == RunStage::ReadSourceCwd);
    let r2 = advance_run(r1, o1[0].0, o1[0].1, o1[0].2);
    assert(r2.stage == RunStage::ReadVersion);
    assert(r2.stored_cwd == trimmed(o[1].2));
    let r3 = advance_run(r2, o2[0].0, o2[0].1, o2[0].2);
    assert(issued(r, o) == seq![tmux + has_session_args(s.name)] + issued(r1, o1));
    assert(issued(r1, o1) == seq![tmux + show_option_args(s.name, "@herdr_source_cwd"@)] + issued(
        r2,
        o2,
    ));
    assert(issued(r2, o2) == seq![tmux + show_option_args(s.name, "@herdr_env_version"@)]
        + issued(r3, o3));
    assert(run_after(r, o) == run_after(r1, o1));
    assert(run_after(r1, o1) == run_after(r2, o2));
    assert(run_after(r2, o2) == run_after(r3, o3));
    let head = seq![
        has_session_args(s.name),
        show_option_args(s.name, "@herdr_source_cwd"@),
        show_option_args(s.name, "@herdr_env_version"@),
    ];
    if recreate {
        assert(r3.stage == RunStage::CheckStale);
        lemma_replace_and_finish(r3, o3);
        let mid = seq![has_session_args(s.name), kill_session_args(s.name), configured_session(s)];
        assert(on_server(mode, head + mid + f) =~= seq![tmux + head[0]] + (seq![tmux + head[1]] + (
        seq![tmux + head[2]] + on_server(mode, mid + f))));
    } else {
        assert(r3.stage == RunStage::Configure);
        lemma_configure_and_finish(r3, o3);
        let conf = server_configuration(mode, s.prefix, s.hide_keys);
        assert(on_server(mode, head + seq![conf] + f) =~= seq![tmux + head[0]] + (seq![
            tmux + head[1]] + (seq![tmux + head[2]] + on_server(mode, seq![conf] + f))));
    }
}

proof fn lemma_replace_and_finish(r3: RunView, o3: Seq<(bool, bool, Seq<char>)>)
    requires
        r3.stage == RunStage::CheckStale,
        o3.len() == 3 + finishing_commands(r3.session).len(),
        all_run(o3),
    ensures
        issued(r3, o3) == on_server(
            r3.session.scratch.tmux_mode,
            seq![
                has_session_args(r3.session.name),
                kill_session_args(r3.session.name),
                configured_session(r3.session),
            ] + finishing_commands(r3.session),
        ),
        run_after(r3, o3).stage == RunStage::Attached,
{
    let s = r3.session;
    let mode = s.scratch.tmux_mode;
    let tmux = tmux_args_spec(mode);
    let f = finishing_commands(s);
    let o4 = o3.drop_first();
    let o5 = o4.drop_first();
    let o6 = o5.drop_first();
    lemma_all_run_tail(o3);
    lemma_all_run_tail(o4);
    lemma_all_run_tail(o5);
    let r4 = advance_run(r3, o3[0].0, o3[0].1, o3[0].2);
    assert(r4.stage == RunStage::KillStale);
    let r5 = advance_run(r4, o4[0].0, o4[0].1, o4[0].2);
    assert(r5.stage == RunStage::Create);
    let r6 = advance_run(r5, o5[0].0, o5[0].1, o5[0].2);
    assert(r6.stage == RunStage::WriteMetadata(0));
    assert(r6.session == s);
    lemma_finishing(r6, o6);
    assert(f.skip(0) =~= f);
    assert(issued(r3, o3) == seq![tmux + has_session_args(s.name)] + issued(r4, o4));
    assert(issued(r4, o4) == seq![tmux + kill_session_args(s.name)] + issued(r5, o5));
    assert(issued(r5, o5) == seq![tmux + configured_session(s)] + issued(r6, o6));
    assert(run_after(r3, o3) == run_after(r4, o4));
    assert(run_after(r4, o4) == run_after(r5, o5));
    assert(run_after(r5, o5) == run_after(r6, o6));
    let mid = seq![has_session_args(s.name), kill_session_args(s.name), configured_session(s)];
    assert(on_server(mode, mid + f) =~= seq![tmux + mid[0]] + (seq![tmux + mid[1]] + (seq![
        tmux + mid[2]] + on_server(mode, f))));
}

proof fn lemma_configure_and_finish(r3: RunView, o3: Seq<(bool, bool, Seq<char>)>)
    requires
        r3.stage == RunStage::Configure,
        o3.len() == 1 + finishing_commands(r3.session).len(),
        all_run(o3),
    ensures
        issued(r3, o3) == on_server(
            r3.session.scratch.tmux_mode,
            seq![
                server_configuration(
                    r3.session.scratch.tmux_mode,
                    r3.session.prefix,
                    r3.session.hide_keys,
                ),
            ] + finishing_commands(r3.session),
        ),
        run_after(r3, o3).stage == RunStage::Attached,
{
    let s = r3.session;
    let mode = s.scratch.tmux_mode;
    let tmux = tmux_args_spec(mode);
    let f = finishing_commands(s);
    let o4 = o3.drop_first();
    lemma_all_run_tail(o3);
    let r4 = advance_run(r3, o3[0].0, o3[0].1, o3[0].2);
    assert(r4.stage == RunStage::WriteMetadata(0));
    assert(r4.session == s);
    lemma_finishing(r4, o4);
    assert(f.skip(0) =~= f);
    let conf = server_configuration(mode, s.prefix, s.hide_keys);
    assert(issued(r3, o3) == seq![tmux + conf] + issued(r4, o4));
    assert(run_after(r3, o3) == run_after(r4, o4));
    assert(on_server(mode, seq![conf] + f) =~= seq![tmux + conf] + on_server(mode, f));
}

/// A workspace session that exists is never replaced, whatever directory
/// and version it records: the run reads its metadata, configures the
/// server again, and finishes as a fresh run does.
pub proof fn lemma_existing_workspace_session_run(r: RunView, o: Seq<(bool, bool, Seq<char>)>)
    requires
        r.stage == RunStage::CheckSession,
        r.session.scratch.tmux_mode == TmuxMode::Workspace,
        o.len() == 8 + session_env(r.session).len(),
        all_run(o),
    ensures
        issued(r, o) == on_server(
            TmuxMode::Workspace,
            seq![
                has_session_args(r.session.name),
                show_option_args(r.session.name, "@herdr_source_cwd"@),
                show_option_args(r.session.name, "@herdr_env_version"@),
                server_configuration(TmuxMode::Workspace, r.session.prefix, r.session.hide_keys),
            ] + finishing_commands(r.session),
        ),
        run_after(r, o).stage == RunStage::Attached,
{
    let s = r.session;
    assert(environment_commands(s).len() == session_env(s).len());
    lemma_recreation_policy(trimmed(o[1].2), s.cwd, trimmed(o[2].2));
    lemma_existing_session_run(r, o);
    let head = seq![
        has_session_args(s.name),
        show_option_args(s.name, "@herdr_source_cwd"@),
        show_option_args(s.name, "@herdr_env_version"@),
    ];
    assert(head + seq![server_configuration(TmuxMode::Workspace, s.prefix, s.hide_keys)]
        =~= seq![
        has_session_args(s.name),
        show_option_args(s.name, "@herdr_source_cwd"@),
        show_option_args(s.name, "@herdr_env_version"@),
        server_configuration(TmuxMode::Workspace, s.prefix, s.hide_keys),
    ]);
}

/// A run that has failed issues no further command, whatever comes back.
pub proof fn lemma_failed_run_issues_nothing(r: RunView, o: Seq<(bool, bool, Seq<char>)>)
    requires
        r.stage is Failed,
    ensures
        issued(r, o) == Seq::<Seq<Seq<char>>>::empty(),
        run_after(r, o) == r,
{
}

/// The `i`-th metadata command of the session sets its option `key`.
pub open spec fn records_option(s: SessionView, i: int, key: Seq<char>) -> bool {
    let cmds = metadata_commands(s);
    &&& 0 <= i < cmds.len()
    &&& cmds[i].len() == 5
    &&& cmds[i][0] == "set-option"@
    &&& cmds[i][1] == "-t"@
    &&& cmds[i][2] == s.name
    &&& cmds[i][3] == key
}

proof fn lemma_metadata_keys_distinct()
    ensures
        "@herdr_source_cwd"@ != "@herdr_env_version"@,
        "@herdr_source_pane"@ != "@herdr_env_version"@,
        "@herdr_source_pane"@ != "@herdr_source_cwd"@,
{
    reveal_strlit("@herdr_source_cwd");
    reveal_strlit("@herdr_source_pane");
    reveal_strlit("@herdr_env_version");
    assert("@herdr_source_cwd"@[1] == 'h' && "@herdr_source_cwd"@.len() == 17);
    assert("@herdr_source_pane"@.len() == 18);
    assert("@herdr_env_version"@.len() == 18 && "@herdr_env_version"@[7] == 'e');
    assert("@herdr_source_pane"@[7] == 's');
}

/// The metadata a run records is metadata that keeps its session: the run
/// records the source directory, the source pane and the metadata version,
/// and a later run
/// for the same session that finds it alive and reads those values back
/// configures the server again rather than replacing the session (for a
/// source directory that reads back as it was written, with no surrounding
/// whitespace).
pub proof fn lemma_recorded_metadata_keeps_session(r: RunView)
    requires
        r.stage == RunStage::CheckSession,
        trimmed(r.session.cwd) == r.session.cwd,
    ensures
        exists|i: int| #[trigger] records_option(r.session, i, "@herdr_source_cwd"@),
        exists|j: int| #[trigger] records_option(r.session, j, "@herdr_env_version"@),
        exists|k: int| #[trigger] records_option(r.session, k, "@herdr_source_pane"@),
        forall|k: int|
            #[trigger] records_option(r.session, k, "@herdr_source_pane"@) ==> metadata_commands(
                r.session,
            )[k][4] == r.session.pane_id,
        forall|i: int, j: int|
            #[trigger] records_option(r.session, i, "@herdr_source_cwd"@) && #[trigger]
            records_option(r.session, j, "@herdr_env_version"@) ==> {
                let cmds = metadata_commands(r.session);
                let alive = advance_run(r, true, true, Seq::<char>::empty());
                let read_cwd = advance_run(alive, true, true, cmds[i][4]);
                let read_version = advance_run(read_cwd, true, true, cmds[j][4]);
                &&& cmds[i][4] == r.session.cwd
                &&& read_version.stage == RunStage::Configure
            },
{
    let s = r.session;
    let cmds = metadata_commands(s);
    lemma_metadata_keys_distinct();
    assert(records_option(s, 0, "@herdr_source_cwd"@));
    assert(records_option(s, 2, "@herdr_env_version"@));
    assert(records_option(s, 1, "@herdr_source_pane"@));
    assert forall|k: int| #[trigger] records_option(s, k, "@herdr_source_pane"@) implies cmds[k][4]
        == s.pane_id by {
        assert(k == 1);
    }
    let one = "1"@;
    reveal_strlit("1");
    let ws = whitespace_class();
    assert(!ws(one[0]));
    lemma_trim_start(one, ws, 0);
    assert(one.skip(0) =~= one);
    lemma_trim_end(one, ws, 1);
    assert(one.take(1) =~= one);
    assert(trimmed(one) == one);
    assert forall|i: int, j: int|
        #[trigger] records_option(s, i, "@herdr_source_cwd"@) && #[trigger] records_option(
            s,
            j,
            "@herdr_env_version"@,
        ) implies {
        let alive = advance_run(r, true, true, Seq::<char>::empty());
        let read_cwd = advance_run(alive, true, true, cmds[i][4]);
        let read_version = advance_run(read_cwd, true, true, cmds[j][4]);
        &&& cmds[i][4] == s.cwd
        &&& read_version.stage == RunStage::Configure
    } by {
        assert(i == 0);
        assert(j == 2);
    }
}

} // verus!
