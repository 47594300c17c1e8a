//! Translation of Herdr key names (`ctrl+a`, `alt+shift+x`, `f5`) into tmux
//! key names (`C-a`, `M-X`, `F5`), and the Herdr prefix setting.
use vstd::prelude::*;

use crate::text::{
    concat3, is_ascii_digit, lemma_decimal_digits, lemma_trim_end, lemma_trim_start, to_ascii_lower,
    whitespace_class, lemma_join_split, lemma_split_extend, lemma_split_has_sep,
    lemma_split_on_nonempty, lemma_split_without_sep, unsigned_digits,
    ascii_lowercase, char_is_ascii_alphabetic, char_to_ascii_upper, decimal, decimal_string,
    is_ascii_alphabetic, join, join_strings, owned, parse_unsigned, parse_unsigned_str, push_char,
    split, split_on, str_eq, to_ascii_lowercase, to_ascii_upper, trim, trimmed, views,
};

verus! {

/// Why a Herdr key name has no tmux counterpart.
#[derive(Debug)]
pub enum PrefixError {
    /// The key name is empty (or only whitespace).
    Empty,
    /// The key uses Command/Super, which tmux cannot receive.
    CommandModifier { prefix: String },
    /// A modifier other than ctrl, alt or shift.
    UnsupportedModifier { modifier: String, prefix: String },
    /// A base key that is neither a named key nor a single character.
    UnsupportedKey { key: String },
    /// The Herdr configuration file is not valid TOML.
    InvalidConfig { message: String },
}

/// The mathematical form of a [`PrefixError`].
pub enum PrefixFault {
    Empty,
    CommandModifier(Seq<char>),
    UnsupportedModifier(Seq<char>, Seq<char>),
    UnsupportedKey(Seq<char>),
    InvalidConfig(Seq<char>),
}

impl View for PrefixError {
    type V = PrefixFault;

    open spec fn view(&self) -> PrefixFault {
        match self {
            PrefixError::Empty => PrefixFault::Empty,
            PrefixError::CommandModifier { prefix } => PrefixFault::CommandModifier(prefix@),
            PrefixError::UnsupportedModifier { modifier, prefix } => PrefixFault::UnsupportedModifier(
                modifier@,
                prefix@,
            ),
            PrefixError::UnsupportedKey { key } => PrefixFault::UnsupportedKey(key@),
            PrefixError::InvalidConfig { message } => PrefixFault::InvalidConfig(message@),
        }
    }
}

impl PrefixError {
    /// The text that describes the error.
    pub open spec fn message_spec(&self) -> Seq<char> {
        match self {
            PrefixError::Empty => "Herdr prefix cannot be empty"@,
            PrefixError::CommandModifier { prefix } => "Herdr prefix `"@ + prefix@
                + "` uses Command/Super, which tmux cannot receive"@,
            PrefixError::UnsupportedModifier { modifier, prefix } =>
                "unsupported Herdr prefix modifier `"@ + modifier@ + "` in `"@ + prefix@ + "`"@,
            PrefixError::UnsupportedKey { key } => "unsupported Herdr prefix key `"@ + key@ + "`"@,
            PrefixError::InvalidConfig { message } => message@,
        }
    }

    /// The text that describes the error.
    pub fn message(&self) -> (m: String)
        ensures
            m@ == self.message_spec(),
    {
        match self {
            PrefixError::Empty => owned("Herdr prefix cannot be empty"),
            PrefixError::CommandModifier { prefix } => concat3(
                "Herdr prefix `",
                prefix.as_str(),
                "` uses Command/Super, which tmux cannot receive",
            ),
            PrefixError::UnsupportedModifier { modifier, prefix } => {
                let mut m = concat3("unsupported Herdr prefix modifier `", modifier.as_str(), "` in `");
                m.append(prefix.as_str());
                m.append("`");
                m
            },
            PrefixError::UnsupportedKey { key } => concat3(
                "unsupported Herdr prefix key `",
                key.as_str(),
                "`",
            ),
            PrefixError::InvalidConfig { message } => message.clone(),
        }
    }
}

/// The mathematical form of a key translation's outcome.
pub open spec fn key_view(r: Result<String, PrefixError>) -> Result<Seq<char>, PrefixFault> {
    match r {
        Ok(s) => Ok(s@),
        Err(e) => Err(e@),
    }
}

/// The modifiers named in a key.
#[derive(Clone, Copy)]
pub struct ModifierFlags {
    pub control: bool,
    pub alt: bool,
    pub shift: bool,
}

/// tmux's names for the named keys that Herdr spells differently.
pub open spec fn named_key(key: Seq<char>) -> Option<Seq<char>> {
    if key == "space"@ {
        Some("Space"@)
    } else if key == "tab"@ {
        Some("Tab"@)
    } else if key == "enter"@ || key == "return"@ {
        Some("Enter"@)
    } else if key == "backspace"@ {
        Some("BSpace"@)
    } else if key == "delete"@ {
        Some("DC"@)
    } else if key == "up"@ {
        Some("Up"@)
    } else if key == "down"@ {
        Some("Down"@)
    } else if key == "left"@ {
        Some("Left"@)
    } else if key == "right"@ {
        Some("Right"@)
    } else {
        None
    }
}

/// A base key: a named key, or any single character as it is.
pub open spec fn base_key(key: Seq<char>) -> Result<Seq<char>, PrefixFault> {
    match named_key(key) {
        Some(name) => Ok(name),
        None => if key.len() == 1 {
            Ok(key)
        } else {
            Err(PrefixFault::UnsupportedKey(key))
        },
    }
}

pub open spec fn is_control_modifier(m: Seq<char>) -> bool {
    m == "ctrl"@ || m == "control"@
}

pub open spec fn is_alt_modifier(m: Seq<char>) -> bool {
    m == "alt"@ || m == "option"@ || m == "meta"@
}

pub open spec fn is_shift_modifier(m: Seq<char>) -> bool {
    m == "shift"@
}

pub open spec fn is_command_modifier(m: Seq<char>) -> bool {
    m == "cmd"@ || m == "command"@ || m == "super"@
}

/// The modifiers read in order; the first one that tmux cannot express is
/// the error.
pub open spec fn scan_modifiers(mods: Seq<Seq<char>>, prefix: Seq<char>) -> Result<
    ModifierFlags,
    PrefixFault,
>
    decreases mods.len(),
{
    if mods.len() == 0 {
        Ok(ModifierFlags { control: false, alt: false, shift: false })
    } else {
        match scan_modifiers(mods.drop_last(), prefix) {
            Err(e) => Err(e),
            Ok(f) => {
                let m = mods.last();
                if is_control_modifier(m) {
                    Ok(ModifierFlags { control: true, ..f })
                } else if is_alt_modifier(m) {
                    Ok(ModifierFlags { alt: true, ..f })
                } else if is_shift_modifier(m) {
                    Ok(ModifierFlags { shift: true, ..f })
                } else if is_command_modifier(m) {
                    Err(PrefixFault::CommandModifier(prefix))
                } else {
                    Err(PrefixFault::UnsupportedModifier(m, prefix))
                }
            },
        }
    }
}

/// `f1` through `f24`: the function key's number.
pub open spec fn function_key(value: Seq<char>) -> Option<nat> {
    if value.len() > 0 && value[0] == 'f' {
        match parse_unsigned(value.drop_first(), 255) {
            Some(n) => if 1 <= n <= 24 {
                Some(n)
            } else {
                None
            },
            None => None,
        }
    } else {
        None
    }
}

/// tmux's modifier letters, in the order C, M, S, joined by `-`.
pub open spec fn modifier_letters(f: ModifierFlags) -> Seq<Seq<char>> {
    (if f.control {
        seq![seq!['C']]
    } else {
        Seq::<Seq<char>>::empty()
    }) + (if f.alt {
        seq![seq!['M']]
    } else {
        Seq::<Seq<char>>::empty()
    }) + (if f.shift {
        seq![seq!['S']]
    } else {
        Seq::<Seq<char>>::empty()
    })
}

/// The tmux key for a modified base key; shift on a single letter becomes
/// the upper-case letter.
pub open spec fn modified_key(f: ModifierFlags, base: Seq<char>) -> Seq<char> {
    let upcase = f.shift && base.len() == 1 && is_ascii_alphabetic(base[0]);
    let key = if upcase {
        seq![to_ascii_upper(base[0])]
    } else {
        base
    };
    let flags = ModifierFlags { shift: f.shift && !upcase, ..f };
    if !flags.control && !flags.alt && !flags.shift {
        key
    } else {
        join(modifier_letters(flags), seq!['-']) + seq!['-'] + key
    }
}

/// The tmux key name for a Herdr key name.
pub open spec fn normalize_key(prefix: Seq<char>) -> Result<Seq<char>, PrefixFault> {
    let value = ascii_lowercase(trimmed(prefix));
    if value.len() == 0 {
        Err(PrefixFault::Empty)
    } else if value == "esc"@ || value == "escape"@ {
        Ok("Escape"@)
    } else if function_key(value) is Some {
        Ok(seq!['F'] + decimal(function_key(value)->0))
    } else {
        let parts = split_on(value, '+');
        if parts.len() == 1 {
            base_key(parts[0])
        } else {
            match scan_modifiers(parts.drop_last(), prefix) {
                Err(e) => Err(e),
                Ok(flags) => match base_key(parts.last()) {
                    Err(e) => Err(e),
                    Ok(base) => Ok(modified_key(flags, base)),
                },
            }
        }
    }
}

/// The prefix Herdr uses when its configuration names none.
pub open spec fn default_herdr_prefix() -> Seq<char> {
    "ctrl+b"@
}

/// The tmux prefix for the value of Herdr's `keys.prefix` setting.
pub open spec fn prefix_from_setting(setting: Option<Seq<char>>) -> Result<Seq<char>, PrefixFault> {
    match setting {
        Some(p) => normalize_key(p),
        None => normalize_key(default_herdr_prefix()),
    }
}

/// What parsing `source` as a TOML document and reading the string stored
/// under `key` in the table `table` gives: `None` when `source` is not
/// TOML, `Some(None)` when there is no such table, no such key, or no string
/// there.
pub uninterp spec fn toml_string_at(source: Seq<char>, table: Seq<char>, key: Seq<char>) -> Option<
    Option<Seq<char>>,
>;

/// The table of Herdr's configuration that holds its key settings.
pub open spec fn keys_table() -> Seq<char> {
    "keys"@
}

/// The key of the prefix setting in that table.
pub open spec fn prefix_key() -> Seq<char> {
    "prefix"@
}

/// How the prefix read from a configuration file's text relates to the
/// file: an error when it is not TOML, else the prefix for its
/// `keys.prefix` setting.
pub open spec fn prefix_from_config_text(text: Seq<char>, res: Result<String, PrefixError>) -> bool {
    match toml_string_at(text, keys_table(), prefix_key()) {
        None => res matches Err(PrefixError::InvalidConfig { .. }),
        Some(setting) => key_view(res) == prefix_from_setting(setting),
    }
}

#[verifier::external_type_specification]
#[verifier::external_body]
pub struct ExTomlError(toml_edit::TomlError);

/// Calls `<toml_edit::DocumentMut as FromStr>::from_str` on `source` and,
/// on success, reads the value under `key` in the table `table` with
/// `DocumentMut::get`, `Item::as_table`, `Table::get` and `Item::as_str`.
/// Claimed: the outcome is the one named by `toml_string_at`. Nothing is
/// claimed of the parse error's content.
#[verifier::external_body]
fn read_toml_string(source: &str, table: &str, key: &str) -> (res: Result<
    Option<String>,
    toml_edit::TomlError,
>)
    ensures
        res is Ok <==> toml_string_at(source@, table@, key@) is Some,
        res matches Ok(value) ==> toml_string_at(source@, table@, key@) == Some(
            value.deep_view(),
        ),
{
    let doc = source.parse::<toml_edit::DocumentMut>()?;
    let value = doc.get(table).and_then(toml_edit::Item::as_table).and_then(|t| t.get(key));
    Ok(value.and_then(toml_edit::Item::as_str).map(str::to_owned))
}

/// The rendered message of a TOML parse error (`ToString::to_string`).
/// Nothing is claimed of the text.
#[verifier::external_body]
fn toml_error_message(error: &toml_edit::TomlError) -> String {
    error.to_string()
}

/// `tmux_base_key`: a named key's tmux name, or a single character as it is.
pub fn tmux_base_key(key: &str) -> (res: Result<String, PrefixError>)
    ensures
        key_view(res) == base_key(key@),
{
    if str_eq(key, "space") {
        return Ok(owned("Space"));
    }
    if str_eq(key, "tab") {
        return Ok(owned("Tab"));
    }
    if str_eq(key, "enter") || str_eq(key, "return") {
        return Ok(owned("Enter"));
    }
    if str_eq(key, "backspace") {
        return Ok(owned("BSpace"));
    }
    if str_eq(key, "delete") {
        return Ok(owned("DC"));
    }
    if str_eq(key, "up") {
        return Ok(owned("Up"));
    }
    if str_eq(key, "down") {
        return Ok(owned("Down"));
    }
    if str_eq(key, "left") {
        return Ok(owned("Left"));
    }
    if str_eq(key, "right") {
        return Ok(owned("Right"));
    }
    if key.unicode_len() == 1 {
        return Ok(owned(key));
    }
    Err(PrefixError::UnsupportedKey { key: owned(key) })
}

proof fn lemma_scan_error_persists(mods: Seq<Seq<char>>, prefix: Seq<char>, k: int)
    requires
        0 <= k <= mods.len(),
        scan_modifiers(mods.take(k), prefix) is Err,
    ensures
        scan_modifiers(mods, prefix) == scan_modifiers(mods.take(k), prefix),
    decreases mods.len() - k,
{
    if k < mods.len() {
        assert(mods.drop_last().take(k) =~= mods.take(k));
        lemma_scan_error_persists(mods.drop_last(), prefix, k);
    } else {
        assert(mods.take(k) =~= mods);
    }
}

/// The function key number of `value`, when it names one of `f1`..`f24`.
fn function_key_number(value: &str) -> (r: Option<u32>)
    ensures
        r matches Some(n) ==> function_key(value@) == Some(n as nat),
        r is None ==> function_key(value@) is None,
{
    let n = value.unicode_len();
    if n > 0 && value.get_char(0) == 'f' {
        let rest = value.substring_char(1, n);
        assert(rest@ =~= value@.drop_first());
        match parse_unsigned_str(rest, 255) {
            Some(number) => if number >= 1 && number <= 24 {
                Some(number)
            } else {
                None
            },
            None => None,
        }
    } else {
        None
    }
}

/// Translates a Herdr key name into the tmux key name, as tmux's `prefix`
/// option and `bind-key` expect it.
pub fn normalize_tmux_key(prefix: &str) -> (res: Result<String, PrefixError>)
    ensures
        key_view(res) == normalize_key(prefix@),
{
    let trimmed_prefix = trim(prefix);
    let value = to_ascii_lowercase(trimmed_prefix.as_str());
    if value.unicode_len() == 0 {
        return Err(PrefixError::Empty);
    }
    if str_eq(value.as_str(), "esc") || str_eq(value.as_str(), "escape") {
        return Ok(owned("Escape"));
    }
    if let Some(number) = function_key_number(value.as_str()) {
        let mut key = owned("F");
        proof {
            reveal_strlit("F");
        }
        let digits = decimal_string(number);
        key.append(digits.as_str());
        assert(key@ =~= seq!['F'] + decimal(number as nat));
        return Ok(key);
    }
    let parts = split(value.as_str(), '+');
    if parts.len() == 1 {
        return tmux_base_key(parts[0].as_str());
    }
    let last = parts.len() - 1;
    let ghost pv = views(parts@);
    let ghost mods = pv.drop_last();
    let mut flags = ModifierFlags { control: false, alt: false, shift: false };
    assert(mods.take(0) =~= Seq::<Seq<char>>::empty());
    #[verifier::loop_isolation(false)]
    for i in 0..last
        invariant
            last == parts@.len() - 1,
            pv == views(parts@),
            mods == pv.drop_last(),
            scan_modifiers(mods.take(i as int), prefix@) == Ok::<ModifierFlags, PrefixFault>(
                flags,
            ),
    {
        let m = parts[i].as_str();
        assert(m@ == mods[i as int]);
        assert(mods.take(i + 1).drop_last() =~= mods.take(i as int));
        assert(mods.take(i + 1).last() == m@);
        if str_eq(m, "ctrl") || str_eq(m, "control") {
            flags.control = true;
        } else if str_eq(m, "alt") || str_eq(m, "option") || str_eq(m, "meta") {
            flags.alt = true;
        } else if str_eq(m, "shift") {
            flags.shift = true;
        } else if str_eq(m, "cmd") || str_eq(m, "command") || str_eq(m, "super") {
            let err = PrefixError::CommandModifier { prefix: owned(prefix) };
            proof {
                lemma_scan_error_persists(mods, prefix@, i + 1);
            }
            return Err(err);
        } else {
            let err = PrefixError::UnsupportedModifier { modifier: owned(m), prefix: owned(prefix) };
            proof {
                lemma_scan_error_persists(mods, prefix@, i + 1);
            }
            return Err(err);
        }
    }
    assert(mods.take(last as int) =~= mods);
    let base = match tmux_base_key(parts[last].as_str()) {
        Ok(base) => base,
        Err(e) => return Err(e),
    };
    let mut key = base;
    let upcase = flags.shift && key.unicode_len() == 1 && char_is_ascii_alphabetic(
        key.as_str().get_char(0),
    );
    if upcase {
        let c = char_to_ascii_upper(key.as_str().get_char(0));
        key = String::new();
        push_char(&mut key, c);
        flags.shift = false;
    }
    proof {
        reveal_strlit("C");
        reveal_strlit("M");
        reveal_strlit("S");
        reveal_strlit("-");
        assert("C"@ =~= seq!['C']);
        assert("M"@ =~= seq!['M']);
        assert("S"@ =~= seq!['S']);
        assert("-"@ =~= seq!['-']);
    }
    let mut letters: Vec<String> = Vec::new();
    let ghost no_letters = Seq::<Seq<char>>::empty();
    let ghost c_part = if flags.control {
        seq![seq!['C']]
    } else {
        no_letters
    };
    let ghost m_part = if flags.alt {
        seq![seq!['M']]
    } else {
        no_letters
    };
    let ghost s_part = if flags.shift {
        seq![seq!['S']]
    } else {
        no_letters
    };
    if flags.control {
        letters.push(owned("C"));
    }
    assert(views(letters@) =~= c_part);
    if flags.alt {
        letters.push(owned("M"));
    }
    assert(views(letters@) =~= c_part + m_part);
    if flags.shift {
        letters.push(owned("S"));
    }
    assert(views(letters@) =~= c_part + m_part + s_part);
    assert(views(letters@) =~= modifier_letters(flags));
    if letters.len() == 0 {
        return Ok(key);
    }
    let mut out = join_strings(&letters, "-");
    out.append("-");
    out.append(key.as_str());
    Ok(out)
}

/// The tmux prefix for the value of Herdr's `keys.prefix` setting (absent:
/// Herdr's default, `ctrl+b`).
pub fn tmux_prefix_from_setting(setting: Option<&str>) -> (res: Result<String, PrefixError>)
    ensures
        key_view(res) == prefix_from_setting(setting.deep_view()),
{
    match setting {
        Some(p) => normalize_tmux_key(p),
        None => normalize_tmux_key("ctrl+b"),
    }
}

/// The tmux prefix for the text of Herdr's TOML configuration file.
pub fn tmux_prefix_from_config(config: &str) -> (res: Result<String, PrefixError>)
    ensures
        prefix_from_config_text(config@, res),
{
    match read_toml_string(config, "keys", "prefix") {
        Err(error) => Err(PrefixError::InvalidConfig { message: toml_error_message(&error) }),
        Ok(setting) => match &setting {
            Some(p) => tmux_prefix_from_setting(Some(p.as_str())),
            None => tmux_prefix_from_setting(None),
        },
    }
}

/// The tmux prefix for Herdr's configuration file, given its text, or
/// `None` when there is no such file (tmux's own default, `C-b`).
pub fn tmux_prefix_from_user_config(config: Option<&str>) -> (res: Result<String, PrefixError>)
    ensures
        config is None ==> key_view(res) == Ok::<Seq<char>, PrefixFault>("C-b"@),
        config matches Some(text) ==> prefix_from_config_text(text@, res),
{
    match config {
        None => Ok(owned("C-b")),
        Some(text) => tmux_prefix_from_config(text),
    }
}

// ---------------------------------------------------------------------------
// Laws of key translation
// ---------------------------------------------------------------------------

/// A modifier tmux can express.
pub open spec fn is_tmux_modifier(m: Seq<char>) -> bool {
    is_control_modifier(m) || is_alt_modifier(m) || is_shift_modifier(m)
}

pub open spec fn names_control(mods: Seq<Seq<char>>) -> bool {
    exists|i: int| 0 <= i < mods.len() && is_control_modifier(#[trigger] mods[i])
}

pub open spec fn names_alt(mods: Seq<Seq<char>>) -> bool {
    exists|i: int| 0 <= i < mods.len() && is_alt_modifier(#[trigger] mods[i])
}

pub open spec fn names_shift(mods: Seq<Seq<char>>) -> bool {
    exists|i: int| 0 <= i < mods.len() && is_shift_modifier(#[trigger] mods[i])
}

proof fn lemma_modifier_classes_disjoint(m: Seq<char>)
    ensures
        is_control_modifier(m) ==> !is_alt_modifier(m) && !is_shift_modifier(m),
        is_alt_modifier(m) ==> !is_shift_modifier(m),
        is_command_modifier(m) ==> !is_tmux_modifier(m),
{
    reveal_strlit("ctrl");
    reveal_strlit("control");
    reveal_strlit("alt");
    reveal_strlit("option");
    reveal_strlit("meta");
    reveal_strlit("shift");
    reveal_strlit("cmd");
    reveal_strlit("command");
    reveal_strlit("super");
    assert("ctrl"@.len() == 4 && "ctrl"@[0] == 'c');
    assert("control"@.len() == 7 && "control"@[0] == 'c' && "control"@[2] == 'n');
    assert("alt"@.len() == 3 && "alt"@[0] == 'a');
    assert("option"@.len() == 6 && "option"@[0] == 'o');
    assert("meta"@.len() == 4 && "meta"@[0] == 'm');
    assert("shift"@.len() == 5 && "shift"@[0] == 's' && "shift"@[1] == 'h');
    assert("cmd"@.len() == 3 && "cmd"@[0] == 'c');
    assert("command"@.len() == 7 && "command"@[0] == 'c' && "command"@[2] == 'm');
    assert("super"@.len() == 5 && "super"@[0] == 's' && "super"@[1] == 'u');
}

/// Reading modifiers succeeds exactly when each is one tmux can express,
/// and then gives the set of modifiers named, whatever the order and
/// whatever key they were written in.
pub proof fn lemma_scan_modifiers(mods: Seq<Seq<char>>, prefix: Seq<char>, other: Seq<char>)
    ensures
        scan_modifiers(mods, prefix) is Ok <==> forall|i: int|
            0 <= i < mods.len() ==> is_tmux_modifier(#[trigger] mods[i]),
        scan_modifiers(mods, prefix) is Ok ==> scan_modifiers(mods, prefix) == Ok::<
            ModifierFlags,
            PrefixFault,
        >(
            ModifierFlags {
                control: names_control(mods),
                alt: names_alt(mods),
                shift: names_shift(mods),
            },
        ),
        scan_modifiers(mods, prefix) is Ok ==> scan_modifiers(mods, other) == scan_modifiers(
            mods,
            prefix,
        ),
    decreases mods.len(),
{
    if mods.len() > 0 {
        let init = mods.drop_last();
        let m = mods.last();
        lemma_scan_modifiers(init, prefix, other);
        assert(mods[mods.len() - 1] == m);
        assert forall|i: int| 0 <= i < init.len() implies init[i] == mods[i] by {}
        if scan_modifiers(init, prefix) is Ok {
            assert(names_control(mods) == (names_control(init) || is_control_modifier(m))) by {
                if names_control(mods) {
                    let i = choose|i: int| 0 <= i < mods.len() && is_control_modifier(mods[i]);
                    if i < init.len() {
                        assert(is_control_modifier(init[i]));
                    }
                }
                if names_control(init) {
                    let i = choose|i: int| 0 <= i < init.len() && is_control_modifier(init[i]);
                    assert(is_control_modifier(mods[i]));
                }
            }
            assert(names_alt(mods) == (names_alt(init) || is_alt_modifier(m))) by {
                if names_alt(mods) {
                    let i = choose|i: int| 0 <= i < mods.len() && is_alt_modifier(mods[i]);
                    if i < init.len() {
                        assert(is_alt_modifier(init[i]));
                    }
                }
                if names_alt(init) {
                    let i = choose|i: int| 0 <= i < init.len() && is_alt_modifier(init[i]);
                    assert(is_alt_modifier(mods[i]));
                }
            }
            assert(names_shift(mods) == (names_shift(init) || is_shift_modifier(m))) by {
                if names_shift(mods) {
                    let i = choose|i: int| 0 <= i < mods.len() && is_shift_modifier(mods[i]);
                    if i < init.len() {
                        assert(is_shift_modifier(init[i]));
                    }
                }
                if names_shift(init) {
                    let i = choose|i: int| 0 <= i < init.len() && is_shift_modifier(init[i]);
                    assert(is_shift_modifier(mods[i]));
                }
            }
            lemma_modifier_classes_disjoint(m);
        } else {
            assert(!is_tmux_modifier(init[init.len() - 1]) || exists|i: int|
                0 <= i < init.len() && !is_tmux_modifier(#[trigger] init[i]));
            let i = choose|i: int| 0 <= i < init.len() && !is_tmux_modifier(#[trigger] init[i]);
            assert(!is_tmux_modifier(mods[i]));
        }
    } else {
        assert(!names_control(mods) && !names_alt(mods) && !names_shift(mods));
    }
}

/// The lower-cased, trimmed key name that translation reads.
pub open spec fn key_value(prefix: Seq<char>) -> Seq<char> {
    ascii_lowercase(trimmed(prefix))
}

/// The translated key, when there is one.
pub open spec fn ok_key(r: Result<Seq<char>, PrefixFault>) -> Option<Seq<char>> {
    match r {
        Ok(k) => Some(k),
        Err(_) => None,
    }
}

/// Translation fails exactly when the key name is blank, or it is neither
/// `esc`/`escape` nor a function key and either a part before the last is
/// not a modifier tmux can express or the last part is neither a named key
/// nor a single character.
pub proof fn lemma_normalize_key_fails(prefix: Seq<char>)
    ensures
        ({
            let v = key_value(prefix);
            let parts = split_on(v, '+');
            normalize_key(prefix) is Err <==> (v.len() == 0 || (v != "esc"@ && v != "escape"@
                && function_key(v) is None && ((exists|i: int|
                0 <= i < parts.len() - 1 && !is_tmux_modifier(#[trigger] parts[i])) || (
            named_key(parts.last()) is None && parts.last().len() != 1))))
        }),
{
    let v = key_value(prefix);
    let parts = split_on(v, '+');
    lemma_split_on_nonempty(v, '+');
    if parts.len() > 1 {
        let mods = parts.drop_last();
        lemma_scan_modifiers(mods, prefix, prefix);
        assert forall|i: int| 0 <= i < mods.len() implies mods[i] == parts[i] by {}
        if !(forall|i: int| 0 <= i < mods.len() ==> is_tmux_modifier(#[trigger] mods[i])) {
            let i = choose|i: int| 0 <= i < mods.len() && !is_tmux_modifier(#[trigger] mods[i]);
            assert(!is_tmux_modifier(parts[i]));
        }
        if exists|i: int| 0 <= i < parts.len() - 1 && !is_tmux_modifier(#[trigger] parts[i]) {
            let i = choose|i: int| 0 <= i < parts.len() - 1 && !is_tmux_modifier(#[trigger] parts[i]);
            assert(!is_tmux_modifier(mods[i]));
        }
    } else {
        assert(parts.last() == parts[0]);
    }
}

/// Translation reads the key name only through its trimmed, lower-cased
/// form: names that agree there translate alike (surrounding whitespace and
/// ASCII case do not matter).
pub proof fn lemma_normalize_key_ignores_case_and_space(p: Seq<char>, q: Seq<char>)
    requires
        key_value(p) == key_value(q),
    ensures
        ok_key(normalize_key(p)) == ok_key(normalize_key(q)),
{
    let v = key_value(p);
    let parts = split_on(v, '+');
    assert(key_value(q) == v);
    if v.len() == 0 || v == "esc"@ || v == "escape"@ || function_key(v) is Some {
        assert(normalize_key(p) == normalize_key(q));
    } else if parts.len() == 1 {
        assert(normalize_key(p) == normalize_key(q));
    } else {
        let mods = parts.drop_last();
        lemma_scan_modifiers(mods, p, q);
        lemma_scan_modifiers(mods, q, p);
        assert(scan_modifiers(mods, p) is Ok <==> scan_modifiers(mods, q) is Ok);
        if scan_modifiers(mods, p) is Ok {
            assert(scan_modifiers(mods, p) == scan_modifiers(mods, q));
            assert(normalize_key(p) == normalize_key(q));
        } else {
            assert(normalize_key(p) is Err && normalize_key(q) is Err);
        }
    }
}

/// tmux's names of the named keys a translation can give.
pub open spec fn tmux_named_key(b: Seq<char>) -> bool {
    b == "Space"@ || b == "Tab"@ || b == "Enter"@ || b == "BSpace"@ || b == "DC"@ || b == "Up"@
        || b == "Down"@ || b == "Left"@ || b == "Right"@
}

/// tmux's modifier prefix: `C-`, `M-`, `S-` in that order, for those set.
pub open spec fn modifier_prefix(f: ModifierFlags) -> Seq<char> {
    if !f.control && !f.alt && !f.shift {
        Seq::<char>::empty()
    } else {
        join(modifier_letters(f), seq!['-']) + seq!['-']
    }
}

/// `k` is the modifier prefix of `f` followed by the base key `b`, a
/// single character or a named key, and shift is only spelled out on a
/// base key that is not a single ASCII letter.
pub open spec fn modified_shape(k: Seq<char>, f: ModifierFlags, b: Seq<char>) -> bool {
    &&& b.len() == 1 || tmux_named_key(b)
    &&& k == modifier_prefix(f) + b
    &&& f.shift ==> !(b.len() == 1 && is_ascii_alphabetic(b[0]))
}

/// `k` is the function key `F<n>`.
pub open spec fn function_shape(k: Seq<char>, n: nat) -> bool {
    1 <= n <= 24 && k == seq!['F'] + decimal(n)
}

/// A tmux key name a translation can give.
pub open spec fn tmux_key_shape(k: Seq<char>) -> bool {
    ||| k == "Escape"@
    ||| exists|n: nat| #[trigger] function_shape(k, n)
    ||| exists|f: ModifierFlags, b: Seq<char>| #[trigger] modified_shape(k, f, b)
}

/// Every translated key is `Escape`, `F1`..`F24`, or modifiers (`C-`,
/// `M-`, `S-`, in that order) followed by a single character or a named
/// key, with shift never spelled out on a single letter.
pub proof fn lemma_normalize_key_shape(prefix: Seq<char>)
    ensures
        normalize_key(prefix) matches Ok(k) ==> tmux_key_shape(k),
{
    let v = key_value(prefix);
    if let Ok(k) = normalize_key(prefix) {
        if v == "esc"@ || v == "escape"@ {
        } else if function_key(v) is Some {
            assert(function_shape(k, function_key(v)->0));
        } else {
            let parts = split_on(v, '+');
            let none = ModifierFlags { control: false, alt: false, shift: false };
            if parts.len() == 1 {
                assert(Seq::<char>::empty() + k =~= k);
                assert(modifier_prefix(none) == Seq::<char>::empty());
                assert(modified_shape(k, none, k));
            } else {
                let f = scan_modifiers(parts.drop_last(), prefix)->Ok_0;
                let b = base_key(parts.last())->Ok_0;
                let upcase = f.shift && b.len() == 1 && is_ascii_alphabetic(b[0]);
                let key = if upcase {
                    seq![to_ascii_upper(b[0])]
                } else {
                    b
                };
                let g = ModifierFlags { shift: f.shift && !upcase, ..f };
                if !g.control && !g.alt && !g.shift {
                    assert(Seq::<char>::empty() + key =~= key);
                }
                assert(k == modifier_prefix(g) + key);
                assert(modified_shape(k, g, key));
            }
        }
    }
}

proof fn lemma_plus_function_key(v: Seq<char>)
    requires
        split_on(v, '+').len() >= 2,
        function_key(v) is Some,
    ensures
        split_on(v, '+') == seq![seq!['f'], v.skip(2)],
{
    lemma_split_has_sep(v, '+');
    let i = choose|i: int| 0 <= i < v.len() && v[i] == '+';
    let r = v.drop_first();
    let d = unsigned_digits(r);
    assert(v[0] == 'f');
    assert(i > 0);
    assert(r[i - 1] == '+');
    if r[0] != '+' {
        assert(d == r);
        assert(is_ascii_digit(d[i - 1]));
    }
    assert(d =~= v.skip(2));
    assert(!v.skip(2).contains('+')) by {
        if v.skip(2).contains('+') {
            let j = choose|j: int| 0 <= j < v.skip(2).len() && v.skip(2)[j] == '+';
            assert(is_ascii_digit(d[j]));
        }
    }
    let f = seq!['f'];
    assert(!f.contains('+'));
    lemma_split_without_sep(f, '+');
    let fp = f.push('+');
    assert(fp.drop_last() =~= f);
    assert(split_on(fp, '+') == seq![f].push(Seq::<char>::empty()));
    lemma_split_extend(fp, v.skip(2), '+');
    assert(fp + v.skip(2) =~= v);
    assert(seq![f].push(Seq::<char>::empty()).update(1, Seq::<char>::empty() + v.skip(2)) =~= seq![
        f,
        v.skip(2),
    ]);
}

/// The order of the modifiers does not matter: key names whose parts before
/// the last name the same modifiers, in any order, and whose last parts
/// agree translate alike.
pub proof fn lemma_normalize_key_ignores_modifier_order(p: Seq<char>, q: Seq<char>)
    requires
        split_on(key_value(p), '+').len() == split_on(key_value(q), '+').len(),
        split_on(key_value(p), '+').last() == split_on(key_value(q), '+').last(),
        forall|m: Seq<char>|
            #[trigger] split_on(key_value(p), '+').drop_last().contains(m) <==> split_on(
                key_value(q),
                '+',
            ).drop_last().contains(m),
    ensures
        ok_key(normalize_key(p)) == ok_key(normalize_key(q)),
{
    let vp = key_value(p);
    let vq = key_value(q);
    let pp = split_on(vp, '+');
    let pq = split_on(vq, '+');
    lemma_split_on_nonempty(vp, '+');
    lemma_join_split(vp, '+');
    lemma_join_split(vq, '+');
    if pp.len() == 1 {
        assert(pp =~= seq![pp.last()]);
        assert(pq =~= seq![pq.last()]);
        lemma_normalize_key_ignores_case_and_space(p, q);
        return;
    }
    let mp = pp.drop_last();
    let mq = pq.drop_last();
    if function_key(vp) is Some || function_key(vq) is Some {
        if function_key(vp) is Some {
            lemma_plus_function_key(vp);
            assert(mp.contains(seq!['f']));
            assert(mq.len() == 1);
            assert(mq.contains(seq!['f']));
        } else {
            lemma_plus_function_key(vq);
            assert(mq.contains(seq!['f']));
            assert(mp.len() == 1);
            assert(mp.contains(seq!['f']));
        }
        assert(pp =~= pq);
        lemma_normalize_key_ignores_case_and_space(p, q);
        return;
    }
    lemma_split_has_sep(vp, '+');
    lemma_split_has_sep(vq, '+');
    reveal_strlit("esc");
    reveal_strlit("escape");
    assert(vp != "esc"@ && vp != "escape"@) by {
        let i = choose|i: int| 0 <= i < vp.len() && vp[i] == '+';
        if vp == "esc"@ || vp == "escape"@ {
            assert(vp[i] != '+');
        }
    }
    assert(vq != "esc"@ && vq != "escape"@) by {
        let i = choose|i: int| 0 <= i < vq.len() && vq[i] == '+';
        if vq == "esc"@ || vq == "escape"@ {
            assert(vq[i] != '+');
        }
    }
    assert(vp.len() > 0 && vq.len() > 0);
    lemma_scan_modifiers(mp, p, p);
    lemma_scan_modifiers(mq, q, q);
    assert((forall|i: int| 0 <= i < mp.len() ==> is_tmux_modifier(#[trigger] mp[i])) <==> (
    forall|i: int| 0 <= i < mq.len() ==> is_tmux_modifier(#[trigger] mq[i]))) by {
        if forall|i: int| 0 <= i < mp.len() ==> is_tmux_modifier(#[trigger] mp[i]) {
            assert forall|i: int| 0 <= i < mq.len() implies is_tmux_modifier(#[trigger] mq[i]) by {
                assert(mq.contains(mq[i]));
                assert(mp.contains(mq[i]));
            }
        }
        if forall|i: int| 0 <= i < mq.len() ==> is_tmux_modifier(#[trigger] mq[i]) {
            assert forall|i: int| 0 <= i < mp.len() implies is_tmux_modifier(#[trigger] mp[i]) by {
                assert(mp.contains(mp[i]));
                assert(mq.contains(mp[i]));
            }
        }
    }
    assert(names_control(mp) == names_control(mq)) by {
        if names_control(mp) {
            let i = choose|i: int| 0 <= i < mp.len() && is_control_modifier(mp[i]);
            assert(mp.contains(mp[i]));
            let j = choose|j: int| 0 <= j < mq.len() && mq[j] == mp[i];
            assert(is_control_modifier(mq[j]));
        }
        if names_control(mq) {
            let i = choose|i: int| 0 <= i < mq.len() && is_control_modifier(mq[i]);
            assert(mq.contains(mq[i]));
            assert(mp.contains(mq[i]));
            let j = choose|j: int| 0 <= j < mp.len() && mp[j] == mq[i];
            assert(is_control_modifier(mp[j]));
        }
    }
    assert(names_alt(mp) == names_alt(mq)) by {
        if names_alt(mp) {
            let i = choose|i: int| 0 <= i < mp.len() && is_alt_modifier(mp[i]);
            assert(mp.contains(mp[i]));
            let j = choose|j: int| 0 <= j < mq.len() && mq[j] == mp[i];
            assert(is_alt_modifier(mq[j]));
        }
        if names_alt(mq) {
            let i = choose|i: int| 0 <= i < mq.len() && is_alt_modifier(mq[i]);
            assert(mq.contains(mq[i]));
            assert(mp.contains(mq[i]));
            let j = choose|j: int| 0 <= j < mp.len() && mp[j] == mq[i];
            assert(is_alt_modifier(mp[j]));
        }
    }
    assert(names_shift(mp) == names_shift(mq)) by {
        if names_shift(mp) {
            let i = choose|i: int| 0 <= i < mp.len() && is_shift_modifier(mp[i]);
            assert(mp.contains(mp[i]));
            let j = choose|j: int| 0 <= j < mq.len() && mq[j] == mp[i];
            assert(is_shift_modifier(mq[j]));
        }
        if names_shift(mq) {
            let i = choose|i: int| 0 <= i < mq.len() && is_shift_modifier(mq[i]);
            assert(mq.contains(mq[i]));
            assert(mp.contains(mq[i]));
            let j = choose|j: int| 0 <= j < mp.len() && mp[j] == mq[i];
            assert(is_shift_modifier(mp[j]));
        }
    }
    if scan_modifiers(mp, p) is Ok {
        assert(scan_modifiers(mp, p) == scan_modifiers(mq, q));
        assert(normalize_key(p) == normalize_key(q));
    } else {
        assert(normalize_key(p) is Err && normalize_key(q) is Err);
    }
}

/// The function keys keep their number: `f1`..`f24` translate to
/// `F1`..`F24`.
pub proof fn lemma_function_keys(n: nat)
    requires
        1 <= n <= 24,
    ensures
        normalize_key(seq!['f'] + decimal(n)) == Ok::<Seq<char>, PrefixFault>(
            seq!['F'] + decimal(n),
        ),
{
    let digits = decimal(n);
    lemma_decimal_digits(n);
    let v = seq!['f'] + digits;
    assert(v[0] == 'f');
    assert(forall|i: int| 1 <= i < v.len() ==> v[i] == digits[i - 1]);
    let ws = whitespace_class();
    assert(!ws(v[0]));
    assert(is_ascii_digit(digits[digits.len() - 1]));
    assert(!ws(v[v.len() - 1]));
    lemma_trim_start(v, ws, 0);
    assert(v.skip(0) =~= v);
    lemma_trim_end(v, ws, v.len() as int);
    assert(v.take(v.len() as int) =~= v);
    assert(trimmed(v) == v);
    assert(ascii_lowercase(v) =~= v) by {
        assert forall|i: int| 0 <= i < v.len() implies to_ascii_lower(v[i]) == v[i] by {
            if i > 0 {
                assert(is_ascii_digit(digits[i - 1]));
            }
        }
    }
    assert(key_value(seq!['f'] + digits) == v);
    reveal_strlit("esc");
    reveal_strlit("escape");
    assert(v != "esc"@ && v != "escape"@) by {
        if v == "esc"@ || v == "escape"@ {
            assert(v[1] == 's');
            assert(is_ascii_digit(digits[0]));
        }
    }
    assert(v.drop_first() =~= digits);
    assert(unsigned_digits(digits) == digits) by {
        assert(is_ascii_digit(digits[0]));
    }
    assert(function_key(v) == Some(n));
}

} // verus!
