//! The `temper configure` surface: the settable scalars of `temper.toml`,
//! their value domains and defaults, and how a value is validated,
//! normalized and read back.
use vstd::prelude::*;
use crate::packages::{lowercase, to_lowercase};
use crate::plan::str_eq;
use crate::spec_edit::{
    parse_error, reserialized, table_bool_set, table_key_removed, table_presence, table_str_set, toml_parse_error,
    toml_reserialized, toml_table_bool_set, toml_table_key_removed, toml_table_presence, toml_table_str_set,
    EditError, EditErrorV, Presence,
};
use crate::text::{after, before, chars_of, find_char, has_char, is_first, push_str, same, slice, string_of, trim, trimmed};
use crate::version_stamp::{stamp_spec, stamp_version};

verus! {

/// The value domain of a setting.
#[derive(Debug, Clone, Copy, PartialEq, Eq, Structural)]
pub enum Kind {
    /// `on` | `off`, stored as a TOML bool.
    Bool,
    /// `off` | `warn` | `prompt` | `auto`.
    Mode,
}

/// One settable scalar: its dotted key, value domain, description and the
/// default shown when it is unset.
#[derive(Debug, Clone, Copy)]
pub struct Setting {
    pub key: &'static str,
    pub kind: Kind,
    pub desc: &'static str,
    pub default: &'static str,
}

pub type SettingV = (Seq<char>, Kind, Seq<char>, Seq<char>);

pub open spec fn setting_view(s: Setting) -> SettingV {
    (s.key@, s.kind, s.desc@, s.default@)
}

pub open spec fn setting_views(v: Seq<Setting>) -> Seq<SettingV> {
    v.map_values(|s: Setting| setting_view(s))
}

pub open spec fn setting_rows_0() -> Seq<SettingV> {
    seq![
        ("git.remind"@, Kind::Bool, "hint when the git-backed home has uncommitted spec changes"@, "on"@),
        ("git.auto_commit"@, Kind::Bool, "commit automatically after a spec-writing verb"@, "off"@),
        ("git.auto_push"@, Kind::Bool, "also push after an auto-commit / on `save`"@, "off"@),
    ]
}

pub open spec fn setting_rows_1() -> Seq<SettingV> {
    seq![
        ("git.auto_pull"@, Kind::Bool, "`git pull` the home before a run (warn, never abort)"@, "off"@),
        ("git.auto_rebase"@, Kind::Bool, "when auto_pull runs, use `--rebase` instead of `--ff-only`"@, "off"@),
        ("update.mode"@, Kind::Mode, "self-update policy on a newer-temper folder (off|warn|prompt|auto)"@, "prompt"@),
    ]
}

/// Every key `temper configure` knows.
pub open spec fn setting_rows() -> Seq<SettingV> {
    setting_rows_0() + setting_rows_1()
}

fn settings_0(r: &mut Vec<Setting>)
    ensures
        setting_views(final(r)@) == setting_views(old(r)@) + setting_rows_0(),
{
    let ghost start = setting_views(r@);
    r.push(Setting { key: "git.remind", kind: Kind::Bool, desc: "hint when the git-backed home has uncommitted spec changes", default: "on" });
    r.push(Setting { key: "git.auto_commit", kind: Kind::Bool, desc: "commit automatically after a spec-writing verb", default: "off" });
    r.push(Setting { key: "git.auto_push", kind: Kind::Bool, desc: "also push after an auto-commit / on `save`", default: "off" });
    assert(setting_views(r@) =~= start + setting_rows_0());
}

fn settings_1(r: &mut Vec<Setting>)
    ensures
        setting_views(final(r)@) == setting_views(old(r)@) + setting_rows_1(),
{
    let ghost start = setting_views(r@);
    r.push(Setting { key: "git.auto_pull", kind: Kind::Bool, desc: "`git pull` the home before a run (warn, never abort)", default: "off" });
    r.push(Setting { key: "git.auto_rebase", kind: Kind::Bool, desc: "when auto_pull runs, use `--rebase` instead of `--ff-only`", default: "off" });
    r.push(Setting { key: "update.mode", kind: Kind::Mode, desc: "self-update policy on a newer-temper folder (off|warn|prompt|auto)", default: "prompt" });
    assert(setting_views(r@) =~= start + setting_rows_1());
}

/// The settings table.
pub fn settings() -> (r: Vec<Setting>)
    ensures
        setting_views(r@) == setting_rows(),
{
    let mut r: Vec<Setting> = Vec::new();
    assert(setting_views(r@) =~= Seq::<SettingV>::empty());
    settings_0(&mut r);
    settings_1(&mut r);
    r
}

/// The settable keys, in table order.
pub fn keys() -> (r: Vec<&'static str>)
    ensures
        r@.map_values(|k: &'static str| k@) == setting_rows().map_values(|s: SettingV| s.0),
{
    let table = settings();
    let mut out: Vec<&'static str> = Vec::new();
    let mut i: usize = 0;
    while i < table.len()
        invariant
            i <= table@.len(),
            setting_views(table@) == setting_rows(),
            out@.map_values(|k: &'static str| k@) == setting_rows().take(i as int).map_values(|s: SettingV| s.0),
        decreases table.len() - i,
    {
        let ghost before = out@.map_values(|k: &'static str| k@);
        out.push(table[i].key);
        proof {
            let a = setting_rows().take(i as int + 1);
            assert(a =~= setting_rows().take(i as int).push(setting_rows()[i as int]));
            assert(setting_rows()[i as int] == setting_view(table@[i as int]));
            assert(out@.map_values(|k: &'static str| k@) =~= before.push(table@[i as int].key@));
            assert(a.map_values(|s: SettingV| s.0) =~= setting_rows().take(i as int).map_values(|s: SettingV| s.0).push(
                table@[i as int].key@,
            ));
        }
        i += 1;
    }
    assert(setting_rows().take(setting_rows().len() as int) =~= setting_rows());
    out
}

/// Why a configure request was refused.
#[derive(Debug, Clone, PartialEq, Eq)]
pub enum SettingsError {
    /// No setting has this key.
    UnknownKey(String),
    /// A bool setting got something that is not on/off.
    NotBool(String),
    /// A mode setting got something outside its domain: the key and value.
    NotMode(String, String),
    /// `temper.toml` could not be edited.
    Edit(EditError),
}

pub enum SettingsErrorV {
    UnknownKey(Seq<char>),
    NotBool(Seq<char>),
    NotMode(Seq<char>, Seq<char>),
    Edit(EditErrorV),
}

impl View for SettingsError {
    type V = SettingsErrorV;

    open spec fn view(&self) -> SettingsErrorV {
        match self {
            SettingsError::UnknownKey(k) => SettingsErrorV::UnknownKey(k@),
            SettingsError::NotBool(v) => SettingsErrorV::NotBool(v@),
            SettingsError::NotMode(k, v) => SettingsErrorV::NotMode(k@, v@),
            SettingsError::Edit(e) => SettingsErrorV::Edit(e@),
        }
    }
}

impl SettingsError {
    pub open spec fn unknown_key_is(self, k: Seq<char>) -> bool {
        match self {
            SettingsError::UnknownKey(x) => x@ == k,
            _ => false,
        }
    }

    pub open spec fn not_bool_is(self, v: Seq<char>) -> bool {
        match self {
            SettingsError::NotBool(x) => x@ == v,
            _ => false,
        }
    }

    pub open spec fn not_mode_is(self, k: Seq<char>, v: Seq<char>) -> bool {
        match self {
            SettingsError::NotMode(x, y) => x@ == k && y@ == v,
            _ => false,
        }
    }

    /// The message shown for the refusal.
    pub fn message(&self) -> (r: String)
        ensures
            r@ == match self {
                SettingsError::UnknownKey(k) => "unknown setting `"@ + k@ + "` — run `temper configure keys` for the full list"@,
                SettingsError::NotBool(v) => "expected on/off (or true/false), got `"@ + v@ + "`"@,
                SettingsError::NotMode(k, v) => "`"@ + k@ + "` expects off | warn | prompt | auto, got `"@ + v@ + "`"@,
                SettingsError::Edit(e) => e.message_spec(),
            },
    {
        let mut r = String::new();
        match self {
            SettingsError::UnknownKey(k) => {
                push_str(&mut r, "unknown setting `");
                push_str(&mut r, k.as_str());
                push_str(&mut r, "` — run `temper configure keys` for the full list");
            },
            SettingsError::NotBool(v) => {
                push_str(&mut r, "expected on/off (or true/false), got `");
                push_str(&mut r, v.as_str());
                push_str(&mut r, "`");
            },
            SettingsError::NotMode(k, v) => {
                push_str(&mut r, "`");
                push_str(&mut r, k.as_str());
                push_str(&mut r, "` expects off | warn | prompt | auto, got `");
                push_str(&mut r, v.as_str());
                push_str(&mut r, "`");
            },
            SettingsError::Edit(e) => {
                r = e.message();
            },
        }
        r
    }
}

/// The first setting with this key.
pub open spec fn find_setting(rows: Seq<SettingV>, key: Seq<char>) -> Option<SettingV>
    decreases rows.len(),
{
    if rows.len() == 0 {
        None
    } else if rows[0].0 == key {
        Some(rows[0])
    } else {
        find_setting(rows.drop_first(), key)
    }
}

fn copy_string(s: &str) -> (r: String)
    ensures
        r@ == s@,
{
    let mut r = String::new();
    push_str(&mut r, s);
    r
}

/// The setting with this key, or the refusal naming it.
pub fn find(key: &str) -> (r: Result<Setting, SettingsError>)
    ensures
        match r {
            Ok(s) => find_setting(setting_rows(), key@) == Some(setting_view(s)),
            Err(e) => find_setting(setting_rows(), key@) is None && e.unknown_key_is(key@),
        },
{
    let table = settings();
    let ghost rows = setting_rows();
    let kc = chars_of(key);
    let mut i: usize = 0;
    assert(rows.subrange(0, rows.len() as int) =~= rows);
    while i < table.len()
        invariant
            i <= table@.len(),
            setting_views(table@) == rows,
            rows == setting_rows(),
            kc@ == key@,
            find_setting(rows, key@) == find_setting(rows.subrange(i as int, rows.len() as int), key@),
        decreases table.len() - i,
    {
        let ghost rest = rows.subrange(i as int, rows.len() as int);
        assert(rest[0] == setting_view(table@[i as int]));
        if same(chars_of(table[i].key).as_slice(), kc.as_slice()) {
            return Ok(table[i]);
        }
        assert(rest.drop_first() =~= rows.subrange(i as int + 1, rows.len() as int));
        i += 1;
    }
    assert(rows.subrange(i as int, rows.len() as int) =~= Seq::<SettingV>::empty());
    Err(SettingsError::UnknownKey(copy_string(key)))
}

/// `on` or `off`.
pub open spec fn on_off_spec(b: bool) -> Seq<char> {
    if b {
        "on"@
    } else {
        "off"@
    }
}

pub fn on_off(b: bool) -> (r: &'static str)
    ensures
        r@ == on_off_spec(b),
{
    if b {
        "on"
    } else {
        "off"
    }
}

/// A value as typed, trimmed and lowercased.
pub open spec fn folded(v: Seq<char>) -> Seq<char> {
    lowercase(trim(v))
}

fn folded_exec(v: &str) -> (r: String)
    ensures
        r@ == folded(v@),
{
    let t = string_of(trimmed(chars_of(v).as_slice()).as_slice());
    to_lowercase(t.as_str())
}

/// What a bool setting reads a value as: `on true yes 1` and `off false no
/// 0`, in any case and with surrounding blanks.
pub open spec fn bool_spec(v: Seq<char>) -> Option<bool> {
    let f = folded(v);
    if f == "on"@ || f == "true"@ || f == "yes"@ || f == "1"@ {
        Some(true)
    } else if f == "off"@ || f == "false"@ || f == "no"@ || f == "0"@ {
        Some(false)
    } else {
        None
    }
}

/// Reads a bool setting's value, refusing anything else.
pub fn parse_bool(v: &str) -> (r: Result<bool, SettingsError>)
    ensures
        match r {
            Ok(b) => bool_spec(v@) == Some(b),
            Err(e) => bool_spec(v@) is None && e.not_bool_is(v@),
        },
{
    let f = folded_exec(v);
    let fs = f.as_str();
    if str_eq(fs, "on") || str_eq(fs, "true") || str_eq(fs, "yes") || str_eq(fs, "1") {
        Ok(true)
    } else if str_eq(fs, "off") || str_eq(fs, "false") || str_eq(fs, "no") || str_eq(fs, "0") {
        Ok(false)
    } else {
        Err(SettingsError::NotBool(copy_string(v)))
    }
}

/// A value as stored in `temper.toml`.
#[derive(Debug, Clone, PartialEq, Eq)]
pub enum SettingValue {
    Bool(bool),
    Str(String),
}

/// A mode value's folded form, when it is one of the four modes.
pub open spec fn mode_spec(v: Seq<char>) -> Option<Seq<char>> {
    let f = folded(v);
    if f == "off"@ || f == "warn"@ || f == "prompt"@ || f == "auto"@ {
        Some(f)
    } else {
        None
    }
}

/// Validates and normalizes a value for a setting: its display form and the
/// value to store.
pub fn normalize(setting: &Setting, value: &str) -> (r: Result<(String, SettingValue), SettingsError>)
    ensures
        setting.kind == Kind::Bool ==> match r {
            Ok((d, v)) => bool_spec(value@) matches Some(b) && d@ == on_off_spec(b) && v == SettingValue::Bool(b),
            Err(e) => bool_spec(value@) is None && e.not_bool_is(value@),
        },
        setting.kind == Kind::Mode ==> match r {
            Ok((d, v)) => mode_spec(value@) == Some(d@) && v.str_is(d@),
            Err(e) => mode_spec(value@) is None && e.not_mode_is(setting.key@, value@),
        },
{
    match setting.kind {
        Kind::Bool => {
            match parse_bool(value) {
                Ok(b) => {
                    let d = copy_string(on_off(b));
                    Ok((d, SettingValue::Bool(b)))
                },
                Err(e) => Err(e),
            }
        },
        Kind::Mode => {
            let f = folded_exec(value);
            let fs = f.as_str();
            if str_eq(fs, "off") || str_eq(fs, "warn") || str_eq(fs, "prompt") || str_eq(fs, "auto") {
                let d = copy_string(fs);
                let v = copy_string(fs);
                Ok((d, SettingValue::Str(v)))
            } else {
                Err(SettingsError::NotMode(copy_string(setting.key), copy_string(value)))
            }
        },
    }
}

impl SettingValue {
    pub open spec fn str_is(self, t: Seq<char>) -> bool {
        match self {
            SettingValue::Str(s) => s@ == t,
            _ => false,
        }
    }
}

/// What a raw `temper.toml` holds at a setting's path: nothing, a bool, a
/// string, or a value of some other type.
#[derive(Debug, Clone, PartialEq, Eq)]
pub enum RawValue {
    Bool(bool),
    Str(String),
    Other,
}

pub enum RawValueV {
    Bool(bool),
    Str(Seq<char>),
    Other,
}

pub open spec fn raw_view(r: Option<RawValue>) -> Option<RawValueV> {
    match r {
        None => None,
        Some(RawValue::Bool(b)) => Some(RawValueV::Bool(b)),
        Some(RawValue::Str(x)) => Some(RawValueV::Str(x@)),
        Some(RawValue::Other) => Some(RawValueV::Other),
    }
}

/// What a `toml` document holds at `table.key`; `None` where the text is not
/// TOML or nothing is there.
pub uninterp spec fn toml_raw_at(text: Seq<char>, table: Seq<char>, key: Seq<char>) -> Option<RawValueV>;

/// Parses the text as a `toml::Table`, reads `table.key` with `Map::get`
/// and `Value::get`, and tells a boolean and a string apart from the rest.
#[verifier::external_body]
fn raw_at(text: &str, table: &str, key: &str) -> (r: Option<RawValue>)
    ensures
        raw_view(r) == toml_raw_at(text@, table@, key@),
{
    let Ok(doc) = text.parse::<toml::Table>() else { return None };
    match doc.get(table).and_then(|t| t.get(key)) {
        None => None,
        Some(toml::Value::Boolean(b)) => Some(RawValue::Bool(*b)),
        Some(toml::Value::String(x)) => Some(RawValue::Str(x.clone())),
        Some(_) => Some(RawValue::Other),
    }
}

/// A setting's effective display value: the file's value when it has the
/// setting's type, else the default.
pub open spec fn effective_spec(s: SettingV, raw: Option<RawValueV>) -> Seq<char> {
    match s.1 {
        Kind::Bool => on_off_spec(match raw {
            Some(RawValueV::Bool(b)) => b,
            _ => s.3 == "on"@,
        }),
        Kind::Mode => match raw {
            Some(RawValueV::Str(x)) => x,
            _ => s.3,
        },
    }
}

/// A setting's effective display value, from what the file holds at its
/// path.
pub fn effective(setting: &Setting, raw: Option<RawValue>) -> (r: String)
    ensures
        r@ == effective_spec(setting_view(*setting), raw_view(raw)),
{
    match setting.kind {
        Kind::Bool => {
            let b = match raw {
                Some(RawValue::Bool(b)) => b,
                _ => str_eq(setting.default, "on"),
            };
            copy_string(on_off(b))
        },
        Kind::Mode => match raw {
            Some(RawValue::Str(x)) => x,
            _ => copy_string(setting.default),
        },
    }
}

/// What a normalized value stores.
pub enum StoredV {
    Bool(bool),
    Str(Seq<char>),
}

/// A value validated against a setting: its display form and what is stored.
pub open spec fn normalize_spec(s: SettingV, v: Seq<char>) -> Result<(Seq<char>, StoredV), SettingsErrorV> {
    match s.1 {
        Kind::Bool => match bool_spec(v) {
            Some(b) => Ok((on_off_spec(b), StoredV::Bool(b))),
            None => Err(SettingsErrorV::NotBool(v)),
        },
        Kind::Mode => match mode_spec(v) {
            Some(m) => Ok((m, StoredV::Str(m))),
            None => Err(SettingsErrorV::NotMode(s.0, v)),
        },
    }
}

/// The table a dotted key names.
pub open spec fn key_table(k: Seq<char>) -> Seq<char> {
    if has_char(k, '.') {
        before(k, '.')
    } else {
        k
    }
}

/// The key within that table.
pub open spec fn key_leaf(k: Seq<char>) -> Seq<char> {
    if has_char(k, '.') {
        after(k, '.')
    } else {
        Seq::empty()
    }
}

fn split_key(k: &str) -> (r: (String, String))
    ensures
        r.0@ == key_table(k@),
        r.1@ == key_leaf(k@),
{
    let v = chars_of(k);
    let n = v.len();
    match find_char(v.as_slice(), '.') {
        Some(i) => {
            assert(is_first(v@, '.', i as int));
            assert(v@[i as int] == '.');
            assert(i < n);
            let j = i + 1;
            let a = slice(v.as_slice(), 0, i);
            let b = slice(v.as_slice(), j, n);
            (string_of(a.as_slice()), string_of(b.as_slice()))
        },
        None => (copy_string(k), String::new()),
    }
}

/// The document with a stored value written at `[table].leaf`.
pub open spec fn written_spec(text: Seq<char>, table: Seq<char>, leaf: Seq<char>, v: StoredV) -> Seq<char> {
    match v {
        StoredV::Bool(b) => toml_table_bool_set(text, table, leaf, b),
        StoredV::Str(x) => toml_table_str_set(text, table, leaf, x),
    }
}

pub open spec fn parse_refusal(e: Seq<char>) -> SettingsErrorV {
    SettingsErrorV::Edit(EditErrorV::Parse("parsing temper.toml"@, e))
}

pub open spec fn stamped(r: Result<Seq<char>, EditErrorV>) -> Result<Seq<char>, SettingsErrorV> {
    match r {
        Ok(out) => Ok(out),
        Err(e) => Err(SettingsErrorV::Edit(e)),
    }
}

/// Setting a key: refused for an unknown key, a value outside its domain,
/// text that is not TOML, or a table path that holds something else;
/// otherwise the value is written at its path and the version restamped.
/// Gives the display value and the new text.
pub open spec fn set_spec(text: Seq<char>, key: Seq<char>, value: Seq<char>, version: Seq<char>) -> Result<(Seq<char>, Seq<char>), SettingsErrorV> {
    match find_setting(setting_rows(), key) {
        None => Err(SettingsErrorV::UnknownKey(key)),
        Some(s) => match normalize_spec(s, value) {
            Err(e) => Err(e),
            Ok((d, v)) => match toml_parse_error(text) {
                Some(pe) => Err(parse_refusal(pe)),
                None => if toml_table_presence(text, key_table(s.0)) == Presence::NotTable {
                    Err(SettingsErrorV::Edit(EditErrorV::NotTable("["@ + key_table(s.0) + "] in temper.toml"@)))
                } else {
                    match stamped(stamp_spec(written_spec(text, key_table(s.0), key_leaf(s.0), v), version)) {
                        Ok(out) => Ok((d, out)),
                        Err(e) => Err(e),
                    }
                },
            },
        },
    }
}

/// Unsetting a key: refused for an unknown key or text that is not TOML;
/// otherwise the key is removed from its table where that is a table, and
/// the version restamped.
pub open spec fn unset_spec(text: Seq<char>, key: Seq<char>, version: Seq<char>) -> Result<Seq<char>, SettingsErrorV> {
    match find_setting(setting_rows(), key) {
        None => Err(SettingsErrorV::UnknownKey(key)),
        Some(s) => match toml_parse_error(text) {
            Some(pe) => Err(parse_refusal(pe)),
            None => {
                let doc = if toml_table_presence(text, key_table(s.0)) == Presence::Table {
                    toml_table_key_removed(text, key_table(s.0), key_leaf(s.0))
                } else {
                    toml_reserialized(text)
                };
                stamped(stamp_spec(doc, version))
            },
        },
    }
}

fn parse_failure(pe: String) -> (r: SettingsError)
    ensures
        r@ == parse_refusal(pe@),
{
    SettingsError::Edit(EditError::Parse(copy_string("parsing temper.toml"), pe))
}

/// Sets `key` to `value` in the text of `temper.toml`, keeping its comments
/// and layout, and restamps the version: the display value and the new text.
pub fn settings_set(text: &str, key: &str, value: &str, version: &str) -> (r: Result<(String, String), SettingsError>)
    ensures
        match r {
            Ok((d, out)) => set_spec(text@, key@, value@, version@) == Ok::<(Seq<char>, Seq<char>), SettingsErrorV>((d@, out@)),
            Err(e) => set_spec(text@, key@, value@, version@) == Err::<(Seq<char>, Seq<char>), SettingsErrorV>(e@),
        },
{
    let s = match find(key) {
        Ok(s) => s,
        Err(e) => return Err(e),
    };
    let (d, v) = match normalize(&s, value) {
        Ok(p) => p,
        Err(e) => return Err(e),
    };
    if let Some(pe) = parse_error(text) {
        return Err(parse_failure(pe));
    }
    let (t, l) = split_key(s.key);
    if table_presence(text, t.as_str()) == Presence::NotTable {
        let mut m = String::new();
        push_str(&mut m, "[");
        push_str(&mut m, t.as_str());
        push_str(&mut m, "] in temper.toml");
        return Err(SettingsError::Edit(EditError::NotTable(m)));
    }
    let written = match v {
        SettingValue::Bool(b) => table_bool_set(text, t.as_str(), l.as_str(), b),
        SettingValue::Str(x) => table_str_set(text, t.as_str(), l.as_str(), x.as_str()),
    };
    match stamp_version(written.as_str(), version) {
        Ok(out) => Ok((d, out)),
        Err(e) => Err(SettingsError::Edit(e)),
    }
}

/// Removes `key`'s override from the text of `temper.toml` (a no-op where
/// it is not set) and restamps the version.
pub fn settings_unset(text: &str, key: &str, version: &str) -> (r: Result<String, SettingsError>)
    ensures
        match r {
            Ok(out) => unset_spec(text@, key@, version@) == Ok::<Seq<char>, SettingsErrorV>(out@),
            Err(e) => unset_spec(text@, key@, version@) == Err::<Seq<char>, SettingsErrorV>(e@),
        },
{
    let s = match find(key) {
        Ok(s) => s,
        Err(e) => return Err(e),
    };
    if let Some(pe) = parse_error(text) {
        return Err(parse_failure(pe));
    }
    let (t, l) = split_key(s.key);
    let doc = if table_presence(text, t.as_str()) == Presence::Table {
        table_key_removed(text, t.as_str(), l.as_str())
    } else {
        reserialized(text)
    };
    match stamp_version(doc.as_str(), version) {
        Ok(out) => Ok(out),
        Err(e) => Err(SettingsError::Edit(e)),
    }
}

/// A setting's effective value in the text of `temper.toml`, read from the
/// fleet-level table (per-machine overrides are not consulted).
pub open spec fn get_spec(text: Seq<char>, key: Seq<char>) -> Result<Seq<char>, SettingsErrorV> {
    match find_setting(setting_rows(), key) {
        None => Err(SettingsErrorV::UnknownKey(key)),
        Some(s) => Ok(effective_spec(s, toml_raw_at(text, key_table(s.0), key_leaf(s.0)))),
    }
}

/// The effective value of `key` in the text of `temper.toml`: the file's
/// value where it has the setting's type, else the default.
pub fn settings_get(text: &str, key: &str) -> (r: Result<String, SettingsError>)
    ensures
        match r {
            Ok(v) => get_spec(text@, key@) == Ok::<Seq<char>, SettingsErrorV>(v@),
            Err(e) => get_spec(text@, key@) == Err::<Seq<char>, SettingsErrorV>(e@),
        },
{
    let s = match find(key) {
        Ok(s) => s,
        Err(e) => return Err(e),
    };
    let (t, l) = split_key(s.key);
    let raw = raw_at(text, t.as_str(), l.as_str());
    Ok(effective(&s, raw))
}

} // verus!
