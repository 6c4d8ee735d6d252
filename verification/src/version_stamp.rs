//! The `temper_version` stamp of `temper.toml` and the lenient peeks that run
//! before the strict load: read with `toml`, written with `toml_edit`.
use vstd::prelude::*;
use crate::manifest::{triple_gt, version_is_newer, version_triple_spec, UpdateMode};
use crate::plan::str_eq;
use crate::spec_edit::{opt_str, parse_error, toml_parse_error, EditError, EditErrorV};
use crate::text::push_str;

verus! {

/// The string a `toml` document holds at a root key, if it parses as a table
/// and the key holds a string.
pub uninterp spec fn toml_root_str(text: Seq<char>, key: Seq<char>) -> Option<Seq<char>>;

/// The string a `toml` document holds at `table.key`, likewise.
pub uninterp spec fn toml_nested_str(text: Seq<char>, table: Seq<char>, key: Seq<char>) -> Option<Seq<char>>;

/// Whether a `toml_edit` document's root table holds the key.
pub uninterp spec fn toml_root_has(text: Seq<char>, key: Seq<char>) -> bool;

/// The `toml_edit` document with a root key set to a string value.
pub uninterp spec fn toml_root_set(text: Seq<char>, key: Seq<char>, value: Seq<char>) -> Seq<char>;

/// Parses the text as a `toml::Table` and reads `key` with `Map::get` and
/// `Value::as_str`; any failure gives `None`.
#[verifier::external_body]
fn root_str(text: &str, key: &str) -> (r: Option<String>)
    ensures
        opt_str(r) == toml_root_str(text@, key@),
{
    text.parse::<toml::Table>().ok()?.get(key)?.as_str().map(String::from)
}

/// Parses the text as a `toml::Table` and reads `table.key` with `Map::get`,
/// `Value::get` and `Value::as_str`; any failure gives `None`.
#[verifier::external_body]
fn nested_str(text: &str, table: &str, key: &str) -> (r: Option<String>)
    ensures
        opt_str(r) == toml_nested_str(text@, table@, key@),
{
    text.parse::<toml::Table>().ok()?.get(table)?.get(key)?.as_str().map(String::from)
}

/// Parses the text as a `toml_edit::DocumentMut` and asks its root table
/// `Table::contains_key`.
#[verifier::external_body]
fn root_has(text: &str, key: &str) -> (r: bool)
    requires
        toml_parse_error(text@) is None,
    ensures
        r == toml_root_has(text@, key@),
{
    let Ok(doc) = text.parse::<toml_edit::DocumentMut>() else { return false };
    doc.as_table().contains_key(key)
}

/// Parses the text as a `toml_edit::DocumentMut`, sets the root key to
/// `toml_edit::value(value)` by `IndexMut`, and renders it with `to_string`.
#[verifier::external_body]
fn root_set(text: &str, key: &str, value: &str) -> (r: String)
    requires
        toml_parse_error(text@) is None,
    ensures
        r@ == toml_root_set(text@, key@, value@),
{
    let Ok(mut doc) = text.parse::<toml_edit::DocumentMut>() else { return text.to_string() };
    doc[key] = toml_edit::value(value);
    doc.to_string()
}

/// The `temper_version` stamp, read leniently: a file whose strict load
/// fails still yields it. Any trouble gives `None`.
pub fn peek_version_stamp(src: &str) -> (r: Option<String>)
    ensures
        opt_str(r) == toml_root_str(src@, "temper_version"@),
{
    root_str(src, "temper_version")
}

/// What an `[update].mode` value names; anything else is the default.
pub open spec fn mode_named(m: Option<Seq<char>>) -> UpdateMode {
    match m {
        Some(s) => if s == "off"@ {
            UpdateMode::Off
        } else if s == "warn"@ {
            UpdateMode::Warn
        } else if s == "prompt"@ {
            UpdateMode::Prompt
        } else if s == "auto"@ {
            UpdateMode::Auto
        } else {
            UpdateMode::Prompt
        },
        None => UpdateMode::Prompt,
    }
}

/// `[update].mode`, read leniently; unset, unknown or unreadable gives the
/// default, `prompt`.
pub fn peek_update_mode(src: &str) -> (r: UpdateMode)
    ensures
        r == mode_named(toml_nested_str(src@, "update"@, "mode"@)),
{
    match nested_str(src, "update", "mode") {
        Some(m) => {
            if str_eq(m.as_str(), "off") {
                UpdateMode::Off
            } else if str_eq(m.as_str(), "warn") {
                UpdateMode::Warn
            } else if str_eq(m.as_str(), "prompt") {
                UpdateMode::Prompt
            } else if str_eq(m.as_str(), "auto") {
                UpdateMode::Auto
            } else {
                UpdateMode::Prompt
            }
        },
        None => UpdateMode::Prompt,
    }
}

/// Stamping `version`: a stamp already recording a newer temper is left
/// alone (the text unchanged); else, refused on text that is not TOML; an
/// existing stamp is set in place; otherwise the stamp is prepended as a
/// leading root key.
pub open spec fn stamp_spec(src: Seq<char>, version: Seq<char>) -> Result<Seq<char>, EditErrorV> {
    let newer = match toml_root_str(src, "temper_version"@) {
        Some(e) => triple_gt(version_triple_spec(e), version_triple_spec(version)),
        None => false,
    };
    if newer {
        Ok(src)
    } else {
        match toml_parse_error(src) {
            Some(e) => Err(EditErrorV::Parse("parsing temper.toml for version stamp"@, e)),
            None => if toml_root_has(src, "temper_version"@) {
                Ok(toml_root_set(src, "temper_version"@, version))
            } else {
                Ok("temper_version = \""@ + version + "\"\n"@ + src)
            },
        }
    }
}

/// Stamps `temper_version = version` at the top level, preserving comments
/// and formatting. Monotonic: never stamps a newer folder down.
pub fn stamp_version(src: &str, version: &str) -> (r: Result<String, EditError>)
    ensures
        crate::spec_edit::outcome(r) == stamp_spec(src@, version@),
{
    if let Some(existing) = peek_version_stamp(src) {
        if version_is_newer(existing.as_str(), version) {
            let mut same = String::new();
            push_str(&mut same, src);
            return Ok(same);
        }
    }
    if let Some(e) = parse_error(src) {
        let mut ctx = String::new();
        push_str(&mut ctx, "parsing temper.toml for version stamp");
        return Err(EditError::Parse(ctx, e));
    }
    if root_has(src, "temper_version") {
        Ok(root_set(src, "temper_version", version))
    } else {
        let mut out = String::new();
        push_str(&mut out, "temper_version = \"");
        push_str(&mut out, version);
        push_str(&mut out, "\"\n");
        push_str(&mut out, src);
        Ok(out)
    }
}

} // verus!
