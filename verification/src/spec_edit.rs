//! Comment- and format-preserving edits of `temper.toml`: absorbing a value
//! into a machine's own lists, dropping one again, and the fleet-level
//! `[brew].trust` and `[ignore]` lists.
//!
//! `toml_edit` parses, navigates and re-renders the document; each trusted
//! wrapper below runs one fixed chain of its calls on the text and names what
//! comes back. Which machine is meant, which key is written, when an edit is a
//! no-op and when it is refused is decided here, in verified code.
use vstd::prelude::*;
use crate::plan::str_eq;
use crate::text::push_str;

verus! {

// ---------------------------------------------------------------------------
// What the edits read of a document.

/// What a table holds under a key, as far as a list edit reads it.
#[derive(Debug)]
pub enum Slot {
    /// Nothing under the key.
    Absent,
    /// Something other than an array.
    NotArray,
    /// An array; each value's string, where it is one.
    Items(Vec<Option<String>>),
}

pub enum SlotV {
    Absent,
    NotArray,
    Items(Seq<Option<Seq<char>>>),
}

pub open spec fn opt_views(v: Seq<Option<String>>) -> Seq<Option<Seq<char>>> {
    v.map_values(|o: Option<String>| match o {
        Some(s) => Some(s@),
        None => None,
    })
}

impl View for Slot {
    type V = SlotV;

    open spec fn view(&self) -> SlotV {
        match self {
            Slot::Absent => SlotV::Absent,
            Slot::NotArray => SlotV::NotArray,
            Slot::Items(v) => SlotV::Items(opt_views(v@)),
        }
    }
}

/// What the document holds under an array-of-tables key.
#[derive(Debug)]
pub enum Tables {
    /// Nothing.
    Absent,
    /// Something other than an array of tables.
    NotTables,
    /// An array of tables; each one's naming field, where it is a string.
    Names(Vec<Option<String>>),
}

pub enum TablesV {
    Absent,
    NotTables,
    Names(Seq<Option<Seq<char>>>),
}

impl View for Tables {
    type V = TablesV;

    open spec fn view(&self) -> TablesV {
        match self {
            Tables::Absent => TablesV::Absent,
            Tables::NotTables => TablesV::NotTables,
            Tables::Names(v) => TablesV::Names(opt_views(v@)),
        }
    }
}

/// Whether a key holds a (non-inline) table.
#[derive(Debug, Clone, Copy, PartialEq, Eq, Structural)]
pub enum Presence {
    Absent,
    NotTable,
    Table,
}

// ---------------------------------------------------------------------------
// Names for what `toml_edit` computes on a text. An "array of tables" is a
// top-level key such as `[[machine]]`; `idx` picks one of its tables.

/// The parser's complaint about a text, if it is not a TOML document.
pub uninterp spec fn toml_parse_error(text: Seq<char>) -> Option<Seq<char>>;

/// A parsed document rendered back unchanged.
pub uninterp spec fn toml_reserialized(text: Seq<char>) -> Seq<char>;

/// What the document holds under `aot`: each table's `field` string.
pub uninterp spec fn toml_aot_names(text: Seq<char>, aot: Seq<char>, field: Seq<char>) -> TablesV;

/// What the `idx`-th table of `aot` holds under `key`.
pub uninterp spec fn toml_aot_slot(text: Seq<char>, aot: Seq<char>, idx: int, key: Seq<char>) -> SlotV;

/// The document with `value` pushed onto the `key` array of the `idx`-th
/// table of `aot`, the array created first where the key is absent.
pub uninterp spec fn toml_aot_pushed(text: Seq<char>, aot: Seq<char>, idx: int, key: Seq<char>, value: Seq<char>) -> Seq<char>;

/// The document with every `value` string dropped from the `key` array of
/// the `idx`-th table of `aot`, where that is an array.
pub uninterp spec fn toml_aot_retained(text: Seq<char>, aot: Seq<char>, idx: int, key: Seq<char>, value: Seq<char>) -> Seq<char>;

/// The same drop from the `first` then the `second` array of one table.
pub uninterp spec fn toml_aot_retained_both(
    text: Seq<char>,
    aot: Seq<char>,
    idx: int,
    first: Seq<char>,
    second: Seq<char>,
    value: Seq<char>,
) -> Seq<char>;

/// Whether the top-level `table` key holds a table.
pub uninterp spec fn toml_table_presence(text: Seq<char>, table: Seq<char>) -> Presence;

/// What the top-level `table` table holds under `key`.
pub uninterp spec fn toml_table_slot(text: Seq<char>, table: Seq<char>, key: Seq<char>) -> SlotV;

/// The document with `value` pushed onto `[table].key`, the table and the
/// array created first where absent.
pub uninterp spec fn toml_table_pushed(text: Seq<char>, table: Seq<char>, key: Seq<char>, value: Seq<char>) -> Seq<char>;

/// The document with every `value` string dropped from `table.key`, where
/// that is an array.
pub uninterp spec fn toml_table_retained(text: Seq<char>, table: Seq<char>, key: Seq<char>, value: Seq<char>) -> Seq<char>;

/// Whether the `sub` key of the `idx`-th table of `aot` holds a table.
pub uninterp spec fn toml_sub_presence(text: Seq<char>, aot: Seq<char>, idx: int, sub: Seq<char>) -> Presence;

/// What that `sub` table holds under `key`.
pub uninterp spec fn toml_sub_slot(text: Seq<char>, aot: Seq<char>, idx: int, sub: Seq<char>, key: Seq<char>) -> SlotV;

/// The document with `value` pushed onto that `sub.key` array, the table
/// and the array created first where absent, and the table made explicit.
pub uninterp spec fn toml_sub_pushed(
    text: Seq<char>,
    aot: Seq<char>,
    idx: int,
    sub: Seq<char>,
    key: Seq<char>,
    value: Seq<char>,
) -> Seq<char>;

/// The document with that `sub` table made explicit.
pub uninterp spec fn toml_sub_opened(text: Seq<char>, aot: Seq<char>, idx: int, sub: Seq<char>) -> Seq<char>;

/// The document with a table appended to `aot`: `k0`, `k1` and `k2` set to
/// their values in that order, and an empty array under `list`.
pub uninterp spec fn toml_aot_added(
    text: Seq<char>,
    aot: Seq<char>,
    k0: Seq<char>,
    v0: Seq<char>,
    k1: Seq<char>,
    v1: Seq<char>,
    k2: Seq<char>,
    v2: Seq<char>,
    list: Seq<char>,
) -> Seq<char>;

/// The same with four keys set, in order.
pub uninterp spec fn toml_aot_added_four(
    text: Seq<char>,
    aot: Seq<char>,
    k0: Seq<char>,
    v0: Seq<char>,
    k1: Seq<char>,
    v1: Seq<char>,
    k2: Seq<char>,
    v2: Seq<char>,
    k3: Seq<char>,
    v3: Seq<char>,
    list: Seq<char>,
) -> Seq<char>;

/// The document with `[table].key` set to the bool `value`, the table
/// created first where absent.
pub uninterp spec fn toml_table_bool_set(text: Seq<char>, table: Seq<char>, key: Seq<char>, value: bool) -> Seq<char>;

/// The document with `[table].key` set to the string `value`, likewise.
pub uninterp spec fn toml_table_str_set(text: Seq<char>, table: Seq<char>, key: Seq<char>, value: Seq<char>) -> Seq<char>;

/// The document with `key` removed from the `table` table.
pub uninterp spec fn toml_table_key_removed(text: Seq<char>, table: Seq<char>, key: Seq<char>) -> Seq<char>;

pub open spec fn opt_str(o: Option<String>) -> Option<Seq<char>> {
    match o {
        Some(s) => Some(s@),
        None => None,
    }
}

pub open spec fn opt_ref_str(o: Option<&str>) -> Option<Seq<char>> {
    match o {
        Some(s) => Some(s@),
        None => None,
    }
}

/// Parses the text as a `toml_edit::DocumentMut` and renders the parser's
/// error, if any. Claims only that the result is the one named.
#[verifier::external_body]
pub(crate) fn parse_error(text: &str) -> (r: Option<String>)
    ensures
        opt_str(r) == toml_parse_error(text@),
{
    text.parse::<toml_edit::DocumentMut>().err().map(|e| e.to_string())
}

/// Parses the text and renders the document back with `to_string`.
#[verifier::external_body]
pub(crate) fn reserialized(text: &str) -> (r: String)
    requires
        toml_parse_error(text@) is None,
    ensures
        r@ == toml_reserialized(text@),
{
    let Ok(doc) = text.parse::<toml_edit::DocumentMut>() else { return text.to_string() };
    doc.to_string()
}

/// Reads `aot` with `Table::get` and `Item::as_array_of_tables`, and each
/// table's `field` with `Table::get` and `Item::as_str`.
#[verifier::external_body]
fn aot_names(text: &str, aot: &str, field: &str) -> (r: Tables)
    requires
        toml_parse_error(text@) is None,
    ensures
        r@ == toml_aot_names(text@, aot@, field@),
{
    let Ok(doc) = text.parse::<toml_edit::DocumentMut>() else { return Tables::Absent };
    match doc.get(aot).map(|m| m.as_array_of_tables()) {
        None => Tables::Absent,
        Some(None) => Tables::NotTables,
        Some(Some(a)) => Tables::Names(a.iter().map(|t| t.get(field).and_then(|v| v.as_str()).map(String::from)).collect()),
    }
}

/// Reads `key` of the `idx`-th table of `aot` with `Table::get` and
/// `Item::as_array`, each value with `Value::as_str`.
#[verifier::external_body]
fn aot_slot(text: &str, aot: &str, idx: usize, key: &str) -> (r: Slot)
    requires
        toml_parse_error(text@) is None,
    ensures
        r@ == toml_aot_slot(text@, aot@, idx as int, key@),
{
    let Ok(doc) = text.parse::<toml_edit::DocumentMut>() else { return Slot::Absent };
    let item = doc.get(aot).and_then(|m| m.as_array_of_tables()).and_then(|a| a.get(idx)).and_then(|t| t.get(key));
    match item.map(|v| v.as_array()) {
        None => Slot::Absent,
        Some(None) => Slot::NotArray,
        Some(Some(a)) => Slot::Items(a.iter().map(|v| v.as_str().map(String::from)).collect()),
    }
}

/// On the `idx`-th table of `aot`: `Table::entry(key)`, `or_insert` of an
/// empty array, `Item::as_array_mut`, `Array::push(value)`; then `to_string`.
#[verifier::external_body]
fn aot_pushed(text: &str, aot: &str, idx: usize, key: &str, value: &str) -> (r: String)
    requires
        toml_parse_error(text@) is None,
    ensures
        r@ == toml_aot_pushed(text@, aot@, idx as int, key@, value@),
{
    let Ok(mut doc) = text.parse::<toml_edit::DocumentMut>() else { return text.to_string() };
    let empty = toml_edit::Item::Value(toml_edit::Value::Array(toml_edit::Array::new()));
    let t = doc.get_mut(aot).and_then(|m| m.as_array_of_tables_mut()).and_then(|a| a.get_mut(idx));
    if let Some(list) = t.and_then(|t| t.entry(key).or_insert(empty).as_array_mut()) {
        list.push(value);
    }
    doc.to_string()
}

/// Whether a list value stays when `value` is dropped.
pub fn keeps(item: Option<&str>, value: &str) -> (r: bool)
    ensures
        r == !(item is Some && item->0@ == value@),
{
    match item {
        Some(s) => !str_eq(s, value),
        None => true,
    }
}

/// On the `idx`-th table of `aot`: `Table::get_mut(key)`,
/// `Item::as_array_mut`, `Array::retain` keeping what `keeps` keeps; then
/// `to_string`.
#[verifier::external_body]
fn aot_retained(text: &str, aot: &str, idx: usize, key: &str, value: &str) -> (r: String)
    requires
        toml_parse_error(text@) is None,
    ensures
        r@ == toml_aot_retained(text@, aot@, idx as int, key@, value@),
{
    let Ok(mut doc) = text.parse::<toml_edit::DocumentMut>() else { return text.to_string() };
    let t = doc.get_mut(aot).and_then(|m| m.as_array_of_tables_mut()).and_then(|a| a.get_mut(idx));
    if let Some(list) = t.and_then(|t| t.get_mut(key)).and_then(|e| e.as_array_mut()) {
        list.retain(|v| keeps(v.as_str(), value));
    }
    doc.to_string()
}

/// `aot_retained` on the `first` then the `second` key of one table, in one
/// document, rendered once.
#[verifier::external_body]
fn aot_retained_both(text: &str, aot: &str, idx: usize, first: &str, second: &str, value: &str) -> (r: String)
    requires
        toml_parse_error(text@) is None,
    ensures
        r@ == toml_aot_retained_both(text@, aot@, idx as int, first@, second@, value@),
{
    let Ok(mut doc) = text.parse::<toml_edit::DocumentMut>() else { return text.to_string() };
    if let Some(t) = doc.get_mut(aot).and_then(|m| m.as_array_of_tables_mut()).and_then(|a| a.get_mut(idx)) {
        if let Some(list) = t.get_mut(first).and_then(|e| e.as_array_mut()) {
            list.retain(|v| keeps(v.as_str(), value));
        }
        if let Some(list) = t.get_mut(second).and_then(|e| e.as_array_mut()) {
            list.retain(|v| keeps(v.as_str(), value));
        }
    }
    doc.to_string()
}

/// Reads the top-level `table` with `Table::get` and `Item::as_table`.
#[verifier::external_body]
pub(crate) fn table_presence(text: &str, table: &str) -> (r: Presence)
    requires
        toml_parse_error(text@) is None,
    ensures
        r == toml_table_presence(text@, table@),
{
    let Ok(doc) = text.parse::<toml_edit::DocumentMut>() else { return Presence::Absent };
    match doc.get(table).map(|t| t.as_table()) {
        None => Presence::Absent,
        Some(None) => Presence::NotTable,
        Some(Some(_)) => Presence::Table,
    }
}

/// Reads `[table].key` with `Table::get`, `Item::as_table`, `Table::get`
/// and `Item::as_array`, each value with `Value::as_str`.
#[verifier::external_body]
fn table_slot(text: &str, table: &str, key: &str) -> (r: Slot)
    requires
        toml_parse_error(text@) is None,
    ensures
        r@ == toml_table_slot(text@, table@, key@),
{
    let Ok(doc) = text.parse::<toml_edit::DocumentMut>() else { return Slot::Absent };
    match doc.get(table).and_then(|t| t.as_table()).and_then(|t| t.get(key)).map(|v| v.as_array()) {
        None => Slot::Absent,
        Some(None) => Slot::NotArray,
        Some(Some(a)) => Slot::Items(a.iter().map(|v| v.as_str().map(String::from)).collect()),
    }
}

/// `Table::entry(table)` with `or_insert` of an empty table,
/// `Item::as_table_mut`, `Table::entry(key)` with `or_insert` of an empty
/// array, `Item::as_array_mut`, `Array::push(value)`; then `to_string`.
#[verifier::external_body]
fn table_pushed(text: &str, table: &str, key: &str, value: &str) -> (r: String)
    requires
        toml_parse_error(text@) is None,
    ensures
        r@ == toml_table_pushed(text@, table@, key@, value@),
{
    let Ok(mut doc) = text.parse::<toml_edit::DocumentMut>() else { return text.to_string() };
    let empty = toml_edit::Item::Value(toml_edit::Value::Array(toml_edit::Array::new()));
    let t = doc.as_table_mut().entry(table).or_insert(toml_edit::Item::Table(toml_edit::Table::new())).as_table_mut();
    if let Some(list) = t.and_then(|t| t.entry(key).or_insert(empty).as_array_mut()) {
        list.push(value);
    }
    doc.to_string()
}

/// `Table::get_mut(table)`, `Item::get_mut(key)`, `Item::as_array_mut`,
/// `Array::retain` keeping what `keeps` keeps; then `to_string`.
#[verifier::external_body]
fn table_retained(text: &str, table: &str, key: &str, value: &str) -> (r: String)
    requires
        toml_parse_error(text@) is None,
    ensures
        r@ == toml_table_retained(text@, table@, key@, value@),
{
    let Ok(mut doc) = text.parse::<toml_edit::DocumentMut>() else { return text.to_string() };
    if let Some(list) = doc.get_mut(table).and_then(|b| b.get_mut(key)).and_then(|t| t.as_array_mut()) {
        list.retain(|v| keeps(v.as_str(), value));
    }
    doc.to_string()
}

/// Reads `sub` of the `idx`-th table of `aot` with `Table::get` and
/// `Item::as_table`.
#[verifier::external_body]
fn sub_presence(text: &str, aot: &str, idx: usize, sub: &str) -> (r: Presence)
    requires
        toml_parse_error(text@) is None,
    ensures
        r == toml_sub_presence(text@, aot@, idx as int, sub@),
{
    let Ok(doc) = text.parse::<toml_edit::DocumentMut>() else { return Presence::Absent };
    let item = doc.get(aot).and_then(|m| m.as_array_of_tables()).and_then(|a| a.get(idx)).and_then(|t| t.get(sub));
    match item.map(|t| t.as_table()) {
        None => Presence::Absent,
        Some(None) => Presence::NotTable,
        Some(Some(_)) => Presence::Table,
    }
}

/// Reads `sub.key` of the `idx`-th table of `aot` with `Table::get`,
/// `Item::as_table`, `Table::get` and `Item::as_array`, each value with
/// `Value::as_str`.
#[verifier::external_body]
fn sub_slot(text: &str, aot: &str, idx: usize, sub: &str, key: &str) -> (r: Slot)
    requires
        toml_parse_error(text@) is None,
    ensures
        r@ == toml_sub_slot(text@, aot@, idx as int, sub@, key@),
{
    let Ok(doc) = text.parse::<toml_edit::DocumentMut>() else { return Slot::Absent };
    let t = doc.get(aot).and_then(|m| m.as_array_of_tables()).and_then(|a| a.get(idx)).and_then(|t| t.get(sub));
    match t.and_then(|i| i.as_table()).and_then(|i| i.get(key)).map(|v| v.as_array()) {
        None => Slot::Absent,
        Some(None) => Slot::NotArray,
        Some(Some(a)) => Slot::Items(a.iter().map(|v| v.as_str().map(String::from)).collect()),
    }
}

/// On the `idx`-th table of `aot`: `Table::entry(sub)` with `or_insert` of
/// an empty table, `Item::as_table_mut`, `Table::set_implicit(false)`,
/// `Table::entry(key)` with `or_insert` of an empty array,
/// `Item::as_array_mut`, `Array::push(value)`; then `to_string`.
#[verifier::external_body]
fn sub_pushed(text: &str, aot: &str, idx: usize, sub: &str, key: &str, value: &str) -> (r: String)
    requires
        toml_parse_error(text@) is None,
    ensures
        r@ == toml_sub_pushed(text@, aot@, idx as int, sub@, key@, value@),
{
    let Ok(mut doc) = text.parse::<toml_edit::DocumentMut>() else { return text.to_string() };
    let t = doc.get_mut(aot).and_then(|m| m.as_array_of_tables_mut()).and_then(|a| a.get_mut(idx));
    let empty_table = toml_edit::Item::Table(toml_edit::Table::new());
    if let Some(ign) = t.and_then(|t| t.entry(sub).or_insert(empty_table).as_table_mut()) {
        ign.set_implicit(false);
        let empty = toml_edit::Item::Value(toml_edit::Value::Array(toml_edit::Array::new()));
        if let Some(list) = ign.entry(key).or_insert(empty).as_array_mut() {
            list.push(value);
        }
    }
    doc.to_string()
}

/// On the `idx`-th table of `aot`: `Table::get_mut(sub)`,
/// `Item::as_table_mut`, `Table::set_implicit(false)`; then `to_string`.
#[verifier::external_body]
fn sub_opened(text: &str, aot: &str, idx: usize, sub: &str) -> (r: String)
    requires
        toml_parse_error(text@) is None,
    ensures
        r@ == toml_sub_opened(text@, aot@, idx as int, sub@),
{
    let Ok(mut doc) = text.parse::<toml_edit::DocumentMut>() else { return text.to_string() };
    let t = doc.get_mut(aot).and_then(|m| m.as_array_of_tables_mut()).and_then(|a| a.get_mut(idx));
    if let Some(ign) = t.and_then(|t| t.get_mut(sub)).and_then(|i| i.as_table_mut()) {
        ign.set_implicit(false);
    }
    doc.to_string()
}

/// `Table::entry(aot)` with `or_insert` of an empty array of tables,
/// `Item::as_array_of_tables_mut`, then `ArrayOfTables::push` of a new table
/// holding the three keys, each set with `toml_edit::value` in order, and an
/// empty array under `list`; then `to_string`.
#[verifier::external_body]
fn aot_added(text: &str, aot: &str, k0: &str, v0: &str, k1: &str, v1: &str, k2: &str, v2: &str, list: &str) -> (r: String)
    requires
        toml_parse_error(text@) is None,
    ensures
        r@ == toml_aot_added(text@, aot@, k0@, v0@, k1@, v1@, k2@, v2@, list@),
{
    let Ok(mut doc) = text.parse::<toml_edit::DocumentMut>() else { return text.to_string() };
    let mut t = toml_edit::Table::new();
    t[k0] = toml_edit::value(v0);
    t[k1] = toml_edit::value(v1);
    t[k2] = toml_edit::value(v2);
    t[list] = toml_edit::Item::Value(toml_edit::Value::Array(toml_edit::Array::new()));
    let aots = toml_edit::Item::ArrayOfTables(toml_edit::ArrayOfTables::new());
    if let Some(arr) = doc.as_table_mut().entry(aot).or_insert(aots).as_array_of_tables_mut() {
        arr.push(t);
    }
    doc.to_string()
}

/// As `aot_added`, with four keys.
#[verifier::external_body]
fn aot_added_four(
    text: &str,
    aot: &str,
    k0: &str,
    v0: &str,
    k1: &str,
    v1: &str,
    k2: &str,
    v2: &str,
    k3: &str,
    v3: &str,
    list: &str,
) -> (r: String)
    requires
        toml_parse_error(text@) is None,
    ensures
        r@ == toml_aot_added_four(text@, aot@, k0@, v0@, k1@, v1@, k2@, v2@, k3@, v3@, list@),
{
    let Ok(mut doc) = text.parse::<toml_edit::DocumentMut>() else { return text.to_string() };
    let mut t = toml_edit::Table::new();
    t[k0] = toml_edit::value(v0);
    t[k1] = toml_edit::value(v1);
    t[k2] = toml_edit::value(v2);
    t[k3] = toml_edit::value(v3);
    t[list] = toml_edit::Item::Value(toml_edit::Value::Array(toml_edit::Array::new()));
    let aots = toml_edit::Item::ArrayOfTables(toml_edit::ArrayOfTables::new());
    if let Some(arr) = doc.as_table_mut().entry(aot).or_insert(aots).as_array_of_tables_mut() {
        arr.push(t);
    }
    doc.to_string()
}

/// `Table::entry(table)` with `or_insert` of an empty table,
/// `Item::as_table_mut`, then `table[key] = toml_edit::value(value)`; then
/// `to_string`.
#[verifier::external_body]
pub(crate) fn table_bool_set(text: &str, table: &str, key: &str, value: bool) -> (r: String)
    requires
        toml_parse_error(text@) is None,
    ensures
        r@ == toml_table_bool_set(text@, table@, key@, value),
{
    let Ok(mut doc) = text.parse::<toml_edit::DocumentMut>() else { return text.to_string() };
    let t = doc.as_table_mut().entry(table).or_insert(toml_edit::Item::Table(toml_edit::Table::new())).as_table_mut();
    if let Some(t) = t {
        t[key] = toml_edit::value(value);
    }
    doc.to_string()
}

/// As `table_bool_set`, with a string value.
#[verifier::external_body]
pub(crate) fn table_str_set(text: &str, table: &str, key: &str, value: &str) -> (r: String)
    requires
        toml_parse_error(text@) is None,
    ensures
        r@ == toml_table_str_set(text@, table@, key@, value@),
{
    let Ok(mut doc) = text.parse::<toml_edit::DocumentMut>() else { return text.to_string() };
    let t = doc.as_table_mut().entry(table).or_insert(toml_edit::Item::Table(toml_edit::Table::new())).as_table_mut();
    if let Some(t) = t {
        t[key] = toml_edit::value(value);
    }
    doc.to_string()
}

/// `Table::get_mut(table)`, `Item::as_table_mut`, `Table::remove(key)`;
/// then `to_string`.
#[verifier::external_body]
pub(crate) fn table_key_removed(text: &str, table: &str, key: &str) -> (r: String)
    requires
        toml_parse_error(text@) is None,
    ensures
        r@ == toml_table_key_removed(text@, table@, key@),
{
    let Ok(mut doc) = text.parse::<toml_edit::DocumentMut>() else { return text.to_string() };
    if let Some(t) = doc.get_mut(table).and_then(|t| t.as_table_mut()) {
        t.remove(key);
    }
    doc.to_string()
}

// ---------------------------------------------------------------------------
// Refusals.

/// Why an edit of `temper.toml` was refused.
#[derive(Debug, Clone, PartialEq, Eq)]
pub enum EditError {
    /// The text is not TOML: what was being done, and the parser's complaint.
    Parse(String, String),
    /// No machine by this name.
    NoMachine(String),
    /// The named place holds something other than an array.
    NotArray(String),
    /// The named place holds something other than a table.
    NotTable(String),
    /// `machine` holds something other than an array of tables.
    NotMachineTables,
    /// A machine by this name exists already.
    MachineExists(String),
}

pub enum EditErrorV {
    Parse(Seq<char>, Seq<char>),
    NoMachine(Seq<char>),
    NotArray(Seq<char>),
    NotTable(Seq<char>),
    NotMachineTables,
    MachineExists(Seq<char>),
}

impl View for EditError {
    type V = EditErrorV;

    open spec fn view(&self) -> EditErrorV {
        match self {
            EditError::Parse(c, e) => EditErrorV::Parse(c@, e@),
            EditError::NoMachine(m) => EditErrorV::NoMachine(m@),
            EditError::NotArray(p) => EditErrorV::NotArray(p@),
            EditError::NotTable(p) => EditErrorV::NotTable(p@),
            EditError::NotMachineTables => EditErrorV::NotMachineTables,
            EditError::MachineExists(m) => EditErrorV::MachineExists(m@),
        }
    }
}

impl EditError {
    pub open spec fn message_spec(self) -> Seq<char> {
        match self {
            EditError::Parse(c, e) => c@ + ": "@ + e@,
            EditError::NoMachine(m) => "temper.toml declares no machine named '"@ + m@ + "'"@,
            EditError::NotArray(p) => p@ + " is not an array"@,
            EditError::NotTable(p) => p@ + " is not a table"@,
            EditError::NotMachineTables => "[[machine]] in temper.toml is not an array of tables"@,
            EditError::MachineExists(m) => "temper.toml already declares a machine named '"@ + m@
                + "' \u{2014} use `temper reconcile` to absorb its current state instead"@,
        }
    }

    /// The message shown for the refusal.
    pub fn message(&self) -> (r: String)
        ensures
            r@ == self.message_spec(),
    {
        let mut r = String::new();
        match self {
            EditError::Parse(c, e) => {
                push_str(&mut r, c.as_str());
                push_str(&mut r, ": ");
                push_str(&mut r, e.as_str());
            },
            EditError::NoMachine(m) => {
                push_str(&mut r, "temper.toml declares no machine named '");
                push_str(&mut r, m.as_str());
                push_str(&mut r, "'");
            },
            EditError::NotArray(p) => {
                push_str(&mut r, p.as_str());
                push_str(&mut r, " is not an array");
            },
            EditError::NotTable(p) => {
                push_str(&mut r, p.as_str());
                push_str(&mut r, " is not a table");
            },
            EditError::NotMachineTables => {
                push_str(&mut r, "[[machine]] in temper.toml is not an array of tables");
            },
            EditError::MachineExists(m) => {
                push_str(&mut r, "temper.toml already declares a machine named '");
                push_str(&mut r, m.as_str());
                push_str(&mut r, "' \u{2014} use `temper reconcile` to absorb its current state instead");
            },
        }
        r
    }
}

/// An edit's outcome, by views.
pub open spec fn outcome(r: Result<String, EditError>) -> Result<Seq<char>, EditErrorV> {
    match r {
        Ok(s) => Ok(s@),
        Err(e) => Err(e@),
    }
}

/// A string of exec code, by its view.
fn owned(s: &str) -> (r: String)
    ensures
        r@ == s@,
{
    let mut r = String::new();
    push_str(&mut r, s);
    r
}

/// `lead` then `rest`.
fn joined(lead: &str, rest: &str) -> (r: String)
    ensures
        r@ == lead@ + rest@,
{
    let mut r = String::new();
    push_str(&mut r, lead);
    push_str(&mut r, rest);
    r
}

// ---------------------------------------------------------------------------
// Finding a machine.

/// `i` is the first position holding the name `m`.
pub open spec fn first_named(names: Seq<Option<Seq<char>>>, m: Seq<char>, i: int) -> bool {
    &&& 0 <= i < names.len()
    &&& names[i] == Some(m)
    &&& forall|j: int| 0 <= j < i ==> names[j] != Some(m)
}

pub open spec fn named_pos(names: Seq<Option<Seq<char>>>, m: Seq<char>) -> Option<int> {
    if exists|i: int| first_named(names, m, i) {
        Some(choose|i: int| first_named(names, m, i))
    } else {
        None
    }
}

/// Which `[[machine]]` table is the one named `m`: the first so named.
pub open spec fn machine_pos(text: Seq<char>, m: Seq<char>) -> Option<int> {
    match toml_aot_names(text, "machine"@, "name"@) {
        TablesV::Names(ns) => named_pos(ns, m),
        _ => None,
    }
}

pub open spec fn opt_int(o: Option<usize>) -> Option<int> {
    match o {
        Some(i) => Some(i as int),
        None => None,
    }
}

proof fn lemma_first_named_unique(names: Seq<Option<Seq<char>>>, m: Seq<char>, i: int, j: int)
    requires
        first_named(names, m, i),
        first_named(names, m, j),
    ensures
        i == j,
{
}

fn find_named(names: &Vec<Option<String>>, m: &str) -> (r: Option<usize>)
    ensures
        opt_int(r) == named_pos(opt_views(names@), m@),
{
    let ghost ns = opt_views(names@);
    let mut i: usize = 0;
    while i < names.len()
        invariant
            i <= names@.len(),
            ns == opt_views(names@),
            forall|j: int| 0 <= j < i ==> ns[j] != Some(m@),
        decreases names.len() - i,
    {
        let hit = match &names[i] {
            Some(n) => str_eq(n.as_str(), m),
            None => false,
        };
        if hit {
            proof {
                assert(first_named(ns, m@, i as int));
                let c = choose|k: int| first_named(ns, m@, k);
                lemma_first_named_unique(ns, m@, c, i as int);
            }
            return Some(i);
        }
        i += 1;
    }
    None
}

/// Whether a list holds the string `v`.
fn holds(xs: &Vec<Option<String>>, v: &str) -> (r: bool)
    ensures
        r == opt_views(xs@).contains(Some(v@)),
{
    let ghost ns = opt_views(xs@);
    let mut i: usize = 0;
    while i < xs.len()
        invariant
            i <= xs@.len(),
            ns == opt_views(xs@),
            forall|j: int| 0 <= j < i ==> ns[j] != Some(v@),
        decreases xs.len() - i,
    {
        let hit = match &xs[i] {
            Some(n) => str_eq(n.as_str(), v),
            None => false,
        };
        if hit {
            assert(ns[i as int] == Some(v@));
            return true;
        }
        i += 1;
    }
    false
}

fn machine_index(text: &str, machine: &str) -> (r: Option<usize>)
    requires
        toml_parse_error(text@) is None,
    ensures
        opt_int(r) == machine_pos(text@, machine@),
{
    match aot_names(text, "machine", "name") {
        Tables::Names(ns) => find_named(&ns, machine),
        _ => None,
    }
}

// ---------------------------------------------------------------------------
// Machine-scope lists.

/// Appending `value` to the machine's own `key` list: refused where the text
/// is not TOML, the machine is not declared or the key holds no array; a
/// no-op render where the value is there already; else the value pushed.
pub open spec fn append_list_spec(
    text: Seq<char>,
    machine: Seq<char>,
    key: Seq<char>,
    value: Seq<char>,
    ctx: Seq<char>,
) -> Result<Seq<char>, EditErrorV> {
    match toml_parse_error(text) {
        Some(e) => Err(EditErrorV::Parse(ctx, e)),
        None => match machine_pos(text, machine) {
            None => Err(EditErrorV::NoMachine(machine)),
            Some(i) => match toml_aot_slot(text, "machine"@, i, key) {
                SlotV::NotArray => Err(EditErrorV::NotArray("[[machine]]."@ + key)),
                SlotV::Items(xs) => if xs.contains(Some(value)) {
                    Ok(toml_reserialized(text))
                } else {
                    Ok(toml_aot_pushed(text, "machine"@, i, key, value))
                },
                SlotV::Absent => Ok(toml_aot_pushed(text, "machine"@, i, key, value)),
            },
        },
    }
}

/// Dropping `value` from the machine's own `key` list: refused only where the
/// text is not TOML; without such a machine, the document rendered unchanged.
pub open spec fn remove_list_spec(
    text: Seq<char>,
    machine: Seq<char>,
    key: Seq<char>,
    value: Seq<char>,
    ctx: Seq<char>,
) -> Result<Seq<char>, EditErrorV> {
    match toml_parse_error(text) {
        Some(e) => Err(EditErrorV::Parse(ctx, e)),
        None => match machine_pos(text, machine) {
            None => Ok(toml_reserialized(text)),
            Some(i) => Ok(toml_aot_retained(text, "machine"@, i, key, value)),
        },
    }
}

/// The parse context of a list edit.
pub open spec fn list_ctx(key: Seq<char>) -> Seq<char> {
    "parsing temper.toml for the "@ + key + " edit"@
}

fn list_context(key: &str) -> (r: String)
    ensures
        r@ == list_ctx(key@),
{
    let mut r = String::new();
    push_str(&mut r, "parsing temper.toml for the ");
    push_str(&mut r, key);
    push_str(&mut r, " edit");
    r
}

fn append_machine_list(temper_toml: &str, machine: &str, key: &str, value: &str, ctx: String) -> (r: Result<String, EditError>)
    ensures
        outcome(r) == append_list_spec(temper_toml@, machine@, key@, value@, ctx@),
{
    if let Some(e) = parse_error(temper_toml) {
        return Err(EditError::Parse(ctx, e));
    }
    let i = match machine_index(temper_toml, machine) {
        None => return Err(EditError::NoMachine(owned(machine))),
        Some(i) => i,
    };
    match aot_slot(temper_toml, "machine", i, key) {
        Slot::NotArray => Err(EditError::NotArray(joined("[[machine]].", key))),
        Slot::Items(xs) => {
            if holds(&xs, value) {
                Ok(reserialized(temper_toml))
            } else {
                Ok(aot_pushed(temper_toml, "machine", i, key, value))
            }
        },
        Slot::Absent => Ok(aot_pushed(temper_toml, "machine", i, key, value)),
    }
}

fn remove_machine_list(temper_toml: &str, machine: &str, key: &str, value: &str, ctx: String) -> (r: Result<String, EditError>)
    ensures
        outcome(r) == remove_list_spec(temper_toml@, machine@, key@, value@, ctx@),
{
    if let Some(e) = parse_error(temper_toml) {
        return Err(EditError::Parse(ctx, e));
    }
    match machine_index(temper_toml, machine) {
        None => Ok(reserialized(temper_toml)),
        Some(i) => Ok(aot_retained(temper_toml, "machine", i, key, value)),
    }
}

/// Absorbs a trusted tap into this machine's own `brew_trust`, never the
/// fleet's `[brew].trust`.
pub fn append_machine_trust(temper_toml: &str, machine: &str, tap: &str) -> (r: Result<String, EditError>)
    ensures
        outcome(r) == append_list_spec(temper_toml@, machine@, "brew_trust"@, tap@, list_ctx("brew_trust"@)),
{
    append_machine_list(temper_toml, machine, "brew_trust", tap, list_context("brew_trust"))
}

/// Drops a tap from this machine's own `brew_trust`; the fleet list is never
/// touched.
pub fn remove_machine_trust(temper_toml: &str, machine: &str, tap: &str) -> (r: Result<String, EditError>)
    ensures
        outcome(r) == remove_list_spec(temper_toml@, machine@, "brew_trust"@, tap@, list_ctx("brew_trust"@)),
{
    remove_machine_list(temper_toml, machine, "brew_trust", tap, list_context("brew_trust"))
}

/// Absorbs a flatpak remote into this machine's own `flatpak_remotes`.
pub fn append_machine_remote(temper_toml: &str, machine: &str, token: &str) -> (r: Result<String, EditError>)
    ensures
        outcome(r) == append_list_spec(temper_toml@, machine@, "flatpak_remotes"@, token@, list_ctx("flatpak_remotes"@)),
{
    append_machine_list(temper_toml, machine, "flatpak_remotes", token, list_context("flatpak_remotes"))
}

/// Drops a remote from this machine's own `flatpak_remotes`.
pub fn remove_machine_remote(temper_toml: &str, machine: &str, token: &str) -> (r: Result<String, EditError>)
    ensures
        outcome(r) == remove_list_spec(temper_toml@, machine@, "flatpak_remotes"@, token@, list_ctx("flatpak_remotes"@)),
{
    remove_machine_list(temper_toml, machine, "flatpak_remotes", token, list_context("flatpak_remotes"))
}

/// Absorbs a layered rpm into this machine's own `rpm_ostree` list.
pub fn append_machine_rpm(temper_toml: &str, machine: &str, pkg: &str) -> (r: Result<String, EditError>)
    ensures
        outcome(r) == append_list_spec(temper_toml@, machine@, "rpm_ostree"@, pkg@, list_ctx("rpm_ostree"@)),
{
    append_machine_list(temper_toml, machine, "rpm_ostree", pkg, list_context("rpm_ostree"))
}

/// Drops a package from this machine's own `rpm_ostree` list.
pub fn remove_machine_rpm(temper_toml: &str, machine: &str, pkg: &str) -> (r: Result<String, EditError>)
    ensures
        outcome(r) == remove_list_spec(temper_toml@, machine@, "rpm_ostree"@, pkg@, list_ctx("rpm_ostree"@)),
{
    remove_machine_list(temper_toml, machine, "rpm_ostree", pkg, list_context("rpm_ostree"))
}

/// Drops a token from a machine's own loose `packages` list; a no-op where
/// the machine, the list or the entry is absent.
pub fn remove_machine_package(temper_toml: &str, machine: &str, token: &str) -> (r: Result<String, EditError>)
    ensures
        outcome(r) == remove_list_spec(
            temper_toml@,
            machine@,
            "packages"@,
            token@,
            "parsing temper.toml for the package edit"@,
        ),
{
    remove_machine_list(temper_toml, machine, "packages", token, owned("parsing temper.toml for the package edit"))
}

// ---------------------------------------------------------------------------
// Machines and their extensions and ignores.

pub open spec fn has_machine_spec(text: Seq<char>, name: Seq<char>) -> Result<bool, EditErrorV> {
    match toml_parse_error(text) {
        Some(e) => Err(EditErrorV::Parse("parsing temper.toml to look for the machine"@, e)),
        None => Ok(
            match toml_aot_names(text, "machine"@, "name"@) {
                TablesV::Names(ns) => ns.contains(Some(name)),
                _ => false,
            },
        ),
    }
}

pub open spec fn bool_outcome(r: Result<bool, EditError>) -> Result<bool, EditErrorV> {
    match r {
        Ok(b) => Ok(b),
        Err(e) => Err(e@),
    }
}

/// Whether `temper.toml` already declares a machine by this name.
pub fn has_machine(temper_toml: &str, name: &str) -> (r: Result<bool, EditError>)
    ensures
        bool_outcome(r) == has_machine_spec(temper_toml@, name@),
{
    if let Some(e) = parse_error(temper_toml) {
        return Err(EditError::Parse(owned("parsing temper.toml to look for the machine"), e));
    }
    match aot_names(temper_toml, "machine", "name") {
        Tables::Names(ns) => {
            let found = find_named(&ns, name);
            proof {
                let vs = opt_views(ns@);
                if vs.contains(Some(name@)) {
                    let k = choose|k: int| 0 <= k < vs.len() && vs[k] == Some(name@);
                    lemma_some_first(vs, name@, k);
                }
            }
            Ok(found.is_some())
        },
        _ => Ok(false),
    }
}

/// Where a name occurs, a first occurrence exists.
proof fn lemma_some_first(names: Seq<Option<Seq<char>>>, m: Seq<char>, k: int)
    requires
        0 <= k < names.len(),
        names[k] == Some(m),
    ensures
        exists|i: int| first_named(names, m, i),
    decreases k,
{
    if exists|j: int| 0 <= j < k && names[j] == Some(m) {
        let j = choose|j: int| 0 <= j < k && names[j] == Some(m);
        lemma_some_first(names, m, j);
    } else {
        assert(first_named(names, m, k));
    }
}

pub open spec fn append_machine_spec(
    text: Seq<char>,
    name: Seq<char>,
    os: Seq<char>,
    role: Option<Seq<char>>,
    brewfile: Seq<char>,
) -> Result<Seq<char>, EditErrorV> {
    match has_machine_spec(text, name) {
        Err(e) => Err(e),
        Ok(true) => Err(EditErrorV::MachineExists(name)),
        Ok(false) => match toml_aot_names(text, "machine"@, "name"@) {
            TablesV::NotTables => Err(EditErrorV::NotMachineTables),
            _ => Ok(
                match role {
                    Some(r) => toml_aot_added_four(
                        text,
                        "machine"@,
                        "name"@,
                        name,
                        "os"@,
                        os,
                        "role"@,
                        r,
                        "brewfile"@,
                        brewfile,
                        "apps"@,
                    ),
                    None => toml_aot_added(text, "machine"@, "name"@, name, "os"@, os, "brewfile"@, brewfile, "apps"@),
                },
            ),
        },
    }
}

/// Appends a `[[machine]]` block for a new machine: name, os, role where
/// given, Brewfile and an empty app list. Refuses a name already declared,
/// which is `reconcile`'s to absorb.
pub fn append_machine(temper_toml: &str, name: &str, os: &str, role: Option<&str>, brewfile: &str) -> (r: Result<String, EditError>)
    ensures
        outcome(r) == append_machine_spec(temper_toml@, name@, os@, opt_ref_str(role), brewfile@),
{
    match has_machine(temper_toml, name) {
        Err(e) => return Err(e),
        Ok(true) => return Err(EditError::MachineExists(owned(name))),
        Ok(false) => {},
    }
    match aot_names(temper_toml, "machine", "name") {
        Tables::NotTables => Err(EditError::NotMachineTables),
        _ => match role {
            Some(r) => Ok(
                aot_added_four(temper_toml, "machine", "name", name, "os", os, "role", r, "brewfile", brewfile, "apps"),
            ),
            None => Ok(aot_added(temper_toml, "machine", "name", name, "os", os, "brewfile", brewfile, "apps")),
        },
    }
}

/// Which extension key a machine's table is written under: the old
/// spelling where only it is present, else the canonical one.
pub open spec fn ext_key(text: Seq<char>, i: int) -> Seq<char> {
    if !(toml_aot_slot(text, "machine"@, i, "extensions"@) is Absent) && toml_aot_slot(text, "machine"@, i, "gnome_extensions"@) is Absent {
        "extensions"@
    } else {
        "gnome_extensions"@
    }
}

pub open spec fn append_extension_spec(text: Seq<char>, machine: Seq<char>, uuid: Seq<char>) -> Result<Seq<char>, EditErrorV> {
    match toml_parse_error(text) {
        Some(e) => Err(EditErrorV::Parse("parsing temper.toml for the extension edit"@, e)),
        None => match toml_aot_names(text, "machine"@, "name"@) {
            TablesV::NotTables => Err(EditErrorV::NotMachineTables),
            _ => match machine_pos(text, machine) {
                None => Err(EditErrorV::NoMachine(machine)),
                Some(i) => {
                    let key = ext_key(text, i);
                    match toml_aot_slot(text, "machine"@, i, key) {
                        SlotV::NotArray => Err(EditErrorV::NotArray("[[machine]]."@ + key)),
                        SlotV::Items(xs) => if xs.contains(Some(uuid)) {
                            Ok(toml_reserialized(text))
                        } else {
                            Ok(toml_aot_pushed(text, "machine"@, i, key, uuid))
                        },
                        SlotV::Absent => Ok(toml_aot_pushed(text, "machine"@, i, key, uuid)),
                    }
                },
            },
        },
    }
}

/// Appends a GNOME extension UUID to a machine's own extension list, under
/// the key that machine already uses, so that a folder never carries both
/// spellings. Idempotent.
pub fn append_machine_extension(temper_toml: &str, machine: &str, uuid: &str) -> (r: Result<String, EditError>)
    ensures
        outcome(r) == append_extension_spec(temper_toml@, machine@, uuid@),
{
    if let Some(e) = parse_error(temper_toml) {
        return Err(EditError::Parse(owned("parsing temper.toml for the extension edit"), e));
    }
    if let Tables::NotTables = aot_names(temper_toml, "machine", "name") {
        return Err(EditError::NotMachineTables);
    }
    let i = match machine_index(temper_toml, machine) {
        None => return Err(EditError::NoMachine(owned(machine))),
        Some(i) => i,
    };
    let old_present = !matches!(aot_slot(temper_toml, "machine", i, "extensions"), Slot::Absent);
    let new_present = !matches!(aot_slot(temper_toml, "machine", i, "gnome_extensions"), Slot::Absent);
    let key = if old_present && !new_present { "extensions" } else { "gnome_extensions" };
    match aot_slot(temper_toml, "machine", i, key) {
        Slot::NotArray => Err(EditError::NotArray(joined("[[machine]].", key))),
        Slot::Items(xs) => {
            if holds(&xs, uuid) {
                Ok(reserialized(temper_toml))
            } else {
                Ok(aot_pushed(temper_toml, "machine", i, key, uuid))
            }
        },
        Slot::Absent => Ok(aot_pushed(temper_toml, "machine", i, key, uuid)),
    }
}

pub open spec fn remove_extension_spec(text: Seq<char>, machine: Seq<char>, uuid: Seq<char>) -> Result<Seq<char>, EditErrorV> {
    match toml_parse_error(text) {
        Some(e) => Err(EditErrorV::Parse("parsing temper.toml for the extension edit"@, e)),
        None => match machine_pos(text, machine) {
            None => Ok(toml_reserialized(text)),
            Some(i) => Ok(toml_aot_retained_both(text, "machine"@, i, "gnome_extensions"@, "extensions"@, uuid)),
        },
    }
}

/// Removes a GNOME extension UUID from a machine's own extension list, under
/// both spellings; a no-op where the machine, the list or the entry is absent.
pub fn remove_machine_extension(temper_toml: &str, machine: &str, uuid: &str) -> (r: Result<String, EditError>)
    ensures
        outcome(r) == remove_extension_spec(temper_toml@, machine@, uuid@),
{
    if let Some(e) = parse_error(temper_toml) {
        return Err(EditError::Parse(owned("parsing temper.toml for the extension edit"), e));
    }
    match machine_index(temper_toml, machine) {
        None => Ok(reserialized(temper_toml)),
        Some(i) => Ok(aot_retained_both(temper_toml, "machine", i, "gnome_extensions", "extensions", uuid)),
    }
}

pub open spec fn append_ignore_machine_spec(
    text: Seq<char>,
    machine: Seq<char>,
    manager: Seq<char>,
    value: Seq<char>,
) -> Result<Seq<char>, EditErrorV> {
    match toml_parse_error(text) {
        Some(e) => Err(EditErrorV::Parse("parsing temper.toml for the ignore edit"@, e)),
        None => match machine_pos(text, machine) {
            None => Err(EditErrorV::NoMachine(machine)),
            Some(i) => match toml_sub_presence(text, "machine"@, i, "ignore"@) {
                Presence::NotTable => Err(EditErrorV::NotTable("[machine.ignore]"@)),
                Presence::Absent => Ok(toml_sub_pushed(text, "machine"@, i, "ignore"@, manager, value)),
                Presence::Table => match toml_sub_slot(text, "machine"@, i, "ignore"@, manager) {
                    SlotV::NotArray => Err(EditErrorV::NotArray("[machine.ignore]."@ + manager)),
                    SlotV::Items(xs) => if xs.contains(Some(value)) {
                        Ok(toml_sub_opened(text, "machine"@, i, "ignore"@))
                    } else {
                        Ok(toml_sub_pushed(text, "machine"@, i, "ignore"@, manager, value))
                    },
                    SlotV::Absent => Ok(toml_sub_pushed(text, "machine"@, i, "ignore"@, manager, value)),
                },
            },
        },
    }
}

/// Silences an extra for this machine only, under `[machine.ignore]`.
pub fn append_machine_ignore(temper_toml: &str, machine: &str, manager: &str, value: &str) -> (r: Result<String, EditError>)
    ensures
        outcome(r) == append_ignore_machine_spec(temper_toml@, machine@, manager@, value@),
{
    if let Some(e) = parse_error(temper_toml) {
        return Err(EditError::Parse(owned("parsing temper.toml for the ignore edit"), e));
    }
    let i = match machine_index(temper_toml, machine) {
        None => return Err(EditError::NoMachine(owned(machine))),
        Some(i) => i,
    };
    match sub_presence(temper_toml, "machine", i, "ignore") {
        Presence::NotTable => Err(EditError::NotTable(owned("[machine.ignore]"))),
        Presence::Absent => Ok(sub_pushed(temper_toml, "machine", i, "ignore", manager, value)),
        Presence::Table => match sub_slot(temper_toml, "machine", i, "ignore", manager) {
            Slot::NotArray => Err(EditError::NotArray(joined("[machine.ignore].", manager))),
            Slot::Items(xs) => {
                if holds(&xs, value) {
                    Ok(sub_opened(temper_toml, "machine", i, "ignore"))
                } else {
                    Ok(sub_pushed(temper_toml, "machine", i, "ignore", manager, value))
                }
            },
            Slot::Absent => Ok(sub_pushed(temper_toml, "machine", i, "ignore", manager, value)),
        },
    }
}

// ---------------------------------------------------------------------------
// Fleet lists.

pub open spec fn append_table_spec(
    text: Seq<char>,
    table: Seq<char>,
    key: Seq<char>,
    value: Seq<char>,
    ctx: Seq<char>,
    table_label: Seq<char>,
    key_label: Seq<char>,
) -> Result<Seq<char>, EditErrorV> {
    match toml_parse_error(text) {
        Some(e) => Err(EditErrorV::Parse(ctx, e)),
        None => match toml_table_presence(text, table) {
            Presence::NotTable => Err(EditErrorV::NotTable(table_label)),
            Presence::Absent => Ok(toml_table_pushed(text, table, key, value)),
            Presence::Table => match toml_table_slot(text, table, key) {
                SlotV::NotArray => Err(EditErrorV::NotArray(key_label)),
                SlotV::Items(xs) => if xs.contains(Some(value)) {
                    Ok(toml_reserialized(text))
                } else {
                    Ok(toml_table_pushed(text, table, key, value))
                },
                SlotV::Absent => Ok(toml_table_pushed(text, table, key, value)),
            },
        },
    }
}

fn append_table_list(
    temper_toml: &str,
    table: &str,
    key: &str,
    value: &str,
    ctx: String,
    table_label: String,
    key_label: String,
) -> (r: Result<String, EditError>)
    ensures
        outcome(r) == append_table_spec(temper_toml@, table@, key@, value@, ctx@, table_label@, key_label@),
{
    if let Some(e) = parse_error(temper_toml) {
        return Err(EditError::Parse(ctx, e));
    }
    match table_presence(temper_toml, table) {
        Presence::NotTable => Err(EditError::NotTable(table_label)),
        Presence::Absent => Ok(table_pushed(temper_toml, table, key, value)),
        Presence::Table => match table_slot(temper_toml, table, key) {
            Slot::NotArray => Err(EditError::NotArray(key_label)),
            Slot::Items(xs) => {
                if holds(&xs, value) {
                    Ok(reserialized(temper_toml))
                } else {
                    Ok(table_pushed(temper_toml, table, key, value))
                }
            },
            Slot::Absent => Ok(table_pushed(temper_toml, table, key, value)),
        },
    }
}

/// Appends a tap to the fleet's `[brew].trust`. Idempotent.
pub fn append_trust(temper_toml: &str, tap: &str) -> (r: Result<String, EditError>)
    ensures
        outcome(r) == append_table_spec(
            temper_toml@,
            "brew"@,
            "trust"@,
            tap@,
            "parsing temper.toml for trust edit"@,
            "[brew] in temper.toml"@,
            "[brew].trust"@,
        ),
{
    append_table_list(
        temper_toml,
        "brew",
        "trust",
        tap,
        owned("parsing temper.toml for trust edit"),
        owned("[brew] in temper.toml"),
        owned("[brew].trust"),
    )
}

/// Appends an app id to the fleet's `[ignore].<manager>`. Idempotent.
pub fn append_ignore(temper_toml: &str, manager: &str, appid: &str) -> (r: Result<String, EditError>)
    ensures
        outcome(r) == append_table_spec(
            temper_toml@,
            "ignore"@,
            manager@,
            appid@,
            "parsing temper.toml for ignore edit"@,
            "[ignore] in temper.toml"@,
            "[ignore]."@ + manager@,
        ),
{
    append_table_list(
        temper_toml,
        "ignore",
        manager,
        appid,
        owned("parsing temper.toml for ignore edit"),
        owned("[ignore] in temper.toml"),
        joined("[ignore].", manager),
    )
}

pub open spec fn remove_trust_spec(text: Seq<char>, tap: Seq<char>) -> Result<Seq<char>, EditErrorV> {
    match toml_parse_error(text) {
        Some(e) => Err(EditErrorV::Parse("parsing temper.toml for trust edit"@, e)),
        None => Ok(toml_table_retained(text, "brew"@, "trust"@, tap)),
    }
}

/// Removes a tap from the fleet's `[brew].trust`; a no-op where it is absent.
pub fn remove_trust(temper_toml: &str, tap: &str) -> (r: Result<String, EditError>)
    ensures
        outcome(r) == remove_trust_spec(temper_toml@, tap@),
{
    if let Some(e) = parse_error(temper_toml) {
        return Err(EditError::Parse(owned("parsing temper.toml for trust edit"), e));
    }
    Ok(table_retained(temper_toml, "brew", "trust", tap))
}

} // verus!
