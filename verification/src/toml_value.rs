//! A TOML value as the `setkey(toml)` backend reads it, and its drift
//! check: reading a dotted path and whether the wanted value is in place.
use vstd::prelude::*;
use crate::plan::str_eq;
use crate::text::{chars_of, trim, trimmed};

verus! {

/// A TOML value. Integers, floats and datetimes are held as their text (as
/// `toml` writes them); a table's members are held in order (as read: by
/// key). Values compare kind and text, arrays element by element, tables
/// member by member in order.
#[derive(Debug)]
pub enum Toml {
    Str(String),
    Integer(String),
    Float(String),
    Boolean(bool),
    Datetime(String),
    Array(Vec<Toml>),
    Table(Vec<(String, Toml)>),
}

/// The mathematical value of a [`Toml`].
pub enum TomlV {
    Str(Seq<char>),
    Integer(Seq<char>),
    Float(Seq<char>),
    Boolean(bool),
    Datetime(Seq<char>),
    Array(Seq<TomlV>),
    Table(Seq<(Seq<char>, TomlV)>),
}

impl View for Toml {
    type V = TomlV;

    open spec fn view(&self) -> TomlV
        decreases self,
    {
        match self {
            Toml::Str(s) => TomlV::Str(s@),
            Toml::Integer(s) => TomlV::Integer(s@),
            Toml::Float(s) => TomlV::Float(s@),
            Toml::Boolean(b) => TomlV::Boolean(*b),
            Toml::Datetime(s) => TomlV::Datetime(s@),
            Toml::Array(v) => TomlV::Array(Seq::new(v@.len(), |i: int| if 0 <= i < v@.len() { v@[i].view() } else { TomlV::Boolean(false) })),
            Toml::Table(v) => TomlV::Table(Seq::new(v@.len(), |i: int| (v@[i].0@, if 0 <= i < v@.len() { v@[i].1.view() } else { TomlV::Boolean(false) }))),
        }
    }
}

/// Whether two values are equal: same kind and text, arrays element by
/// element, tables member by member in order.
pub fn toml_eq(a: &Toml, b: &Toml) -> (r: bool)
    ensures
        r == (a@ == b@),
    decreases a,
{
    match (a, b) {
        (Toml::Str(x), Toml::Str(y)) => str_eq(x.as_str(), y.as_str()),
        (Toml::Integer(x), Toml::Integer(y)) => str_eq(x.as_str(), y.as_str()),
        (Toml::Float(x), Toml::Float(y)) => str_eq(x.as_str(), y.as_str()),
        (Toml::Boolean(x), Toml::Boolean(y)) => *x == *y,
        (Toml::Datetime(x), Toml::Datetime(y)) => str_eq(x.as_str(), y.as_str()),
        (Toml::Array(x), Toml::Array(y)) => {
            let ghost xv = a@->Array_0;
            let ghost yv = b@->Array_0;
            if x.len() != y.len() {
                assert(xv.len() != yv.len());
                return false;
            }
            let mut i: usize = 0;
            while i < x.len()
                invariant
                    i <= x@.len(),
                    x@.len() == y@.len(),
                    a@ == TomlV::Array(xv),
                    b@ == TomlV::Array(yv),
                    *a == Toml::Array(*x),
                    *b == Toml::Array(*y),
                    xv.len() == x@.len(),
                    yv.len() == y@.len(),
                    forall|j: int| 0 <= j < x@.len() ==> xv[j] == x@[j]@,
                    forall|j: int| 0 <= j < y@.len() ==> yv[j] == y@[j]@,
                    forall|j: int| 0 <= j < i ==> xv[j] == yv[j],
                decreases x.len() - i,
            {
                assert(decreases_to!(*a => x@[i as int]));
                if !toml_eq(&x[i], &y[i]) {
                    assert(xv[i as int] != yv[i as int]);
                    return false;
                }
                i += 1;
            }
            assert(xv =~= yv);
            true
        },
        (Toml::Table(x), Toml::Table(y)) => {
            let ghost xv = a@->Table_0;
            let ghost yv = b@->Table_0;
            assert(*a == Toml::Table(*x));
            assert(a@ is Table);
            assert(xv.len() == x@.len());
            if x.len() != y.len() {
                assert(xv.len() != yv.len());
                return false;
            }
            let mut i: usize = 0;
            while i < x.len()
                invariant
                    i <= x@.len(),
                    x@.len() == y@.len(),
                    a@ == TomlV::Table(xv),
                    b@ == TomlV::Table(yv),
                    *a == Toml::Table(*x),
                    *b == Toml::Table(*y),
                    xv.len() == x@.len(),
                    yv.len() == y@.len(),
                    forall|j: int| 0 <= j < x@.len() ==> xv[j] == (x@[j].0@, x@[j].1@),
                    forall|j: int| 0 <= j < y@.len() ==> yv[j] == (y@[j].0@, y@[j].1@),
                    forall|j: int| 0 <= j < i ==> xv[j] == yv[j],
                decreases x.len() - i,
            {
                assert(decreases_to!(*a => x@[i as int].1));
                if !str_eq(x[i].0.as_str(), y[i].0.as_str()) {
                    assert(xv[i as int] != yv[i as int]);
                    return false;
                }
                if !toml_eq(&x[i].1, &y[i].1) {
                    assert(xv[i as int] != yv[i as int]);
                    return false;
                }
                i += 1;
            }
            assert(xv =~= yv);
            true
        },
        _ => false,
    }
}

/// The elements of an array, each by its value.
pub open spec fn elems(v: Seq<Toml>) -> Seq<TomlV> {
    Seq::new(v.len(), |i: int| v[i]@)
}

proof fn lemma_array_view(v: Vec<Toml>)
    ensures
        (Toml::Array(v))@ == TomlV::Array(elems(v@)),
{
    let a = (Toml::Array(v))@;
    assert(a->Array_0 =~= elems(v@));
}

/// The members of a table, each key and value by its view.
pub open spec fn members(m: Seq<(String, Toml)>) -> Seq<(Seq<char>, TomlV)> {
    Seq::new(m.len(), |i: int| (m[i].0@, m[i].1@))
}

proof fn lemma_table_view(m: Vec<(String, Toml)>)
    ensures
        (Toml::Table(m))@ == TomlV::Table(members(m@)),
{
    let a = (Toml::Table(m))@;
    assert(a->Table_0 =~= members(m@));
}

pub proof fn lemma_empty_table(m: Vec<(String, Toml)>)
    requires
        m@.len() == 0,
    ensures
        (Toml::Table(m))@ == TomlV::Table(Seq::empty()),
{
    lemma_table_view(m);
    assert(members(m@) =~= Seq::<(Seq<char>, TomlV)>::empty());
}

/// `i` is the first member of `m` under the key `k`.
pub open spec fn key_at(m: Seq<(Seq<char>, TomlV)>, k: Seq<char>, i: int) -> bool {
    0 <= i < m.len() && m[i].0 == k && forall|j: int| 0 <= j < i ==> m[j].0 != k
}

pub open spec fn has_key(m: Seq<(Seq<char>, TomlV)>, k: Seq<char>) -> bool {
    exists|i: int| key_at(m, k, i)
}

pub open spec fn key_index(m: Seq<(Seq<char>, TomlV)>, k: Seq<char>) -> int {
    choose|i: int| key_at(m, k, i)
}

/// The value a table holds under a key (its first member so named).
pub open spec fn member_get(m: Seq<(Seq<char>, TomlV)>, k: Seq<char>) -> Option<TomlV> {
    if has_key(m, k) {
        Some(m[key_index(m, k)].1)
    } else {
        None
    }
}

proof fn lemma_key_index(m: Seq<(Seq<char>, TomlV)>, k: Seq<char>, i: int)
    requires
        key_at(m, k, i),
    ensures
        has_key(m, k),
        key_index(m, k) == i,
{
    let j = key_index(m, k);
    if j < i {
        assert(m[j].0 != k);
    } else if i < j {
        assert(m[i].0 != k);
    }
}

/// The value at a dotted path: each part a member of a table.
pub open spec fn toml_get_spec(root: TomlV, parts: Seq<Seq<char>>) -> Option<TomlV>
    decreases parts.len(),
{
    if parts.len() == 0 {
        Some(root)
    } else {
        match root {
            TomlV::Table(m) => match member_get(m, parts[0]) {
                Some(c) => toml_get_spec(c, parts.drop_first()),
                None => None,
            },
            _ => None,
        }
    }
}

/// Whether the wanted value is in place: the value at the path equals it,
/// or, when appending, the value at the path is an array that holds it.
pub open spec fn toml_satisfied_spec(root: TomlV, parts: Seq<Seq<char>>, value: TomlV, append: bool) -> bool {
    match toml_get_spec(root, parts) {
        None => false,
        Some(cur) => if append {
            cur matches TomlV::Array(a) && a.contains(value)
        } else {
            cur == value
        },
    }
}

pub open spec fn parts_view(p: Seq<String>) -> Seq<Seq<char>> {
    p.map_values(|s: String| s@)
}

fn member_index(m: &Vec<(String, Toml)>, k: &str) -> (r: Option<usize>)
    ensures
        match r {
            Some(i) => key_at(members(m@), k@, i as int),
            None => !has_key(members(m@), k@),
        },
{
    let ghost mv = members(m@);
    let mut i: usize = 0;
    while i < m.len()
        invariant
            i <= m@.len(),
            mv == members(m@),
            forall|j: int| 0 <= j < i ==> mv[j].0 != k@,
        decreases m.len() - i,
    {
        if str_eq(m[i].0.as_str(), k) {
            assert(key_at(mv, k@, i as int));
            return Some(i);
        }
        i += 1;
    }
    proof {
        if has_key(mv, k@) {
            let j = key_index(mv, k@);
            assert(mv[j].0 != k@);
        }
    }
    None
}

fn holds(a: &Vec<Toml>, v: &Toml) -> (r: bool)
    ensures
        r == elems(a@).contains(v@),
{
    let mut i: usize = 0;
    while i < a.len()
        invariant
            i <= a@.len(),
            forall|j: int| 0 <= j < i ==> elems(a@)[j] != v@,
        decreases a.len() - i,
    {
        if toml_eq(&a[i], v) {
            assert(elems(a@)[i as int] == v@);
            return true;
        }
        i += 1;
    }
    proof {
        if elems(a@).contains(v@) {
            let j = choose|j: int| 0 <= j < elems(a@).len() && elems(a@)[j] == v@;
            assert(elems(a@)[j] != v@);
        }
    }
    false
}

/// The value at a dotted path, each part a member of a table.
pub fn toml_get<'a>(root: &'a Toml, parts: &[String]) -> (r: Option<&'a Toml>)
    ensures
        match r {
            Some(c) => toml_get_spec(root@, parts_view(parts@)) == Some(c@),
            None => toml_get_spec(root@, parts_view(parts@)) is None,
        },
{
    let ghost pv = parts_view(parts@);
    let mut cur: &Toml = root;
    let mut i: usize = 0;
    assert(pv.skip(0) =~= pv);
    while i < parts.len()
        invariant
            i <= parts@.len(),
            pv == parts_view(parts@),
            toml_get_spec(root@, pv) == toml_get_spec(cur@, pv.skip(i as int)),
        decreases parts.len() - i,
    {
        let ghost rest = pv.skip(i as int);
        assert(rest[0] == parts@[i as int]@);
        assert(rest.drop_first() =~= pv.skip(i as int + 1));
        match cur {
            Toml::Table(m) => {
                proof {
                    lemma_table_view(*m);
                }
                match member_index(m, parts[i].as_str()) {
                    Some(j) => {
                        proof {
                            lemma_key_index(members(m@), rest[0], j as int);
                        }
                        cur = &m[j].1;
                    },
                    None => {
                        return None;
                    },
                }
            },
            _ => {
                return None;
            },
        }
        i += 1;
    }
    assert(pv.skip(i as int) =~= Seq::<Seq<char>>::empty());
    Some(cur)
}

/// Whether the wanted value is in place at the path (for `append`, held by
/// the array there).
pub fn toml_satisfied(root: &Toml, parts: &[String], value: &Toml, append: bool) -> (r: bool)
    ensures
        r == toml_satisfied_spec(root@, parts_view(parts@), value@, append),
{
    match toml_get(root, parts) {
        None => false,
        Some(cur) => {
            if append {
                match cur {
                    Toml::Array(a) => {
                        proof {
                            lemma_array_view(*a);
                        }
                        holds(a, value)
                    },
                    _ => false,
                }
            } else {
                toml_eq(cur, value)
            }
        },
    }
}

// ---------------------------------------------------------------------------
// Reading the target file's text.

/// What `toml::from_str` makes of a document: its complaint, or its table.
pub uninterp spec fn toml_value_of(text: Seq<char>) -> Result<TomlV, Seq<char>>;

pub open spec fn read_view(r: Result<Toml, String>) -> Result<TomlV, Seq<char>> {
    match r {
        Ok(j) => Ok(j@),
        Err(e) => Err(e@),
    }
}

#[verifier::external_type_specification]
#[verifier::external_body]
pub struct ExTomlValue(toml::Value);

/// Converts a `toml::Value` to a [`Toml`], a number or datetime as its
/// text.
#[verifier::external_body]
fn from_toml(v: &toml::Value) -> Toml {
    match v {
        toml::Value::String(s) => Toml::Str(s.clone()),
        toml::Value::Integer(i) => Toml::Integer(i.to_string()),
        toml::Value::Float(f) => Toml::Float(f.to_string()),
        toml::Value::Boolean(b) => Toml::Boolean(*b),
        toml::Value::Datetime(d) => Toml::Datetime(d.to_string()),
        toml::Value::Array(a) => Toml::Array(a.iter().map(from_toml).collect()),
        toml::Value::Table(t) => Toml::Table(t.iter().map(|(k, x)| (k.clone(), from_toml(x))).collect()),
    }
}

/// Calls `toml::from_str::<toml::Table>` and converts the document.
#[verifier::external_body]
fn parse_toml(text: &str) -> (r: Result<Toml, String>)
    ensures
        read_view(r) == toml_value_of(text@),
{
    match toml::from_str::<toml::Table>(text) {
        Ok(t) => Ok(from_toml(&toml::Value::Table(t))),
        Err(e) => Err(e.to_string()),
    }
}

/// The root a target's text holds: blank text is an empty table.
pub open spec fn read_root_spec(text: Seq<char>) -> Result<TomlV, Seq<char>> {
    if trim(text).len() == 0 {
        Ok(TomlV::Table(Seq::empty()))
    } else {
        toml_value_of(text)
    }
}

/// Reads a `setkey(toml)` target's text: blank text is an empty table,
/// anything else must be a TOML document (the parser's complaint otherwise).
pub fn read_root(text: &str) -> (r: Result<Toml, String>)
    ensures
        read_view(r) == read_root_spec(text@),
{
    if trimmed(chars_of(text).as_slice()).len() == 0 {
        let empty: Vec<(String, Toml)> = Vec::new();
        proof {
            lemma_empty_table(empty);
        }
        Ok(Toml::Table(empty))
    } else {
        parse_toml(text)
    }
}

} // verus!
