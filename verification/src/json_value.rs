//! A JSON value as the `setkey(json)` backend reads and writes it, and the
//! drift check and edit it runs on one: reading a dotted path, whether a
//! wanted value is there, and setting or appending it.
use vstd::prelude::*;
use crate::plan::str_eq;
use crate::text::{chars_of, push_str, trim, trimmed};

verus! {

/// A JSON value. A number is held as its text (as `serde_json` writes it);
/// an object's members are held in order (as read: by key), a new member
/// added last. Objects compare member by member, in that order.
#[derive(Debug)]
pub enum Json {
    Null,
    Bool(bool),
    Number(String),
    Str(String),
    Array(Vec<Json>),
    Object(Vec<(String, Json)>),
}

/// The mathematical value of a [`Json`].
pub enum JsonV {
    Null,
    Bool(bool),
    Number(Seq<char>),
    Str(Seq<char>),
    Array(Seq<JsonV>),
    Object(Seq<(Seq<char>, JsonV)>),
}

impl View for Json {
    type V = JsonV;

    open spec fn view(&self) -> JsonV
        decreases self,
    {
        match self {
            Json::Null => JsonV::Null,
            Json::Bool(b) => JsonV::Bool(*b),
            Json::Number(n) => JsonV::Number(n@),
            Json::Str(s) => JsonV::Str(s@),
            Json::Array(v) => JsonV::Array(Seq::new(v@.len(), |i: int| if 0 <= i < v@.len() { v@[i].view() } else { JsonV::Null })),
            Json::Object(v) => JsonV::Object(Seq::new(v@.len(), |i: int| (v@[i].0@, if 0 <= i < v@.len() { v@[i].1.view() } else { JsonV::Null }))),
        }
    }
}

/// Whether two values are equal: numbers by their text, arrays element by
/// element, objects member by member in order.
pub fn json_eq(a: &Json, b: &Json) -> (r: bool)
    ensures
        r == (a@ == b@),
    decreases a,
{
    match (a, b) {
        (Json::Null, Json::Null) => true,
        (Json::Bool(x), Json::Bool(y)) => *x == *y,
        (Json::Number(x), Json::Number(y)) => str_eq(x.as_str(), y.as_str()),
        (Json::Str(x), Json::Str(y)) => str_eq(x.as_str(), y.as_str()),
        (Json::Array(x), Json::Array(y)) => {
            let ghost xv = a@->Array_0;
            let ghost yv = b@->Array_0;
            if x.len() != y.len() {
                assert(xv.len() != yv.len());
                return false;
            }
            let mut i: usize = 0;
            while i < x.len()
                invariant
                    i <= x@.len(),
                    x@.len() == y@.len(),
                    a@ == JsonV::Array(xv),
                    b@ == JsonV::Array(yv),
                    *a == Json::Array(*x),
                    *b == Json::Array(*y),
                    xv.len() == x@.len(),
                    yv.len() == y@.len(),
                    forall|j: int| 0 <= j < x@.len() ==> xv[j] == x@[j]@,
                    forall|j: int| 0 <= j < y@.len() ==> yv[j] == y@[j]@,
                    forall|j: int| 0 <= j < i ==> xv[j] == yv[j],
                decreases x.len() - i,
            {
                assert(decreases_to!(*a => x@[i as int]));
                if !json_eq(&x[i], &y[i]) {
                    assert(xv[i as int] != yv[i as int]);
                    return false;
                }
                i += 1;
            }
            assert(xv =~= yv);
            true
        },
        (Json::Object(x), Json::Object(y)) => {
            let ghost xv = a@->Object_0;
            let ghost yv = b@->Object_0;
            assert(*a == Json::Object(*x));
            assert(a@ is Object);
            assert(xv.len() == x@.len());
            if x.len() != y.len() {
                assert(xv.len() != yv.len());
                return false;
            }
            let mut i: usize = 0;
            while i < x.len()
                invariant
                    i <= x@.len(),
                    x@.len() == y@.len(),
                    a@ == JsonV::Object(xv),
                    b@ == JsonV::Object(yv),
                    *a == Json::Object(*x),
                    *b == Json::Object(*y),
                    xv.len() == x@.len(),
                    yv.len() == y@.len(),
                    forall|j: int| 0 <= j < x@.len() ==> xv[j] == (x@[j].0@, x@[j].1@),
                    forall|j: int| 0 <= j < y@.len() ==> yv[j] == (y@[j].0@, y@[j].1@),
                    forall|j: int| 0 <= j < i ==> xv[j] == yv[j],
                decreases x.len() - i,
            {
                assert(decreases_to!(*a => x@[i as int].1));
                if !str_eq(x[i].0.as_str(), y[i].0.as_str()) {
                    assert(xv[i as int] != yv[i as int]);
                    return false;
                }
                if !json_eq(&x[i].1, &y[i].1) {
                    assert(xv[i as int] != yv[i as int]);
                    return false;
                }
                i += 1;
            }
            assert(xv =~= yv);
            true
        },
        _ => false,
    }
}

/// The elements of an array, each by its value.
pub open spec fn elems(v: Seq<Json>) -> Seq<JsonV> {
    Seq::new(v.len(), |i: int| v[i]@)
}

proof fn lemma_array_view(v: Vec<Json>)
    ensures
        (Json::Array(v))@ == JsonV::Array(elems(v@)),
{
    let a = (Json::Array(v))@;
    assert(a->Array_0 =~= elems(v@));
}

/// The members of an object, each key and value by its view.
pub open spec fn members(m: Seq<(String, Json)>) -> Seq<(Seq<char>, JsonV)> {
    Seq::new(m.len(), |i: int| (m[i].0@, m[i].1@))
}

proof fn lemma_object_view(m: Vec<(String, Json)>)
    ensures
        (Json::Object(m))@ == JsonV::Object(members(m@)),
{
    let a = (Json::Object(m))@;
    assert(a->Object_0 =~= members(m@));
}

pub proof fn lemma_empty_object(m: Vec<(String, Json)>)
    requires
        m@.len() == 0,
    ensures
        (Json::Object(m))@ == JsonV::Object(Seq::empty()),
{
    lemma_object_view(m);
    assert(members(m@) =~= Seq::<(Seq<char>, JsonV)>::empty());
}

/// `i` is the first member of `m` under the key `k`.
pub open spec fn key_at(m: Seq<(Seq<char>, JsonV)>, k: Seq<char>, i: int) -> bool {
    0 <= i < m.len() && m[i].0 == k && forall|j: int| 0 <= j < i ==> m[j].0 != k
}

pub open spec fn has_key(m: Seq<(Seq<char>, JsonV)>, k: Seq<char>) -> bool {
    exists|i: int| key_at(m, k, i)
}

pub open spec fn key_index(m: Seq<(Seq<char>, JsonV)>, k: Seq<char>) -> int {
    choose|i: int| key_at(m, k, i)
}

/// The value an object holds under a key (its first member so named).
pub open spec fn obj_get(m: Seq<(Seq<char>, JsonV)>, k: Seq<char>) -> Option<JsonV> {
    if has_key(m, k) {
        Some(m[key_index(m, k)].1)
    } else {
        None
    }
}

/// The object with the value under `k` replaced, or the member added last.
pub open spec fn obj_put(m: Seq<(Seq<char>, JsonV)>, k: Seq<char>, v: JsonV) -> Seq<(Seq<char>, JsonV)> {
    if has_key(m, k) {
        m.update(key_index(m, k), (k, v))
    } else {
        m.push((k, v))
    }
}

proof fn lemma_key_index(m: Seq<(Seq<char>, JsonV)>, k: Seq<char>, i: int)
    requires
        key_at(m, k, i),
    ensures
        has_key(m, k),
        key_index(m, k) == i,
{
    let j = key_index(m, k);
    if j < i {
        assert(m[j].0 != k);
    } else if i < j {
        assert(m[i].0 != k);
    }
}

proof fn lemma_some_key(m: Seq<(Seq<char>, JsonV)>, k: Seq<char>, j: int)
    requires
        0 <= j < m.len(),
        m[j].0 == k,
    ensures
        has_key(m, k),
    decreases j,
{
    if exists|i: int| 0 <= i < j && m[i].0 == k {
        let i = choose|i: int| 0 <= i < j && m[i].0 == k;
        lemma_some_key(m, k, i);
    } else {
        assert(key_at(m, k, j));
    }
}

proof fn lemma_put_get(m: Seq<(Seq<char>, JsonV)>, k: Seq<char>, v: JsonV)
    ensures
        obj_get(obj_put(m, k, v), k) == Some(v),
{
    let n = obj_put(m, k, v);
    if has_key(m, k) {
        let i = key_index(m, k);
        assert(key_at(n, k, i));
        lemma_key_index(n, k, i);
    } else {
        assert forall|j: int| 0 <= j < m.len() implies m[j].0 != k by {
            if m[j].0 == k {
                lemma_some_key(m, k, j);
            }
        }
        assert(key_at(n, k, m.len() as int));
        lemma_key_index(n, k, m.len() as int);
    }
}

/// The value at a dotted path: each part a member of an object.
pub open spec fn json_get_spec(root: JsonV, parts: Seq<Seq<char>>) -> Option<JsonV>
    decreases parts.len(),
{
    if parts.len() == 0 {
        Some(root)
    } else {
        match root {
            JsonV::Object(m) => match obj_get(m, parts[0]) {
                Some(c) => json_get_spec(c, parts.drop_first()),
                None => None,
            },
            _ => None,
        }
    }
}

/// Whether the wanted value is in place: the value at the path equals it,
/// or, when appending, the value at the path is an array that holds it.
pub open spec fn json_satisfied_spec(root: JsonV, parts: Seq<Seq<char>>, value: JsonV, append: bool) -> bool {
    match json_get_spec(root, parts) {
        None => false,
        Some(cur) => if append {
            cur matches JsonV::Array(a) && a.contains(value)
        } else {
            cur == value
        },
    }
}

/// Why a JSON edit was refused.
#[derive(Debug, Clone, PartialEq, Eq)]
pub enum SetKeyError {
    /// The value the path starts from is not an object.
    NotObject(String),
    /// A part before the last names something other than an object.
    IntermediateNotObject(String),
    /// Appending to a key whose value is not an array.
    NotArray(String),
}

pub enum SetKeyErrorV {
    NotObject(Seq<char>),
    IntermediateNotObject(Seq<char>),
    NotArray(Seq<char>),
}

impl View for SetKeyError {
    type V = SetKeyErrorV;

    open spec fn view(&self) -> SetKeyErrorV {
        match self {
            SetKeyError::NotObject(k) => SetKeyErrorV::NotObject(k@),
            SetKeyError::IntermediateNotObject(k) => SetKeyErrorV::IntermediateNotObject(k@),
            SetKeyError::NotArray(k) => SetKeyErrorV::NotArray(k@),
        }
    }
}

impl SetKeyError {
    /// The message shown for the refusal.
    pub fn message(&self) -> (r: String)
        ensures
            r@ == match self {
                SetKeyError::NotObject(k) => "setkey json: `"@ + k@ + "` is not an object"@,
                SetKeyError::IntermediateNotObject(k) => "setkey json: intermediate key `"@ + k@ + "` is not an object"@,
                SetKeyError::NotArray(k) => "setkey append: `"@ + k@ + "` is not an array"@,
            },
    {
        let mut r = String::new();
        match self {
            SetKeyError::NotObject(k) => {
                push_str(&mut r, "setkey json: `");
                push_str(&mut r, k.as_str());
                push_str(&mut r, "` is not an object");
            },
            SetKeyError::IntermediateNotObject(k) => {
                push_str(&mut r, "setkey json: intermediate key `");
                push_str(&mut r, k.as_str());
                push_str(&mut r, "` is not an object");
            },
            SetKeyError::NotArray(k) => {
                push_str(&mut r, "setkey append: `");
                push_str(&mut r, k.as_str());
                push_str(&mut r, "` is not an array");
            },
        }
        r
    }
}

/// Setting the value at a path: each part before the last must name an
/// object (one is created where the key is absent); the last is set to the
/// value, or, when appending, the value is added to the array there (created
/// as `[value]` where absent) unless it is already in it.
pub open spec fn json_set_spec(root: JsonV, parts: Seq<Seq<char>>, value: JsonV, append: bool) -> Result<JsonV, SetKeyErrorV>
    decreases parts.len(),
{
    if parts.len() == 0 {
        Ok(root)
    } else {
        let k = parts[0];
        match root {
            JsonV::Object(m) => if parts.len() == 1 {
                if append {
                    match obj_get(m, k) {
                        None => Ok(JsonV::Object(obj_put(m, k, JsonV::Array(seq![value])))),
                        Some(JsonV::Array(a)) => Ok(JsonV::Object(obj_put(m, k, JsonV::Array(if a.contains(value) {
                            a
                        } else {
                            a.push(value)
                        })))),
                        Some(_) => Err(SetKeyErrorV::NotArray(k)),
                    }
                } else {
                    Ok(JsonV::Object(obj_put(m, k, value)))
                }
            } else {
                let child = match obj_get(m, k) {
                    Some(c) => c,
                    None => JsonV::Object(Seq::empty()),
                };
                match child {
                    JsonV::Object(_) => match json_set_spec(child, parts.drop_first(), value, append) {
                        Ok(c2) => Ok(JsonV::Object(obj_put(m, k, c2))),
                        Err(e) => Err(e),
                    },
                    _ => Err(SetKeyErrorV::IntermediateNotObject(k)),
                }
            },
            _ => Err(SetKeyErrorV::NotObject(k)),
        }
    }
}

pub open spec fn parts_view(p: Seq<String>) -> Seq<Seq<char>> {
    p.map_values(|s: String| s@)
}

fn own(s: &str) -> (r: String)
    ensures
        r@ == s@,
{
    let mut r = String::new();
    push_str(&mut r, s);
    r
}

fn member_index(m: &Vec<(String, Json)>, k: &str) -> (r: Option<usize>)
    ensures
        match r {
            Some(i) => key_at(members(m@), k@, i as int),
            None => !has_key(members(m@), k@),
        },
{
    let ghost mv = members(m@);
    let mut i: usize = 0;
    while i < m.len()
        invariant
            i <= m@.len(),
            mv == members(m@),
            forall|j: int| 0 <= j < i ==> mv[j].0 != k@,
        decreases m.len() - i,
    {
        if str_eq(m[i].0.as_str(), k) {
            assert(key_at(mv, k@, i as int));
            return Some(i);
        }
        i += 1;
    }
    proof {
        if has_key(mv, k@) {
            let j = key_index(mv, k@);
            assert(mv[j].0 != k@);
        }
    }
    None
}

fn holds(a: &Vec<Json>, v: &Json) -> (r: bool)
    ensures
        r == elems(a@).contains(v@),
{
    let mut i: usize = 0;
    while i < a.len()
        invariant
            i <= a@.len(),
            forall|j: int| 0 <= j < i ==> elems(a@)[j] != v@,
        decreases a.len() - i,
    {
        if json_eq(&a[i], v) {
            assert(elems(a@)[i as int] == v@);
            return true;
        }
        i += 1;
    }
    proof {
        if elems(a@).contains(v@) {
            let j = choose|j: int| 0 <= j < elems(a@).len() && elems(a@)[j] == v@;
            assert(elems(a@)[j] != v@);
        }
    }
    false
}

/// The value at a dotted path, each part a member of an object.
pub fn json_get<'a>(root: &'a Json, parts: &[String]) -> (r: Option<&'a Json>)
    ensures
        match r {
            Some(c) => json_get_spec(root@, parts_view(parts@)) == Some(c@),
            None => json_get_spec(root@, parts_view(parts@)) is None,
        },
{
    let ghost pv = parts_view(parts@);
    let mut cur: &Json = root;
    let mut i: usize = 0;
    assert(pv.skip(0) =~= pv);
    while i < parts.len()
        invariant
            i <= parts@.len(),
            pv == parts_view(parts@),
            json_get_spec(root@, pv) == json_get_spec(cur@, pv.skip(i as int)),
        decreases parts.len() - i,
    {
        let ghost rest = pv.skip(i as int);
        assert(rest[0] == parts@[i as int]@);
        assert(rest.drop_first() =~= pv.skip(i as int + 1));
        match cur {
            Json::Object(m) => {
                proof {
                    lemma_object_view(*m);
                }
                match member_index(m, parts[i].as_str()) {
                    Some(j) => {
                        proof {
                            lemma_key_index(members(m@), rest[0], j as int);
                        }
                        cur = &m[j].1;
                    },
                    None => {
                        return None;
                    },
                }
            },
            _ => {
                return None;
            },
        }
        i += 1;
    }
    assert(pv.skip(i as int) =~= Seq::<Seq<char>>::empty());
    Some(cur)
}

/// Whether the wanted value is in place at the path (for `append`, held by
/// the array there).
pub fn json_satisfied(root: &Json, parts: &[String], value: &Json, append: bool) -> (r: bool)
    ensures
        r == json_satisfied_spec(root@, parts_view(parts@), value@, append),
{
    match json_get(root, parts) {
        None => false,
        Some(cur) => {
            if append {
                match cur {
                    Json::Array(a) => {
                        proof {
                            lemma_array_view(*a);
                        }
                        holds(a, value)
                    },
                    _ => false,
                }
            } else {
                json_eq(cur, value)
            }
        },
    }
}

fn set_from(root: Json, parts: &[String], from: usize, value: Json, append: bool) -> (r: Result<Json, SetKeyError>)
    requires
        from < parts@.len(),
    ensures
        match r {
            Ok(j) => json_set_spec(root@, parts_view(parts@).skip(from as int), value@, append) == Ok::<JsonV, SetKeyErrorV>(j@),
            Err(e) => json_set_spec(root@, parts_view(parts@).skip(from as int), value@, append) == Err::<JsonV, SetKeyErrorV>(e@),
        },
    decreases parts@.len() - from,
{
    let ghost rv = root@;
    let ghost vv = value@;
    let ghost ps = parts_view(parts@).skip(from as int);
    let ghost k = parts@[from as int]@;
    assert(ps[0] == k);
    let key: &str = parts[from].as_str();
    match root {
        Json::Object(mut m) => {
            proof {
                lemma_object_view(m);
            }
            let ghost mv = members(m@);
            let idx = member_index(&m, key);
            proof {
                if let Some(i) = idx {
                    lemma_key_index(mv, k, i as int);
                }
            }
            if from + 1 == parts.len() {
                assert(ps.len() == 1);
                if append {
                    match idx {
                        None => {
                            let mut one: Vec<Json> = Vec::new();
                            one.push(value);
                            proof {
                                lemma_array_view(one);
                                assert(elems(one@) =~= seq![vv]);
                            }
                            m.push((own(key), Json::Array(one)));
                            proof {
                                lemma_object_view(m);
                                assert(members(m@) =~= obj_put(mv, k, JsonV::Array(seq![vv])));
                            }
                            Ok(Json::Object(m))
                        },
                        Some(i) => {
                            let (name, cur) = m.remove(i);
                            match cur {
                                Json::Array(mut a) => {
                                    proof {
                                        lemma_array_view(a);
                                    }
                                    let ghost av = elems(a@);
                                    if !holds(&a, &value) {
                                        a.push(value);
                                        proof {
                                            assert(elems(a@) =~= av.push(vv));
                                        }
                                    }
                                    let ghost nv = elems(a@);
                                    proof {
                                        lemma_array_view(a);
                                    }
                                    m.insert(i, (name, Json::Array(a)));
                                    proof {
                                        lemma_object_view(m);
                                        assert(members(m@) =~= obj_put(mv, k, JsonV::Array(nv)));
                                    }
                                    Ok(Json::Object(m))
                                },
                                _ => Err(SetKeyError::NotArray(own(key))),
                            }
                        },
                    }
                } else {
                    match idx {
                        None => {
                            m.push((own(key), value));
                        },
                        Some(i) => {
                            let (name, _old) = m.remove(i);
                            m.insert(i, (name, value));
                        },
                    }
                    proof {
                        lemma_object_view(m);
                        assert(members(m@) =~= obj_put(mv, k, vv));
                    }
                    Ok(Json::Object(m))
                }
            } else {
                assert(ps.drop_first() =~= parts_view(parts@).skip(from as int + 1));
                let (name, child) = match idx {
                    Some(i) => m.remove(i),
                    None => {
                        let empty: Vec<(String, Json)> = Vec::new();
                        proof {
                            lemma_object_view(empty);
                            assert(members(empty@) =~= Seq::<(Seq<char>, JsonV)>::empty());
                        }
                        (own(key), Json::Object(empty))
                    },
                };
                let is_obj = match &child {
                    Json::Object(_) => true,
                    _ => false,
                };
                if !is_obj {
                    return Err(SetKeyError::IntermediateNotObject(own(key)));
                }
                match set_from(child, parts, from + 1, value, append) {
                    Ok(c2) => {
                        let ghost cv = c2@;
                        match idx {
                            Some(i) => {
                                m.insert(i, (name, c2));
                            },
                            None => {
                                m.push((name, c2));
                            },
                        }
                        proof {
                            lemma_object_view(m);
                            assert(members(m@) =~= obj_put(mv, k, cv));
                        }
                        Ok(Json::Object(m))
                    },
                    Err(e) => Err(e),
                }
            }
        },
        _ => Err(SetKeyError::NotObject(own(key))),
    }
}

/// Sets (or, with `append`, adds to the array at) a dotted path in a JSON
/// value, creating the objects a deep path needs.
pub fn json_set(root: Json, parts: &[String], value: Json, append: bool) -> (r: Result<Json, SetKeyError>)
    requires
        parts@.len() > 0,
    ensures
        match r {
            Ok(j) => json_set_spec(root@, parts_view(parts@), value@, append) == Ok::<JsonV, SetKeyErrorV>(j@),
            Err(e) => json_set_spec(root@, parts_view(parts@), value@, append) == Err::<JsonV, SetKeyErrorV>(e@),
        },
{
    assert(parts_view(parts@).skip(0) =~= parts_view(parts@));
    set_from(root, parts, 0, value, append)
}

/// Once a path is set, the wanted value is in place there: a set value
/// reads back equal to what was written, an appended one is held by the
/// array at the path; a second run then finds nothing to do.
pub proof fn law_set_value_is_satisfied(root: JsonV, parts: Seq<Seq<char>>, value: JsonV, append: bool)
    requires
        parts.len() > 0,
        json_set_spec(root, parts, value, append) is Ok,
    ensures
        json_satisfied_spec(json_set_spec(root, parts, value, append)->Ok_0, parts, value, append),
    decreases parts.len(),
{
    let k = parts[0];
    let m = root->Object_0;
    let n = json_set_spec(root, parts, value, append)->Ok_0;
    assert(parts.drop_first().len() == parts.len() - 1);
    if parts.len() == 1 {
        let c = obj_get(n->Object_0, k)->Some_0;
        if append {
            match obj_get(m, k) {
                None => {
                    lemma_put_get(m, k, JsonV::Array(seq![value]));
                    assert(seq![value][0] == value);
                },
                Some(JsonV::Array(a)) => {
                    let a2 = if a.contains(value) {
                        a
                    } else {
                        a.push(value)
                    };
                    lemma_put_get(m, k, JsonV::Array(a2));
                    if !a.contains(value) {
                        assert(a2[a.len() as int] == value);
                    }
                },
                _ => {},
            }
        } else {
            lemma_put_get(m, k, value);
        }
        assert(json_get_spec(c, parts.drop_first()) == Some(c));
        assert(json_get_spec(n, parts) == Some(c));
    } else {
        let child = match obj_get(m, k) {
            Some(c) => c,
            None => JsonV::Object(Seq::empty()),
        };
        let c2 = json_set_spec(child, parts.drop_first(), value, append)->Ok_0;
        law_set_value_is_satisfied(child, parts.drop_first(), value, append);
        lemma_put_get(m, k, c2);
        assert(json_get_spec(n, parts) == json_get_spec(c2, parts.drop_first()));
    }
}

// ---------------------------------------------------------------------------
// Reading and writing the target file's text.

/// What `serde_json::from_str` makes of a text: its complaint, or the value.
pub uninterp spec fn json_value_of(text: Seq<char>) -> Result<JsonV, Seq<char>>;

/// A value as `serde_json::to_string_pretty` writes it (an object's members
/// in key order).
pub uninterp spec fn json_pretty_text(v: JsonV) -> Seq<char>;

pub open spec fn read_view(r: Result<Json, String>) -> Result<JsonV, Seq<char>> {
    match r {
        Ok(j) => Ok(j@),
        Err(e) => Err(e@),
    }
}

#[verifier::external_type_specification]
#[verifier::external_body]
pub struct ExSerdeJson(serde_json::Value);

/// Converts a `serde_json::Value` to a [`Json`], a number as its text.
#[verifier::external_body]
pub(crate) fn from_serde(v: &serde_json::Value) -> Json {
    match v {
        serde_json::Value::Null => Json::Null,
        serde_json::Value::Bool(b) => Json::Bool(*b),
        serde_json::Value::Number(n) => Json::Number(n.to_string()),
        serde_json::Value::String(s) => Json::Str(s.clone()),
        serde_json::Value::Array(a) => Json::Array(a.iter().map(from_serde).collect()),
        serde_json::Value::Object(m) => Json::Object(m.iter().map(|(k, x)| (k.clone(), from_serde(x))).collect()),
    }
}

/// Converts a [`Json`] back to a `serde_json::Value`; a number's text is
/// read back with `serde_json::from_str`.
#[verifier::external_body]
fn to_serde(j: &Json) -> serde_json::Value {
    match j {
        Json::Null => serde_json::Value::Null,
        Json::Bool(b) => serde_json::Value::Bool(*b),
        Json::Number(n) => serde_json::from_str(n).unwrap_or(serde_json::Value::Null),
        Json::Str(s) => serde_json::Value::String(s.clone()),
        Json::Array(a) => serde_json::Value::Array(a.iter().map(to_serde).collect()),
        Json::Object(m) => serde_json::Value::Object(m.iter().map(|(k, x)| (k.clone(), to_serde(x))).collect()),
    }
}

/// Calls `serde_json::from_str::<serde_json::Value>` and converts the value.
#[verifier::external_body]
fn parse_json(text: &str) -> (r: Result<Json, String>)
    ensures
        read_view(r) == json_value_of(text@),
{
    match serde_json::from_str::<serde_json::Value>(text) {
        Ok(v) => Ok(from_serde(&v)),
        Err(e) => Err(e.to_string()),
    }
}

/// Converts the value and calls `serde_json::to_string_pretty`.
#[verifier::external_body]
fn pretty(j: &Json) -> (r: String)
    ensures
        r@ == json_pretty_text(j@),
{
    serde_json::to_string_pretty(&to_serde(j)).unwrap_or_default()
}

/// The root a target's text holds: blank text is an empty object.
pub open spec fn read_root_spec(text: Seq<char>) -> Result<JsonV, Seq<char>> {
    if trim(text).len() == 0 {
        Ok(JsonV::Object(Seq::empty()))
    } else {
        json_value_of(text)
    }
}

/// Reads a `setkey(json)` target's text: blank text is an empty object,
/// anything else must be JSON (the parser's complaint otherwise).
pub fn read_root(text: &str) -> (r: Result<Json, String>)
    ensures
        read_view(r) == read_root_spec(text@),
{
    if trimmed(chars_of(text).as_slice()).len() == 0 {
        let empty: Vec<(String, Json)> = Vec::new();
        proof {
            lemma_empty_object(empty);
        }
        Ok(Json::Object(empty))
    } else {
        parse_json(text)
    }
}

/// Why a `setkey(json)` write was refused.
#[derive(Debug, Clone, PartialEq, Eq)]
pub enum JsonApplyError {
    /// The target is not JSON: the parser's complaint.
    Parse(String),
    /// The target's root is an array or a scalar, which a write would clobber.
    RootNotObject,
    /// The path could not be set.
    Edit(SetKeyError),
}

pub enum JsonApplyErrorV {
    Parse(Seq<char>),
    RootNotObject,
    Edit(SetKeyErrorV),
}

impl View for JsonApplyError {
    type V = JsonApplyErrorV;

    open spec fn view(&self) -> JsonApplyErrorV {
        match self {
            JsonApplyError::Parse(e) => JsonApplyErrorV::Parse(e@),
            JsonApplyError::RootNotObject => JsonApplyErrorV::RootNotObject,
            JsonApplyError::Edit(e) => JsonApplyErrorV::Edit(e@),
        }
    }
}

/// A `setkey(json)` write on the target's text: nothing to write where the
/// wanted value is already in place; otherwise the new text, pretty-printed
/// with a final newline. Refused where the text is not JSON, its root is not
/// an object, or the path cannot be set.
pub open spec fn json_apply_spec(text: Seq<char>, parts: Seq<Seq<char>>, value: JsonV, append: bool) -> Result<Option<Seq<char>>, JsonApplyErrorV> {
    match read_root_spec(text) {
        Err(e) => Err(JsonApplyErrorV::Parse(e)),
        Ok(root) => if !(root is Object) {
            Err(JsonApplyErrorV::RootNotObject)
        } else if json_satisfied_spec(root, parts, value, append) {
            Ok(None)
        } else {
            match json_set_spec(root, parts, value, append) {
                Ok(n) => Ok(Some(json_pretty_text(n) + "\n"@)),
                Err(e) => Err(JsonApplyErrorV::Edit(e)),
            }
        },
    }
}

/// The write a `setkey(json)` step makes on its target's text, if any.
pub fn json_apply(text: &str, parts: &[String], value: Json, append: bool) -> (r: Result<Option<String>, JsonApplyError>)
    requires
        parts@.len() > 0,
    ensures
        match r {
            Ok(Some(t)) => json_apply_spec(text@, parts_view(parts@), value@, append) == Ok::<Option<Seq<char>>, JsonApplyErrorV>(Some(t@)),
            Ok(None) => json_apply_spec(text@, parts_view(parts@), value@, append) == Ok::<Option<Seq<char>>, JsonApplyErrorV>(None),
            Err(e) => json_apply_spec(text@, parts_view(parts@), value@, append) == Err::<Option<Seq<char>>, JsonApplyErrorV>(e@),
        },
{
    let root = match read_root(text) {
        Ok(j) => j,
        Err(e) => return Err(JsonApplyError::Parse(e)),
    };
    let is_obj = match &root {
        Json::Object(_) => true,
        _ => false,
    };
    if !is_obj {
        return Err(JsonApplyError::RootNotObject);
    }
    if json_satisfied(&root, parts, &value, append) {
        return Ok(None);
    }
    match json_set(root, parts, value, append) {
        Ok(n) => {
            let mut t = pretty(&n);
            push_str(&mut t, "\n");
            Ok(Some(t))
        },
        Err(e) => Err(JsonApplyError::Edit(e)),
    }
}

} // verus!
