//! Comment- and format-preserving `set` on JSONC text: the path is looked up
//! in the parser's syntax tree and the change is a minimal splice of the
//! original text, so untouched comments, siblings and layout survive.
//!
//! `jsonc-parser` builds the tree; the wrapper below hands it over as a
//! [`Node`] of character positions. Where the value goes, and how the text
//! around it is cut and joined, is decided here.
use vstd::prelude::*;
use jsonc_parser::common::Ranged;
use crate::text::{chars_of, find_char, first_index, has_char, is_first, push_str, slice, string_of, trim, trimmed};

verus! {

/// A JSONC syntax tree, positions counted in characters of the text: an
/// object (its range and properties), an array (its range and its elements'
/// ranges), or any other value (its range).
#[derive(Debug)]
pub enum Node {
    Object(usize, usize, Vec<Prop>),
    Array(usize, usize, Vec<(usize, usize)>),
    Other(usize, usize),
}

/// An object's property: its name, its range and its value.
#[derive(Debug)]
pub struct Prop {
    pub name: String,
    pub start: usize,
    pub end: usize,
    pub value: Node,
}

/// A property's name, range and value.
pub type PropV = (Seq<char>, int, int, NodeV);

pub enum NodeV {
    Object(int, int, Seq<PropV>),
    Array(int, int, Seq<(int, int)>),
    Other(int, int),
}

impl View for Node {
    type V = NodeV;

    open spec fn view(&self) -> NodeV
        decreases self,
    {
        match self {
            Node::Object(s, e, ps) => NodeV::Object(*s as int, *e as int, Seq::new(ps@.len(), |i: int| (
                ps@[i].name@,
                ps@[i].start as int,
                ps@[i].end as int,
                if 0 <= i < ps@.len() { ps@[i].value.view() } else { NodeV::Other(0, 0) },
            ))),
            Node::Array(s, e, els) => NodeV::Array(*s as int, *e as int, Seq::new(els@.len(), |i: int| (els@[i].0 as int, els@[i].1 as int))),
            Node::Other(s, e) => NodeV::Other(*s as int, *e as int),
        }
    }
}

pub open spec fn node_start(n: NodeV) -> int {
    match n {
        NodeV::Object(s, _, _) => s,
        NodeV::Array(s, _, _) => s,
        NodeV::Other(s, _) => s,
    }
}

pub open spec fn node_end(n: NodeV) -> int {
    match n {
        NodeV::Object(_, e, _) => e,
        NodeV::Array(_, e, _) => e,
        NodeV::Other(_, e) => e,
    }
}

/// How the parser's tree sits in its text: each range inside the text, an
/// object's or array's range closed by `}` or `]` at its last position, each
/// property or element after its container's opening bracket and ending no
/// later than the closing one, a property's value inside the property.
pub open spec fn fits(n: NodeV, text: Seq<char>) -> bool
    decreases n, fits_rank(n),
{
    match n {
        NodeV::Object(s, e, ps) => 0 <= s < e - 1 && e <= text.len() && text[e - 1] == '}' && props_fit(n, text, 0),
        NodeV::Array(s, e, els) => 0 <= s < e - 1 && e <= text.len() && text[e - 1] == ']' && (forall|i: int|
            0 <= i < els.len() ==> s < #[trigger] els[i].0 <= els[i].1 <= e - 1),
        NodeV::Other(s, e) => 0 <= s <= e <= text.len(),
    }
}

pub open spec fn fits_rank(n: NodeV) -> int {
    match n {
        NodeV::Object(_, _, ps) => ps.len() + 1int,
        _ => 0,
    }
}

/// The properties of the object `n` from the `i`-th on fit it.
pub open spec fn props_fit(n: NodeV, text: Seq<char>, i: int) -> bool
    decreases n, fits_rank(n) - 1 - i,
{
    match n {
        NodeV::Object(s, e, ps) => if 0 <= i < ps.len() {
            let p = ps[i];
            &&& s < p.1 <= node_start(p.3)
            &&& node_end(p.3) <= p.2 <= e - 1
            &&& fits(p.3, text)
            &&& props_fit(n, text, i + 1)
        } else {
            true
        },
        _ => true,
    }
}

/// What `jsonc_parser::parse_to_ast` makes of a text: its complaint, no
/// value, or the value's tree.
pub uninterp spec fn jsonc_ast_of(text: Seq<char>) -> Result<Option<NodeV>, Seq<char>>;

/// A string as `serde_json::to_string` writes it: quoted and escaped.
pub uninterp spec fn json_string_text(s: Seq<char>) -> Seq<char>;

pub open spec fn ast_view(r: Result<Option<Node>, String>) -> Result<Option<NodeV>, Seq<char>> {
    match r {
        Ok(Some(n)) => Ok(Some(n@)),
        Ok(None) => Ok(None),
        Err(e) => Err(e@),
    }
}

#[verifier::external_type_specification]
#[verifier::external_body]
pub struct ExJsoncValue<'a>(jsonc_parser::ast::Value<'a>);

#[verifier::external_type_specification]
#[verifier::external_body]
pub struct ExJsoncProp<'a>(jsonc_parser::ast::ObjectProp<'a>);

#[verifier::external_type_specification]
#[verifier::external_body]
pub struct ExJsoncRange(jsonc_parser::common::Range);

/// A `jsonc_parser::common::Range` of byte offsets, each turned into the
/// number of characters before it.
#[verifier::external_body]
fn span(text: &str, r: &jsonc_parser::common::Range) -> (usize, usize) {
    (text[..r.start].chars().count(), text[..r.end].chars().count())
}

/// Converts one `jsonc_parser::ast::ObjectProp` to a [`Prop`].
#[verifier::external_body]
fn prop_of(p: &jsonc_parser::ast::ObjectProp, text: &str) -> Prop {
    let (start, end) = span(text, &p.range);
    Prop { name: p.name.as_str().to_string(), start, end, value: node_of(&p.value, text) }
}

/// Converts one `jsonc_parser::ast::Value` to a [`Node`].
#[verifier::external_body]
fn node_of(v: &jsonc_parser::ast::Value, text: &str) -> Node {
    let (s, e) = span(text, &v.range());
    match v {
        jsonc_parser::ast::Value::Object(o) => Node::Object(s, e, o.properties.iter().map(|p| prop_of(p, text)).collect()),
        jsonc_parser::ast::Value::Array(a) => Node::Array(s, e, a.elements.iter().map(|x| span(text, &x.range())).collect()),
        _ => Node::Other(s, e),
    }
}

/// Calls `jsonc_parser::parse_to_ast` with default options and converts the
/// value's tree. Claims that the result is the one named, and that the
/// tree's ranges sit in the text as the parser's token positions do.
#[verifier::external_body]
fn jsonc_ast(text: &str) -> (r: Result<Option<Node>, String>)
    ensures
        ast_view(r) == jsonc_ast_of(text@),
        r matches Ok(Some(n)) ==> fits(n@, text@),
{
    let opts = jsonc_parser::ParseOptions::default();
    match jsonc_parser::parse_to_ast(text, &jsonc_parser::CollectOptions::default(), &opts) {
        Err(e) => Err(e.to_string()),
        Ok(p) => match p.value {
            Some(v) => Ok(Some(node_of(&v, text))),
            None => Ok(None),
        },
    }
}

/// Calls `serde_json::to_string` on a string.
#[verifier::external_body]
fn quoted(s: &str) -> (r: String)
    ensures
        r@ == json_string_text(s@),
{
    serde_json::to_string(s).unwrap_or_else(|_| String::from("null"))
}

// ---------------------------------------------------------------------------
// The edit, stated on the text and its tree.

/// The first property of that name (`Object::get`).
pub open spec fn prop_get(ps: Seq<PropV>, k: Seq<char>) -> Option<PropV>
    decreases ps.len(),
{
    if ps.len() == 0 {
        None
    } else if ps[0].0 == k {
        Some(ps[0])
    } else {
        prop_get(ps.drop_first(), k)
    }
}

pub open spec fn not_object_msg(k: Seq<char>) -> Seq<char> {
    "setkey json: intermediate key `"@ + k + "` is not an object"@
}

/// How far the path's existing objects reach: the deepest object reached
/// through parts before the last, and how many parts that took; a part that
/// names something other than an object is refused.
pub open spec fn descend(obj: NodeV, path: Seq<Seq<char>>, depth: int) -> Result<(NodeV, int), Seq<char>>
    decreases path.len() - depth,
{
    if 0 <= depth && depth + 1 < path.len() {
        match obj {
            NodeV::Object(_, _, ps) => match prop_get(ps, path[depth]) {
                Some(p) => match p.3 {
                    NodeV::Object(_, _, _) => descend(p.3, path, depth + 1),
                    _ => Err(not_object_msg(path[depth])),
                },
                None => Ok((obj, depth)),
            },
            _ => Ok((obj, depth)),
        }
    } else {
        Ok((obj, depth))
    }
}

/// `ins` put in at `at`.
pub open spec fn splice(src: Seq<char>, at: int, ins: Seq<char>) -> Seq<char> {
    src.take(at) + ins + src.skip(at)
}

/// `src[a..b]` replaced by `ins`.
pub open spec fn replace_span(src: Seq<char>, a: int, b: int, ins: Seq<char>) -> Seq<char> {
    src.take(a) + ins + src.skip(b)
}

/// Position of the last `c`, or `-1` (`rfind`).
pub open spec fn last_index(s: Seq<char>, c: char) -> int
    decreases s.len(),
{
    if s.len() == 0 {
        -1
    } else if s.last() == c {
        s.len() - 1
    } else {
        last_index(s.drop_last(), c)
    }
}

/// The leading spaces and tabs.
pub open spec fn lead_blank(s: Seq<char>) -> Seq<char>
    decreases s.len(),
{
    if s.len() > 0 && (s[0] == ' ' || s[0] == '\t') {
        seq![s[0]] + lead_blank(s.drop_first())
    } else {
        Seq::empty()
    }
}

/// The indentation of the line `pos` sits on.
pub open spec fn line_indent(src: Seq<char>, pos: int) -> Seq<char> {
    lead_blank(src.subrange(last_index(src.take(pos), '\n') + 1, pos))
}

/// `item` added after the last element (`[ls, le)`) of a sequence closed at
/// `close`: after a trailing comma where there is one, else after the
/// element with a comma; on its own indented line where the sequence spans
/// lines.
pub open spec fn append_after(src: Seq<char>, ls: int, le: int, close: int, multiline: bool, item: Seq<char>) -> Seq<char> {
    let indent = line_indent(src, ls);
    let tail = src.subrange(le, close);
    if has_char(tail, ',') {
        splice(src, le + first_index(tail, ',') + 1, (if multiline { "\n"@ + indent } else { " "@ }) + item)
    } else {
        splice(src, le, (if multiline { ",\n"@ + indent } else { ", "@ }) + item)
    }
}

/// A property added to the object `obj`.
pub open spec fn insert_property(src: Seq<char>, obj: NodeV, item: Seq<char>) -> Result<Seq<char>, Seq<char>> {
    match obj {
        NodeV::Object(s, e, ps) => {
            let close = last_index(src.take(e), '}');
            if close < 0 {
                Err("could not locate the end of the JSON object"@)
            } else {
                let ml = has_char(src.subrange(s, close), '\n');
                if ps.len() > 0 {
                    Ok(append_after(src, ps.last().1, ps.last().2, close, ml, item))
                } else if ml {
                    Ok(splice(src, s + 1, "\n  "@ + item + "\n"@))
                } else {
                    Ok(splice(src, s + 1, " "@ + item + " "@))
                }
            }
        },
        _ => Ok(src),
    }
}

/// An element added to the array `arr`.
pub open spec fn insert_element(src: Seq<char>, arr: NodeV, item: Seq<char>) -> Result<Seq<char>, Seq<char>> {
    match arr {
        NodeV::Array(s, e, els) => {
            let close = last_index(src.take(e), ']');
            if close < 0 {
                Err("could not locate the end of the JSON array"@)
            } else {
                let ml = has_char(src.subrange(s, close), '\n');
                if els.len() > 0 {
                    Ok(append_after(src, els.last().0, els.last().1, close, ml, item))
                } else {
                    Ok(splice(src, s + 1, item))
                }
            }
        },
        _ => Ok(src),
    }
}

/// `"key": value`, or `"key": [value]` when appending to a new array.
pub open spec fn leaf_item(key: Seq<char>, value: Seq<char>, append: bool) -> Seq<char> {
    json_string_text(key) + ": "@ + (if append { "["@ + value + "]"@ } else { value })
}

/// The nested objects a path needs when its parents are absent.
pub open spec fn nested_item(path: Seq<Seq<char>>, value: Seq<char>, append: bool) -> Seq<char>
    decreases path.len(),
{
    if path.len() <= 1 {
        leaf_item(path[0], value, append)
    } else {
        json_string_text(path[0]) + ": { "@ + nested_item(path.drop_first(), value, append) + " }"@
    }
}

/// The edit on the deepest existing object: the last part present is
/// replaced (or, when appending, added to its array); absent, the property
/// (or the chain of objects it needs) is added.
pub open spec fn edit_at(src: Seq<char>, obj: NodeV, path: Seq<Seq<char>>, depth: int, value: Seq<char>, append: bool) -> Result<Seq<char>, Seq<char>> {
    if path.len() - depth == 1 {
        let key = path[depth];
        match prop_get(obj->Object_2, key) {
            Some(p) => if append {
                match p.3 {
                    NodeV::Array(_, _, _) => insert_element(src, p.3, value),
                    _ => Err("setkey append: `"@ + key + "` is not an array"@),
                }
            } else {
                Ok(replace_span(src, node_start(p.3), node_end(p.3), value))
            },
            None => insert_property(src, obj, leaf_item(key, value, append)),
        }
    } else {
        insert_property(src, obj, nested_item(path.skip(depth), value, append))
    }
}

/// Setting `path` to the JSON text `value` in JSONC text: refused for an
/// empty path, text that is not JSONC or holds no value, a top level that
/// is not an object, or a path through something other than objects;
/// otherwise the splice. Blank text is taken as `{}` and a newline.
pub open spec fn jsonc_set_spec(text: Seq<char>, path: Seq<Seq<char>>, value: Seq<char>, append: bool) -> Result<Seq<char>, Seq<char>> {
    if path.len() == 0 {
        Err("setkey json: empty key"@)
    } else {
        let src = if trim(text).len() == 0 { "{}\n"@ } else { text };
        match jsonc_ast_of(src) {
            Err(e) => Err("target is not valid JSONC: "@ + e),
            Ok(None) => Err("target contained no JSON value"@),
            Ok(Some(root)) => match root {
                NodeV::Object(_, _, _) => match descend(root, path, 0) {
                    Err(m) => Err(m),
                    Ok((obj, depth)) => edit_at(src, obj, path, depth, value, append),
                },
                _ => Err("setkey json: the top level is not an object"@),
            },
        }
    }
}

// ---------------------------------------------------------------------------
// The edit, carried out.

pub open spec fn props_view(ps: Seq<Prop>) -> Seq<PropV> {
    Seq::new(ps.len(), |i: int| (ps[i].name@, ps[i].start as int, ps[i].end as int, ps[i].value@))
}

pub open spec fn els_view(els: Seq<(usize, usize)>) -> Seq<(int, int)> {
    Seq::new(els.len(), |i: int| (els[i].0 as int, els[i].1 as int))
}

proof fn lemma_node_view(n: &Node)
    ensures
        match *n {
            Node::Object(s, e, ps) => n@ == NodeV::Object(s as int, e as int, props_view(ps@)),
            Node::Array(s, e, els) => n@ == NodeV::Array(s as int, e as int, els_view(els@)),
            Node::Other(s, e) => n@ == NodeV::Other(s as int, e as int),
        },
{
    match *n {
        Node::Object(s, e, ps) => {
            assert(n@->Object_2 =~= props_view(ps@));
        },
        Node::Array(s, e, els) => {
            assert(n@->Array_2 =~= els_view(els@));
        },
        Node::Other(s, e) => {},
    }
}

proof fn lemma_prop_fits(n: NodeV, t: Seq<char>, j: int, i: int)
    requires
        n is Object,
        props_fit(n, t, j),
        0 <= j <= i < n->Object_2.len(),
    ensures
        ({
            let p = n->Object_2[i];
            &&& n->Object_0 < p.1 <= node_start(p.3)
            &&& node_end(p.3) <= p.2 <= n->Object_1 - 1
            &&& fits(p.3, t)
        }),
    decreases i - j,
{
    if j < i {
        lemma_prop_fits(n, t, j + 1, i);
    }
}

fn prop_find(ps: &Vec<Prop>, k: &str) -> (r: Option<usize>)
    ensures
        match r {
            Some(i) => i < ps@.len() && prop_get(props_view(ps@), k@) == Some(props_view(ps@)[i as int]),
            None => prop_get(props_view(ps@), k@) is None,
        },
{
    let ghost pv = props_view(ps@);
    let mut i: usize = 0;
    assert(pv.skip(0) =~= pv);
    while i < ps.len()
        invariant
            i <= ps@.len(),
            pv == props_view(ps@),
            prop_get(pv, k@) == prop_get(pv.skip(i as int), k@),
        decreases ps.len() - i,
    {
        assert(pv.skip(i as int)[0] == pv[i as int]);
        assert(pv.skip(i as int).drop_first() =~= pv.skip(i as int + 1));
        if crate::plan::str_eq(ps[i].name.as_str(), k) {
            return Some(i);
        }
        i += 1;
    }
    assert(pv.skip(i as int).len() == 0);
    None
}

fn append_chars(dst: &mut Vec<char>, src: &[char])
    ensures
        final(dst)@ == old(dst)@ + src@,
{
    let ghost start = dst@;
    let mut i: usize = 0;
    while i < src.len()
        invariant
            i <= src@.len(),
            dst@ == start + src@.take(i as int),
        decreases src.len() - i,
    {
        dst.push(src[i]);
        i += 1;
        assert(dst@ =~= start + src@.take(i as int));
    }
    assert(src@.take(i as int) =~= src@);
}

fn spliced(src: &[char], at: usize, ins: &[char]) -> (r: Vec<char>)
    requires
        at <= src@.len(),
    ensures
        r@ == splice(src@, at as int, ins@),
{
    let mut r = slice(src, 0, at);
    append_chars(&mut r, ins);
    let rest = slice(src, at, src.len());
    append_chars(&mut r, rest.as_slice());
    assert(r@ =~= splice(src@, at as int, ins@));
    r
}

fn replaced(src: &[char], a: usize, b: usize, ins: &[char]) -> (r: Vec<char>)
    requires
        a <= b <= src@.len(),
    ensures
        r@ == replace_span(src@, a as int, b as int, ins@),
{
    let mut r = slice(src, 0, a);
    append_chars(&mut r, ins);
    let rest = slice(src, b, src.len());
    append_chars(&mut r, rest.as_slice());
    assert(r@ =~= replace_span(src@, a as int, b as int, ins@));
    r
}

fn last_at(v: &[char], upto: usize, c: char) -> (r: Option<usize>)
    requires
        upto <= v@.len(),
    ensures
        match r {
            Some(i) => i as int == last_index(v@.take(upto as int), c) && i < upto,
            None => last_index(v@.take(upto as int), c) == -1,
        },
{
    let mut j = upto;
    while j > 0
        invariant
            j <= upto <= v@.len(),
            last_index(v@.take(upto as int), c) == last_index(v@.take(j as int), c),
        decreases j,
    {
        assert(v@.take(j as int).drop_last() =~= v@.take(j as int - 1));
        assert(v@.take(j as int).last() == v@[j - 1]);
        if v[j - 1] == c {
            return Some(j - 1);
        }
        j -= 1;
    }
    None
}

fn holds_char(v: &[char], a: usize, b: usize, c: char) -> (r: bool)
    requires
        a <= b <= v@.len(),
    ensures
        r == has_char(v@.subrange(a as int, b as int), c),
{
    let part = slice(v, a, b);
    find_char(part.as_slice(), c).is_some()
}

fn indent_at(v: &[char], pos: usize) -> (r: Vec<char>)
    requires
        pos <= v@.len(),
    ensures
        r@ == line_indent(v@, pos as int),
{
    let ls: usize = match last_at(v, pos, '\n') {
        Some(i) => i + 1,
        None => 0,
    };
    let ghost sub = v@.subrange(ls as int, pos as int);
    let mut r: Vec<char> = Vec::new();
    let mut k = ls;
    assert(sub.skip(0) =~= sub);
    while k < pos && (v[k] == ' ' || v[k] == '\t')
        invariant
            ls <= k <= pos <= v@.len(),
            sub == v@.subrange(ls as int, pos as int),
            lead_blank(sub) == r@ + lead_blank(sub.skip(k - ls)),
        decreases pos - k,
    {
        let ghost rest = sub.skip(k - ls);
        assert(rest[0] == v@[k as int]);
        assert(rest.drop_first() =~= sub.skip(k - ls + 1));
        r.push(v[k]);
        k += 1;
        assert(lead_blank(rest) == seq![v@[k - 1]] + lead_blank(rest.drop_first()));
        assert(r@ + lead_blank(sub.skip(k - ls)) =~= (r@.drop_last() + seq![v@[k - 1]]) + lead_blank(sub.skip(k - ls)));
    }
    r
}

fn lit_chars(s: &str) -> (r: Vec<char>)
    ensures
        r@ == s@,
{
    chars_of(s)
}

fn appended_after(src: &[char], ls: usize, le: usize, close: usize, multiline: bool, item: &[char]) -> (r: Vec<char>)
    requires
        ls <= le <= close <= src@.len(),
    ensures
        r@ == append_after(src@, ls as int, le as int, close as int, multiline, item@),
{
    let indent = indent_at(src, ls);
    let tail = slice(src, le, close);
    match find_char(tail.as_slice(), ',') {
        Some(rel) => {
            let mut ins = if multiline {
                let mut x = lit_chars("\n");
                append_chars(&mut x, indent.as_slice());
                x
            } else {
                lit_chars(" ")
            };
            append_chars(&mut ins, item);
            spliced(src, le + rel + 1, ins.as_slice())
        },
        None => {
            let mut ins = if multiline {
                let mut x = lit_chars(",\n");
                append_chars(&mut x, indent.as_slice());
                x
            } else {
                lit_chars(", ")
            };
            append_chars(&mut ins, item);
            spliced(src, le, ins.as_slice())
        },
    }
}

fn object_end_message() -> (r: String)
    ensures
        r@ == "could not locate the end of the JSON object"@,
{
    let mut m = String::new();
    push_str(&mut m, "could not locate the end of the JSON object");
    m
}

fn property_inserted(src: &[char], obj: &Node, item: &[char]) -> (r: Result<Vec<char>, String>)
    requires
        obj@ is Object,
        fits(obj@, src@),
    ensures
        match r {
            Ok(o) => insert_property(src@, obj@, item@) == Ok::<Seq<char>, Seq<char>>(o@),
            Err(m) => insert_property(src@, obj@, item@) == Err::<Seq<char>, Seq<char>>(m@),
        },
{
    proof {
        lemma_node_view(obj);
    }
    match obj {
        Node::Object(s, e, ps) => {
            let close = match last_at(src, *e, '}') {
                Some(c) => c,
                None => return Err(object_end_message()),
            };
            assert(src@.take(*e as int).last() == '}');
            let ml = holds_char(src, *s, close, '\n');
            if ps.len() > 0 {
                let n = ps.len() - 1;
                proof {
                    lemma_prop_fits(obj@, src@, 0, n as int);
                    assert(props_view(ps@).last() == props_view(ps@)[n as int]);
                }
                Ok(appended_after(src, ps[n].start, ps[n].end, close, ml, item))
            } else if ml {
                let mut ins = lit_chars("\n  ");
                append_chars(&mut ins, item);
                let nl = lit_chars("\n");
                append_chars(&mut ins, nl.as_slice());
                Ok(spliced(src, *s + 1, ins.as_slice()))
            } else {
                let mut ins = lit_chars(" ");
                append_chars(&mut ins, item);
                let sp = lit_chars(" ");
                append_chars(&mut ins, sp.as_slice());
                Ok(spliced(src, *s + 1, ins.as_slice()))
            }
        },
        _ => Err(object_end_message()),
    }
}

fn element_inserted(src: &[char], arr: &Node, item: &[char]) -> (r: Result<Vec<char>, String>)
    requires
        arr@ is Array,
        fits(arr@, src@),
    ensures
        match r {
            Ok(o) => insert_element(src@, arr@, item@) == Ok::<Seq<char>, Seq<char>>(o@),
            Err(m) => insert_element(src@, arr@, item@) == Err::<Seq<char>, Seq<char>>(m@),
        },
{
    proof {
        lemma_node_view(arr);
    }
    match arr {
        Node::Array(s, e, els) => {
            let close = match last_at(src, *e, ']') {
                Some(c) => c,
                None => {
                    let mut m = String::new();
                    push_str(&mut m, "could not locate the end of the JSON array");
                    return Err(m);
                },
            };
            assert(src@.take(*e as int).last() == ']');
            let ml = holds_char(src, *s, close, '\n');
            if els.len() > 0 {
                let n = els.len() - 1;
                proof {
                    assert(els_view(els@)[n as int] == (els@[n as int].0 as int, els@[n as int].1 as int));
                    assert(els_view(els@).last() == els_view(els@)[n as int]);
                }
                Ok(appended_after(src, els[n].0, els[n].1, close, ml, item))
            } else {
                Ok(spliced(src, *s + 1, item))
            }
        },
        _ => Ok(copy(src)),
    }
}

fn copy(v: &[char]) -> (r: Vec<char>)
    ensures
        r@ == v@,
{
    let mut r: Vec<char> = Vec::new();
    append_chars(&mut r, v);
    r
}

pub open spec fn path_view(p: Seq<String>) -> Seq<Seq<char>> {
    p.map_values(|s: String| s@)
}

fn leaf_chars(key: &str, value: &[char], append: bool) -> (r: Vec<char>)
    ensures
        r@ == leaf_item(key@, value@, append),
{
    let q = quoted(key);
    let mut r = chars_of(q.as_str());
    let sep = lit_chars(": ");
    append_chars(&mut r, sep.as_slice());
    if append {
        let open = lit_chars("[");
        let close = lit_chars("]");
        append_chars(&mut r, open.as_slice());
        append_chars(&mut r, value);
        append_chars(&mut r, close.as_slice());
    } else {
        append_chars(&mut r, value);
    }
    r
}

fn nested_chars(path: &[String], from: usize, value: &[char], append: bool) -> (r: Vec<char>)
    requires
        from < path@.len(),
    ensures
        r@ == nested_item(path_view(path@).skip(from as int), value@, append),
    decreases path@.len() - from,
{
    let ghost pv = path_view(path@).skip(from as int);
    assert(pv[0] == path@[from as int]@);
    if from >= path.len() - 1 {
        leaf_chars(path[from].as_str(), value, append)
    } else {
        assert(pv.drop_first() =~= path_view(path@).skip(from as int + 1));
        let q = quoted(path[from].as_str());
        let mut r = chars_of(q.as_str());
        let open = lit_chars(": { ");
        append_chars(&mut r, open.as_slice());
        let inner = nested_chars(path, from + 1, value, append);
        append_chars(&mut r, inner.as_slice());
        let close = lit_chars(" }");
        append_chars(&mut r, close.as_slice());
        r
    }
}

fn message(a: &str, b: &str, c: &str) -> (r: String)
    ensures
        r@ == a@ + b@ + c@,
{
    let mut m = String::new();
    push_str(&mut m, a);
    push_str(&mut m, b);
    push_str(&mut m, c);
    m
}

fn message2(a: &str, b: &str) -> (r: String)
    ensures
        r@ == a@ + b@,
{
    let mut m = String::new();
    push_str(&mut m, a);
    push_str(&mut m, b);
    m
}

fn own(a: &str) -> (r: String)
    ensures
        r@ == a@,
{
    let mut m = String::new();
    push_str(&mut m, a);
    m
}

fn as_text(r: Result<Vec<char>, String>) -> (t: Result<String, String>)
    ensures
        match r {
            Ok(v) => t matches Ok(s) && s@ == v@,
            Err(m) => t matches Err(x) && x@ == m@,
        },
{
    match r {
        Ok(v) => Ok(string_of(v.as_slice())),
        Err(m) => Err(m),
    }
}

/// Sets `path` to the JSON text `value` in JSONC `text` (or, with `append`,
/// adds it to the array there), keeping every comment, sibling and bit of
/// layout the edit does not touch; blank text starts as `{}`. Gives the new
/// text.
pub fn jsonc_set(text: &str, path: &[String], value: &str, append: bool) -> (r: Result<String, String>)
    ensures
        match r {
            Ok(o) => jsonc_set_spec(text@, path_view(path@), value@, append) == Ok::<Seq<char>, Seq<char>>(o@),
            Err(m) => jsonc_set_spec(text@, path_view(path@), value@, append) == Err::<Seq<char>, Seq<char>>(m@),
        },
{
    let ghost pv = path_view(path@);
    if path.len() == 0 {
        return Err(own("setkey json: empty key"));
    }
    let blank = trimmed(chars_of(text).as_slice()).len() == 0;
    let src: String = if blank {
        own("{}\n")
    } else {
        own(text)
    };
    assert(src@ == (if trim(text@).len() == 0 { "{}\n"@ } else { text@ }));
    let sv = chars_of(src.as_str());
    let root = match jsonc_ast(src.as_str()) {
        Err(e) => return Err(message2("target is not valid JSONC: ", e.as_str())),
        Ok(None) => return Err(own("target contained no JSON value")),
        Ok(Some(n)) => n,
    };
    assert(jsonc_ast_of(src@) == Ok::<Option<NodeV>, Seq<char>>(Some(root@)));
    let is_obj = match &root {
        Node::Object(_, _, _) => true,
        _ => false,
    };
    if !is_obj {
        return Err(own("setkey json: the top level is not an object"));
    }
    let mut obj: &Node = &root;
    let mut depth: usize = 0;
    let mut done = false;
    while !done && depth + 1 < path.len()
        invariant
            obj@ is Object,
            fits(obj@, sv@),
            depth < path@.len(),
            pv == path_view(path@),
            jsonc_ast_of(src@) == Ok::<Option<NodeV>, Seq<char>>(Some(root@)),
            src@ == (if trim(text@).len() == 0 { "{}\n"@ } else { text@ }),
            sv@ == src@,
            root@ is Object,
            descend(root@, pv, 0) == (if done {
                Ok::<(NodeV, int), Seq<char>>((obj@, depth as int))
            } else {
                descend(obj@, pv, depth as int)
            }),
        decreases path.len() - depth + (if done { 0int } else { 1int }),
    {
        proof {
            lemma_node_view(obj);
        }
        assert(pv[depth as int] == path@[depth as int]@);
        match obj {
            Node::Object(_, _, ps) => {
                match prop_find(ps, path[depth].as_str()) {
                    Some(i) => {
                        let child = &ps[i].value;
                        proof {
                            lemma_prop_fits(obj@, sv@, 0, i as int);
                            lemma_node_view(child);
                        }
                        let is_obj = match child {
                            Node::Object(_, _, _) => true,
                            _ => false,
                        };
                        if !is_obj {
                            assert(props_view(ps@)[i as int].3 == child@);

                            return Err(message("setkey json: intermediate key `", path[depth].as_str(), "` is not an object"));
                        }
                        obj = child;
                        depth += 1;
                    },
                    None => {
                        done = true;
                    },
                }
            },
            _ => {
                done = true;
            },
        }
    }
    let vv = chars_of(value);
    proof {
        lemma_node_view(obj);
    }
    if depth + 1 == path.len() {
        assert(pv[depth as int] == path@[depth as int]@);
        let key = path[depth].as_str();
        match obj {
            Node::Object(_, _, ps) => match prop_find(ps, key) {
                Some(i) => {
                    let pval = &ps[i].value;
                    proof {
                        lemma_prop_fits(obj@, sv@, 0, i as int);
                        lemma_node_view(pval);
                    }
                    if append {
                        let is_arr = match pval {
                            Node::Array(_, _, _) => true,
                            _ => false,
                        };
                        if !is_arr {
                            return Err(message("setkey append: `", key, "` is not an array"));
                        }
                        as_text(element_inserted(sv.as_slice(), pval, vv.as_slice()))
                    } else {
                        let (a, b) = match pval {
                            Node::Object(s, e, _) => (*s, *e),
                            Node::Array(s, e, _) => (*s, *e),
                            Node::Other(s, e) => (*s, *e),
                        };
                        Ok(string_of(replaced(sv.as_slice(), a, b, vv.as_slice()).as_slice()))
                    }
                },
                None => {
                    let item = leaf_chars(key, vv.as_slice(), append);
                    as_text(property_inserted(sv.as_slice(), obj, item.as_slice()))
                },
            },
            _ => Err(own("setkey json: the top level is not an object")),
        }
    } else {
        let item = nested_chars(path, depth, vv.as_slice(), append);
        as_text(property_inserted(sv.as_slice(), obj, item.as_slice()))
    }
}

} // verus!
