//! `{{ func "arg" }}` templating of deployed files. `var` is answered from the
//! machine's vars here; `which`, `env` and the argless `brew_prefix` read the
//! host, so a scan stops at each of them and hands it to the caller, who looks
//! it up and scans on from what is left.
use vstd::prelude::*;
use crate::manifest::Vars;
use crate::text::{
    push_chars, chars_of, contains, find_sub, find_ws, first_sub, first_ws, has_ws, is_first_sub, push_str, same, slice,
    string_of, trim, trimmed,
};

verus! {

/// What only the host can answer.
#[derive(Debug)]
pub enum Lookup {
    /// `brew --prefix`.
    BrewPrefix,
    /// The path of a program on `PATH`.
    Which(String),
    /// An environment variable.
    Env(String),
}

pub enum LookupV {
    BrewPrefix,
    Which(Seq<char>),
    Env(Seq<char>),
}

impl View for Lookup {
    type V = LookupV;

    open spec fn view(&self) -> LookupV {
        match self {
            Lookup::BrewPrefix => LookupV::BrewPrefix,
            Lookup::Which(a) => LookupV::Which(a@),
            Lookup::Env(a) => LookupV::Env(a@),
        }
    }
}

/// Why a template does not render.
#[derive(Debug)]
pub enum TemplateError {
    /// A `{{` with no `}}` after it.
    Unterminated,
    /// An expression whose argument is not in double quotes.
    Unquoted(String),
    /// A function that does not exist.
    Unknown(String),
    /// A `var` the machine does not declare.
    Undeclared(String),
}

pub enum TemplateErrorV {
    Unterminated,
    Unquoted(Seq<char>),
    Unknown(Seq<char>),
    Undeclared(Seq<char>),
}

impl View for TemplateError {
    type V = TemplateErrorV;

    open spec fn view(&self) -> TemplateErrorV {
        match self {
            TemplateError::Unterminated => TemplateErrorV::Unterminated,
            TemplateError::Unquoted(e) => TemplateErrorV::Unquoted(e@),
            TemplateError::Unknown(f) => TemplateErrorV::Unknown(f@),
            TemplateError::Undeclared(n) => TemplateErrorV::Undeclared(n@),
        }
    }
}

impl TemplateError {
    pub open spec fn message_spec(self) -> Seq<char> {
        match self {
            TemplateError::Unterminated => "unterminated `{{` in template"@,
            TemplateError::Unquoted(e) => "template argument in `"@ + e@ + "` must be quoted"@,
            TemplateError::Unknown(f) => "unknown template function `"@ + f@ + "`"@,
            TemplateError::Undeclared(n) => "var: `"@ + n@ + "` is not declared in [vars]"@,
        }
    }

    /// The message shown for the failure.
    pub fn message(&self) -> (r: String)
        ensures
            r@ == self.message_spec(),
    {
        let mut r = String::new();
        match self {
            TemplateError::Unterminated => {
                push_str(&mut r, "unterminated `{{` in template");
            },
            TemplateError::Unquoted(e) => {
                push_str(&mut r, "template argument in `");
                push_str(&mut r, e.as_str());
                push_str(&mut r, "` must be quoted");
            },
            TemplateError::Unknown(f) => {
                push_str(&mut r, "unknown template function `");
                push_str(&mut r, f.as_str());
                push_str(&mut r, "`");
            },
            TemplateError::Undeclared(n) => {
                push_str(&mut r, "var: `");
                push_str(&mut r, n.as_str());
                push_str(&mut r, "` is not declared in [vars]");
            },
        }
        r
    }
}

/// What an expression asks for.
pub enum ExprV {
    Host(LookupV),
    Var(Seq<char>),
}

pub open spec fn opening() -> Seq<char> {
    seq!['{', '{']
}

pub open spec fn closing() -> Seq<char> {
    seq!['}', '}']
}

/// A quoted argument: at least the two quotes.
pub open spec fn quoted(t: Seq<char>) -> bool {
    t.len() >= 2 && t[0] == '"' && t[t.len() - 1] == '"'
}

/// An expression (already trimmed): a bare `brew_prefix`, or a function name,
/// whitespace and a quoted argument.
pub open spec fn expr_spec(expr: Seq<char>) -> Result<ExprV, TemplateErrorV> {
    if !has_ws(expr) {
        if expr == "brew_prefix"@ {
            Ok(ExprV::Host(LookupV::BrewPrefix))
        } else {
            Err(TemplateErrorV::Unknown(expr))
        }
    } else {
        let w = first_ws(expr);
        let func = expr.subrange(0, w);
        let tail = trim(expr.subrange(w + 1, expr.len() as int));
        if !quoted(tail) {
            Err(TemplateErrorV::Unquoted(expr))
        } else {
            let arg = tail.subrange(1, tail.len() - 1);
            if func == "which"@ {
                Ok(ExprV::Host(LookupV::Which(arg)))
            } else if func == "env"@ {
                Ok(ExprV::Host(LookupV::Env(arg)))
            } else if func == "var"@ {
                Ok(ExprV::Var(arg))
            } else {
                Err(TemplateErrorV::Unknown(func))
            }
        }
    }
}

/// Where a scan stops.
#[derive(Debug)]
pub enum Scan {
    /// The rest rendered to its end.
    Done(String),
    /// The template does not render.
    Failed(TemplateError),
    /// The text rendered up to a host lookup, the lookup, and the text after
    /// its expression.
    Call(String, Lookup, String),
}

pub enum ScanV {
    Done(Seq<char>),
    Failed(TemplateErrorV),
    Call(Seq<char>, LookupV, Seq<char>),
}

impl View for Scan {
    type V = ScanV;

    open spec fn view(&self) -> ScanV {
        match self {
            Scan::Done(s) => ScanV::Done(s@),
            Scan::Failed(e) => ScanV::Failed(e@),
            Scan::Call(l, c, r) => ScanV::Call(l@, c@, r@),
        }
    }
}

/// A scan's stop, with `p` rendered ahead of it.
pub open spec fn after_text(p: Seq<char>, s: ScanV) -> ScanV {
    match s {
        ScanV::Done(t) => ScanV::Done(p + t),
        ScanV::Failed(e) => ScanV::Failed(e),
        ScanV::Call(l, c, r) => ScanV::Call(p + l, c, r),
    }
}

/// Scanning a template from the left: text up to the first `{{` is copied,
/// the expression up to the next `}}` is read, a `var` is replaced by its
/// value and the scan goes on; a host lookup or a failure stops it.
pub open spec fn scan_spec(rest: Seq<char>, vars: Map<Seq<char>, Seq<char>>) -> ScanV
    decreases rest.len(),
{
    if !contains(rest, opening()) {
        ScanV::Done(rest)
    } else {
        let s = first_sub(rest, opening());
        let lit = rest.subrange(0, s);
        let after = rest.subrange(s + 2, rest.len() as int);
        if !contains(after, closing()) {
            ScanV::Failed(TemplateErrorV::Unterminated)
        } else {
            let e = first_sub(after, closing());
            let expr = trim(after.subrange(0, e));
            let next = after.subrange(e + 2, after.len() as int);
            match expr_spec(expr) {
                Err(err) => ScanV::Failed(err),
                Ok(ExprV::Host(c)) => ScanV::Call(lit, c, next),
                Ok(ExprV::Var(name)) => {
                    if vars.dom().contains(name) {
                        proof {
                            lemma_first_sub_found(rest, opening());
                            lemma_first_sub_found(after, closing());
                        }
                        after_text(lit + vars[name], scan_spec(next, vars))
                    } else {
                        ScanV::Failed(TemplateErrorV::Undeclared(name))
                    }
                },
            }
        }
    }
}

/// Where `p` occurs, its first occurrence is where `first_sub` says.
pub proof fn lemma_first_sub_found(s: Seq<char>, p: Seq<char>)
    requires
        contains(s, p),
    ensures
        is_first_sub(s, p, first_sub(s, p)),
{
    let j = choose|j: int| 0 <= j && j + p.len() <= s.len() && #[trigger] s.subrange(j, j + p.len()) == p;
    lemma_first_below(s, p, j);
}

proof fn lemma_first_below(s: Seq<char>, p: Seq<char>, j: int)
    requires
        0 <= j && j + p.len() <= s.len(),
        s.subrange(j, j + p.len()) == p,
    ensures
        exists|i: int| is_first_sub(s, p, i),
    decreases j,
{
    if exists|k: int| 0 <= k < j && #[trigger] s.subrange(k, k + p.len()) == p {
        let k = choose|k: int| 0 <= k < j && #[trigger] s.subrange(k, k + p.len()) == p;
        lemma_first_below(s, p, k);
    } else {
        assert(is_first_sub(s, p, j));
    }
}

fn is_lit(v: &[char], s: &str) -> (r: bool)
    ensures
        r == (v@ == s@),
{
    same(v, chars_of(s).as_slice())
}

/// Reads one trimmed expression.
fn expr(e: &[char]) -> (r: Result<(Option<Lookup>, Vec<char>), TemplateError>)
    ensures
        match (r, expr_spec(e@)) {
            (Ok((Some(c), _)), Ok(ExprV::Host(d))) => c@ == d,
            (Ok((None, n)), Ok(ExprV::Var(m))) => n@ == m,
            (Err(x), Err(y)) => x@ == y,
            _ => false,
        },
{
    match find_ws(e) {
        None => {
            if is_lit(e, "brew_prefix") {
                Ok((Some(Lookup::BrewPrefix), Vec::new()))
            } else {
                Err(TemplateError::Unknown(string_of(e)))
            }
        },
        Some(w) => {
            assert(w < e.len());
            let func = slice(e, 0, w);
            let tail = trimmed(slice(e, w + 1, e.len()).as_slice());
            if !(tail.len() >= 2 && tail[0] == '"' && tail[tail.len() - 1] == '"') {
                return Err(TemplateError::Unquoted(string_of(e)));
            }
            let arg = slice(tail.as_slice(), 1, tail.len() - 1);
            if is_lit(func.as_slice(), "which") {
                Ok((Some(Lookup::Which(string_of(arg.as_slice()))), Vec::new()))
            } else if is_lit(func.as_slice(), "env") {
                Ok((Some(Lookup::Env(string_of(arg.as_slice()))), Vec::new()))
            } else if is_lit(func.as_slice(), "var") {
                Ok((None, arg))
            } else {
                Err(TemplateError::Unknown(string_of(func.as_slice())))
            }
        },
    }
}

proof fn lemma_after_text_twice(p: Seq<char>, q: Seq<char>, x: ScanV)
    ensures
        after_text(p, after_text(q, x)) == after_text(p + q, x),
{
    match x {
        ScanV::Done(t) => {
            assert(p + (q + t) =~= (p + q) + t);
        },
        ScanV::Call(l, c, r) => {
            assert(p + (q + l) =~= (p + q) + l);
        },
        _ => {},
    }
}

/// Scans a template from the left to its end, a failure, or the next host
/// lookup; a caller that gets a lookup renders its answer after the text
/// returned and scans on from the rest.
pub fn scan(rest: &str, vars: &Vars) -> (r: Scan)
    ensures
        r@ == scan_spec(rest@, vars@),
{
    let open: Vec<char> = vec!['{', '{'];
    let close: Vec<char> = vec!['}', '}'];
    assert(open@ =~= opening());
    assert(close@ =~= closing());
    let mut out = String::new();
    let mut cur: Vec<char> = chars_of(rest);
    assert(after_text(out@, scan_spec(cur@, vars@)) == scan_spec(rest@, vars@)) by {
        assert(out@ =~= Seq::<char>::empty());
        match scan_spec(cur@, vars@) {
            ScanV::Done(t) => {
                assert(out@ + t =~= t);
            },
            ScanV::Call(l, c, r) => {
                assert(out@ + l =~= l);
            },
            _ => {},
        }
    }
    loop
        invariant
            open@ == opening(),
            close@ == closing(),
            after_text(out@, scan_spec(cur@, vars@)) == scan_spec(rest@, vars@),
        decreases cur.len(),
    {
        let s = match find_sub(cur.as_slice(), open.as_slice()) {
            None => {
                push_chars(&mut out, cur.as_slice());
                return Scan::Done(out);
            },
            Some(s) => s,
        };
        let lit = slice(cur.as_slice(), 0, s);
        let after = slice(cur.as_slice(), s + 2, cur.len());
        let e = match find_sub(after.as_slice(), close.as_slice()) {
            None => return Scan::Failed(TemplateError::Unterminated),
            Some(e) => e,
        };
        let ex = trimmed(slice(after.as_slice(), 0, e).as_slice());
        let next = slice(after.as_slice(), e + 2, after.len());
        match expr(ex.as_slice()) {
            Err(x) => return Scan::Failed(x),
            Ok((Some(c), _)) => {
                push_chars(&mut out, lit.as_slice());
                return Scan::Call(out, c, string_of(next.as_slice()));
            },
            Ok((None, name)) => {
                let key = string_of(name.as_slice());
                match vars.get(key.as_str()) {
                    None => return Scan::Failed(TemplateError::Undeclared(key)),
                    Some(v) => {
                        let ghost before = out@;
                        proof {
                            lemma_after_text_twice(before, lit@ + v@, scan_spec(next@, vars@));
                            assert(before + lit@ + v@ =~= before + (lit@ + v@));
                        }
                        push_chars(&mut out, lit.as_slice());
                        push_str(&mut out, v.as_str());
                        cur = next;
                    },
                }
            },
        }
    }
}

} // verus!
