//! A compact, human description of one dconf key's change, for a reconcile
//! prompt. A list-shaped value (a GVariant string array) renders as a
//! member-level delta; any other value as `old → new`.
use vstd::prelude::*;
use crate::dconf::KeyDiff;
use crate::manifest::str_views;
use crate::plan::str_eq;
use crate::text::{chars_of, decimal, push_chars, push_decimal, push_str, slice};

verus! {

/// A value shortened for a prompt line: at most 44 characters, the last an
/// ellipsis when cut.
pub open spec fn clip_spec(s: Seq<char>) -> Seq<char> {
    if s.len() <= 44 {
        s
    } else {
        s.take(43).push('\u{2026}')
    }
}

fn clip(s: &str) -> (r: String)
    ensures
        r@ == clip_spec(s@),
{
    let v = chars_of(s);
    let mut r = String::new();
    if v.len() <= 44 {
        push_chars(&mut r, v.as_slice());
    } else {
        push_chars(&mut r, slice(v.as_slice(), 0, 43).as_slice());
        push_str(&mut r, "\u{2026}");
        proof {
            reveal_strlit("\u{2026}");
            assert(r@ =~= v@.take(43).push('\u{2026}'));
        }
    }
    r
}

/// The members of `xs` that `ys` lacks, in order.
pub open spec fn lacking(xs: Seq<Seq<char>>, ys: Seq<Seq<char>>) -> Seq<Seq<char>> {
    xs.filter(|m: Seq<char>| !ys.contains(m))
}

/// Each member with a leading mark.
pub open spec fn marked(p: char, xs: Seq<Seq<char>>) -> Seq<Seq<char>> {
    xs.map_values(|m: Seq<char>| seq![p] + m)
}

/// Members joined with `, `.
pub open spec fn comma_joined(xs: Seq<Seq<char>>) -> Seq<char>
    decreases xs.len(),
{
    if xs.len() == 0 {
        Seq::empty()
    } else if xs.len() == 1 {
        xs[0]
    } else {
        comma_joined(xs.drop_last()) + ", "@ + xs.last()
    }
}

/// The description of a change. `members` is the file and live values read
/// as string arrays, where both are list-shaped.
pub open spec fn describe_spec(
    file: Option<Seq<char>>,
    live: Option<Seq<char>>,
    members: Option<(Seq<Seq<char>>, Seq<Seq<char>>)>,
) -> Seq<char> {
    match (file, live) {
        (Some(f), Some(l)) => match members {
            Some((a, b)) => {
                let added = lacking(b, a);
                let removed = lacking(a, b);
                if added.len() == 0 && removed.len() == 0 {
                    "reordered"@
                } else {
                    "+"@ + decimal(added.len()) + " \u{2212}"@ + decimal(removed.len()) + "  "@ + clip_spec(
                        comma_joined(marked('+', added) + marked('\u{2212}', removed)),
                    )
                }
            },
            None => clip_spec(f) + " \u{2192} "@ + clip_spec(l),
        },
        (None, Some(l)) => "live: "@ + clip_spec(l),
        (Some(f), None) => "captured: "@ + clip_spec(f) + " (machine no longer sets it)"@,
        (None, None) => Seq::empty(),
    }
}

fn holds(v: &Vec<String>, x: &str) -> (r: bool)
    ensures
        r == str_views(v@).contains(x@),
{
    let mut i: usize = 0;
    while i < v.len()
        invariant
            i <= v@.len(),
            forall|j: int| 0 <= j < i ==> str_views(v@)[j] != x@,
        decreases v.len() - i,
    {
        if str_eq(v[i].as_str(), x) {
            assert(str_views(v@)[i as int] == x@);
            return true;
        }
        i += 1;
    }
    false
}

/// The members of `xs` that `ys` lacks, each with the mark in front.
fn lacking_marked(xs: &Vec<String>, ys: &Vec<String>, mark: &str) -> (r: (Vec<Vec<char>>, usize))
    requires
        mark@.len() == 1,
    ensures
        r.0@.map_values(|m: Vec<char>| m@) == marked(mark@[0], lacking(str_views(xs@), str_views(ys@))),
        r.1 == lacking(str_views(xs@), str_views(ys@)).len(),
{
    let ghost xv = str_views(xs@);
    let ghost yv = str_views(ys@);
    let ghost p = mark@[0];
    let mut out: Vec<Vec<char>> = Vec::new();
    let mut n: usize = 0;
    let mut i: usize = 0;
    while i < xs.len()
        invariant
            i <= xs@.len(),
            xv == str_views(xs@),
            yv == str_views(ys@),
            mark@.len() == 1,
            p == mark@[0],
            out@.map_values(|m: Vec<char>| m@) == marked(p, lacking(xv.take(i as int), yv)),
            n == lacking(xv.take(i as int), yv).len(),
            n <= i,
        decreases xs.len() - i,
    {
        let ghost pre = xv.take(i as int);
        assert(xv.take(i as int + 1).drop_last() =~= pre);
        assert(xv.take(i as int + 1).last() == xs@[i as int]@);
        proof {
            reveal(Seq::filter);
        }
        if !holds(ys, xs[i].as_str()) {
            let mut m = chars_of(mark);
            let body = chars_of(xs[i].as_str());
            let ghost before = out@.map_values(|m: Vec<char>| m@);
            let mut k: usize = 0;
            while k < body.len()
                invariant
                    k <= body@.len(),
                    m@ == mark@ + body@.take(k as int),
                decreases body.len() - k,
            {
                m.push(body[k]);
                assert(body@.take(k as int + 1) =~= body@.take(k as int).push(body@[k as int]));
                k += 1;
            }
            assert(body@.take(body@.len() as int) =~= body@);
            out.push(m);
            assert(mark@ =~= seq![p]);
            assert(out@.map_values(|m: Vec<char>| m@) =~= before.push(seq![p] + xs@[i as int]@));
            assert(marked(p, lacking(xv.take(i as int + 1), yv)) =~= marked(p, lacking(pre, yv)).push(
                seq![p] + xs@[i as int]@,
            ));
            n += 1;
        } else {
            assert(lacking(xv.take(i as int + 1), yv) == lacking(pre, yv));
        }
        i += 1;
    }
    assert(xv.take(xs@.len() as int) =~= xv);
    (out, n)
}

fn join_comma(parts: &Vec<Vec<char>>) -> (r: String)
    ensures
        r@ == comma_joined(parts@.map_values(|m: Vec<char>| m@)),
{
    let ghost all = parts@.map_values(|m: Vec<char>| m@);
    let mut r = String::new();
    let mut i: usize = 0;
    while i < parts.len()
        invariant
            i <= parts@.len(),
            all == parts@.map_values(|m: Vec<char>| m@),
            r@ == comma_joined(all.take(i as int)),
        decreases parts.len() - i,
    {
        assert(all.take(i as int + 1).drop_last() =~= all.take(i as int));
        if i > 0 {
            push_str(&mut r, ", ");
        }
        push_chars(&mut r, parts[i].as_slice());
        proof {
            if i == 0 {
                assert(all.take(1).len() == 1);
                assert(r@ =~= all.take(1)[0]);
            }
        }
        i += 1;
    }
    assert(all.take(parts@.len() as int) =~= all);
    r
}

/// Describes one key's change for a reconcile prompt. `members` holds the
/// file and live values read as GVariant string arrays, where both are
/// list-shaped; a list change renders as a member delta (`+2 −1  +a, +b,
/// −c`), any other as `old → new`.
pub fn describe(d: &KeyDiff, members: Option<(Vec<String>, Vec<String>)>) -> (r: String)
    ensures
        r@ == describe_spec(
            d@.2,
            d@.3,
            match members {
                Some((a, b)) => Some((str_views(a@), str_views(b@))),
                None => None,
            },
        ),
{
    let mut r = String::new();
    match (&d.file, &d.live) {
        (Some(f), Some(l)) => match &members {
            Some((a, b)) => {
                proof {
                    reveal_strlit("+");
                    reveal_strlit("\u{2212}");
                }
                let (adds, na) = lacking_marked(b, a, "+");
                let (rems, nr) = lacking_marked(a, b, "\u{2212}");
                if na == 0 && nr == 0 {
                    push_str(&mut r, "reordered");
                } else {
                    let mut parts = adds;
                    let mut tail = rems;
                    let ghost pa = parts@.map_values(|m: Vec<char>| m@);
                    let ghost ta = tail@.map_values(|m: Vec<char>| m@);
                    parts.append(&mut tail);
                    assert(parts@.map_values(|m: Vec<char>| m@) =~= pa + ta);
                    let joined = join_comma(&parts);
                    push_str(&mut r, "+");
                    push_decimal(&mut r, na as u64);
                    push_str(&mut r, " \u{2212}");
                    push_decimal(&mut r, nr as u64);
                    push_str(&mut r, "  ");
                    let c = clip(joined.as_str());
                    push_str(&mut r, c.as_str());
                }
            },
            None => {
                let a = clip(f.as_str());
                let b = clip(l.as_str());
                push_str(&mut r, a.as_str());
                push_str(&mut r, " \u{2192} ");
                push_str(&mut r, b.as_str());
            },
        },
        (None, Some(l)) => {
            push_str(&mut r, "live: ");
            let c = clip(l.as_str());
            push_str(&mut r, c.as_str());
        },
        (Some(f), None) => {
            push_str(&mut r, "captured: ");
            let c = clip(f.as_str());
            push_str(&mut r, c.as_str());
            push_str(&mut r, " (machine no longer sets it)");
        },
        (None, None) => {},
    }
    r
}

} // verus!
