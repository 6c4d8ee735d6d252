//! What the spec has deployed on this machine: the residue ledger. Packages
//! are enumerable and need no bookkeeping; deployed files are not, so each
//! one is written down with the content left there, and a file the spec no
//! longer declares is residue that `prune` may remove while it is untouched.
//!
//! Reading and writing the ledger file, the filesystem and the environment
//! are the caller's; the ledger, residue, the removal guards and the path
//! rules they rest on are here.
use vstd::prelude::*;
use crate::journal::{blake3_hex, hash};
use crate::lists::distinct_keys;
use crate::manifest::str_views;
use crate::plan::str_eq;
use crate::text::{chars_of, lex_less, lex_lt, lemma_lex_irrefl, lemma_lex_total, lemma_lex_trans, push_chars, push_str, same, slice, split_char, split_exec, string_of, views};

verus! {

/// One deployed path and the content left there.
#[derive(Debug, Clone, PartialEq, Eq)]
pub struct Deployed {
    /// The hash of what was written: the whole file, or a block's region
    /// body. Empty when the source could not be read, and then never
    /// removable.
    pub hash: String,
    /// Which primitive owns it.
    pub kind: String,
    /// The filesystem path (not the ledger key).
    pub path: String,
    /// For a block, the marker naming its region.
    pub marker: Option<String>,
}

/// The ledger key: the path, plus `#marker` where there is one.
pub open spec fn key_spec(path: Seq<char>, marker: Option<Seq<char>>) -> Seq<char> {
    match marker {
        Some(m) => path + seq!['#'] + m,
        None => path,
    }
}

pub open spec fn opt_str(o: Option<&str>) -> Option<Seq<char>> {
    match o {
        Some(s) => Some(s@),
        None => None,
    }
}

pub open spec fn opt_string(o: Option<String>) -> Option<Seq<char>> {
    match o {
        Some(s) => Some(s@),
        None => None,
    }
}

fn own(s: &str) -> (r: String)
    ensures
        r@ == s@,
{
    let mut r = String::new();
    push_str(&mut r, s);
    r
}

fn own_opt(o: &Option<String>) -> (r: Option<String>)
    ensures
        opt_string(r) == opt_string(*o),
{
    match o {
        Some(s) => Some(own(s.as_str())),
        None => None,
    }
}

fn copy_deployed(d: &Deployed) -> (r: Deployed)
    ensures
        r.hash@ == d.hash@,
        r.kind@ == d.kind@,
        r.path@ == d.path@,
        opt_string(r.marker) == opt_string(d.marker),
{
    Deployed { hash: own(d.hash.as_str()), kind: own(d.kind.as_str()), path: own(d.path.as_str()), marker: own_opt(&d.marker) }
}

impl Deployed {
    /// The ledger key for a deployed thing.
    pub fn key(path: &str, marker: Option<&str>) -> (r: String)
        ensures
            r@ == key_spec(path@, opt_str(marker)),
    {
        let mut r = own(path);
        match marker {
            Some(m) => {
                push_chars(&mut r, &['#']);
                push_str(&mut r, m);
            },
            None => {},
        }
        r
    }
}

/// Keys strictly increase.
pub open spec fn keys_sorted(s: Seq<(String, Deployed)>) -> bool {
    forall|i: int, j: int| 0 <= i < j < s.len() ==> lex_lt(#[trigger] s[i].0@, #[trigger] s[j].0@)
}

/// key → what was left there, in key order.
pub struct Ledger {
    entries: Vec<(String, Deployed)>,
}

impl View for Ledger {
    type V = Seq<(String, Deployed)>;

    closed spec fn view(&self) -> Seq<(String, Deployed)> {
        self.entries@
    }
}

/// Where a new key goes in a key-sorted list: before the first larger key.
pub open spec fn key_pos(s: Seq<(String, Deployed)>, k: Seq<char>) -> int
    decreases s.len(),
{
    if s.len() == 0 {
        0
    } else if lex_lt(k, s[0].0@) || s[0].0@ == k {
        0
    } else {
        1 + key_pos(s.drop_first(), k)
    }
}

proof fn lemma_key_pos(s: Seq<(String, Deployed)>, k: Seq<char>)
    requires
        keys_sorted(s),
    ensures
        0 <= key_pos(s, k) <= s.len(),
        forall|i: int| 0 <= i < key_pos(s, k) ==> lex_lt(#[trigger] s[i].0@, k),
        key_pos(s, k) < s.len() ==> lex_lt(k, s[key_pos(s, k)].0@) || s[key_pos(s, k)].0@ == k,
    decreases s.len(),
{
    if s.len() > 0 && !(lex_lt(k, s[0].0@) || s[0].0@ == k) {
        let t = s.drop_first();
        assert forall|i: int, j: int| 0 <= i < j < t.len() implies lex_lt(#[trigger] t[i].0@, #[trigger] t[j].0@) by {
            assert(t[i] == s[i + 1] && t[j] == s[j + 1]);
        }
        lemma_key_pos(t, k);
        lemma_lex_total(k, s[0].0@);
        assert forall|i: int| 0 <= i < key_pos(s, k) implies lex_lt(#[trigger] s[i].0@, k) by {
            if i > 0 {
                assert(s[i] == t[i - 1]);
            }
        }
    }
}

/// The index a key goes at in a key-sorted list.
fn find_key_pos(entries: &Vec<(String, Deployed)>, kc: &Vec<char>) -> (r: usize)
    requires
        keys_sorted(entries@),
    ensures
        r == key_pos(entries@, kc@),
{
    let ghost s = entries@;
    let mut p: usize = 0;
    assert(s.subrange(0, s.len() as int) =~= s);
    while p < entries.len() && lex_less(chars_of(entries[p].0.as_str()).as_slice(), kc.as_slice())
        invariant
            p <= s.len(),
            entries@ == s,
            key_pos(s, kc@) == p + key_pos(s.subrange(p as int, s.len() as int), kc@),
        decreases s.len() - p,
    {
        let ghost t = s.subrange(p as int, s.len() as int);
        assert(t[0] == s[p as int]);
        proof {
            lemma_lex_total(kc@, s[p as int].0@);
            lemma_lex_irrefl(kc@);
        }
        assert(t.drop_first() =~= s.subrange(p as int + 1, s.len() as int));
        p += 1;
    }
    proof {
        if p < s.len() {
            let t = s.subrange(p as int, s.len() as int);
            assert(t[0] == s[p as int]);
            lemma_lex_total(kc@, s[p as int].0@);
        }
    }
    p
}

impl Ledger {
    pub closed spec fn wf(&self) -> bool {
        keys_sorted(self.entries@)
    }

    pub fn new() -> (r: Ledger)
        ensures
            r.wf(),
            r@.len() == 0,
    {
        Ledger { entries: Vec::new() }
    }

    /// The entries in key order.
    pub fn entries(&self) -> (r: &Vec<(String, Deployed)>)
        ensures
            r@ == self@,
    {
        &self.entries
    }

    pub fn len(&self) -> (r: usize)
        ensures
            r == self@.len(),
    {
        self.entries.len()
    }

    /// Set `key` to `rec`: replaced where the key is present, inserted in
    /// key order otherwise.
    pub fn insert(&mut self, key: String, rec: Deployed)
        requires
            old(self).wf(),
        ensures
            final(self).wf(),
            ({
                let p = key_pos(old(self)@, key@);
                if p < old(self)@.len() && old(self)@[p].0@ == key@ {
                    final(self)@ == old(self)@.update(p, (key, rec))
                } else {
                    final(self)@ == old(self)@.insert(p, (key, rec))
                }
            }),
    {
        let ghost s = self.entries@;
        proof {
            lemma_key_pos(s, key@);
        }
        let kc = chars_of(key.as_str());
        let p = find_key_pos(&self.entries, &kc);
        proof {
            let t = s.subrange(p as int, s.len() as int);
            if p < s.len() {
                assert(t[0] == s[p as int]);
                lemma_lex_total(key@, s[p as int].0@);
            }
        }
        if p < self.entries.len() && same(chars_of(self.entries[p].0.as_str()).as_slice(), kc.as_slice()) {
            self.entries.set(p, (key, rec));
            proof {
                assert forall|i: int, j: int| 0 <= i < j < self.entries@.len() implies lex_lt(#[trigger] self.entries@[i].0@, #[trigger] self.entries@[j].0@) by {
                    assert(self.entries@[i].0@ == s[i].0@ && self.entries@[j].0@ == s[j].0@);
                }
            }
        } else {
            let ghost kv = (key, rec);
            self.entries.insert(p, (key, rec));
            proof {
                let n = self.entries@;
                assert(n =~= s.insert(p as int, kv));
                assert forall|i: int, j: int| 0 <= i < j < n.len() implies lex_lt(#[trigger] n[i].0@, #[trigger] n[j].0@) by {
                    if j < p {
                        assert(n[i] == s[i] && n[j] == s[j]);
                    } else if j == p {
                        assert(n[i] == s[i]);
                    } else if i < p {
                        assert(n[i] == s[i] && n[j] == s[j - 1]);
                        lemma_lex_trans(s[i].0@, kv.0@, s[p as int].0@);
                        if j - 1 > p {
                            lemma_lex_trans(s[i].0@, s[p as int].0@, s[j - 1].0@);
                        }
                    } else if i == p {
                        assert(n[j] == s[j - 1]);
                        if j - 1 > p {
                            lemma_lex_trans(kv.0@, s[p as int].0@, s[j - 1].0@);
                        }
                    } else {
                        assert(n[i] == s[i - 1] && n[j] == s[j - 1]);
                    }
                }
            }
        }
    }

    /// A ledger written before records carried their path keyed each entry
    /// by it: recover the path from the key (up to its first `#`) wherever
    /// it is empty.
    pub fn recover_paths(&mut self)
        requires
            old(self).wf(),
        ensures
            final(self).wf(),
            final(self)@.len() == old(self)@.len(),
            forall|i: int| 0 <= i < old(self)@.len() ==> {
                let (k, d) = #[trigger] old(self)@[i];
                let (k2, d2) = final(self)@[i];
                &&& k2@ == k@
                &&& d2.hash@ == d.hash@ && d2.kind@ == d.kind@ && opt_string(d2.marker) == opt_string(d.marker)
                &&& d2.path@ == if d.path@.len() == 0 { split_char(k@, '#')[0] } else { d.path@ }
            },
    {
        let ghost s = self.entries@;
        let mut i: usize = 0;
        while i < self.entries.len()
            invariant
                i <= s.len(),
                self.entries@.len() == s.len(),
                keys_sorted(s),
                forall|j: int| i <= j < s.len() ==> self.entries@[j] == s[j],
                forall|j: int| 0 <= j < s.len() ==> (#[trigger] self.entries@[j]).0@ == s[j].0@,
                forall|j: int| 0 <= j < i ==> {
                    let (k, d) = #[trigger] s[j];
                    let (k2, d2) = self.entries@[j];
                    &&& d2.hash@ == d.hash@ && d2.kind@ == d.kind@ && opt_string(d2.marker) == opt_string(d.marker)
                    &&& d2.path@ == if d.path@.len() == 0 { split_char(k@, '#')[0] } else { d.path@ }
                },
            decreases s.len() - i,
        {
            if chars_of(self.entries[i].1.path.as_str()).len() == 0 {
                let pieces = split_exec(chars_of(self.entries[i].0.as_str()).as_slice(), '#');
                proof {
                    crate::text::lemma_split_nonempty(s[i as int].0@, '#');
                }
                let path = string_of(pieces[0].as_slice());
                let k = own(self.entries[i].0.as_str());
                let mut d = copy_deployed(&self.entries[i].1);
                d.path = path;
                self.entries.set(i, (k, d));
            }
            i += 1;
        }
        proof {
            assert forall|a: int, b: int| 0 <= a < b < self.entries@.len() implies lex_lt(#[trigger] self.entries@[a].0@, #[trigger] self.entries@[b].0@) by {
                assert(self.entries@[a].0@ == s[a].0@ && self.entries@[b].0@ == s[b].0@);
            }
        }
    }
}


// ---------------------------------------------------------------------------
// Paths, compared by component.

/// Parts that name something: not empty, not `.`.
pub open spec fn normal_parts(ps: Seq<Seq<char>>) -> Seq<Seq<char>> {
    ps.filter(|x: Seq<char>| x.len() > 0 && x != seq!['.'])
}

/// A path's components after its root, as `Path` compares them: repeated
/// and trailing separators and `.` drop out, except a leading `.`.
pub open spec fn path_parts(s: Seq<char>) -> Seq<Seq<char>> {
    let ps = split_char(s, '/');
    if ps[0] == seq!['.'] {
        seq![seq!['.']] + normal_parts(ps.drop_first())
    } else {
        normal_parts(ps)
    }
}

/// Whether a path, rooted or not, and its parts.
pub type PathId = (bool, Seq<Seq<char>>);

pub open spec fn path_id(s: Seq<char>) -> PathId {
    (s.len() > 0 && s[0] == '/', path_parts(s))
}

/// A path as components: rooted, and its parts.
pub struct PathParts {
    pub rooted: bool,
    pub parts: Vec<Vec<char>>,
}

pub open spec fn parts_id(p: PathParts) -> PathId {
    (p.rooted, views(p.parts@))
}

fn keep_part(x: &Vec<char>) -> (r: bool)
    ensures
        r == (x@.len() > 0 && x@ != seq!['.']),
{
    let dot: [char; 1] = ['.'];
    assert(dot@ =~= seq!['.']);
    x.len() > 0 && !same(x.as_slice(), &dot)
}

/// The components of a path.
pub fn components(p: &str) -> (r: PathParts)
    ensures
        parts_id(r) == path_id(p@),
{
    let v = chars_of(p);
    let ps = split_exec(v.as_slice(), '/');
    proof {
        crate::text::lemma_split_nonempty(p@, '/');
    }
    let dot: [char; 1] = ['.'];
    assert(dot@ =~= seq!['.']);
    let lead_dot = same(ps[0].as_slice(), &dot);
    let mut out: Vec<Vec<char>> = Vec::new();
    let start: usize = if lead_dot { 1 } else { 0 };
    if lead_dot {
        out.push(vec!['.']);
    }
    let ghost base = views(out@);
    let ghost tail = views(ps@).subrange(start as int, ps@.len() as int);
    let mut i: usize = start;
    assert(tail.take(0) =~= Seq::<Seq<char>>::empty());
    while i < ps.len()
        invariant
            start <= i <= ps@.len(),
            tail == views(ps@).subrange(start as int, ps@.len() as int),
            views(out@) == base + normal_parts(tail.take(i - start)),
        decreases ps.len() - i,
    {
        let keep = keep_part(&ps[i]);
        proof {
            let t = tail.take(i - start + 1);
            assert(t.drop_last() =~= tail.take(i - start));
            assert(t.last() == ps@[i as int]@);
            reveal(Seq::filter);
        }
        if keep {
            let x = crate::text::copy_chars(ps[i].as_slice());
            let ghost before = views(out@);
            out.push(x);
            assert(views(out@) =~= before.push(ps@[i as int]@));
        }
        i += 1;
    }
    proof {
        assert(tail.take(ps@.len() - start) =~= tail);
        if lead_dot {
            assert(base =~= seq![seq!['.']]);
            assert(tail =~= views(ps@).drop_first());
        } else {
            assert(base =~= Seq::<Seq<char>>::empty());
            assert(tail =~= views(ps@));
        }
    }
    PathParts { rooted: v.len() > 0 && v[0] == '/', parts: out }
}

/// Two component lists are the same.
pub fn same_parts(a: &PathParts, b: &PathParts) -> (r: bool)
    ensures
        r == (parts_id(*a) == parts_id(*b)),
{
    if a.rooted != b.rooted || a.parts.len() != b.parts.len() {
        proof {
            if a.parts.len() != b.parts.len() {
                assert(views(a.parts@).len() != views(b.parts@).len());
            }
        }
        return false;
    }
    let mut i: usize = 0;
    while i < a.parts.len()
        invariant
            i <= a.parts@.len(),
            a.parts@.len() == b.parts@.len(),
            forall|j: int| 0 <= j < i ==> (#[trigger] a.parts@[j])@ == b.parts@[j]@,
        decreases a.parts.len() - i,
    {
        if !same(a.parts[i].as_slice(), b.parts[i].as_slice()) {
            assert(views(a.parts@)[i as int] != views(b.parts@)[i as int]);
            return false;
        }
        i += 1;
    }
    assert(views(a.parts@) =~= views(b.parts@));
    true
}

/// `b` starts with `a`, component-wise (as `Path::starts_with`).
pub open spec fn id_prefix(a: PathId, b: PathId) -> bool {
    a.0 == b.0 && a.1.len() <= b.1.len() && b.1.subrange(0, a.1.len() as int) == a.1
}

pub fn starts_with_parts(b: &PathParts, a: &PathParts) -> (r: bool)
    ensures
        r == id_prefix(parts_id(*a), parts_id(*b)),
{
    if a.rooted != b.rooted || a.parts.len() > b.parts.len() {
        return false;
    }
    let mut i: usize = 0;
    while i < a.parts.len()
        invariant
            i <= a.parts@.len(),
            a.parts@.len() <= b.parts@.len(),
            forall|j: int| 0 <= j < i ==> (#[trigger] a.parts@[j])@ == b.parts@[j]@,
        decreases a.parts.len() - i,
    {
        if !same(a.parts[i].as_slice(), b.parts[i].as_slice()) {
            assert(views(b.parts@).subrange(0, views(a.parts@).len() as int)[i as int] != views(a.parts@)[i as int]);
            return false;
        }
        i += 1;
    }
    assert(views(b.parts@).subrange(0, views(a.parts@).len() as int) =~= views(a.parts@));
    true
}

/// `~/rest` under `home` (a rooted `rest` replaces it); anything else, or no
/// home, unchanged.
pub open spec fn expand_spec(p: Seq<char>, home: Option<Seq<char>>) -> Seq<char> {
    if p.len() >= 2 && p[0] == '~' && p[1] == '/' && home is Some {
        let h = home->0;
        let rest = p.subrange(2, p.len() as int);
        if rest.len() > 0 && rest[0] == '/' {
            rest
        } else if h.len() == 0 || h.last() == '/' {
            h + rest
        } else {
            h + seq!['/'] + rest
        }
    } else {
        p
    }
}

/// A path with a leading `~/` expanded against `home`.
pub fn expand_tilde(p: &str, home: Option<&str>) -> (r: String)
    ensures
        r@ == expand_spec(p@, opt_str(home)),
{
    let v = chars_of(p);
    if v.len() >= 2 && v[0] == '~' && v[1] == '/' {
        if let Some(h) = home {
            let rest = slice(v.as_slice(), 2, v.len());
            if rest.len() > 0 && rest[0] == '/' {
                return string_of(rest.as_slice());
            }
            let hc = chars_of(h);
            let mut out = own(h);
            if !(hc.len() == 0 || hc[hc.len() - 1] == '/') {
                push_chars(&mut out, &['/']);
            }
            push_chars(&mut out, rest.as_slice());
            return out;
        }
    }
    own(p)
}

// ---------------------------------------------------------------------------
// Residue.

/// What makes two records the same thing: the resolved path's components,
/// and the marker.
pub open spec fn identity(d: Deployed, home: Option<Seq<char>>) -> (PathId, Option<Seq<char>>) {
    (path_id(expand_spec(d.path@, home)), opt_string(d.marker))
}

pub open spec fn identities(s: Seq<(String, Deployed)>, home: Option<Seq<char>>) -> Seq<(PathId, Option<Seq<char>>)> {
    s.map_values(|e: (String, Deployed)| identity(e.1, home))
}

/// A ledger entry, by value.
pub type EntryV = (Seq<char>, Seq<char>, Seq<char>, Seq<char>, Option<Seq<char>>);

pub open spec fn entry_view(e: (String, Deployed)) -> EntryV {
    (e.0@, e.1.hash@, e.1.kind@, e.1.path@, opt_string(e.1.marker))
}

pub open spec fn entry_views(s: Seq<(String, Deployed)>) -> Seq<EntryV> {
    s.map_values(|e: (String, Deployed)| entry_view(e))
}

/// An entry the declared set no longer names.
pub open spec fn is_residue(e: (String, Deployed), declared: Seq<(String, Deployed)>, home: Option<Seq<char>>) -> bool {
    !identities(declared, home).contains(identity(e.1, home))
}

fn marker_eq(a: &Option<String>, b: &Option<String>) -> (r: bool)
    ensures
        r == (opt_string(*a) == opt_string(*b)),
{
    match (a, b) {
        (Some(x), Some(y)) => str_eq(x.as_str(), y.as_str()),
        (None, None) => true,
        _ => false,
    }
}

/// The recorded entries the declared set no longer names, compared by
/// resolved path and marker (so re-spelling a still-declared target does
/// not make it residue), in key order.
pub fn residue(recorded: &Ledger, declared: &Ledger, home: Option<&str>) -> (r: Vec<(String, Deployed)>)
    ensures
        entry_views(r@) == entry_views(recorded@.filter(|e: (String, Deployed)| is_residue(e, declared@, opt_str(home)))),
{
    let ghost hm = opt_str(home);
    let mut ids: Vec<(PathParts, Option<String>)> = Vec::new();
    let mut j: usize = 0;
    while j < declared.entries.len()
        invariant
            j <= declared@.len(),
            hm == opt_str(home),
            declared@ == declared.entries@,
            ids@.len() == j,
            forall|q: int| 0 <= q < j ==> (parts_id(#[trigger] ids@[q].0), opt_string(ids@[q].1)) == identity(declared@[q].1, hm),
        decreases declared.entries.len() - j,
    {
        let d = &declared.entries[j].1;
        let ex = expand_tilde(d.path.as_str(), home);
        let parts = components(ex.as_str());
        let mk = own_opt(&d.marker);
        assert(parts_id(parts) == path_id(expand_spec(d.path@, hm)));
        let ghost before = ids@;
        ids.push((parts, mk));
        proof {
            assert(declared@[j as int].1 == *d);
            assert forall|q: int| 0 <= q < j + 1 implies (parts_id(#[trigger] ids@[q].0), opt_string(ids@[q].1)) == identity(declared@[q].1, hm) by {
                if q < j {
                    assert(ids@[q] == before[q]);
                }
            }
        }
        j += 1;
    }
    let mut out: Vec<(String, Deployed)> = Vec::new();
    let mut i: usize = 0;
    while i < recorded.entries.len()
        invariant
            i <= recorded@.len(),
            hm == opt_str(home),
            recorded@ == recorded.entries@,
            declared@ == declared.entries@,
            ids@.len() == declared@.len(),
            forall|q: int| 0 <= q < ids@.len() ==> (parts_id(#[trigger] ids@[q].0), opt_string(ids@[q].1)) == identity(declared@[q].1, hm),
            entry_views(out@) == entry_views(recorded@.take(i as int).filter(|e: (String, Deployed)| is_residue(e, declared@, hm))),
        decreases recorded.entries.len() - i,
    {
        let e = &recorded.entries[i];
        let ex = expand_tilde(e.1.path.as_str(), home);
        let parts = components(ex.as_str());
        let mut found = false;
        let mut k: usize = 0;
        while k < ids.len()
            invariant
                k <= ids@.len(),
                ids@.len() == declared@.len(),
                forall|q: int| 0 <= q < ids@.len() ==> (parts_id(#[trigger] ids@[q].0), opt_string(ids@[q].1)) == identity(declared@[q].1, hm),
                parts_id(parts) == path_id(expand_spec(e.1.path@, hm)),
                found == identities(declared@, hm).take(k as int).contains(identity(e.1, hm)),
            decreases ids.len() - k,
        {
            let hit = same_parts(&ids[k].0, &parts) && marker_eq(&ids[k].1, &e.1.marker);
            proof {
                let a = identities(declared@, hm).take(k as int);
                let b = identities(declared@, hm).take(k as int + 1);
                assert(b =~= a.push(identity(declared@[k as int].1, hm)));
                assert(hit == (identity(declared@[k as int].1, hm) == identity(e.1, hm)));
                if hit {
                    assert(b[k as int] == identity(e.1, hm));
                }
                if b.contains(identity(e.1, hm)) {
                    let w = choose|w: int| 0 <= w < b.len() && b[w] == identity(e.1, hm);
                    if w < k {
                        assert(a[w] == identity(e.1, hm));
                    }
                }
                if a.contains(identity(e.1, hm)) {
                    let w = choose|w: int| 0 <= w < a.len() && a[w] == identity(e.1, hm);
                    assert(b[w] == identity(e.1, hm));
                }
            }
            found = found || hit;
            k += 1;
        }
        proof {
            assert(identities(declared@, hm).take(ids@.len() as int) =~= identities(declared@, hm));
            let t = recorded@.take(i as int + 1);
            assert(t.drop_last() =~= recorded@.take(i as int));
            assert(t.last() == *e);
            reveal(Seq::filter);
        }
        if !found {
            let ghost before = entry_views(out@);
            let c = (own(e.0.as_str()), copy_deployed(&e.1));
            out.push(c);
            assert(entry_views(out@) =~= before.push(entry_view(*e)));
        }
        i += 1;
    }
    assert(recorded@.take(recorded@.len() as int) =~= recorded@);
    out
}

/// Declaring everything recorded leaves no residue.
pub proof fn law_declaring_everything_leaves_no_residue(recorded: Seq<(String, Deployed)>, home: Option<Seq<char>>)
    ensures
        recorded.filter(|e: (String, Deployed)| is_residue(e, recorded, home)).len() == 0,
{
    lemma_none_residue(recorded, recorded, home);
}

proof fn lemma_none_residue(part: Seq<(String, Deployed)>, all: Seq<(String, Deployed)>, home: Option<Seq<char>>)
    requires
        forall|i: int| 0 <= i < part.len() ==> #[trigger] all.contains(part[i]),
    ensures
        part.filter(|e: (String, Deployed)| is_residue(e, all, home)).len() == 0,
    decreases part.len(),
{
    reveal(Seq::filter);
    if part.len() > 0 {
        let x = part.last();
        assert(all.contains(part[part.len() - 1]));
        let j = choose|j: int| 0 <= j < all.len() && all[j] == x;
        assert(identities(all, home)[j] == identity(x.1, home));
        assert(!is_residue(x, all, home));
        assert forall|i: int| 0 <= i < part.drop_last().len() implies #[trigger] all.contains(part.drop_last()[i]) by {
            assert(part.drop_last()[i] == part[i]);
        }
        lemma_none_residue(part.drop_last(), all, home);
    }
}

/// Whether a record's content is still exactly what was deployed: its hash
/// is known, and `content` (the file's bytes, or for a block its region
/// body's bytes) was read and hashes to it. An unknown hash, or content
/// that is gone, is never untouched.
pub fn is_untouched(rec: &Deployed, content: Option<&[u8]>) -> (r: bool)
    ensures
        r == (rec.hash@.len() > 0 && content is Some && blake3_hex(content->0@) == rec.hash@),
{
    if chars_of(rec.hash.as_str()).len() == 0 {
        return false;
    }
    match content {
        None => false,
        Some(b) => str_eq(hash(b).as_str(), rec.hash.as_str()),
    }
}

// ---------------------------------------------------------------------------
// The removal guard.

/// Why a removal is refused.
#[derive(Debug, Clone, Copy, PartialEq, Eq, Structural)]
pub enum Refusal {
    ParentComponent,
    FilesystemRoot,
    TopLevel,
    IsHome,
    ContainsHome,
}

/// The reason a refusal gives, as the refusal message words it.
pub open spec fn reason_spec(r: Refusal) -> Seq<char> {
    match r {
        Refusal::ParentComponent => "it contains a `..` component, so what it names depends on where it is resolved from"@,
        Refusal::FilesystemRoot => "it is the filesystem root"@,
        Refusal::TopLevel => "it is a top-level directory"@,
        Refusal::IsHome => "it is your home directory"@,
        Refusal::ContainsHome => "it contains your home directory"@,
    }
}

impl Refusal {
    /// The reason, as the refusal message words it.
    pub fn reason(self) -> (r: &'static str)
        ensures
            r@ == reason_spec(self),
            r@.len() > 0,
    {
        proof {
            reveal_strlit("it contains a `..` component, so what it names depends on where it is resolved from");
            reveal_strlit("it is the filesystem root");
            reveal_strlit("it is a top-level directory");
            reveal_strlit("it is your home directory");
            reveal_strlit("it contains your home directory");
        }
        match self {
            Refusal::ParentComponent => "it contains a `..` component, so what it names depends on where it is resolved from",
            Refusal::FilesystemRoot => "it is the filesystem root",
            Refusal::TopLevel => "it is a top-level directory",
            Refusal::IsHome => "it is your home directory",
            Refusal::ContainsHome => "it contains your home directory",
        }
    }
}

/// The filesystem root or a root-level directory.
pub open spec fn root_refusal(c: PathId) -> Option<Refusal> {
    if c.1.len() == 0 {
        Some(Refusal::FilesystemRoot)
    } else if c.0 && c.1.len() <= 1 {
        Some(Refusal::TopLevel)
    } else {
        None
    }
}

/// The home itself, or a path containing it.
pub open spec fn home_refusal(c: PathId, h: PathId) -> Option<Refusal> {
    if c == h {
        Some(Refusal::IsHome)
    } else if id_prefix(c, h) {
        Some(Refusal::ContainsHome)
    } else {
        None
    }
}

pub open spec fn first_of(a: Option<Refusal>, b: Option<Refusal>) -> Option<Refusal> {
    if a is Some {
        a
    } else {
        b
    }
}

/// Why removing `p` (resolving to `resolved`) is refused, if it is: a `..`
/// component; then, for `p` and `resolved` in turn, the root or a top-level
/// directory; then, for the home and its resolved form in turn, either path
/// being the home or containing it.
pub open spec fn refusal_spec(p: Seq<char>, resolved: Seq<char>, home: Option<(Seq<char>, Seq<char>)>) -> Option<Refusal> {
    let ip = path_id(p);
    let ir = path_id(resolved);
    if ip.1.contains(seq!['.', '.']) {
        Some(Refusal::ParentComponent)
    } else {
        first_of(root_refusal(ip), first_of(root_refusal(ir), match home {
            None => None,
            Some(hs) => {
                let h = path_id(hs.0);
                let hr = path_id(hs.1);
                first_of(home_refusal(ip, h), first_of(home_refusal(ir, h),
                    first_of(home_refusal(ip, hr), home_refusal(ir, hr))))
            },
        }))
    }
}

fn root_refusal_exec(c: &PathParts) -> (r: Option<Refusal>)
    ensures
        r == root_refusal(parts_id(*c)),
{
    if c.parts.len() == 0 {
        Some(Refusal::FilesystemRoot)
    } else if c.rooted && c.parts.len() <= 1 {
        Some(Refusal::TopLevel)
    } else {
        None
    }
}

fn home_refusal_exec(c: &PathParts, h: &PathParts) -> (r: Option<Refusal>)
    ensures
        r == home_refusal(parts_id(*c), parts_id(*h)),
{
    if same_parts(c, h) {
        Some(Refusal::IsHome)
    } else if starts_with_parts(h, c) {
        Some(Refusal::ContainsHome)
    } else {
        None
    }
}

/// Refuse to remove a path whose removal could not plausibly be meant:
/// `p` as the spec spells it, `resolved` as it resolves (or `p` again when it
/// does not), `home` the home directory and its resolved form, if known.
pub fn refuse_catastrophic(p: &str, resolved: &str, home: Option<(&str, &str)>) -> (r: Result<(), Refusal>)
    ensures
        match r {
            Ok(()) => refusal_spec(p@, resolved@, match home { Some(h) => Some((h.0@, h.1@)), None => None }) is None,
            Err(why) => refusal_spec(p@, resolved@, match home { Some(h) => Some((h.0@, h.1@)), None => None }) == Some(why),
        },
{
    let ip = components(p);
    let dd: [char; 2] = ['.', '.'];
    assert(dd@ =~= seq!['.', '.']);
    let mut i: usize = 0;
    while i < ip.parts.len()
        invariant
            i <= ip.parts@.len(),
            dd@ == seq!['.', '.'],
            parts_id(ip) == path_id(p@),
            forall|j: int| 0 <= j < i ==> (#[trigger] ip.parts@[j])@ != seq!['.', '.'],
        decreases ip.parts.len() - i,
    {
        if same(ip.parts[i].as_slice(), &dd) {
            assert(views(ip.parts@)[i as int] == seq!['.', '.']);
            assert(views(ip.parts@).contains(seq!['.', '.']));
            assert(path_id(p@).1 == views(ip.parts@));
            return Err(Refusal::ParentComponent);
        }
        i += 1;
    }
    assert(!views(ip.parts@).contains(seq!['.', '.'])) by {
        if views(ip.parts@).contains(seq!['.', '.']) {
            let j = choose|j: int| 0 <= j < views(ip.parts@).len() && views(ip.parts@)[j] == seq!['.', '.'];
            assert(ip.parts@[j]@ == seq!['.', '.']);
        }
    }
    let ir = components(resolved);
    if let Some(why) = root_refusal_exec(&ip) {
        return Err(why);
    }
    if let Some(why) = root_refusal_exec(&ir) {
        return Err(why);
    }
    match home {
        None => Ok(()),
        Some((h, hr)) => {
            let hp = components(h);
            let hrp = components(hr);
            if let Some(why) = home_refusal_exec(&ip, &hp) {
                return Err(why);
            }
            if let Some(why) = home_refusal_exec(&ir, &hp) {
                return Err(why);
            }
            if let Some(why) = home_refusal_exec(&ip, &hrp) {
                return Err(why);
            }
            if let Some(why) = home_refusal_exec(&ir, &hrp) {
                return Err(why);
            }
            Ok(())
        },
    }
}

/// The privileged removal of a path, used only when the unprivileged one is
/// refused: `sudo rm -rf -- p` for a directory, `sudo rm -f -- p` otherwise.
pub open spec fn escalation_spec(p: Seq<char>, is_dir: bool) -> Seq<Seq<char>> {
    seq!["sudo"@, "rm"@, if is_dir { "-rf"@ } else { "-f"@ }, "--"@, p]
}

/// How to remove a path: the guard first, and only past it the privileged
/// command a refused unprivileged removal escalates to. A refused path never
/// yields a command.
pub fn removal(p: &str, resolved: &str, home: Option<(&str, &str)>, is_dir: bool) -> (r: Result<Vec<String>, Refusal>)
    ensures
        match r {
            Ok(argv) => refusal_spec(p@, resolved@, match home { Some(h) => Some((h.0@, h.1@)), None => None }) is None
                && str_views(argv@) == escalation_spec(p@, is_dir),
            Err(why) => refusal_spec(p@, resolved@, match home { Some(h) => Some((h.0@, h.1@)), None => None }) == Some(why),
        },
{
    match refuse_catastrophic(p, resolved, home) {
        Err(why) => Err(why),
        Ok(()) => {
            let mut argv: Vec<String> = Vec::new();
            argv.push(own("sudo"));
            argv.push(own("rm"));
            if is_dir {
                argv.push(own("-rf"));
            } else {
                argv.push(own("-f"));
            }
            argv.push(own("--"));
            argv.push(own(p));
            assert(str_views(argv@) =~= escalation_spec(p@, is_dir));
            Ok(argv)
        },
    }
}

/// Declaring everything a ledger records leaves no residue: every entry's
/// own resolved path and marker are declared.
pub proof fn law_full_declaration_leaves_no_residue(l: Seq<(String, Deployed)>, home: Option<Seq<char>>)
    ensures
        l.filter(|e: (String, Deployed)| is_residue(e, l, home)).len() == 0,
{
    let f = |e: (String, Deployed)| is_residue(e, l, home);
    let r = l.filter(f);
    if r.len() > 0 {
        l.lemma_filter_pred(f, 0);
        assert(r.contains(r[0]));
        l.lemma_filter_contains_rev(f, r[0]);
        assert(l.contains(r[0]));
        let j = choose|j: int| 0 <= j < l.len() && l[j] == r[0];
        assert(identities(l, home)[j] == identity(r[0].1, home));
        assert(identities(l, home).contains(identity(r[0].1, home)));
    }
}

/// An empty ledger leaves no residue, whatever is declared.
pub proof fn law_empty_ledger_leaves_no_residue(declared: Seq<(String, Deployed)>, home: Option<Seq<char>>)
    ensures
        Seq::<(String, Deployed)>::empty().filter(|e: (String, Deployed)| is_residue(e, declared, home)).len() == 0,
{
    Seq::<(String, Deployed)>::empty().lemma_filter_len(|e: (String, Deployed)| is_residue(e, declared, home));
}

} // verus!
