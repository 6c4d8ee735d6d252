//! Locating the temper-home folder: the places an auto-scan looks, in
//! order, the de-duplication of what it finds, and the verdict on a scan.
//! Looking at the filesystem and the environment is the caller's.
use vstd::prelude::*;
use crate::manifest::str_views;
use crate::plan::str_eq;
use crate::text::{chars_of, push_chars, push_str};

verus! {

/// `base.join(rel)` on text: a rooted `rel` replaces `base`; otherwise a
/// separator is added unless `base` is empty or already ends in one.
pub open spec fn join_spec(base: Seq<char>, rel: Seq<char>) -> Seq<char> {
    if rel.len() > 0 && rel[0] == '/' {
        rel
    } else if base.len() == 0 || base.last() == '/' {
        base + rel
    } else {
        base + seq!['/'] + rel
    }
}

/// Join a relative path onto a base.
pub fn join(base: &str, rel: &str) -> (r: String)
    ensures
        r@ == join_spec(base@, rel@),
{
    let rc = chars_of(rel);
    let bc = chars_of(base);
    let mut out = String::new();
    if rc.len() > 0 && rc[0] == '/' {
        push_str(&mut out, rel);
        return out;
    }
    push_str(&mut out, base);
    if !(bc.len() == 0 || bc[bc.len() - 1] == '/') {
        push_chars(&mut out, &['/']);
    }
    push_str(&mut out, rel);
    out
}

/// The folder names a temper-home goes by.
pub open spec fn home_names() -> Seq<Seq<char>> {
    seq!["steel"@, "temper-home"@, ".temper"@]
}

/// Directories a checkout tends to live in.
pub open spec fn dev_parents() -> Seq<Seq<char>> {
    seq!["Developer"@, "developer"@, "dev"@, "src"@, "code"@, "Code"@, "projects"@, "Projects"@, "git"@, "repos"@]
}

/// Home-root folders of the common sync clients.
pub open spec fn sync_dirs() -> Seq<Seq<char>> {
    seq!["Nextcloud"@, "Dropbox"@, "OneDrive"@, "ProtonDrive"@, "Proton Drive"@, "Google Drive"@, "Sync"@]
}

pub open spec fn joined(base: Seq<char>, rels: Seq<Seq<char>>) -> Seq<Seq<char>> {
    rels.map_values(|r: Seq<char>| join_spec(base, r))
}

/// The roots a scan looks under, in order: the home, each development
/// parent, each cloud-storage client folder (as listed), iCloud Drive, each
/// sync client folder, `/media` and the user's `/run/media`.
pub open spec fn scan_roots_spec(home: Seq<char>, cloud: Seq<Seq<char>>, user: Seq<char>) -> Seq<Seq<char>> {
    seq![home] + joined(home, dev_parents()) + cloud
        + seq![join_spec(home, "Library/Mobile Documents/com~apple~CloudDocs"@)]
        + joined(home, sync_dirs())
        + seq!["/media"@, join_spec("/run/media"@, user)]
}

fn push_joined(out: &mut Vec<String>, base: &str, rels: &[&str])
    ensures
        str_views(final(out)@) == str_views(old(out)@) + joined(base@, rels@.map_values(|r: &str| r@)),
{
    let ghost start = str_views(out@);
    let ghost rv = rels@.map_values(|r: &str| r@);
    let mut i: usize = 0;
    while i < rels.len()
        invariant
            i <= rels@.len(),
            rv == rels@.map_values(|r: &str| r@),
            str_views(out@) == start + joined(base@, rv.take(i as int)),
        decreases rels.len() - i,
    {
        let j = join(base, rels[i]);
        let ghost before = str_views(out@);
        out.push(j);
        assert(str_views(out@) =~= before.push(join_spec(base@, rv[i as int])));
        assert(joined(base@, rv.take(i as int + 1)) =~= joined(base@, rv.take(i as int)).push(join_spec(base@, rv[i as int])));
        i += 1;
    }
    assert(rv.take(rels@.len() as int) =~= rv);
}

fn push_own(out: &mut Vec<String>, s: &str)
    ensures
        str_views(final(out)@) == str_views(old(out)@).push(s@),
{
    let mut t = String::new();
    push_str(&mut t, s);
    let ghost before = str_views(out@);
    out.push(t);
    assert(str_views(out@) =~= before.push(s@));
}

/// The roots a scan looks under. `cloud` lists the client folders found
/// under `Library/CloudStorage`; `user` is the login name.
pub fn scan_roots(home: &str, cloud: &[String], user: &str) -> (r: Vec<String>)
    ensures
        str_views(r@) == scan_roots_spec(home@, str_views(cloud@), user@),
{
    let mut out: Vec<String> = Vec::new();
    push_own(&mut out, home);
    let parents: [&str; 10] = ["Developer", "developer", "dev", "src", "code", "Code", "projects", "Projects", "git", "repos"];
    assert(parents@.map_values(|r: &str| r@) =~= dev_parents());
    push_joined(&mut out, home, &parents);
    let mut i: usize = 0;
    let ghost mid = str_views(out@);
    while i < cloud.len()
        invariant
            i <= cloud@.len(),
            str_views(out@) == mid + str_views(cloud@).take(i as int),
        decreases cloud.len() - i,
    {
        push_own(&mut out, cloud[i].as_str());
        assert(str_views(cloud@).take(i as int + 1) =~= str_views(cloud@).take(i as int).push(cloud@[i as int]@));
        i += 1;
    }
    assert(str_views(cloud@).take(cloud@.len() as int) =~= str_views(cloud@));
    let icloud = join(home, "Library/Mobile Documents/com~apple~CloudDocs");
    let ghost before = str_views(out@);
    out.push(icloud);
    assert(str_views(out@) =~= before.push(join_spec(home@, "Library/Mobile Documents/com~apple~CloudDocs"@)));
    let syncs: [&str; 7] = ["Nextcloud", "Dropbox", "OneDrive", "ProtonDrive", "Proton Drive", "Google Drive", "Sync"];
    assert(syncs@.map_values(|r: &str| r@) =~= sync_dirs());
    push_joined(&mut out, home, &syncs);
    push_own(&mut out, "/media");
    let media = join("/run/media", user);
    let ghost before2 = str_views(out@);
    out.push(media);
    assert(str_views(out@) =~= before2.push(join_spec("/run/media"@, user@)));
    assert(str_views(out@) =~= scan_roots_spec(home@, str_views(cloud@), user@));
    out
}

/// Every candidate folder: each root joined with each home name, roots in
/// order.
pub open spec fn candidates_spec(roots: Seq<Seq<char>>) -> Seq<Seq<char>>
    decreases roots.len(),
{
    if roots.len() == 0 {
        Seq::empty()
    } else {
        candidates_spec(roots.drop_last()) + joined(roots.last(), home_names())
    }
}

/// The folders a scan checks for a manifest.
pub fn scan_candidates_in(roots: &[String]) -> (r: Vec<String>)
    ensures
        str_views(r@) == candidates_spec(str_views(roots@)),
{
    let names: [&str; 3] = ["steel", "temper-home", ".temper"];
    assert(names@.map_values(|r: &str| r@) =~= home_names());
    let mut out: Vec<String> = Vec::new();
    let mut i: usize = 0;
    while i < roots.len()
        invariant
            i <= roots@.len(),
            names@.map_values(|r: &str| r@) == home_names(),
            str_views(out@) == candidates_spec(str_views(roots@).take(i as int)),
        decreases roots.len() - i,
    {
        push_joined(&mut out, roots[i].as_str(), &names);
        proof {
            let t = str_views(roots@).take(i as int + 1);
            assert(t.drop_last() =~= str_views(roots@).take(i as int));
            assert(t.last() == roots@[i as int]@);
        }
        i += 1;
    }
    assert(str_views(roots@).take(roots@.len() as int) =~= str_views(roots@));
    out
}

/// The first candidate of each canonical directory, in order.
pub open spec fn dedup_spec(found: Seq<(Seq<char>, Seq<char>)>) -> Seq<(Seq<char>, Seq<char>)>
    decreases found.len(),
{
    if found.len() == 0 {
        Seq::empty()
    } else {
        let d = dedup_spec(found.drop_last());
        if d.map_values(|x: (Seq<char>, Seq<char>)| x.1).contains(found.last().1) {
            d
        } else {
            d.push(found.last())
        }
    }
}

pub open spec fn found_views(v: Seq<(String, String)>) -> Seq<(Seq<char>, Seq<char>)> {
    v.map_values(|x: (String, String)| (x.0@, x.1@))
}

/// Candidates that hold a manifest, as `(path, canonical path)`, reduced to
/// the first of each canonical directory: an aliased root (a symlink, a
/// case-insensitive file system) is one home, not several.
pub fn dedup_candidates(found: Vec<(String, String)>) -> (r: Vec<String>)
    ensures
        str_views(r@) == dedup_spec(found_views(found@)).map_values(|x: (Seq<char>, Seq<char>)| x.0),
{
    let ghost fv = found_views(found@);
    let mut kept: Vec<(String, String)> = Vec::new();
    let mut i: usize = 0;
    while i < found.len()
        invariant
            i <= found@.len(),
            fv == found_views(found@),
            found_views(kept@) == dedup_spec(fv.take(i as int)),
        decreases found.len() - i,
    {
        let ghost d = dedup_spec(fv.take(i as int));
        let ghost keys = d.map_values(|x: (Seq<char>, Seq<char>)| x.1);
        let mut seen = false;
        let mut k: usize = 0;
        while k < kept.len()
            invariant
                k <= kept@.len(),
                found_views(kept@) == d,
                keys == d.map_values(|x: (Seq<char>, Seq<char>)| x.1),
                seen == keys.take(k as int).contains(found@[i as int].1@),
                i < found@.len(),
            decreases kept.len() - k,
        {
            let hit = str_eq(kept[k].1.as_str(), found[i].1.as_str());
            proof {
                let a = keys.take(k as int);
                let b = keys.take(k as int + 1);
                assert(b =~= a.push(keys[k as int]));
                assert(keys[k as int] == kept@[k as int].1@);
                let t = found@[i as int].1@;
                if hit {
                    assert(b[k as int] == t);
                }
                if b.contains(t) {
                    let w = choose|w: int| 0 <= w < b.len() && b[w] == t;
                    if w < k {
                        assert(a[w] == t);
                    }
                }
                if a.contains(t) {
                    let w = choose|w: int| 0 <= w < a.len() && a[w] == t;
                    assert(b[w] == t);
                }
            }
            seen = seen || hit;
            k += 1;
        }
        proof {
            assert(keys.take(kept@.len() as int) =~= keys);
            let t = fv.take(i as int + 1);
            assert(t.drop_last() =~= fv.take(i as int));
            assert(t.last() == (found@[i as int].0@, found@[i as int].1@));
        }
        if !seen {
            let mut a = String::new();
            push_str(&mut a, found[i].0.as_str());
            let mut b = String::new();
            push_str(&mut b, found[i].1.as_str());
            let ghost before = found_views(kept@);
            kept.push((a, b));
            assert(found_views(kept@) =~= before.push((found@[i as int].0@, found@[i as int].1@)));
        }
        i += 1;
    }
    assert(fv.take(found@.len() as int) =~= fv);
    let mut out: Vec<String> = Vec::new();
    let mut j: usize = 0;
    while j < kept.len()
        invariant
            j <= kept@.len(),
            str_views(out@) == found_views(kept@).map_values(|x: (Seq<char>, Seq<char>)| x.0).take(j as int),
        decreases kept.len() - j,
    {
        push_own(&mut out, kept[j].0.as_str());
        assert(found_views(kept@).map_values(|x: (Seq<char>, Seq<char>)| x.0).take(j as int + 1)
            =~= found_views(kept@).map_values(|x: (Seq<char>, Seq<char>)| x.0).take(j as int).push(kept@[j as int].0@));
        j += 1;
    }
    assert(found_views(kept@).map_values(|x: (Seq<char>, Seq<char>)| x.0).take(kept@.len() as int)
        =~= found_views(kept@).map_values(|x: (Seq<char>, Seq<char>)| x.0));
    out
}

/// What a scan concludes.
#[derive(Debug, Clone, PartialEq, Eq)]
pub enum ScanVerdict {
    /// Nothing found anywhere: point temper at a folder, or create one.
    NoneFound,
    /// Exactly one folder: use it.
    Found(String),
    /// Several folders: refuse to guess and list them.
    Several(Vec<String>),
}

/// The verdict on a scan's candidates.
pub fn scan_verdict(candidates: Vec<String>) -> (r: ScanVerdict)
    ensures
        candidates@.len() == 0 ==> r == ScanVerdict::NoneFound,
        candidates@.len() == 1 ==> r == ScanVerdict::Found(candidates@[0]),
        candidates@.len() > 1 ==> r == ScanVerdict::Several(candidates),
{
    if candidates.len() == 0 {
        ScanVerdict::NoneFound
    } else if candidates.len() == 1 {
        let mut c = candidates;
        let ghost v = c@;
        let one = c.remove(0);
        assert(one == v[0]);
        ScanVerdict::Found(one)
    } else {
        ScanVerdict::Several(candidates)
    }
}

/// The pointer file under a config base: `<base>/temper/home`.
pub fn pointer_in(base: &str) -> (r: String)
    ensures
        r@ == join_spec(join_spec(base@, "temper"@), "home"@),
{
    let t = join(base, "temper");
    join(t.as_str(), "home")
}

} // verus!
