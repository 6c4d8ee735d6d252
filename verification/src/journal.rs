//! Content-addressed, after-hash-guarded undo. A mutating run records one
//! minimal inverse per change; undo walks them newest first and reverts each
//! only while its target still is what the run left behind.
//!
//! The journal and every revert decision are here; reading files, dconf and
//! the clock, and performing a revert, are the caller's.
use vstd::prelude::*;
use crate::dconf::{strip_dump, strip_spec};
use crate::manifest::str_views;
use crate::plan::str_eq;
use crate::text::{chars_of, decimal, push_chars, push_decimal, push_str, same};

verus! {

/// The BLAKE3 digest of some bytes, as lowercase hex.
pub uninterp spec fn blake3_hex(bytes: Seq<u8>) -> Seq<char>;

/// Calls `blake3::hash` and renders the digest with `Hash::to_hex`. The
/// contract names the result and claims nothing more of it.
#[verifier::external_body]
fn blake3_hash_hex(bytes: &[u8]) -> (r: String)
    ensures
        r@ == blake3_hex(bytes@),
{
    blake3::hash(bytes).to_hex().to_string()
}

/// The content hash the journal names objects and guards by.
pub fn hash(bytes: &[u8]) -> (r: String)
    ensures
        r@ == blake3_hex(bytes@),
{
    blake3_hash_hex(bytes)
}

/// The content hash of a text's UTF-8 bytes.
pub fn hash_text(s: &str) -> (r: String)
    ensures
        r@ == blake3_hex(vstd::utf8::encode_utf8(s@)),
{
    hash(s.as_bytes())
}

/// One recorded change and how to take it back.
#[derive(Debug, Clone, PartialEq, Eq)]
pub enum Entry {
    /// The run created the file; undo deletes it while it still hashes to
    /// what the run wrote.
    Create { path: String, hash: String },
    /// The run overwrote the file; undo restores the prior bytes (stored as
    /// object `before`) while it still hashes to `after`.
    Restore { path: String, before: String, after: String },
    /// A `setkey(dconf)` write: the prior value (none if unset) and the value
    /// written, the revert guard.
    DconfKey { key: String, before: Option<String>, after: String },
    /// A whole-subtree `dconf load`: the object holding the unfiltered prior
    /// dump, and the hash of the strip-filtered dump just after, the guard.
    DconfTree { path: String, strip: Vec<String>, before: String, after: String },
    /// Packages this run newly installed.
    PackagesInstalled { provider: String, packages: Vec<String> },
    /// A change undo cannot take back, recorded so the run exists.
    Unrevertible { what: String },
    /// An entry written by a newer version; undo skips it.
    Unknown,
}

pub open spec fn is_create(e: Entry, path: Seq<char>, h: Seq<char>) -> bool {
    match e {
        Entry::Create { path: p, hash: x } => p@ == path && x@ == h,
        _ => false,
    }
}

pub open spec fn is_restore(e: Entry, path: Seq<char>, before: Seq<char>, after: Seq<char>) -> bool {
    match e {
        Entry::Restore { path: p, before: b, after: a } => p@ == path && b@ == before && a@ == after,
        _ => false,
    }
}

pub open spec fn is_dconf_key(e: Entry, key: Seq<char>, before: Option<String>, after: String) -> bool {
    match e {
        Entry::DconfKey { key: k, before: b, after: a } => k@ == key && b == before && a == after,
        _ => false,
    }
}

pub open spec fn is_dconf_tree(e: Entry, path: Seq<char>, strip: Seq<Seq<char>>, before: Seq<char>, after: Seq<char>) -> bool {
    match e {
        Entry::DconfTree { path: p, strip: s, before: b, after: a } => p@ == path && str_views(s@) == strip && b@ == before
            && a@ == after,
        _ => false,
    }
}

pub open spec fn is_packages(e: Entry, provider: Seq<char>, packages: Seq<Seq<char>>) -> bool {
    match e {
        Entry::PackagesInstalled { provider: p, packages: ps } => p@ == provider && str_views(ps@) == packages,
        _ => false,
    }
}

pub open spec fn is_unrevertible(e: Entry, what: Seq<char>) -> bool {
    match e {
        Entry::Unrevertible { what: w } => w@ == what,
        _ => false,
    }
}

/// A run's journal: where state lives, the run's id, and its entries.
pub struct Journal {
    root: String,
    id: String,
    entries: Vec<Entry>,
}

impl View for Journal {
    type V = Seq<Entry>;

    closed spec fn view(&self) -> Seq<Entry> {
        self.entries@
    }
}

/// `s` left-padded with zeros to `w` characters.
pub open spec fn zero_pad(s: Seq<char>, w: nat) -> Seq<char> {
    if s.len() >= w {
        s
    } else {
        Seq::new((w - s.len()) as nat, |i: int| '0') + s
    }
}

/// A run id: the seconds, a dash, and the nanoseconds padded to nine digits.
pub open spec fn run_id(secs: u64, nanos: u32) -> Seq<char> {
    decimal(secs as nat) + seq!['-'] + zero_pad(decimal(nanos as nat), 9)
}

/// Each string of `v`, copied.
fn copy_strings(v: &[String]) -> (r: Vec<String>)
    ensures
        str_views(r@) == str_views(v@),
{
    let mut out: Vec<String> = Vec::new();
    let mut i: usize = 0;
    while i < v.len()
        invariant
            i <= v@.len(),
            str_views(out@) == str_views(v@).take(i as int),
        decreases v.len() - i,
    {
        let s = own(v[i].as_str());
        let ghost before = str_views(out@);
        out.push(s);
        assert(str_views(out@) =~= before.push(v@[i as int]@));
        assert(str_views(v@).take(i as int + 1) =~= str_views(v@).take(i as int).push(v@[i as int]@));
        i += 1;
    }
    assert(str_views(v@).take(v@.len() as int) =~= str_views(v@));
    out
}

fn own(s: &str) -> (r: String)
    ensures
        r@ == s@,
{
    let mut r = String::new();
    push_str(&mut r, s);
    r
}

impl Journal {
    pub closed spec fn root_view(&self) -> Seq<char> {
        self.root@
    }

    pub closed spec fn id_view(&self) -> Seq<char> {
        self.id@
    }

    /// A new, empty journal under `root`, its id taken from the clock
    /// reading `secs`.`nanos`.
    pub fn begin(root: String, secs: u64, nanos: u32) -> (r: Journal)
        ensures
            r@.len() == 0,
            r.root_view() == root@,
            r.id_view() == run_id(secs, nanos),
    {
        let mut id = String::new();
        push_decimal(&mut id, secs);
        push_chars(&mut id, &['-']);
        let mut ns = String::new();
        push_decimal(&mut ns, nanos as u64);
        let d = chars_of(ns.as_str());
        let mut k: usize = d.len();
        let ghost start = id@;
        while k < 9
            invariant
                d@ == decimal(nanos as nat),
                d@.len() <= k <= 9 || (d@.len() > 9 && k == d@.len()),
                id@ == start + Seq::new((k - d@.len()) as nat, |i: int| '0'),
            decreases 9 - k,
        {
            push_chars(&mut id, &['0']);
            k += 1;
            assert(id@ =~= start + Seq::new((k - d@.len()) as nat, |i: int| '0'));
        }
        push_chars(&mut id, d.as_slice());
        proof {
            assert(start == decimal(secs as nat) + seq!['-']);
            if d@.len() >= 9 {
                assert(Seq::new((k - d@.len()) as nat, |i: int| '0') =~= Seq::<char>::empty());
                assert(id@ =~= run_id(secs, nanos));
            } else {
                assert(id@ =~= run_id(secs, nanos));
            }
        }
        Journal { root, id, entries: Vec::new() }
    }

    /// Where state lives.
    pub fn root(&self) -> (r: &str)
        ensures
            r@ == self.root_view(),
    {
        self.root.as_str()
    }

    /// The run's id.
    pub fn id(&self) -> (r: &str)
        ensures
            r@ == self.id_view(),
    {
        self.id.as_str()
    }

    /// The entries recorded so far, oldest first.
    pub fn entries(&self) -> (r: &Vec<Entry>)
        ensures
            r@ == self@,
    {
        &self.entries
    }

    /// Record that `path` is being written: `before` its prior bytes (none
    /// if it did not exist), `after` the bytes written. The prior bytes are
    /// kept as the object named by their hash, which the caller stores.
    pub fn record_write(&mut self, path: &str, before: Option<&[u8]>, after: &[u8])
        ensures
            final(self).root_view() == old(self).root_view(),
            final(self).id_view() == old(self).id_view(),
            final(self)@.len() == old(self)@.len() + 1,
            final(self)@.drop_last() == old(self)@,
            match before {
                None => is_create(final(self)@.last(), path@, blake3_hex(after@)),
                Some(b) => is_restore(final(self)@.last(), path@, blake3_hex(b@), blake3_hex(after@)),
            },
    {
        let e = match before {
            None => Entry::Create { path: own(path), hash: hash(after) },
            Some(b) => Entry::Restore { path: own(path), before: hash(b), after: hash(after) },
        };
        self.entries.push(e);
        assert(self.entries@.drop_last() =~= old(self).entries@);
    }

    /// Record packages a converge newly installed; an empty set adds nothing.
    pub fn record_packages(&mut self, provider: &str, packages: &[String])
        ensures
            final(self).root_view() == old(self).root_view(),
            final(self).id_view() == old(self).id_view(),
            packages@.len() == 0 ==> final(self)@ == old(self)@,
            packages@.len() > 0 ==> final(self)@.drop_last() == old(self)@ && final(self)@.len() == old(self)@.len() + 1
                && is_packages(final(self)@.last(), provider@, str_views(packages@)),
    {
        if packages.len() == 0 {
            return;
        }
        self.entries.push(Entry::PackagesInstalled { provider: own(provider), packages: copy_strings(packages) });
        assert(self.entries@.drop_last() =~= old(self).entries@);
    }

    /// Record a `setkey(dconf)` write.
    pub fn record_dconf(&mut self, key: &str, before: Option<String>, after: String)
        ensures
            final(self).root_view() == old(self).root_view(),
            final(self).id_view() == old(self).id_view(),
            final(self)@.len() == old(self)@.len() + 1,
            final(self)@.drop_last() == old(self)@,
            is_dconf_key(final(self)@.last(), key@, before, after),
    {
        self.entries.push(Entry::DconfKey { key: own(key), before, after });
        assert(self.entries@.drop_last() =~= old(self).entries@);
    }

    /// Record a whole-subtree `dconf load`: `before` the unfiltered prior
    /// dump (kept as the object named by its hash, which the caller stores),
    /// `after_filtered` the post-load dump already put through `strip`.
    pub fn record_dconf_tree(&mut self, path: &str, strip: &[String], before: &[u8], after_filtered: &str)
        ensures
            final(self).root_view() == old(self).root_view(),
            final(self).id_view() == old(self).id_view(),
            final(self)@.len() == old(self)@.len() + 1,
            final(self)@.drop_last() == old(self)@,
            is_dconf_tree(final(self)@.last(), path@, str_views(strip@), blake3_hex(before@),
                blake3_hex(vstd::utf8::encode_utf8(after_filtered@))),
    {
        let e = Entry::DconfTree { path: own(path), strip: copy_strings(strip), before: hash(before), after: hash_text(after_filtered) };
        self.entries.push(e);
        assert(self.entries@.drop_last() =~= old(self).entries@);
    }

    /// Record a change undo cannot take back, so the run is still written.
    pub fn record_unrevertible(&mut self, what: &str)
        ensures
            final(self).root_view() == old(self).root_view(),
            final(self).id_view() == old(self).id_view(),
            final(self)@.len() == old(self)@.len() + 1,
            final(self)@.drop_last() == old(self)@,
            is_unrevertible(final(self)@.last(), what@),
    {
        self.entries.push(Entry::Unrevertible { what: own(what) });
        assert(self.entries@.drop_last() =~= old(self).entries@);
    }

    /// Whether committing writes a run at all: only when something was
    /// recorded.
    pub fn has_entries(&self) -> (r: bool)
        ensures
            r == (self@.len() > 0),
    {
        self.entries.len() > 0
    }
}


// ---------------------------------------------------------------------------
// Undo: one decision per entry, newest entry first.

/// What an entry's revert guard must read before it can decide.
#[derive(Debug, Clone, PartialEq, Eq)]
pub enum Need {
    /// Nothing: the entry decides on its own.
    Nothing,
    /// The live value of this dconf key.
    DconfValue(String),
    /// The live dump of this dconf subtree.
    DconfDump(String),
    /// The current bytes of this file.
    File(String),
}

/// What the caller read for an entry's guard.
#[derive(Debug, Clone, PartialEq, Eq)]
pub enum Seen {
    Nothing,
    /// A dconf key's value, none when unset or unreadable.
    Value(Option<String>),
    /// A subtree's dump, none when it could not be read.
    Dump(Option<String>),
    /// A file's bytes, none when it is not a readable file.
    Bytes(Option<Vec<u8>>),
}

/// Why an entry was left alone.
#[derive(Debug, Clone, Copy, PartialEq, Eq, Structural)]
pub enum SkipWhy {
    /// The change is of a kind undo cannot take back.
    CannotRevert,
    /// The target changed since the run wrote it.
    Changed,
    /// The file is gone since the run wrote it.
    Gone,
    /// The entry was written by a newer version.
    UnknownEntry,
}

/// A revert to perform.
#[derive(Debug, Clone, PartialEq, Eq)]
pub enum Revert {
    Uninstall { provider: String, packages: Vec<String> },
    DconfWrite { key: String, value: String },
    DconfReset { key: String },
    /// Reset the subtree, then load the stored object into it.
    LoadTree { path: String, object: String },
    RemoveFile { path: String },
    /// Write the stored object back over the file.
    RestoreFile { path: String, object: String },
}

/// The decision for one entry.
#[derive(Debug, Clone, PartialEq, Eq)]
pub enum Step {
    /// Leave it, counting `count` skipped.
    Skip { count: usize, why: SkipWhy },
    /// A dry run: count `count` as reverted, touching nothing.
    WouldRevert { count: usize },
    /// Perform the revert; it counts `count` either way it goes.
    Perform { revert: Revert, count: usize },
}

/// The read an entry's guard needs.
pub open spec fn need_ok(r: Need, e: Entry) -> bool {
    match e {
        Entry::DconfKey { key, .. } => match r {
            Need::DconfValue(k) => k@ == key@,
            _ => false,
        },
        Entry::DconfTree { path, .. } => match r {
            Need::DconfDump(p) => p@ == path@,
            _ => false,
        },
        Entry::Create { path, .. } | Entry::Restore { path, .. } => match r {
            Need::File(p) => p@ == path@,
            _ => false,
        },
        _ => r == Need::Nothing,
    }
}

/// What the guard of `entry` must read first.
pub fn need(entry: &Entry) -> (r: Need)
    ensures
        need_ok(r, *entry),
{
    match entry {
        Entry::DconfKey { key, .. } => Need::DconfValue(own(key.as_str())),
        Entry::DconfTree { path, .. } => Need::DconfDump(own(path.as_str())),
        Entry::Create { path, .. } => Need::File(own(path.as_str())),
        Entry::Restore { path, .. } => Need::File(own(path.as_str())),
        _ => Need::Nothing,
    }
}

/// A dconf key still holds what the run wrote.
pub open spec fn key_guard(seen: Seen, after: String) -> bool {
    match seen {
        Seen::Value(Some(v)) => v@ == after@,
        _ => false,
    }
}

/// A subtree, put through the entry's strip filter, still hashes to what
/// the run left.
pub open spec fn tree_guard(seen: Seen, strip: Seq<Seq<char>>, after: String) -> bool {
    match seen {
        Seen::Dump(Some(d)) => blake3_hex(vstd::utf8::encode_utf8(strip_spec(d@, strip))) == after@,
        _ => false,
    }
}

/// The file bytes seen, if any.
pub open spec fn file_seen(seen: Seen) -> Option<Seq<u8>> {
    match seen {
        Seen::Bytes(Some(b)) => Some(b@),
        _ => None,
    }
}

/// A skip, a dry-run count, or the revert, once a guard has passed.
pub open spec fn act_ok(r: Step, dry: bool, n: nat, act: spec_fn(Revert) -> bool) -> bool {
    if dry {
        r == Step::WouldRevert { count: n as usize }
    } else {
        match r {
            Step::Perform { revert, count } => count == n && act(revert),
            _ => false,
        }
    }
}

pub open spec fn is_skip(r: Step, n: nat, why: SkipWhy) -> bool {
    r == Step::Skip { count: n as usize, why }
}

/// The decision undo makes for one entry, given what its guard read.
pub open spec fn step_ok(r: Step, e: Entry, dry: bool, seen: Seen) -> bool {
    match e {
        Entry::PackagesInstalled { provider, packages } => act_ok(r, dry, packages@.len(),
            |v: Revert| match v {
                Revert::Uninstall { provider: p, packages: ps } => p@ == provider@ && str_views(ps@) == str_views(packages@),
                _ => false,
            }),
        Entry::Unrevertible { .. } => is_skip(r, 1, SkipWhy::CannotRevert),
        Entry::Unknown => is_skip(r, 1, SkipWhy::UnknownEntry),
        Entry::DconfKey { key, before, after } => if !key_guard(seen, after) {
            is_skip(r, 1, SkipWhy::Changed)
        } else {
            act_ok(r, dry, 1, |v: Revert| match (v, before) {
                (Revert::DconfWrite { key: k, value }, Some(b)) => k@ == key@ && value@ == b@,
                (Revert::DconfReset { key: k }, None) => k@ == key@,
                _ => false,
            })
        },
        Entry::DconfTree { path, strip, before, after } => if !tree_guard(seen, str_views(strip@), after) {
            is_skip(r, 1, SkipWhy::Changed)
        } else {
            act_ok(r, dry, 1, |v: Revert| match v {
                Revert::LoadTree { path: p, object } => p@ == path@ && object@ == before@,
                _ => false,
            })
        },
        Entry::Create { path, hash } => match file_seen(seen) {
            None => is_skip(r, 1, SkipWhy::Gone),
            Some(b) => if blake3_hex(b) != hash@ {
                is_skip(r, 1, SkipWhy::Changed)
            } else {
                act_ok(r, dry, 1, |v: Revert| match v {
                    Revert::RemoveFile { path: p } => p@ == path@,
                    _ => false,
                })
            },
        },
        Entry::Restore { path, before, after } => match file_seen(seen) {
            None => is_skip(r, 1, SkipWhy::Gone),
            Some(b) => if blake3_hex(b) != after@ {
                is_skip(r, 1, SkipWhy::Changed)
            } else {
                act_ok(r, dry, 1, |v: Revert| match v {
                    Revert::RestoreFile { path: p, object } => p@ == path@ && object@ == before@,
                    _ => false,
                })
            },
        },
    }
}

fn seen_bytes(seen: &Seen) -> (r: Option<&Vec<u8>>)
    ensures
        match r {
            Some(b) => file_seen(*seen) == Some(b@),
            None => file_seen(*seen) is None,
        },
{
    match seen {
        Seen::Bytes(Some(b)) => Some(b),
        _ => None,
    }
}

/// The decision for one entry: a package entry always reverts (no guard);
/// an unrevertible or unknown one is skipped; a dconf key reverts only while
/// it still holds what the run wrote, a subtree only while its filtered dump
/// still hashes to what the run left, and a file only while it exists and
/// still hashes to what the run left. A dry run counts a revert it would
/// make without making it.
pub fn step(entry: &Entry, dry_run: bool, seen: &Seen) -> (r: Step)
    ensures
        step_ok(r, *entry, dry_run, *seen),
{
    match entry {
        Entry::PackagesInstalled { provider, packages } => {
            let n = packages.len();
            if dry_run {
                Step::WouldRevert { count: n }
            } else {
                Step::Perform { revert: Revert::Uninstall { provider: own(provider.as_str()), packages: copy_strings(packages.as_slice()) }, count: n }
            }
        },
        Entry::Unrevertible { .. } => Step::Skip { count: 1, why: SkipWhy::CannotRevert },
        Entry::Unknown => Step::Skip { count: 1, why: SkipWhy::UnknownEntry },
        Entry::DconfKey { key, before, after } => {
            let holds = match seen {
                Seen::Value(Some(v)) => str_eq(v.as_str(), after.as_str()),
                _ => false,
            };
            if !holds {
                Step::Skip { count: 1, why: SkipWhy::Changed }
            } else if dry_run {
                Step::WouldRevert { count: 1 }
            } else {
                let revert = match before {
                    Some(b) => Revert::DconfWrite { key: own(key.as_str()), value: own(b.as_str()) },
                    None => Revert::DconfReset { key: own(key.as_str()) },
                };
                Step::Perform { revert, count: 1 }
            }
        },
        Entry::DconfTree { path, strip, before, after } => {
            let holds = match seen {
                Seen::Dump(Some(d)) => {
                    let filtered = strip_dump(d.as_str(), strip.as_slice());
                    let h = hash_text(filtered.as_str());
                    proof {
                        assert(strip@.map_values(|p: String| p@) =~= str_views(strip@));
                    }
                    str_eq(h.as_str(), after.as_str())
                },
                _ => false,
            };
            if !holds {
                Step::Skip { count: 1, why: SkipWhy::Changed }
            } else if dry_run {
                Step::WouldRevert { count: 1 }
            } else {
                Step::Perform { revert: Revert::LoadTree { path: own(path.as_str()), object: own(before.as_str()) }, count: 1 }
            }
        },
        Entry::Create { path, hash: expect } => match seen_bytes(seen) {
            None => Step::Skip { count: 1, why: SkipWhy::Gone },
            Some(b) => {
                let h = hash(b.as_slice());
                if !str_eq(h.as_str(), expect.as_str()) {
                    Step::Skip { count: 1, why: SkipWhy::Changed }
                } else if dry_run {
                    Step::WouldRevert { count: 1 }
                } else {
                    Step::Perform { revert: Revert::RemoveFile { path: own(path.as_str()) }, count: 1 }
                }
            },
        },
        Entry::Restore { path, before, after } => match seen_bytes(seen) {
            None => Step::Skip { count: 1, why: SkipWhy::Gone },
            Some(b) => {
                let h = hash(b.as_slice());
                if !str_eq(h.as_str(), after.as_str()) {
                    Step::Skip { count: 1, why: SkipWhy::Changed }
                } else if dry_run {
                    Step::WouldRevert { count: 1 }
                } else {
                    Step::Perform { revert: Revert::RestoreFile { path: own(path.as_str()), object: own(before.as_str()) }, count: 1 }
                }
            },
        },
    }
}

/// Reverted and skipped counts over an undo.
#[derive(Debug, Clone, Copy, PartialEq, Eq, Structural)]
pub struct UndoTally {
    pub reverted: usize,
    pub skipped: usize,
}

/// How many a step counts, and whether as reverted.
pub open spec fn step_count(s: Step, done: bool) -> (nat, bool) {
    match s {
        Step::Skip { count, .. } => (count as nat, false),
        Step::WouldRevert { count } => (count as nat, true),
        Step::Perform { count, .. } => (count as nat, done),
    }
}

impl UndoTally {
    pub fn new() -> (r: UndoTally)
        ensures
            r.reverted == 0 && r.skipped == 0,
    {
        UndoTally { reverted: 0, skipped: 0 }
    }

    /// Count a step; `done` says whether a performed revert succeeded (a
    /// failed one counts as skipped).
    pub fn settle(&mut self, s: &Step, done: bool)
        requires
            old(self).reverted + step_count(*s, done).0 <= usize::MAX,
            old(self).skipped + step_count(*s, done).0 <= usize::MAX,
        ensures
            step_count(*s, done).1 ==> final(self).reverted == old(self).reverted + step_count(*s, done).0
                && final(self).skipped == old(self).skipped,
            !step_count(*s, done).1 ==> final(self).skipped == old(self).skipped + step_count(*s, done).0
                && final(self).reverted == old(self).reverted,
    {
        match s {
            Step::Skip { count, .. } => self.skipped = self.skipped + *count,
            Step::WouldRevert { count } => self.reverted = self.reverted + *count,
            Step::Perform { count, .. } => if done {
                self.reverted = self.reverted + *count
            } else {
                self.skipped = self.skipped + *count
            },
        }
    }
}

/// Whether undo removes the run afterwards: only a real run in which
/// nothing was skipped; otherwise the run stays to be inspected or retried.
pub fn discard_run(dry_run: bool, tally: &UndoTally) -> (r: bool)
    ensures
        r == (!dry_run && tally.skipped == 0),
{
    !dry_run && tally.skipped == 0
}

/// The command that un-installs packages a provider installed.
#[derive(Debug, Clone, PartialEq, Eq)]
pub enum UninstallCommand {
    /// Nothing to remove: trivially done.
    NothingToDo,
    /// Not a provider undo knows how to reverse: not done.
    UnknownProvider,
    /// Run this argv.
    Run(Vec<String>),
}

/// The leading words of a provider's un-install command.
pub open spec fn uninstall_base(provider: Seq<char>) -> Option<Seq<Seq<char>>> {
    if provider == "gnome-extensions"@ {
        Some(seq!["gext"@, "uninstall"@])
    } else if provider == "rpm-ostree"@ {
        Some(seq!["rpm-ostree"@, "uninstall"@, "--idempotent"@, "-y"@])
    } else if provider == "flatpak"@ {
        Some(seq!["flatpak"@, "uninstall"@, "-y"@, "--noninteractive"@, "--user"@])
    } else if provider == "brew"@ {
        Some(seq!["brew"@, "uninstall"@, "--formula"@])
    } else if provider == "cask"@ {
        Some(seq!["brew"@, "uninstall"@, "--cask"@])
    } else if provider == "mas"@ {
        Some(seq!["sudo"@, "mas"@, "uninstall"@])
    } else {
        None
    }
}

/// `code`, then `--uninstall-extension <p>` for each extension.
pub open spec fn code_uninstall(ps: Seq<Seq<char>>) -> Seq<Seq<char>>
    decreases ps.len(),
{
    if ps.len() == 0 {
        seq!["code"@]
    } else {
        code_uninstall(ps.drop_last()) + seq!["--uninstall-extension"@, ps.last()]
    }
}

fn push_word(v: &mut Vec<String>, w: &str)
    ensures
        str_views(final(v)@) == str_views(old(v)@).push(w@),
{
    let ghost before = str_views(v@);
    v.push(own(w));
    assert(str_views(v@) =~= before.push(w@));
}

/// How to un-install packages a run installed: nothing to do for an empty
/// set, a refusal for a provider undo does not know, else the argv (the
/// packages follow the provider's leading words; vscode takes one flag per
/// extension).
pub fn uninstall_command(provider: &str, packages: &[String]) -> (r: UninstallCommand)
    ensures
        packages@.len() == 0 ==> r == UninstallCommand::NothingToDo,
        packages@.len() > 0 && provider@ == "vscode"@ ==> (r matches UninstallCommand::Run(argv)
            && str_views(argv@) == code_uninstall(str_views(packages@))),
        packages@.len() > 0 && provider@ != "vscode"@ ==> match uninstall_base(provider@) {
            None => r == UninstallCommand::UnknownProvider,
            Some(base) => r matches UninstallCommand::Run(argv) && str_views(argv@) == base + str_views(packages@),
        },
{
    if packages.len() == 0 {
        return UninstallCommand::NothingToDo;
    }
    let mut argv: Vec<String> = Vec::new();
    if str_eq(provider, "vscode") {
        push_word(&mut argv, "code");
        let mut i: usize = 0;
        while i < packages.len()
            invariant
                i <= packages@.len(),
                str_views(argv@) == code_uninstall(str_views(packages@).take(i as int)),
            decreases packages.len() - i,
        {
            push_word(&mut argv, "--uninstall-extension");
            push_word(&mut argv, packages[i].as_str());
            proof {
                let t = str_views(packages@).take(i as int + 1);
                assert(t.drop_last() =~= str_views(packages@).take(i as int));
                assert(t.last() == packages@[i as int]@);
                assert(str_views(argv@) =~= code_uninstall(t));
            }
            i += 1;
        }
        assert(str_views(packages@).take(packages@.len() as int) =~= str_views(packages@));
        return UninstallCommand::Run(argv);
    }
    if str_eq(provider, "gnome-extensions") {
        push_word(&mut argv, "gext");
        push_word(&mut argv, "uninstall");
    } else if str_eq(provider, "rpm-ostree") {
        push_word(&mut argv, "rpm-ostree");
        push_word(&mut argv, "uninstall");
        push_word(&mut argv, "--idempotent");
        push_word(&mut argv, "-y");
    } else if str_eq(provider, "flatpak") {
        push_word(&mut argv, "flatpak");
        push_word(&mut argv, "uninstall");
        push_word(&mut argv, "-y");
        push_word(&mut argv, "--noninteractive");
        push_word(&mut argv, "--user");
    } else if str_eq(provider, "brew") {
        push_word(&mut argv, "brew");
        push_word(&mut argv, "uninstall");
        push_word(&mut argv, "--formula");
    } else if str_eq(provider, "cask") {
        push_word(&mut argv, "brew");
        push_word(&mut argv, "uninstall");
        push_word(&mut argv, "--cask");
    } else if str_eq(provider, "mas") {
        push_word(&mut argv, "sudo");
        push_word(&mut argv, "mas");
        push_word(&mut argv, "uninstall");
    } else {
        return UninstallCommand::UnknownProvider;
    }
    let ghost base = str_views(argv@);
    assert(uninstall_base(provider@) == Some(base));
    let mut i: usize = 0;
    while i < packages.len()
        invariant
            i <= packages@.len(),
            str_views(argv@) == base + str_views(packages@).take(i as int),
        decreases packages.len() - i,
    {
        push_word(&mut argv, packages[i].as_str());
        assert(str_views(packages@).take(i as int + 1) =~= str_views(packages@).take(i as int).push(packages@[i as int]@));
        assert(str_views(argv@) =~= base + str_views(packages@).take(i as int + 1));
        i += 1;
    }
    assert(str_views(packages@).take(packages@.len() as int) =~= str_views(packages@));
    UninstallCommand::Run(argv)
}


/// A dry run performs nothing: whatever an entry and its guard read, the
/// decision is a skip or a count.
pub proof fn law_dry_run_touches_nothing(e: Entry, seen: Seen, r: Step)
    requires
        step_ok(r, e, true, seen),
    ensures
        !(r is Perform),
{
}

/// A target that changed since the run is never clobbered: when a guard
/// fails, the decision is a skip.
pub proof fn law_changed_targets_are_skipped(e: Entry, dry: bool, seen: Seen, r: Step)
    requires
        step_ok(r, e, dry, seen),
        match e {
            Entry::DconfKey { after, .. } => !key_guard(seen, after),
            Entry::DconfTree { strip, after, .. } => !tree_guard(seen, str_views(strip@), after),
            Entry::Create { hash, .. } => !(file_seen(seen) matches Some(b) && blake3_hex(b) == hash@),
            Entry::Restore { after, .. } => !(file_seen(seen) matches Some(b) && blake3_hex(b) == after@),
            _ => false,
        },
    ensures
        r is Skip,
{
}

/// What a write recorded is what undo takes back: while the file still
/// holds the bytes the run wrote, a real undo deletes a file the run created
/// and writes back the stored prior bytes of one it overwrote.
pub proof fn law_undo_takes_back_an_untouched_write(
    e: Entry,
    path: Seq<char>,
    before: Option<Seq<u8>>,
    after: Seq<u8>,
    seen: Seen,
    r: Step,
)
    requires
        match before {
            None => is_create(e, path, blake3_hex(after)),
            Some(b) => is_restore(e, path, blake3_hex(b), blake3_hex(after)),
        },
        file_seen(seen) == Some(after),
        step_ok(r, e, false, seen),
    ensures
        match r {
            Step::Perform { revert, count } => count == 1 && match before {
                None => revert matches Revert::RemoveFile { path: p } && p@ == path,
                Some(b) => revert matches Revert::RestoreFile { path: p, object: o } && p@ == path && o@ == blake3_hex(b),
            },
            _ => false,
        },
{
}

/// A `setkey(dconf)` write is taken back while the key still holds what was
/// written: the prior value written back, or the key reset when it was
/// unset before.
pub proof fn law_undo_takes_back_an_untouched_key(e: Entry, key: Seq<char>, before: Option<String>, after: String, live: String, r: Step)
    requires
        is_dconf_key(e, key, before, after),
        live@ == after@,
        step_ok(r, e, false, Seen::Value(Some(live))),
    ensures
        match r {
            Step::Perform { revert, count } => count == 1 && match before {
                None => revert matches Revert::DconfReset { key: k } && k@ == key,
                Some(b) => revert matches Revert::DconfWrite { key: k, value: v } && k@ == key && v@ == b@,
            },
            _ => false,
        },
{
}

// ---------------------------------------------------------------------------
// Choosing a run.

/// A run on disk: its modification time (seconds, nanoseconds) and id.
pub type RunStamp = (u64, u32, String);

/// `a` was modified strictly after `b`.
pub open spec fn later(a: RunStamp, b: RunStamp) -> bool {
    a.0 > b.0 || (a.0 == b.0 && a.1 > b.1)
}

/// Where `x` goes in a list kept newest first: before the first entry it is
/// strictly later than, so equal times keep their order.
pub open spec fn newest_pos(s: Seq<RunStamp>, x: RunStamp) -> int
    decreases s.len(),
{
    if s.len() == 0 {
        0
    } else if later(x, s[0]) {
        0
    } else {
        1 + newest_pos(s.drop_first(), x)
    }
}

/// The runs ordered newest first, a stable sort.
pub open spec fn by_newest(s: Seq<RunStamp>) -> Seq<RunStamp>
    decreases s.len(),
{
    if s.len() == 0 {
        s
    } else {
        let t = by_newest(s.drop_last());
        t.insert(newest_pos(t, s.last()), s.last())
    }
}

pub open spec fn run_ids(s: Seq<RunStamp>) -> Seq<Seq<char>> {
    s.map_values(|r: RunStamp| r.2@)
}

proof fn lemma_newest_pos_bound(s: Seq<RunStamp>, x: RunStamp)
    ensures
        0 <= newest_pos(s, x) <= s.len(),
    decreases s.len(),
{
    if s.len() > 0 && !later(x, s[0]) {
        lemma_newest_pos_bound(s.drop_first(), x);
    }
}

proof fn lemma_by_newest_len(s: Seq<RunStamp>)
    ensures
        by_newest(s).len() == s.len(),
    decreases s.len(),
{
    if s.len() > 0 {
        lemma_by_newest_len(s.drop_last());
        lemma_newest_pos_bound(by_newest(s.drop_last()), s.last());
    }
}

/// The index at which `x` enters a newest-first list.
fn find_newest_pos(out: &Vec<RunStamp>, x: &RunStamp) -> (r: usize)
    ensures
        r == newest_pos(out@, *x),
{
    let mut j: usize = 0;
    assert(out@.subrange(0, out@.len() as int) =~= out@);
    while j < out.len()
        invariant
            j <= out@.len(),
            newest_pos(out@, *x) == j + newest_pos(out@.subrange(j as int, out@.len() as int), *x),
        decreases out.len() - j,
    {
        let ghost t = out@.subrange(j as int, out@.len() as int);
        assert(t[0] == out@[j as int]);
        let is_later = x.0 > out[j].0 || (x.0 == out[j].0 && x.1 > out[j].1);
        if is_later {
            return j;
        }
        assert(t.drop_first() =~= out@.subrange(j as int + 1, out@.len() as int));
        j += 1;
    }
    j
}

/// The runs newest first (stable: equal times keep their listed order),
/// as stamps.
pub fn order_newest(runs: Vec<RunStamp>) -> (r: Vec<RunStamp>)
    ensures
        r@ == by_newest(runs@),
{
    let ghost all = runs@;
    let n = runs.len();
    let mut rest = runs;
    let mut out: Vec<RunStamp> = Vec::new();
    let mut i: usize = 0;
    while rest.len() > 0
        invariant
            i + rest@.len() == n,
            all.len() == n,
            rest@ == all.subrange(i as int, n as int),
            out@ == by_newest(all.take(i as int)),
        decreases rest.len(),
    {
        let x = rest.remove(0);
        let p = find_newest_pos(&out, &x);
        proof {
            lemma_newest_pos_bound(out@, x);
            assert(all.take(i as int + 1).drop_last() =~= all.take(i as int));
            assert(all.take(i as int + 1).last() == x);
        }
        out.insert(p, x);
        i += 1;
    }
    assert(all.take(n as int) =~= all);
    out
}

/// Revertible run ids, newest first.
pub fn newest_first(runs: Vec<RunStamp>) -> (r: Vec<String>)
    ensures
        str_views(r@) == run_ids(by_newest(runs@)),
{
    let ordered = order_newest(runs);
    let mut out: Vec<String> = Vec::new();
    let mut i: usize = 0;
    while i < ordered.len()
        invariant
            i <= ordered@.len(),
            str_views(out@) == run_ids(ordered@).take(i as int),
        decreases ordered.len() - i,
    {
        let ghost before = str_views(out@);
        out.push(own(ordered[i].2.as_str()));
        assert(str_views(out@) =~= before.push(ordered@[i as int].2@));
        assert(run_ids(ordered@).take(i as int + 1) =~= run_ids(ordered@).take(i as int).push(ordered@[i as int].2@));
        i += 1;
    }
    assert(run_ids(ordered@).take(ordered@.len() as int) =~= run_ids(ordered@));
    out
}

/// The run undo takes by default: the newest (the first listed among equal
/// times), none when there is no run.
pub fn newest(runs: Vec<RunStamp>) -> (r: Option<String>)
    ensures
        runs@.len() == 0 ==> r is None,
        runs@.len() > 0 ==> (r matches Some(id) && id@ == by_newest(runs@)[0].2@),
{
    let ghost all = runs@;
    let ids = newest_first(runs);
    proof {
        lemma_by_newest_len(all);
        assert(str_views(ids@).len() == ids@.len());
        assert(run_ids(by_newest(all)).len() == all.len());
    }
    if ids.len() == 0 {
        None
    } else {
        assert(str_views(ids@)[0] == run_ids(by_newest(all))[0]);
        Some(own(ids[0].as_str()))
    }
}

} // verus!
