//! The drift report's registry and its advice: every finding kind, what
//! answers it in each direction (change the machine, or change the spec), and
//! the remediation commands a set of findings earns.
use vstd::prelude::*;
use crate::text::{chars_of, lex_less, lex_lt, lemma_lex_irrefl, lemma_lex_total, lemma_lex_trans, push_str, same, sorted_strs, starts_with};
use crate::drift::is_assert_kind;
use crate::packages::{extra_lt, extras, is_extra, is_missing, manager_str, missing, Installed, Manager, Pkg};
use crate::manifest::{pairs_map, Assert, Ignore};
use crate::drift::{assert_kind_spec, target_spec, verdict, verdict_spec, AssertSeen, EvalError};
use crate::dconf::{key_id_spec, status_spec as dconf_status, KeyDiff, SnapshotState};
use crate::primitives::{exec_state_spec, label_spec, FileState};

verus! {

/// Which side of the matrix a kind reports.
#[derive(Debug, Clone, Copy, PartialEq, Eq, Structural)]
pub enum Detects {
    /// Declared, not present.
    Missing,
    /// Present, not declared.
    Extra,
    /// Declared and present, but not equal.
    Differs,
}

/// What answers one direction of a finding.
#[derive(Debug, Clone, Copy, PartialEq, Eq)]
pub enum Answer {
    /// A command that resolves it.
    Verb(&'static str),
    /// No verb: the file a human edits, and why.
    Hand { file: &'static str, why: &'static str },
    /// The direction is meaningless for this kind, and why.
    NA(&'static str),
}

/// An answer's view: `(0, verb, "")`, `(1, file, why)` or `(2, why, "")`.
pub type AnswerV = (u8, Seq<char>, Seq<char>);

pub open spec fn answer_view(a: Answer) -> AnswerV {
    match a {
        Answer::Verb(c) => (0u8, c@, Seq::empty()),
        Answer::Hand { file, why } => (1u8, file@, why@),
        Answer::NA(w) => (2u8, w@, Seq::empty()),
    }
}

/// One finding kind, and what answers it in both directions.
#[derive(Debug, Clone)]
pub struct KindSpec {
    pub name: &'static str,
    pub detects: Detects,
    /// Change the machine to match the spec.
    pub converge: Vec<Answer>,
    /// Change the spec to match the machine.
    pub absorb: Vec<Answer>,
}

pub type KindV = (Seq<char>, Detects, Seq<AnswerV>, Seq<AnswerV>);

pub open spec fn answers_view(v: Seq<Answer>) -> Seq<AnswerV> {
    v.map_values(|a: Answer| answer_view(a))
}

pub open spec fn kind_view(k: KindSpec) -> KindV {
    (k.name@, k.detects, answers_view(k.converge@), answers_view(k.absorb@))
}

pub open spec fn kind_views(v: Seq<KindSpec>) -> Seq<KindV> {
    v.map_values(|k: KindSpec| kind_view(k))
}

pub open spec fn kind_rows_0() -> Seq<KindV> {
    seq![
        ("copy"@, Detects::Differs, seq![(0u8, "temper install"@, Seq::<char>::empty())], seq![(1u8, "the step's source file in the temper folder"@, "no verb captures an edited deployed file back into the folder"@)]),
        ("block"@, Detects::Differs, seq![(0u8, "temper install"@, Seq::<char>::empty())], seq![(1u8, "apps/<bundle>.toml"@, "the block's content is declared in the bundle"@)]),
        ("setkey"@, Detects::Differs, seq![(0u8, "temper install"@, Seq::<char>::empty())], seq![(1u8, "apps/<bundle>.toml"@, "a setkey is fixed policy with exactly one owner — retune it there, not in the app's own UI"@)]),
        ("sysfile"@, Detects::Differs, seq![(0u8, "temper install"@, Seq::<char>::empty())], seq![(1u8, "the step's source file in the temper folder"@, "no verb captures a root-owned /etc file back into the folder"@)]),
        ("exec"@, Detects::Differs, seq![(0u8, "temper install"@, Seq::<char>::empty())], seq![(2u8, "an exec declares a script, not a state to absorb"@, Seq::<char>::empty())]),
    ]
}

fn kind_table_0(r: &mut Vec<KindSpec>)
    ensures
        kind_views(final(r)@) == kind_views(old(r)@) + kind_rows_0(),
{
    let ghost start = kind_views(r@);
    r.push(KindSpec { name: "copy", detects: Detects::Differs, converge: vec![Answer::Verb("temper install")], absorb: vec![Answer::Hand { file: "the step's source file in the temper folder", why: "no verb captures an edited deployed file back into the folder" }] });
    r.push(KindSpec { name: "block", detects: Detects::Differs, converge: vec![Answer::Verb("temper install")], absorb: vec![Answer::Hand { file: "apps/<bundle>.toml", why: "the block's content is declared in the bundle" }] });
    r.push(KindSpec { name: "setkey", detects: Detects::Differs, converge: vec![Answer::Verb("temper install")], absorb: vec![Answer::Hand { file: "apps/<bundle>.toml", why: "a setkey is fixed policy with exactly one owner — retune it there, not in the app's own UI" }] });
    r.push(KindSpec { name: "sysfile", detects: Detects::Differs, converge: vec![Answer::Verb("temper install")], absorb: vec![Answer::Hand { file: "the step's source file in the temper folder", why: "no verb captures a root-owned /etc file back into the folder" }] });
    r.push(KindSpec { name: "exec", detects: Detects::Differs, converge: vec![Answer::Verb("temper install")], absorb: vec![Answer::NA("an exec declares a script, not a state to absorb")] });
    assert(kind_views(r@) =~~= start + kind_rows_0());
}

pub open spec fn kind_rows_1() -> Seq<KindV> {
    seq![
        ("profile"@, Detects::Missing, seq![(0u8, "temper install"@, Seq::<char>::empty())], seq![(1u8, "apps/<bundle>.toml"@, "a .mobileconfig is declared in a shared bundle and nothing exports an installed profile back out"@)]),
        ("when"@, Detects::Missing, seq![(2u8, "the step's app is absent — status only"@, Seq::<char>::empty())], seq![(2u8, "a gate reports reality; there is nothing to absorb"@, Seq::<char>::empty())]),
        ("needs"@, Detects::Missing, seq![(1u8, "the machine"@, "install the hard dependency the step names — `install` bails on it"@)], seq![(1u8, "apps/<bundle>.toml"@, "drop the `needs` if the dependency is genuinely not wanted"@)]),
        ("package"@, Detects::Missing, seq![(0u8, "temper install --packages-only"@, Seq::<char>::empty())], seq![(0u8, "temper reconcile"@, Seq::<char>::empty())]),
        ("package-extra"@, Detects::Extra, seq![(0u8, "temper prune"@, Seq::<char>::empty())], seq![(0u8, "temper reconcile"@, Seq::<char>::empty())]),
    ]
}

fn kind_table_1(r: &mut Vec<KindSpec>)
    ensures
        kind_views(final(r)@) == kind_views(old(r)@) + kind_rows_1(),
{
    let ghost start = kind_views(r@);
    r.push(KindSpec { name: "profile", detects: Detects::Missing, converge: vec![Answer::Verb("temper install")], absorb: vec![Answer::Hand { file: "apps/<bundle>.toml", why: "a .mobileconfig is declared in a shared bundle and nothing exports an installed profile back out" }] });
    r.push(KindSpec { name: "when", detects: Detects::Missing, converge: vec![Answer::NA("the step's app is absent — status only")], absorb: vec![Answer::NA("a gate reports reality; there is nothing to absorb")] });
    r.push(KindSpec { name: "needs", detects: Detects::Missing, converge: vec![Answer::Hand { file: "the machine", why: "install the hard dependency the step names — `install` bails on it" }], absorb: vec![Answer::Hand { file: "apps/<bundle>.toml", why: "drop the `needs` if the dependency is genuinely not wanted" }] });
    r.push(KindSpec { name: "package", detects: Detects::Missing, converge: vec![Answer::Verb("temper install --packages-only")], absorb: vec![Answer::Verb("temper reconcile")] });
    r.push(KindSpec { name: "package-extra", detects: Detects::Extra, converge: vec![Answer::Verb("temper prune")], absorb: vec![Answer::Verb("temper reconcile")] });
    assert(kind_views(r@) =~~= start + kind_rows_1());
}

pub open spec fn kind_rows_2() -> Seq<KindV> {
    seq![
        ("rpm-ostree-extra"@, Detects::Extra, seq![(0u8, "temper prune"@, Seq::<char>::empty())], seq![(0u8, "temper reconcile"@, Seq::<char>::empty())]),
        ("rpm-ostree"@, Detects::Missing, seq![(0u8, "temper install --packages-only"@, Seq::<char>::empty())], seq![(0u8, "temper reconcile"@, Seq::<char>::empty())]),
        ("brew-trust"@, Detects::Missing, seq![(0u8, "temper install --packages-only"@, Seq::<char>::empty())], seq![(0u8, "temper reconcile"@, Seq::<char>::empty())]),
        ("brew-trust-extra"@, Detects::Extra, seq![(0u8, "temper prune"@, Seq::<char>::empty())], seq![(0u8, "temper reconcile"@, Seq::<char>::empty())]),
        ("gnome-extension"@, Detects::Missing, seq![(0u8, "temper install --packages-only"@, Seq::<char>::empty())], seq![(0u8, "temper reconcile"@, Seq::<char>::empty())]),
    ]
}

fn kind_table_2(r: &mut Vec<KindSpec>)
    ensures
        kind_views(final(r)@) == kind_views(old(r)@) + kind_rows_2(),
{
    let ghost start = kind_views(r@);
    r.push(KindSpec { name: "rpm-ostree-extra", detects: Detects::Extra, converge: vec![Answer::Verb("temper prune")], absorb: vec![Answer::Verb("temper reconcile")] });
    r.push(KindSpec { name: "rpm-ostree", detects: Detects::Missing, converge: vec![Answer::Verb("temper install --packages-only")], absorb: vec![Answer::Verb("temper reconcile")] });
    r.push(KindSpec { name: "brew-trust", detects: Detects::Missing, converge: vec![Answer::Verb("temper install --packages-only")], absorb: vec![Answer::Verb("temper reconcile")] });
    r.push(KindSpec { name: "brew-trust-extra", detects: Detects::Extra, converge: vec![Answer::Verb("temper prune")], absorb: vec![Answer::Verb("temper reconcile")] });
    r.push(KindSpec { name: "gnome-extension", detects: Detects::Missing, converge: vec![Answer::Verb("temper install --packages-only")], absorb: vec![Answer::Verb("temper reconcile")] });
    assert(kind_views(r@) =~~= start + kind_rows_2());
}

pub open spec fn kind_rows_3() -> Seq<KindV> {
    seq![
        ("gnome-extension-extra"@, Detects::Extra, seq![(0u8, "temper prune"@, Seq::<char>::empty())], seq![(0u8, "temper reconcile"@, Seq::<char>::empty())]),
        ("dconf-key"@, Detects::Differs, seq![(0u8, "temper restore-dconf"@, Seq::<char>::empty())], seq![(0u8, "temper reconcile"@, Seq::<char>::empty()), (0u8, "temper snapshot-dconf"@, Seq::<char>::empty())]),
        ("dconf-extra"@, Detects::Extra, seq![(2u8, "a snapshot is not exhaustive — nothing deletes a live key it never mentioned"@, Seq::<char>::empty())], seq![(0u8, "temper reconcile"@, Seq::<char>::empty()), (0u8, "temper snapshot-dconf"@, Seq::<char>::empty())]),
        ("dconf-unavailable"@, Detects::Differs, seq![(2u8, "the store cannot be read here — nothing can act on it"@, Seq::<char>::empty())], seq![(2u8, "the store cannot be read here — nothing can be absorbed from it"@, Seq::<char>::empty())]),
        ("dconf-uncaptured"@, Detects::Missing, seq![(2u8, "there is nothing captured to push back out"@, Seq::<char>::empty())], seq![(0u8, "temper snapshot-dconf"@, Seq::<char>::empty())]),
    ]
}

fn kind_table_3(r: &mut Vec<KindSpec>)
    ensures
        kind_views(final(r)@) == kind_views(old(r)@) + kind_rows_3(),
{
    let ghost start = kind_views(r@);
    r.push(KindSpec { name: "gnome-extension-extra", detects: Detects::Extra, converge: vec![Answer::Verb("temper prune")], absorb: vec![Answer::Verb("temper reconcile")] });
    r.push(KindSpec { name: "dconf-key", detects: Detects::Differs, converge: vec![Answer::Verb("temper restore-dconf")], absorb: vec![Answer::Verb("temper reconcile"), Answer::Verb("temper snapshot-dconf")] });
    r.push(KindSpec { name: "dconf-extra", detects: Detects::Extra, converge: vec![Answer::NA("a snapshot is not exhaustive — nothing deletes a live key it never mentioned")], absorb: vec![Answer::Verb("temper reconcile"), Answer::Verb("temper snapshot-dconf")] });
    r.push(KindSpec { name: "dconf-unavailable", detects: Detects::Differs, converge: vec![Answer::NA("the store cannot be read here — nothing can act on it")], absorb: vec![Answer::NA("the store cannot be read here — nothing can be absorbed from it")] });
    r.push(KindSpec { name: "dconf-uncaptured", detects: Detects::Missing, converge: vec![Answer::NA("there is nothing captured to push back out")], absorb: vec![Answer::Verb("temper snapshot-dconf")] });
    assert(kind_views(r@) =~~= start + kind_rows_3());
}

pub open spec fn kind_rows_4() -> Seq<KindV> {
    seq![
        ("absent"@, Detects::Differs, seq![(2u8, "assertions report a condition; no converge satisfies one"@, Seq::<char>::empty())], seq![(1u8, "apps/<bundle>.toml"@, "resolve the condition, or change the [[assert]] that declares it"@)]),
        ("contains-line"@, Detects::Differs, seq![(2u8, "assertions report a condition; no converge satisfies one"@, Seq::<char>::empty())], seq![(1u8, "apps/<bundle>.toml"@, "resolve the condition, or change the [[assert]] that declares it"@)]),
        ("mode"@, Detects::Differs, seq![(2u8, "assertions report a condition; no converge satisfies one"@, Seq::<char>::empty())], seq![(1u8, "apps/<bundle>.toml"@, "resolve the condition, or change the [[assert]] that declares it"@)]),
        ("executable-resolves"@, Detects::Differs, seq![(2u8, "assertions report a condition; no converge satisfies one"@, Seq::<char>::empty())], seq![(1u8, "apps/<bundle>.toml"@, "resolve the condition, or change the [[assert]] that declares it"@)]),
        ("not-member"@, Detects::Differs, seq![(2u8, "assertions report a condition; no converge satisfies one"@, Seq::<char>::empty())], seq![(1u8, "apps/<bundle>.toml"@, "resolve the condition, or change the [[assert]] that declares it"@)]),
    ]
}

fn kind_table_4(r: &mut Vec<KindSpec>)
    ensures
        kind_views(final(r)@) == kind_views(old(r)@) + kind_rows_4(),
{
    let ghost start = kind_views(r@);
    r.push(KindSpec { name: "absent", detects: Detects::Differs, converge: vec![Answer::NA("assertions report a condition; no converge satisfies one")], absorb: vec![Answer::Hand { file: "apps/<bundle>.toml", why: "resolve the condition, or change the [[assert]] that declares it" }] });
    r.push(KindSpec { name: "contains-line", detects: Detects::Differs, converge: vec![Answer::NA("assertions report a condition; no converge satisfies one")], absorb: vec![Answer::Hand { file: "apps/<bundle>.toml", why: "resolve the condition, or change the [[assert]] that declares it" }] });
    r.push(KindSpec { name: "mode", detects: Detects::Differs, converge: vec![Answer::NA("assertions report a condition; no converge satisfies one")], absorb: vec![Answer::Hand { file: "apps/<bundle>.toml", why: "resolve the condition, or change the [[assert]] that declares it" }] });
    r.push(KindSpec { name: "executable-resolves", detects: Detects::Differs, converge: vec![Answer::NA("assertions report a condition; no converge satisfies one")], absorb: vec![Answer::Hand { file: "apps/<bundle>.toml", why: "resolve the condition, or change the [[assert]] that declares it" }] });
    r.push(KindSpec { name: "not-member", detects: Detects::Differs, converge: vec![Answer::NA("assertions report a condition; no converge satisfies one")], absorb: vec![Answer::Hand { file: "apps/<bundle>.toml", why: "resolve the condition, or change the [[assert]] that declares it" }] });
    assert(kind_views(r@) =~~= start + kind_rows_4());
}

pub open spec fn kind_rows_5() -> Seq<KindV> {
    seq![
        ("shell"@, Detects::Differs, seq![(2u8, "assertions report a condition; no converge satisfies one"@, Seq::<char>::empty())], seq![(1u8, "apps/<bundle>.toml"@, "resolve the condition, or change the [[assert]] that declares it"@)]),
        ("json-semantic"@, Detects::Differs, seq![(2u8, "assertions report a condition; no converge satisfies one"@, Seq::<char>::empty())], seq![(1u8, "apps/<bundle>.toml"@, "resolve the condition, or change the [[assert]] that declares it"@)]),
        ("unknown"@, Detects::Differs, seq![(2u8, "an unrecognised assertion — nothing can act on it"@, Seq::<char>::empty())], seq![(1u8, "apps/<bundle>.toml"@, "an unrecognised assertion — fix the bundle"@)]),
        ("brew-package"@, Detects::Missing, seq![(0u8, "temper install --packages-only"@, Seq::<char>::empty())], seq![(0u8, "temper reconcile"@, Seq::<char>::empty())]),
        ("brew-package-extra"@, Detects::Extra, seq![(0u8, "temper prune"@, Seq::<char>::empty())], seq![(0u8, "temper reconcile"@, Seq::<char>::empty())]),
    ]
}

fn kind_table_5(r: &mut Vec<KindSpec>)
    ensures
        kind_views(final(r)@) == kind_views(old(r)@) + kind_rows_5(),
{
    let ghost start = kind_views(r@);
    r.push(KindSpec { name: "shell", detects: Detects::Differs, converge: vec![Answer::NA("assertions report a condition; no converge satisfies one")], absorb: vec![Answer::Hand { file: "apps/<bundle>.toml", why: "resolve the condition, or change the [[assert]] that declares it" }] });
    r.push(KindSpec { name: "json-semantic", detects: Detects::Differs, converge: vec![Answer::NA("assertions report a condition; no converge satisfies one")], absorb: vec![Answer::Hand { file: "apps/<bundle>.toml", why: "resolve the condition, or change the [[assert]] that declares it" }] });
    r.push(KindSpec { name: "unknown", detects: Detects::Differs, converge: vec![Answer::NA("an unrecognised assertion — nothing can act on it")], absorb: vec![Answer::Hand { file: "apps/<bundle>.toml", why: "an unrecognised assertion — fix the bundle" }] });
    r.push(KindSpec { name: "brew-package", detects: Detects::Missing, converge: vec![Answer::Verb("temper install --packages-only")], absorb: vec![Answer::Verb("temper reconcile")] });
    r.push(KindSpec { name: "brew-package-extra", detects: Detects::Extra, converge: vec![Answer::Verb("temper prune")], absorb: vec![Answer::Verb("temper reconcile")] });
    assert(kind_views(r@) =~~= start + kind_rows_5());
}

pub open spec fn kind_rows_6() -> Seq<KindV> {
    seq![
        ("flatpak-package"@, Detects::Missing, seq![(0u8, "temper install --packages-only"@, Seq::<char>::empty())], seq![(0u8, "temper reconcile"@, Seq::<char>::empty())]),
        ("flatpak-package-extra"@, Detects::Extra, seq![(0u8, "temper prune"@, Seq::<char>::empty())], seq![(0u8, "temper reconcile"@, Seq::<char>::empty())]),
        ("flatpak-remote"@, Detects::Missing, seq![(0u8, "temper install --packages-only"@, Seq::<char>::empty())], seq![(0u8, "temper reconcile"@, Seq::<char>::empty())]),
        ("flatpak-remote-extra"@, Detects::Extra, seq![(0u8, "temper prune"@, Seq::<char>::empty())], seq![(0u8, "temper reconcile"@, Seq::<char>::empty())]),
        ("mas-package"@, Detects::Missing, seq![(0u8, "temper install --packages-only"@, Seq::<char>::empty())], seq![(0u8, "temper reconcile"@, Seq::<char>::empty())]),
    ]
}

fn kind_table_6(r: &mut Vec<KindSpec>)
    ensures
        kind_views(final(r)@) == kind_views(old(r)@) + kind_rows_6(),
{
    let ghost start = kind_views(r@);
    r.push(KindSpec { name: "flatpak-package", detects: Detects::Missing, converge: vec![Answer::Verb("temper install --packages-only")], absorb: vec![Answer::Verb("temper reconcile")] });
    r.push(KindSpec { name: "flatpak-package-extra", detects: Detects::Extra, converge: vec![Answer::Verb("temper prune")], absorb: vec![Answer::Verb("temper reconcile")] });
    r.push(KindSpec { name: "flatpak-remote", detects: Detects::Missing, converge: vec![Answer::Verb("temper install --packages-only")], absorb: vec![Answer::Verb("temper reconcile")] });
    r.push(KindSpec { name: "flatpak-remote-extra", detects: Detects::Extra, converge: vec![Answer::Verb("temper prune")], absorb: vec![Answer::Verb("temper reconcile")] });
    r.push(KindSpec { name: "mas-package", detects: Detects::Missing, converge: vec![Answer::Verb("temper install --packages-only")], absorb: vec![Answer::Verb("temper reconcile")] });
    assert(kind_views(r@) =~~= start + kind_rows_6());
}

pub open spec fn kind_rows_7() -> Seq<KindV> {
    seq![
        ("mas-package-extra"@, Detects::Extra, seq![(0u8, "temper prune"@, Seq::<char>::empty())], seq![(0u8, "temper reconcile"@, Seq::<char>::empty())]),
        ("deployed-file-extra"@, Detects::Extra, seq![(0u8, "temper prune"@, Seq::<char>::empty())], seq![(1u8, "apps/<bundle>.toml"@, "re-declaring a dropped file means writing the step you deleted"@)]),
    ]
}

fn kind_table_7(r: &mut Vec<KindSpec>)
    ensures
        kind_views(final(r)@) == kind_views(old(r)@) + kind_rows_7(),
{
    let ghost start = kind_views(r@);
    r.push(KindSpec { name: "mas-package-extra", detects: Detects::Extra, converge: vec![Answer::Verb("temper prune")], absorb: vec![Answer::Verb("temper reconcile")] });
    r.push(KindSpec { name: "deployed-file-extra", detects: Detects::Extra, converge: vec![Answer::Verb("temper prune")], absorb: vec![Answer::Hand { file: "apps/<bundle>.toml", why: "re-declaring a dropped file means writing the step you deleted" }] });
    assert(kind_views(r@) =~~= start + kind_rows_7());
}

/// Every finding kind temper emits, and what answers each direction.
pub open spec fn kind_rows() -> Seq<KindV> {
    kind_rows_0() + kind_rows_1() + kind_rows_2() + kind_rows_3() + kind_rows_4() + kind_rows_5() + kind_rows_6() + kind_rows_7()
}

/// The registry of finding kinds.
pub fn kind_table() -> (r: Vec<KindSpec>)
    ensures
        kind_views(r@) == kind_rows(),
{
    let mut r: Vec<KindSpec> = Vec::new();
    assert(kind_views(r@) =~= Seq::<KindV>::empty());
    kind_table_0(&mut r);
    kind_table_1(&mut r);
    kind_table_2(&mut r);
    kind_table_3(&mut r);
    kind_table_4(&mut r);
    kind_table_5(&mut r);
    kind_table_6(&mut r);
    kind_table_7(&mut r);
    assert(kind_views(r@) =~= kind_rows());
    r
}

/// The registered row for a kind: the first with that name.
pub open spec fn find_kind(rows: Seq<KindV>, name: Seq<char>) -> Option<KindV>
    decreases rows.len(),
{
    if rows.len() == 0 {
        None
    } else if rows[0].0 == name {
        Some(rows[0])
    } else {
        find_kind(rows.drop_first(), name)
    }
}

pub proof fn lemma_find_kind_in(rows: Seq<KindV>, name: Seq<char>)
    ensures
        find_kind(rows, name) matches Some(k) ==> rows.contains(k) && k.0 == name,
        find_kind(rows, name) is None ==> forall|i: int| 0 <= i < rows.len() ==> rows[i].0 != name,
    decreases rows.len(),
{
    if rows.len() > 0 {
        lemma_find_kind_in(rows.drop_first(), name);
        if rows[0].0 != name {
            if find_kind(rows.drop_first(), name) is Some {
                let k = find_kind(rows.drop_first(), name)->0;
                let i = choose|i: int| 0 <= i < rows.drop_first().len() && rows.drop_first()[i] == k;
                assert(rows[i + 1] == k);
            } else {
                assert forall|i: int| 0 <= i < rows.len() implies rows[i].0 != name by {
                    if i > 0 {
                        assert(rows[i] == rows.drop_first()[i - 1]);
                    }
                }
            }
        } else {
            assert(rows[0] == rows[0]);
        }
    }
}

/// `a == b` on strings.
pub fn str_eq(a: &str, b: &str) -> (r: bool)
    ensures
        r == (a@ == b@),
{
    same(chars_of(a).as_slice(), chars_of(b).as_slice())
}

/// The registry entry for a finding kind.
pub fn kind_spec(kind: &str) -> (r: Option<KindSpec>)
    ensures
        match r {
            Some(k) => find_kind(kind_rows(), kind@) == Some(kind_view(k)),
            None => find_kind(kind_rows(), kind@) is None,
        },
{
    let mut table = kind_table();
    let ghost rows = kind_rows();
    let mut i: usize = 0;
    assert(rows.subrange(0, rows.len() as int) =~= rows);
    while i < table.len()
        invariant
            i <= table@.len(),
            kind_views(table@) == rows,
            rows == kind_rows(),
            find_kind(rows, kind@) == find_kind(rows.subrange(i as int, rows.len() as int), kind@),
        decreases table.len() - i,
    {
        let ghost rest = rows.subrange(i as int, rows.len() as int);
        assert(rest[0] == kind_view(table@[i as int]));
        if str_eq(table[i].name, kind) {
            let ghost kv = kind_view(table@[i as int]);
            let k = table.remove(i);
            assert(kind_view(k) == kv);
            assert(rest.len() > 0);
            assert(rest[0] == kv);
            assert(rest[0].0 == kind@);
            assert(find_kind(rest, kind@) == Some(rest[0]));
            assert(find_kind(rows, kind@) == Some(kind_view(k)));
            assert(rows == kind_rows());
            return Some(k);
        }
        assert(rest.drop_first() =~= rows.subrange(i as int + 1, rows.len() as int));
        i += 1;
    }
    assert(rows.subrange(i as int, rows.len() as int) =~= Seq::<KindV>::empty());
    None
}

/// The verbs among some answers, in order.
pub open spec fn verbs_of(v: Seq<AnswerV>) -> Seq<Seq<char>>
    decreases v.len(),
{
    if v.len() == 0 {
        Seq::empty()
    } else if v.last().0 == 0 {
        verbs_of(v.drop_last()).push(v.last().1)
    } else {
        verbs_of(v.drop_last())
    }
}

fn verbs(answers: &Vec<Answer>) -> (r: Vec<&'static str>)
    ensures
        strs(r@) == verbs_of(answers_view(answers@)),
{
    let mut out: Vec<&'static str> = Vec::new();
    let mut i: usize = 0;
    while i < answers.len()
        invariant
            i <= answers@.len(),
            strs(out@) == verbs_of(answers_view(answers@).take(i as int)),
        decreases answers.len() - i,
    {
        let ghost t = answers_view(answers@).take(i as int + 1);
        assert(t.drop_last() =~= answers_view(answers@).take(i as int));
        assert(t.last() == answer_view(answers@[i as int]));
        match answers[i] {
            Answer::Verb(c) => {
                let ghost before = strs(out@);
                out.push(c);
                assert(strs(out@) =~= before.push(c@));
            },
            _ => {},
        }
        i += 1;
    }
    assert(answers_view(answers@).take(answers@.len() as int) =~= answers_view(answers@));
    out
}

impl KindSpec {
    /// The commands that change the machine to match the spec.
    pub fn converge_verbs(&self) -> (r: Vec<&'static str>)
        ensures
            strs(r@) == verbs_of(answers_view(self.converge@)),
    {
        verbs(&self.converge)
    }

    /// The commands that change the spec to match the machine.
    pub fn absorb_verbs(&self) -> (r: Vec<&'static str>)
        ensures
            strs(r@) == verbs_of(answers_view(self.absorb@)),
    {
        verbs(&self.absorb)
    }
}


/// One drift finding across any primitive or assertion.
#[derive(Debug, Clone, PartialEq, Eq)]
pub struct Finding {
    pub app: String,
    pub kind: &'static str,
    pub target: String,
    pub ok: bool,
    pub status: String,
    /// What actually disagreed, when the check can say.
    pub detail: Option<String>,
}

/// A finding that is reported for visibility but neither in sync nor
/// repairable: a presence gate, an unavailable backend, an exec without a
/// drift hook, a manual step, a notice.
pub open spec fn status_only_spec(kind: Seq<char>, status: Seq<char>) -> bool {
    kind == "when"@ || starts_with(status, "unavailable"@) || status == "no drift-check"@
        || starts_with(status, "manual"@) || starts_with(status, "notice"@)
}

fn starts_with_str(s: &str, p: &str) -> (r: bool)
    ensures
        r == starts_with(s@, p@),
{
    let a = chars_of(s);
    let b = chars_of(p);
    if b.len() > a.len() {
        return false;
    }
    let pre = crate::text::slice(a.as_slice(), 0, b.len());
    same(pre.as_slice(), b.as_slice())
}

impl Finding {
    /// Reported for visibility, not repairable drift.
    pub fn status_only(&self) -> (r: bool)
        ensures
            r == status_only_spec(self.kind@, self.status@),
    {
        str_eq(self.kind, "when") || starts_with_str(self.status.as_str(), "unavailable")
            || str_eq(self.status.as_str(), "no drift-check") || starts_with_str(
            self.status.as_str(),
            "manual",
        ) || starts_with_str(self.status.as_str(), "notice")
    }
}

/// Some registered kind answers a direction with verb `c`.
pub open spec fn registry_verb(c: Seq<char>) -> bool {
    exists|i: int| 0 <= i < kind_rows().len() && #[trigger] row_verb(kind_rows()[i], c)
}

/// A kind answers one of its directions with verb `c`.
pub open spec fn row_verb(k: KindV, c: Seq<char>) -> bool {
    verbs_of(k.2).contains(c) || verbs_of(k.3).contains(c)
}

/// Inserts `x` into a strictly sorted list of strings unless it is already
/// there.
fn insert_sorted_str(v: &mut Vec<&'static str>, x: &'static str)
    requires
        sorted_strs(strs(old(v)@)),
    ensures
        sorted_strs(strs(final(v)@)),
        forall|y: Seq<char>| #[trigger] strs(final(v)@).contains(y) <==> (strs(old(v)@).contains(y) || y == x@),
{
    let ghost old_v = strs(v@);
    let xc = chars_of(x);
    let mut p: usize = 0;
    while p < v.len() && lex_less(chars_of(v[p]).as_slice(), xc.as_slice())
        invariant
            p <= v@.len(),
            strs(v@) == old_v,
            xc@ == x@,
            sorted_strs(old_v),
            forall|j: int| 0 <= j < p ==> lex_lt(#[trigger] old_v[j], x@),
        decreases v.len() - p,
    {
        p += 1;
    }
    if p < v.len() && str_eq(v[p], x) {
        assert(old_v[p as int] == x@);
        return;
    }
    v.insert(p, x);
    proof {
        let nv = strs(v@);
        assert(nv =~= old_v.insert(p as int, x@));
        if p < old_v.len() {
            lemma_lex_total(x@, old_v[p as int]);
        }
        assert forall|i: int, j: int| 0 <= i < j < nv.len() implies lex_lt(#[trigger] nv[i], #[trigger] nv[j]) by {
            if j < p {
            } else if j == p {
            } else if i < p {
                assert(nv[j] == old_v[j - 1]);
                if j - 1 > p {
                    lemma_lex_trans(x@, old_v[p as int], old_v[j - 1]);
                }
                lemma_lex_trans(nv[i], x@, nv[j]);
            } else if i == p {
                assert(nv[j] == old_v[j - 1]);
                if j - 1 > p {
                    lemma_lex_trans(x@, old_v[p as int], old_v[j - 1]);
                }
            } else {
                assert(nv[i] == old_v[i - 1]);
                assert(nv[j] == old_v[j - 1]);
            }
        }
        assert forall|y: Seq<char>| #[trigger] nv.contains(y) <==> (old_v.contains(y) || y == x@) by {
            if nv.contains(y) {
                let i = choose|i: int| 0 <= i < nv.len() && nv[i] == y;
                if i < p {
                    assert(old_v[i] == y);
                } else if i > p {
                    assert(old_v[i - 1] == y);
                }
            }
            if old_v.contains(y) {
                let i = choose|i: int| 0 <= i < old_v.len() && old_v[i] == y;
                if i < p {
                    assert(nv[i] == y);
                } else {
                    assert(nv[i + 1] == y);
                }
            }
            if y == x@ {
                assert(nv[p as int] == y);
            }
        }
    }
}

fn insert_all(v: &mut Vec<&'static str>, more: &Vec<&'static str>)
    requires
        sorted_strs(strs(old(v)@)),
    ensures
        sorted_strs(strs(final(v)@)),
        forall|y: Seq<char>| #[trigger] strs(final(v)@).contains(y) <==> (strs(old(v)@).contains(y) || strs(more@).contains(y)),
{
    let ghost start = strs(v@);
    let mut i: usize = 0;
    while i < more.len()
        invariant
            i <= more@.len(),
            sorted_strs(strs(v@)),
            forall|y: Seq<char>| #[trigger] strs(v@).contains(y) <==> (start.contains(y) || strs(more@).take(i as int).contains(y)),
        decreases more.len() - i,
    {
        insert_sorted_str(v, more[i]);
        proof {
            let t = strs(more@).take(i as int + 1);
            let u = strs(more@).take(i as int);
            assert(t =~= u.push(more@[i as int]@));
            assert forall|y: Seq<char>| #[trigger] t.contains(y) <==> (u.contains(y) || y == more@[i as int]@) by {
                if t.contains(y) {
                    let k = choose|k: int| 0 <= k < t.len() && t[k] == y;
                    if k < u.len() {
                        assert(u[k] == y);
                    }
                }
                if u.contains(y) {
                    let k = choose|k: int| 0 <= k < u.len() && u[k] == y;
                    assert(t[k] == y);
                }
                if y == more@[i as int]@ {
                    assert(t[i as int] == y);
                }
            }
        }
        i += 1;
    }
    assert(strs(more@).take(more@.len() as int) =~= strs(more@));
}

/// Every distinct command any answer names, sorted.
pub fn answer_commands() -> (r: Vec<&'static str>)
    ensures
        sorted_strs(strs(r@)),
        forall|c: Seq<char>| #[trigger] strs(r@).contains(c) <==> registry_verb(c),
{
    let table = kind_table();
    let ghost rows = kind_rows();
    let mut out: Vec<&'static str> = Vec::new();
    let mut i: usize = 0;
    while i < table.len()
        invariant
            i <= table@.len(),
            kind_views(table@) == rows,
            rows == kind_rows(),
            sorted_strs(strs(out@)),
            forall|c: Seq<char>| #[trigger] strs(out@).contains(c) <==> exists|j: int| 0 <= j < i && #[trigger] row_verb(rows[j], c),
        decreases table.len() - i,
    {
        assert(kind_view(table@[i as int]) == rows[i as int]);
        let cv = table[i].converge_verbs();
        let av = table[i].absorb_verbs();
        let ghost before = strs(out@);
        insert_all(&mut out, &cv);
        insert_all(&mut out, &av);
        proof {
            assert forall|c: Seq<char>| #[trigger] strs(out@).contains(c) <==> exists|j: int| 0 <= j < i + 1 && #[trigger] row_verb(rows[j], c) by {
                if strs(out@).contains(c) && !before.contains(c) {
                    assert(row_verb(rows[i as int], c));
                }
                if exists|j: int| 0 <= j < i + 1 && #[trigger] row_verb(rows[j], c) {
                    let j = choose|j: int| 0 <= j < i + 1 && #[trigger] row_verb(rows[j], c);
                    if j < i {
                        assert(before.contains(c));
                    }
                }
            }
        }
        i += 1;
    }
    out
}

/// What `prune` would remove: installed-but-undeclared packages, taps trusted
/// but not declared, user-scope GNOME extensions no bundle declares, and
/// layered rpms nothing declares.
#[derive(Debug)]
pub struct PrunePlan {
    pub packages: Vec<(Manager, String)>,
    /// Taps to untrust.
    pub untrust: Vec<String>,
    /// User-scope GNOME extensions to uninstall.
    pub extensions: Vec<String>,
    /// Layered rpms to un-layer.
    pub rpm_ostree: Vec<String>,
}

impl Default for PrunePlan {
    fn default() -> (r: Self)
        ensures
            r.packages@.len() == 0,
            r.untrust@.len() == 0,
            r.extensions@.len() == 0,
            r.rpm_ostree@.len() == 0,
    {
        PrunePlan { packages: Vec::new(), untrust: Vec::new(), extensions: Vec::new(), rpm_ostree: Vec::new() }
    }
}

impl PrunePlan {
    /// Every item the plan would remove, across all four lists.
    pub open spec fn count(&self) -> nat {
        self.packages@.len() + self.untrust@.len() + self.extensions@.len() + self.rpm_ostree@.len()
    }

    /// Nothing to remove.
    pub fn is_empty(&self) -> (r: bool)
        ensures
            r == (self.count() == 0),
    {
        self.packages.len() == 0 && self.untrust.len() == 0 && self.extensions.len() == 0 && self.rpm_ostree.len() == 0
    }

    /// How many items the plan would remove; every list prune acts on counts.
    pub fn len(&self) -> (r: usize)
        requires
            self.count() <= usize::MAX,
        ensures
            r == self.count(),
    {
        self.packages.len() + self.untrust.len() + self.extensions.len() + self.rpm_ostree.len()
    }
}

/// A suggested next command: a label and the exact invocation.
#[derive(Debug, Clone, PartialEq, Eq)]
pub struct Remediation {
    pub label: String,
    pub command: String,
}

/// The kind is registered and answers direction `converge` (or absorb) with
/// verb `c`.
pub open spec fn kind_has_verb(kind: Seq<char>, converge: bool, c: Seq<char>) -> bool {
    match find_kind(kind_rows(), kind) {
        Some(k) => verbs_of(if converge { k.2 } else { k.3 }).contains(c),
        None => false,
    }
}

/// Some failing finding's registered kind answers direction `converge` (or
/// absorb) with verb `c`.
pub open spec fn failing_verb(items: Seq<Finding>, converge: bool, c: Seq<char>) -> bool {
    exists|i: int|
        0 <= i < items.len() && !items[i].ok && kind_has_verb(#[trigger] items[i].kind@, converge, c)
}

/// Some failing finding has one of these kinds.
pub open spec fn drifted(items: Seq<Finding>, kinds: Seq<Seq<char>>) -> bool {
    exists|i: int| 0 <= i < items.len() && !items[i].ok && kinds.contains(#[trigger] items[i].kind@)
}

pub open spec fn prune_label(extra_pkg: bool, trust_extra: bool, gext: bool) -> Seq<char> {
    if gext && (extra_pkg || trust_extra) {
        "uninstall packages / GNOME extensions and untrust taps not in the spec (asks first)"@
    } else if !extra_pkg && !trust_extra && gext {
        "uninstall the GNOME extensions not in the spec (asks first)"@
    } else if extra_pkg && trust_extra {
        "uninstall packages / untrust taps not in the spec (asks first)"@
    } else if !extra_pkg && trust_extra {
        "untrust taps not in the spec (asks first)"@
    } else {
        "uninstall packages not in the spec (asks first)"@
    }
}

/// The parts a reconcile offer names, joined with `, `.
pub open spec fn capture_parts(pkg: bool, ext: bool, dconf: bool) -> Seq<char> {
    let parts = (if pkg { seq!["packages, tap-trust"@] } else { Seq::empty() }) + (if ext {
        seq!["GNOME extensions"@]
    } else {
        Seq::empty()
    }) + (if dconf { seq!["desktop keys"@] } else { Seq::empty() });
    join_with(parts, ", "@)
}

pub open spec fn join_with(parts: Seq<Seq<char>>, sep: Seq<char>) -> Seq<char>
    decreases parts.len(),
{
    if parts.len() == 0 {
        Seq::empty()
    } else if parts.len() == 1 {
        parts[0]
    } else {
        join_with(parts.drop_last(), sep) + sep + parts.last()
    }
}

pub open spec fn opt_rem(cond: bool, label: Seq<char>, command: Seq<char>) -> Seq<(Seq<char>, Seq<char>)> {
    if cond {
        seq![(label, command)]
    } else {
        Seq::empty()
    }
}

/// The offers, in order, given which verbs the failing findings call for
/// and which kinds drifted: install missing packages, prune extras, restore
/// the desktop snapshot, reconcile, snapshot the desktop, resolve a failed
/// assertion by hand, re-install drifted config (and the undo that reverts a
/// run).
pub open spec fn offers(
    install_pkgs: bool,
    prune: bool,
    restore: bool,
    reconcile: bool,
    snapshot: bool,
    assertion: bool,
    install: bool,
    extra_pkg: bool,
    trust_extra: bool,
    gext_extra: bool,
    pkg_capture: bool,
    ext_capture: bool,
    dconf_capture: bool,
) -> Seq<(Seq<char>, Seq<char>)> {
    opt_rem(install_pkgs, "install declared packages/extensions that are missing, and trust declared taps"@, "temper install --packages-only"@)
        + opt_rem(prune, prune_label(extra_pkg, trust_extra, gext_extra), "temper prune"@)
        + opt_rem(restore, "reload the desktop snapshot, clobbering live tweaks (asks first)"@, "temper restore-dconf"@)
        + opt_rem(reconcile, "interactively add extras / drop entries you removed on purpose ("@ + capture_parts(pkg_capture, ext_capture, dconf_capture) + ")"@, "temper reconcile"@)
        + opt_rem(snapshot, "capture the whole desktop subtree into the spec instead"@, "temper snapshot-dconf"@)
        + opt_rem(assertion, "an assertion failed — resolve it yourself (no verb applies); re-run drift to confirm"@, "temper drift"@)
        + opt_rem(install, "re-apply the drifted config steps above (copy/block/setkey/sysfile/exec/profile)"@, "temper install"@)
        + opt_rem(install, "revert the most recent run instead"@, "temper undo"@)
}

/// The remediations a drift report earns: each offer is made when some
/// failing finding's registered kind calls for its verb.
pub open spec fn remediations_spec(items: Seq<Finding>) -> Seq<(Seq<char>, Seq<char>)> {
    offers(
        failing_verb(items, true, "temper install --packages-only"@),
        failing_verb(items, true, "temper prune"@),
        failing_verb(items, true, "temper restore-dconf"@),
        failing_verb(items, false, "temper reconcile"@),
        failing_verb(items, false, "temper snapshot-dconf"@),
        assertion_failed(items),
        failing_verb(items, true, "temper install"@),
        drifted(items, seq!["package-extra"@]),
        drifted(items, seq!["brew-trust-extra"@]),
        drifted(items, seq!["gnome-extension-extra"@]),
        drifted(items, seq!["package"@, "package-extra"@, "brew-trust"@, "brew-trust-extra"@]),
        drifted(items, seq!["gnome-extension"@, "gnome-extension-extra"@]),
        drifted(items, seq!["dconf-key"@, "dconf-extra"@, "dconf-uncaptured"@]),
    )
}

/// The texts of a list of static strings.
pub open spec fn strs(v: Seq<&'static str>) -> Seq<Seq<char>> {
    v.map_values(|s: &'static str| s@)
}

pub open spec fn rem_views(v: Seq<Remediation>) -> Seq<(Seq<char>, Seq<char>)> {
    v.map_values(|r: Remediation| (r.label@, r.command@))
}

fn push_rem(out: &mut Vec<Remediation>, label: &str, command: &str)
    ensures
        rem_views(final(out)@) == rem_views(old(out)@).push((label@, command@)),
{
    let mut l = String::new();
    push_str(&mut l, label);
    let mut c = String::new();
    push_str(&mut c, command);
    let ghost before = rem_views(out@);
    out.push(Remediation { label: l, command: c });
    assert(rem_views(out@) =~= before.push((label@, command@)));
}

fn contains_str(v: &Vec<&'static str>, x: &str) -> (r: bool)
    ensures
        r == strs(v@).contains(x@),
{
    let mut i: usize = 0;
    while i < v.len()
        invariant
            i <= v@.len(),
            forall|j: int| 0 <= j < i ==> v@[j]@ != x@,
        decreases v.len() - i,
    {
        if str_eq(v[i], x) {
            assert(strs(v@)[i as int] == x@);
            return true;
        }
        i += 1;
    }
    proof {
        if strs(v@).contains(x@) {
            let vs = strs(v@);
            let j = choose|j: int| 0 <= j < vs.len() && #[trigger] vs[j] == x@;
            assert(v@[j]@ == x@);
        }
    }
    false
}

fn drifted_exec(items: &[Finding], kinds: &[&str]) -> (r: bool)
    ensures
        r == drifted(items@, kinds@.map_values(|s: &str| s@)),
{
    let ghost ks = kinds@.map_values(|s: &str| s@);
    let mut i: usize = 0;
    while i < items.len()
        invariant
            i <= items@.len(),
            ks == kinds@.map_values(|s: &str| s@),
            forall|j: int| 0 <= j < i ==> !(!items@[j].ok && ks.contains(#[trigger] items@[j].kind@)),
        decreases items.len() - i,
    {
        if !items[i].ok {
            let mut q: usize = 0;
            while q < kinds.len()
                invariant
                    q <= kinds@.len(),
                    i < items@.len(),
                    !items@[i as int].ok,
                    ks == kinds@.map_values(|s: &str| s@),
                    forall|x: int| 0 <= x < q ==> ks[x] != items@[i as int].kind@,
                decreases kinds.len() - q,
            {
                if str_eq(kinds[q], items[i].kind) {
                    assert(ks[q as int] == items@[i as int].kind@);
                    assert(ks.contains(items@[i as int].kind@));
                    return true;
                }
                q += 1;
            }
            proof {
                if ks.contains(items@[i as int].kind@) {
                    let x = choose|x: int| 0 <= x < ks.len() && ks[x] == items@[i as int].kind@;
                }
            }
        }
        i += 1;
    }
    false
}


fn append_verbs(acc: &mut Vec<&'static str>, more: Vec<&'static str>)
    ensures
        strs(final(acc)@) == strs(old(acc)@)
            + strs(more@),
{
    let mut i: usize = 0;
    let ghost start = strs(acc@);
    while i < more.len()
        invariant
            i <= more@.len(),
            strs(acc@) == start + strs(more@).take(i as int),
        decreases more.len() - i,
    {
        let ghost before = strs(acc@);
        acc.push(more[i]);
        assert(strs(acc@) =~= before.push(more@[i as int]@));
        assert(strs(more@).take(i as int + 1) =~= strs(more@).take(i as int).push(more@[i as int]@));
        i += 1;
    }
    assert(strs(more@).take(more@.len() as int) =~= strs(more@));
}

fn join_parts(parts: &Vec<&'static str>) -> (r: String)
    ensures
        r@ == join_with(strs(parts@), ", "@),
{
    let ghost ps = strs(parts@);
    let mut out = String::new();
    let mut i: usize = 0;
    while i < parts.len()
        invariant
            i <= parts@.len(),
            ps == strs(parts@),
            out@ == join_with(ps.take(i as int), ", "@),
        decreases parts.len() - i,
    {
        if i > 0 {
            push_str(&mut out, ", ");
        }
        push_str(&mut out, parts[i]);
        proof {
            let t = ps.take(i as int + 1);
            assert(t.drop_last() =~= ps.take(i as int));
            assert(t.last() == parts@[i as int]@);
            if i == 0 {
                assert(t.len() == 1);
                assert(ps.take(0) =~= Seq::<Seq<char>>::empty());
            }
        }
        i += 1;
    }
    assert(ps.take(parts@.len() as int) =~= ps);
    out
}

/// Some failing finding has an assertion kind.
pub open spec fn assertion_failed(items: Seq<Finding>) -> bool {
    exists|j: int| 0 <= j < items.len() && !items[j].ok && crate::drift::assert_kinds().contains(#[trigger] items[j].kind@)
}

proof fn lemma_failing_verb_step(items: Seq<Finding>, i: int, converge: bool)
    requires
        0 <= i < items.len(),
    ensures
        forall|c: Seq<char>| #[trigger] failing_verb(items.take(i + 1), converge, c) <==> (failing_verb(items.take(i), converge, c) || (!items[i].ok && kind_has_verb(items[i].kind@, converge, c))),
{
    let t = items.take(i + 1);
    let u = items.take(i);
    assert forall|c: Seq<char>| #[trigger] failing_verb(t, converge, c) <==> (failing_verb(u, converge, c) || (!items[i].ok && kind_has_verb(items[i].kind@, converge, c))) by {
        if failing_verb(t, converge, c) {
            let j = choose|j: int| 0 <= j < t.len() && !t[j].ok && kind_has_verb(#[trigger] t[j].kind@, converge, c);
            if j < i {
                assert(u[j] == t[j]);
            }
        }
        if failing_verb(u, converge, c) {
            let j = choose|j: int| 0 <= j < u.len() && !u[j].ok && kind_has_verb(#[trigger] u[j].kind@, converge, c);
            assert(t[j] == u[j]);
        }
        if !items[i].ok && kind_has_verb(items[i].kind@, converge, c) {
            assert(t[i] == items[i]);
        }
    }
}

proof fn lemma_append_contains(a: Seq<Seq<char>>, b: Seq<Seq<char>>)
    ensures
        forall|c: Seq<char>| #[trigger] (a + b).contains(c) <==> (a.contains(c) || b.contains(c)),
{
    assert forall|c: Seq<char>| #[trigger] (a + b).contains(c) <==> (a.contains(c) || b.contains(c)) by {
        if (a + b).contains(c) {
            let x = choose|x: int| 0 <= x < (a + b).len() && (a + b)[x] == c;
            if x < a.len() {
                assert(a[x] == c);
            } else {
                assert(b[x - a.len()] == c);
            }
        }
        if a.contains(c) {
            let x = choose|x: int| 0 <= x < a.len() && a[x] == c;
            assert((a + b)[x] == c);
        }
        if b.contains(c) {
            let x = choose|x: int| 0 <= x < b.len() && b[x] == c;
            assert((a + b)[a.len() + x] == c);
        }
    }
}

/// The converge and absorb verbs of every failing finding's kind, and
/// whether an assertion failed.
fn collect_verbs(items: &[Finding]) -> (r: (Vec<&'static str>, Vec<&'static str>, bool))
    ensures
        forall|c: Seq<char>| #[trigger] strs(r.0@).contains(c) <==> failing_verb(items@, true, c),
        forall|c: Seq<char>| #[trigger] strs(r.1@).contains(c) <==> failing_verb(items@, false, c),
        r.2 == assertion_failed(items@),
{
    let mut conv: Vec<&'static str> = Vec::new();
    let mut abs: Vec<&'static str> = Vec::new();
    let mut any_assert = false;
    let mut i: usize = 0;
    while i < items.len()
        invariant
            i <= items@.len(),
            forall|c: Seq<char>| #[trigger] strs(conv@).contains(c) <==> failing_verb(items@.take(i as int), true, c),
            forall|c: Seq<char>| #[trigger] strs(abs@).contains(c) <==> failing_verb(items@.take(i as int), false, c),
            any_assert == assertion_failed(items@.take(i as int)),
        decreases items.len() - i,
    {
        let f = &items[i];
        let ghost cv0 = strs(conv@);
        let ghost av0 = strs(abs@);
        proof {
            lemma_failing_verb_step(items@, i as int, true);
            lemma_failing_verb_step(items@, i as int, false);
        }
        if !f.ok {
            if is_assert_kind(f.kind) {
                any_assert = true;
            }
            match kind_spec(f.kind) {
                Some(k) => {
                    let cvs = k.converge_verbs();
                    let avs = k.absorb_verbs();
                    proof {
                        lemma_append_contains(cv0, strs(cvs@));
                        lemma_append_contains(av0, strs(avs@));
                    }
                    append_verbs(&mut conv, cvs);
                    append_verbs(&mut abs, avs);
                },
                None => {},
            }
        }
        proof {
            let t = items@.take(i as int + 1);
            let u = items@.take(i as int);
            assert(t[i as int] == *f);
            if assertion_failed(t) && !assertion_failed(u) {
                let j = choose|j: int| 0 <= j < t.len() && !t[j].ok && crate::drift::assert_kinds().contains(#[trigger] t[j].kind@);
                if j < i {
                    assert(u[j] == t[j]);
                }
            }
            if assertion_failed(u) {
                let j = choose|j: int| 0 <= j < u.len() && !u[j].ok && crate::drift::assert_kinds().contains(#[trigger] u[j].kind@);
                assert(t[j] == u[j]);
            }
        }
        i += 1;
    }
    assert(items@.take(items@.len() as int) =~= items@);
    (conv, abs, any_assert)
}

fn push_opt(out: &mut Vec<Remediation>, cond: bool, label: &str, command: &str)
    ensures
        rem_views(final(out)@) == rem_views(old(out)@) + opt_rem(cond, label@, command@),
{
    let ghost before = rem_views(out@);
    if cond {
        push_rem(out, label, command);
    }
    assert(rem_views(out@) =~= before + opt_rem(cond, label@, command@));
}

fn prune_label_exec(extra_pkg: bool, trust_extra: bool, gext: bool) -> (r: &'static str)
    ensures
        r@ == prune_label(extra_pkg, trust_extra, gext),
{
    if gext && (extra_pkg || trust_extra) {
        "uninstall packages / GNOME extensions and untrust taps not in the spec (asks first)"
    } else if !extra_pkg && !trust_extra && gext {
        "uninstall the GNOME extensions not in the spec (asks first)"
    } else if extra_pkg && trust_extra {
        "uninstall packages / untrust taps not in the spec (asks first)"
    } else if !extra_pkg && trust_extra {
        "untrust taps not in the spec (asks first)"
    } else {
        "uninstall packages not in the spec (asks first)"
    }
}

fn reconcile_label(pkg_capture: bool, ext_capture: bool, dconf_capture: bool) -> (r: String)
    ensures
        r@ == "interactively add extras / drop entries you removed on purpose ("@ + capture_parts(pkg_capture, ext_capture, dconf_capture) + ")"@,
{
    let mut parts: Vec<&'static str> = Vec::new();
    if pkg_capture {
        parts.push("packages, tap-trust");
    }
    if ext_capture {
        parts.push("GNOME extensions");
    }
    if dconf_capture {
        parts.push("desktop keys");
    }
    proof {
        let ps = (if pkg_capture { seq!["packages, tap-trust"@] } else { Seq::<Seq<char>>::empty() }) + (if ext_capture {
            seq!["GNOME extensions"@]
        } else {
            Seq::<Seq<char>>::empty()
        }) + (if dconf_capture { seq!["desktop keys"@] } else { Seq::<Seq<char>>::empty() });
        assert(strs(parts@) =~= ps);
    }
    let joined = join_parts(&parts);
    let mut label = String::new();
    push_str(&mut label, "interactively add extras / drop entries you removed on purpose (");
    push_str(&mut label, joined.as_str());
    push_str(&mut label, ")");
    label
}

fn build_offers(
    install_pkgs: bool,
    prune: bool,
    restore: bool,
    reconcile: bool,
    snapshot: bool,
    assertion: bool,
    install: bool,
    extra_pkg: bool,
    trust_extra: bool,
    gext_extra: bool,
    pkg_capture: bool,
    ext_capture: bool,
    dconf_capture: bool,
) -> (r: Vec<Remediation>)
    ensures
        rem_views(r@) == offers(install_pkgs, prune, restore, reconcile, snapshot, assertion, install, extra_pkg, trust_extra, gext_extra, pkg_capture, ext_capture, dconf_capture),
{
    let mut out: Vec<Remediation> = Vec::new();
    assert(rem_views(out@) =~= Seq::<(Seq<char>, Seq<char>)>::empty());
    let ghost first = opt_rem(install_pkgs, "install declared packages/extensions that are missing, and trust declared taps"@, "temper install --packages-only"@);
    push_opt(&mut out, install_pkgs, "install declared packages/extensions that are missing, and trust declared taps", "temper install --packages-only");
    assert(Seq::<(Seq<char>, Seq<char>)>::empty() + first =~= first);
    push_opt(&mut out, prune, prune_label_exec(extra_pkg, trust_extra, gext_extra), "temper prune");
    push_opt(&mut out, restore, "reload the desktop snapshot, clobbering live tweaks (asks first)", "temper restore-dconf");
    let rl = reconcile_label(pkg_capture, ext_capture, dconf_capture);
    push_opt(&mut out, reconcile, rl.as_str(), "temper reconcile");
    push_opt(&mut out, snapshot, "capture the whole desktop subtree into the spec instead", "temper snapshot-dconf");
    push_opt(&mut out, assertion, "an assertion failed — resolve it yourself (no verb applies); re-run drift to confirm", "temper drift");
    push_opt(&mut out, install, "re-apply the drifted config steps above (copy/block/setkey/sysfile/exec/profile)", "temper install");
    push_opt(&mut out, install, "revert the most recent run instead", "temper undo");
    out
}

/// Both-direction remediations for a drift report; empty when nothing is
/// out of sync.
pub fn remediations(items: &[Finding]) -> (r: Vec<Remediation>)
    ensures
        rem_views(r@) == remediations_spec(items@),
{
    let (conv, abs, any_assert) = collect_verbs(items);
    let extra_pkg = drifted_exec(items, &["package-extra"]);
    let trust_extra = drifted_exec(items, &["brew-trust-extra"]);
    let gext_extra = drifted_exec(items, &["gnome-extension-extra"]);
    let dconf_capture = drifted_exec(items, &["dconf-key", "dconf-extra", "dconf-uncaptured"]);
    let pkg_capture = drifted_exec(items, &["package", "package-extra", "brew-trust", "brew-trust-extra"]);
    let ext_capture = drifted_exec(items, &["gnome-extension", "gnome-extension-extra"]);
    proof {
        assert(["package-extra"]@.map_values(|s: &str| s@) =~= seq!["package-extra"@]);
        assert(["brew-trust-extra"]@.map_values(|s: &str| s@) =~= seq!["brew-trust-extra"@]);
        assert(["gnome-extension-extra"]@.map_values(|s: &str| s@) =~= seq!["gnome-extension-extra"@]);
        assert(["dconf-key", "dconf-extra", "dconf-uncaptured"]@.map_values(|s: &str| s@) =~= seq!["dconf-key"@, "dconf-extra"@, "dconf-uncaptured"@]);
        assert(["package", "package-extra", "brew-trust", "brew-trust-extra"]@.map_values(|s: &str| s@) =~= seq!["package"@, "package-extra"@, "brew-trust"@, "brew-trust-extra"@]);
        assert(["gnome-extension", "gnome-extension-extra"]@.map_values(|s: &str| s@) =~= seq!["gnome-extension"@, "gnome-extension-extra"@]);
    }
    let install_pkgs = contains_str(&conv, "temper install --packages-only");
    let prune = contains_str(&conv, "temper prune");
    let restore = contains_str(&conv, "temper restore-dconf");
    let reconcile = contains_str(&abs, "temper reconcile");
    let snapshot = contains_str(&abs, "temper snapshot-dconf");
    let install = contains_str(&conv, "temper install");
    build_offers(install_pkgs, prune, restore, reconcile, snapshot, any_assert, install, extra_pkg, trust_extra, gext_extra, pkg_capture, ext_capture, dconf_capture)
}

// ---------------------------------------------------------------------------
// The drift report, from what was observed

pub type FindingV = (Seq<char>, Seq<char>, Seq<char>, bool, Seq<char>, Option<Seq<char>>);

pub open spec fn opt_text(o: Option<String>) -> Option<Seq<char>> {
    match o {
        Some(s) => Some(s@),
        None => None,
    }
}

pub open spec fn fview(f: Finding) -> FindingV {
    (f.app@, f.kind@, f.target@, f.ok, f.status@, opt_text(f.detail))
}

pub open spec fn fviews(v: Seq<Finding>) -> Seq<FindingV> {
    v.map_values(|f: Finding| fview(f))
}

fn own(s: &str) -> (r: String)
    ensures
        r@ == s@,
{
    let mut r = String::new();
    push_str(&mut r, s);
    r
}

fn push_finding(out: &mut Vec<Finding>, f: Finding)
    ensures
        fviews(final(out)@) == fviews(old(out)@).push(fview(f)),
{
    let ghost before = fviews(out@);
    let ghost v = fview(f);
    out.push(f);
    assert(fviews(out@) =~= before.push(v));
}

/// A step's presence gate.
#[derive(Debug, Clone, PartialEq, Eq)]
pub enum Gate {
    /// Apply or evaluate the step normally.
    Apply,
    /// Its `when` probe failed: skip it, loudly. The probe's description.
    Skip(String),
    /// Its `needs` probe failed: a hard requirement is absent.
    Require(String),
}

/// What drift observed of a resolved step's target, by primitive.
#[derive(Debug)]
pub enum StepSeen {
    /// A step drift does not evaluate.
    Unevaluated,
    /// A `copy` to this target, in this state.
    Copy(String, FileState),
    /// A `block` in this file, in this state.
    Block(String, FileState),
    /// A `setkey`: its file (or backend), its key, the state, and the wanted
    /// and found values where the check can say.
    SetKey(String, String, FileState, Option<(String, String)>),
    /// An `exec` of this script, and its drift hook's verdict (`None`:
    /// no hook).
    Exec(String, Option<bool>),
    /// A `profile`, its state, and what the presence check said.
    Profile(String, FileState, Option<String>),
    /// A `sysfile` to this target, in this state.
    Sysfile(String, FileState),
}

/// A finding from a file state: ok when in sync or not evaluable here.
pub open spec fn state_finding(app: Seq<char>, kind: Seq<char>, target: Seq<char>, st: FileState) -> FindingV {
    (app, kind, target, st == FileState::InSync || st == FileState::Unavailable, label_spec(st), None)
}

/// The finding a step's observed state gives, if drift evaluates it.
pub open spec fn step_finding_spec(app: Seq<char>, s: StepSeen) -> Option<FindingV> {
    match s {
        StepSeen::Unevaluated => None,
        StepSeen::Copy(t, st) => Some(state_finding(app, "copy"@, t@, st)),
        StepSeen::Block(t, st) => Some(state_finding(app, "block"@, t@, st)),
        StepSeen::SetKey(f, k, st, vals) => {
            let base = state_finding(app, "setkey"@, f@ + ":"@ + k@, st);
            Some((base.0, base.1, base.2, base.3, base.4, match vals {
                Some((w, h)) => Some("want "@ + w@ + ", have "@ + h@),
                None => None,
            }))
        },
        StepSeen::Exec(script, check) => Some(
            (app, "exec"@, script@, exec_state_spec(check).0, exec_state_spec(check).1, None),
        ),
        StepSeen::Profile(t, st, d) => Some(
            (app, "profile"@, t@, st == FileState::InSync || st == FileState::Unavailable, label_spec(st), opt_text(d)),
        ),
        StepSeen::Sysfile(t, st) => Some(state_finding(app, "sysfile"@, t@, st)),
    }
}

pub open spec fn opt_fview(o: Option<Finding>) -> Option<FindingV> {
    match o {
        Some(f) => Some(fview(f)),
        None => None,
    }
}

fn state_finding_exec(app: &str, kind: &'static str, target: &str, st: FileState) -> (r: Finding)
    ensures
        fview(r) == state_finding(app@, kind@, target@, st),
{
    Finding { app: own(app), kind, target: own(target), ok: st.is_ok(), status: own(st.label()), detail: None }
}

/// The finding a step's observed state gives, if drift evaluates it.
pub fn step_finding(app: &str, seen: &StepSeen) -> (r: Option<Finding>)
    ensures
        opt_fview(r) == step_finding_spec(app@, *seen),
{
    match seen {
        StepSeen::Unevaluated => None,
        StepSeen::Copy(t, st) => Some(state_finding_exec(app, "copy", t.as_str(), *st)),
        StepSeen::Block(t, st) => Some(state_finding_exec(app, "block", t.as_str(), *st)),
        StepSeen::SetKey(f, k, st, vals) => {
            let mut target = String::new();
            push_str(&mut target, f.as_str());
            push_str(&mut target, ":");
            push_str(&mut target, k.as_str());
            let mut g = state_finding_exec(app, "setkey", target.as_str(), *st);
            match vals {
                Some((w, h)) => {
                    let mut d = String::new();
                    push_str(&mut d, "want ");
                    push_str(&mut d, w.as_str());
                    push_str(&mut d, ", have ");
                    push_str(&mut d, h.as_str());
                    g.detail = Some(d);
                },
                None => {},
            }
            Some(g)
        },
        StepSeen::Exec(script, check) => {
            let (ok, status) = crate::primitives::exec_state(*check);
            Some(Finding { app: own(app), kind: "exec", target: own(script.as_str()), ok, status, detail: None })
        },
        StepSeen::Profile(t, st, d) => {
            let mut g = state_finding_exec(app, "profile", t.as_str(), *st);
            g.detail = match d {
                Some(x) => Some(own(x.as_str())),
                None => None,
            };
            Some(g)
        },
        StepSeen::Sysfile(t, st) => Some(state_finding_exec(app, "sysfile", t.as_str(), *st)),
    }
}

/// What was observed of one resolved step: its app, its gate, what its
/// target looked like (when it is evaluated and gated through), and whether
/// its lifecycle is `manual`.
#[derive(Debug)]
pub struct StepObservation {
    pub app: String,
    pub gate: Gate,
    pub seen: StepSeen,
    pub manual: bool,
}

/// A `manual` step is never applied, so its drift is shown as status only.
pub open spec fn manual_view(v: FindingV, manual: bool) -> FindingV {
    if manual && !v.3 {
        (v.0, v.1, v.2, true, "manual — "@ + v.4, v.5)
    } else {
        v
    }
}

/// The findings a step contributes.
pub open spec fn step_part(o: StepObservation) -> Seq<FindingV> {
    match o.gate {
        Gate::Skip(d) => seq![(o.app@, "when"@, d@, true, "skipped: "@ + d@ + " absent"@, None)],
        Gate::Require(d) => seq![(o.app@, "needs"@, d@, false, "required "@ + d@ + " is absent"@, None)],
        Gate::Apply => match step_finding_spec(o.app@, o.seen) {
            Some(v) => seq![manual_view(v, o.manual)],
            None => Seq::empty(),
        },
    }
}

pub open spec fn steps_part(os: Seq<StepObservation>) -> Seq<FindingV>
    decreases os.len(),
{
    if os.len() == 0 {
        Seq::empty()
    } else {
        steps_part(os.drop_last()) + step_part(os.last())
    }
}

/// One assertion, and what was read for it.
#[derive(Debug)]
pub struct AssertObservation {
    pub app: String,
    pub assert: Assert,
    pub seen: AssertSeen,
}

/// The finding for one assertion, given whether it held and its status
/// text. A `notice` assertion that fails is shown as passing, with its
/// message (or the status) after `notice — `.
pub open spec fn assert_part(o: AssertObservation, ok0: bool, status0: Seq<char>) -> FindingV {
    let notice = opt_text(o.assert.severity) == Some("notice"@);
    let (ok, status) = if notice && !ok0 {
        (true, "notice — "@ + match o.assert.message {
            Some(m) => m@,
            None => status0,
        })
    } else {
        (ok0, status0)
    };
    (o.app@, assert_kind_spec(o.assert), target_spec(o.assert), ok, status, None)
}

/// The assertions' findings, each from its verdict; the first assertion
/// that cannot be evaluated fails the report.
pub open spec fn asserts_result(os: Seq<AssertObservation>) -> Result<Seq<FindingV>, EvalError>
    decreases os.len(),
{
    if os.len() == 0 {
        Ok(Seq::empty())
    } else {
        match asserts_result(os.drop_last()) {
            Err(e) => Err(e),
            Ok(fs) => match verdict_spec(os.last().assert, os.last().seen) {
                Err(e) => Err(e),
                Ok((ok, st)) => Ok(fs.push(assert_part(os.last(), ok, st))),
            },
        }
    }
}

pub open spec fn asserts_part(os: Seq<AssertObservation>) -> Seq<FindingV> {
    match asserts_result(os) {
        Ok(fs) => fs,
        Err(_) => Seq::empty(),
    }
}

/// The extras of a declared set, in report order: exactly the installed
/// names no declaration or ignore covers, ordered by manager then name.
pub open spec fn is_extras_list(xs: Seq<(Manager, Seq<char>)>, declared: Seq<Pkg>, inst: (Map<Manager, Set<Seq<char>>>, Set<Manager>), ignore: Ignore) -> bool {
    &&& forall|i: int, j: int| 0 <= i < j < xs.len() ==> extra_lt(#[trigger] xs[i], #[trigger] xs[j])
    &&& forall|i: int| 0 <= i < xs.len() ==> is_extra((#[trigger] xs[i]).0, xs[i].1, declared, inst, ignore)
    &&& forall|m: Manager, n: Seq<char>| #[trigger] is_extra(m, n, declared, inst, ignore) ==> exists|i: int| 0 <= i < xs.len() && xs[i] == (m, n)
}

pub open spec fn missing_part(ps: Seq<Pkg>) -> Seq<FindingV>
    decreases ps.len(),
{
    if ps.len() == 0 {
        Seq::empty()
    } else {
        let p = ps.last();
        missing_part(ps.drop_last()).push(("packages"@, "package"@, manager_str(p.manager) + " "@ + p.name@, false, "missing"@, None))
    }
}

/// How a package extra is named: a mas extra by its app name where `mas
/// list` knows it.
pub open spec fn extra_target(m: Manager, n: Seq<char>, mas: Seq<(String, String)>) -> Seq<char> {
    if m == Manager::Mas {
        if pairs_map(mas).dom().contains(n) {
            "mas \""@ + pairs_map(mas)[n] + "\" (id "@ + n + ")"@
        } else {
            "mas "@ + n
        }
    } else {
        manager_str(m) + " "@ + n
    }
}

/// brew, cask and tap extras come from the dependency-aware cleanup instead.
pub open spec fn brew_family(m: Manager) -> bool {
    m == Manager::Brew || m == Manager::Cask || m == Manager::Tap
}

pub open spec fn extras_part(xs: Seq<(Manager, Seq<char>)>, mas: Seq<(String, String)>) -> Seq<FindingV>
    decreases xs.len(),
{
    if xs.len() == 0 {
        Seq::empty()
    } else {
        let (m, n) = xs.last();
        let w = extras_part(xs.drop_last(), mas);
        if brew_family(m) {
            w
        } else {
            w.push(("packages"@, "package-extra"@, extra_target(m, n, mas), false, "extra"@, None))
        }
    }
}

pub open spec fn brew_part(bx: Seq<(Manager, Seq<char>)>) -> Seq<FindingV>
    decreases bx.len(),
{
    if bx.len() == 0 {
        Seq::empty()
    } else {
        let (m, n) = bx.last();
        brew_part(bx.drop_last()).push(("packages"@, "package-extra"@, manager_str(m) + " "@ + n, false, "extra"@, None))
    }
}

/// What was observed of the declared packages: the effective set, what the
/// probe found installed, `mas list`'s id → name map, and the extras the
/// dependency-aware brew cleanup reported.
pub struct PackageObservation {
    pub effective: Vec<Pkg>,
    pub installed: Installed,
    pub mas_names: Vec<(String, String)>,
    pub brew_extras: Vec<(Manager, String)>,
}

fn manager_target(m: Manager, n: &str) -> (r: String)
    ensures
        r@ == manager_str(m) + " "@ + n@,
{
    let mut t = String::new();
    push_str(&mut t, m.as_str());
    push_str(&mut t, " ");
    push_str(&mut t, n);
    t
}

fn mas_lookup<'a>(mas: &'a Vec<(String, String)>, id: &str) -> (r: Option<&'a String>)
    ensures
        match r {
            Some(app) => pairs_map(mas@).dom().contains(id@) && pairs_map(mas@)[id@] == app@,
            None => !pairs_map(mas@).dom().contains(id@),
        },
{
    let ic = chars_of(id);
    let mut i = mas.len();
    while i > 0
        invariant
            i <= mas@.len(),
            ic@ == id@,
            forall|j: int| i <= j < mas@.len() ==> (#[trigger] mas@[j]).0@ != id@,
        decreases i,
    {
        if same(chars_of(mas[i - 1].0.as_str()).as_slice(), ic.as_slice()) {
            proof {
                crate::manifest::lemma_pairs_lookup(mas@, i as int - 1);
            }
            return Some(&mas[i - 1].1);
        }
        i -= 1;
    }
    proof {
        crate::manifest::lemma_pairs_absent(mas@, id@);
    }
    None
}

/// The package drift: each missing declaration, each extra outside the
/// brew family (a mas one by name), and each extra the brew cleanup
/// reported.
pub fn package_findings(obs: &PackageObservation, ignore: &Ignore) -> (r: Vec<Finding>)
    ensures
        exists|xs: Seq<(Manager, Seq<char>)>| is_extras_list(xs, obs.effective@, obs.installed@, *ignore)
            && fviews(r@) == missing_part(obs.effective@.filter(|p: Pkg| is_missing(p, obs.installed@)))
                + extras_part(xs, obs.mas_names@) + brew_part(crate::packages::pair_views(obs.brew_extras@)),
{
    let mut out: Vec<Finding> = Vec::new();
    let miss = missing(obs.effective.as_slice(), &obs.installed);
    let ghost ms = miss@.map_values(|p: &Pkg| *p);
    let mut i: usize = 0;
    while i < miss.len()
        invariant
            i <= miss@.len(),
            ms == miss@.map_values(|p: &Pkg| *p),
            fviews(out@) == missing_part(ms.take(i as int)),
        decreases miss.len() - i,
    {
        let p = miss[i];
        assert(ms.take(i as int + 1).drop_last() =~= ms.take(i as int));
        assert(ms.take(i as int + 1).last() == *p);
        push_finding(&mut out, Finding {
            app: own("packages"),
            kind: "package",
            target: manager_target(p.manager, p.name.as_str()),
            ok: false,
            status: own("missing"),
            detail: None,
        });
        i += 1;
    }
    assert(ms.take(ms.len() as int) =~= ms);
    let ghost after_missing = fviews(out@);
    let xs = extras(obs.effective.as_slice(), &obs.installed, ignore);
    let ghost xv = crate::packages::pair_views(xs@);
    let mut j: usize = 0;
    while j < xs.len()
        invariant
            j <= xs@.len(),
            xv == crate::packages::pair_views(xs@),
            fviews(out@) == after_missing + extras_part(xv.take(j as int), obs.mas_names@),
        decreases xs.len() - j,
    {
        let (m, n) = (xs[j].0, &xs[j].1);
        assert(xv.take(j as int + 1).drop_last() =~= xv.take(j as int));
        assert(xv.take(j as int + 1).last() == (m, n@));
        match m {
            Manager::Brew | Manager::Cask | Manager::Tap => {},
            Manager::Mas => {
                let mut t = String::new();
                match mas_lookup(&obs.mas_names, n.as_str()) {
                    Some(app) => {
                        push_str(&mut t, "mas \"");
                        push_str(&mut t, app.as_str());
                        push_str(&mut t, "\" (id ");
                        push_str(&mut t, n.as_str());
                        push_str(&mut t, ")");
                    },
                    None => {
                        push_str(&mut t, "mas ");
                        push_str(&mut t, n.as_str());
                    },
                }
                assert(t@ =~= extra_target(m, n@, obs.mas_names@));
                push_finding(&mut out, Finding { app: own("packages"), kind: "package-extra", target: t, ok: false, status: own("extra"), detail: None });
            },
            _ => {
                push_finding(&mut out, Finding {
                    app: own("packages"),
                    kind: "package-extra",
                    target: manager_target(m, n.as_str()),
                    ok: false,
                    status: own("extra"),
                    detail: None,
                });
            },
        }
        j += 1;
    }
    assert(xv.take(xv.len() as int) =~= xv);
    let ghost after_extras = fviews(out@);
    let ghost bv = crate::packages::pair_views(obs.brew_extras@);
    let mut k: usize = 0;
    while k < obs.brew_extras.len()
        invariant
            k <= obs.brew_extras@.len(),
            bv == crate::packages::pair_views(obs.brew_extras@),
            fviews(out@) == after_extras + brew_part(bv.take(k as int)),
        decreases obs.brew_extras.len() - k,
    {
        let (m, n) = (obs.brew_extras[k].0, &obs.brew_extras[k].1);
        assert(bv.take(k as int + 1).drop_last() =~= bv.take(k as int));
        assert(bv.take(k as int + 1).last() == (m, n@));
        push_finding(&mut out, Finding {
            app: own("packages"),
            kind: "package-extra",
            target: manager_target(m, n.as_str()),
            ok: false,
            status: own("extra"),
            detail: None,
        });
        k += 1;
    }
    assert(bv.take(bv.len() as int) =~= bv);
    assert(is_extras_list(xv, obs.effective@, obs.installed@, *ignore));
    out
}

/// Each item as a failing finding of this app, kind and status.
pub open spec fn tagged(app: Seq<char>, kind: Seq<char>, items: Seq<Seq<char>>, status: Seq<char>) -> Seq<FindingV> {
    items.map_values(|t: Seq<char>| (app, kind, t, false, status, None))
}

fn push_tagged(out: &mut Vec<Finding>, app: &str, kind: &'static str, items: &Vec<String>, status: &str)
    ensures
        fviews(final(out)@) == fviews(old(out)@) + tagged(app@, kind@, crate::manifest::str_views(items@), status@),
{
    let ghost start = fviews(out@);
    let ghost iv = crate::manifest::str_views(items@);
    let mut i: usize = 0;
    while i < items.len()
        invariant
            i <= items@.len(),
            iv == crate::manifest::str_views(items@),
            fviews(out@) == start + tagged(app@, kind@, iv.take(i as int), status@),
        decreases items.len() - i,
    {
        push_finding(out, Finding { app: own(app), kind, target: own(items[i].as_str()), ok: false, status: own(status), detail: None });
        assert(tagged(app@, kind@, iv.take(i as int + 1), status@) =~= tagged(app@, kind@, iv.take(i as int), status@).push(
            (app@, kind@, items@[i as int]@, false, status@, None),
        ));
        i += 1;
    }
    assert(iv.take(iv.len() as int) =~= iv);
}

/// Declared taps that are not trusted.
pub open spec fn untrusted_part(decl: Seq<Seq<char>>, trusted: Seq<Seq<char>>) -> Seq<FindingV>
    decreases decl.len(),
{
    if decl.len() == 0 {
        Seq::empty()
    } else {
        let w = untrusted_part(decl.drop_last(), trusted);
        if trusted.contains(decl.last()) {
            w
        } else {
            w.push(("brew-trust"@, "brew-trust"@, "tap "@ + decl.last(), false, "untrusted"@, None))
        }
    }
}

/// Trusted taps neither declared nor ignored.
pub open spec fn trust_extra_part(trusted: Seq<Seq<char>>, decl: Seq<Seq<char>>, ign: Seq<Seq<char>>) -> Seq<FindingV>
    decreases trusted.len(),
{
    if trusted.len() == 0 {
        Seq::empty()
    } else {
        let w = trust_extra_part(trusted.drop_last(), decl, ign);
        let t = trusted.last();
        if decl.contains(t) || ign.contains(t) {
            w
        } else {
            w.push(("brew-trust"@, "brew-trust-extra"@, "tap "@ + t, false, "trusted-extra"@, None))
        }
    }
}

/// Tap-trust drift in both directions; nothing when brew could not say what
/// it trusts.
pub open spec fn trust_part(decl: Seq<Seq<char>>, trusted: Option<Seq<Seq<char>>>, ign: Seq<Seq<char>>) -> Seq<FindingV> {
    match trusted {
        Some(t) => untrusted_part(decl, t) + trust_extra_part(t, decl, ign),
        None => Seq::empty(),
    }
}

fn tap_target(t: &str) -> (r: String)
    ensures
        r@ == "tap "@ + t@,
{
    let mut r = String::new();
    push_str(&mut r, "tap ");
    push_str(&mut r, t);
    r
}

/// Tap-trust drift: declared taps not trusted, and trusted taps neither
/// declared nor ignored. Nothing when `trusted` is `None` (brew absent).
pub fn trust_findings(brew_trust: &[String], trusted: &Option<Vec<String>>, ignore: &Ignore) -> (r: Vec<Finding>)
    ensures
        fviews(r@) == trust_part(
            crate::manifest::str_views(brew_trust@),
            match trusted {
                Some(t) => Some(crate::manifest::str_views(t@)),
                None => None,
            },
            crate::manifest::str_views(ignore.tap@),
        ),
{
    let mut out: Vec<Finding> = Vec::new();
    let t = match trusted {
        Some(t) => t,
        None => {
            return out;
        },
    };
    let ghost dv = crate::manifest::str_views(brew_trust@);
    let ghost tv = crate::manifest::str_views(t@);
    let ghost gv = crate::manifest::str_views(ignore.tap@);
    let mut i: usize = 0;
    while i < brew_trust.len()
        invariant
            i <= brew_trust@.len(),
            dv == crate::manifest::str_views(brew_trust@),
            tv == crate::manifest::str_views(t@),
            fviews(out@) == untrusted_part(dv.take(i as int), tv),
        decreases brew_trust.len() - i,
    {
        assert(dv.take(i as int + 1).drop_last() =~= dv.take(i as int));
        assert(dv.take(i as int + 1).last() == brew_trust@[i as int]@);
        if !crate::lists::has_string(t.as_slice(), brew_trust[i].as_str()) {
            push_finding(&mut out, Finding {
                app: own("brew-trust"),
                kind: "brew-trust",
                target: tap_target(brew_trust[i].as_str()),
                ok: false,
                status: own("untrusted"),
                detail: None,
            });
        }
        i += 1;
    }
    assert(dv.take(dv.len() as int) =~= dv);
    let ghost mid = fviews(out@);
    let mut j: usize = 0;
    while j < t.len()
        invariant
            j <= t@.len(),
            dv == crate::manifest::str_views(brew_trust@),
            tv == crate::manifest::str_views(t@),
            gv == crate::manifest::str_views(ignore.tap@),
            fviews(out@) == mid + trust_extra_part(tv.take(j as int), dv, gv),
        decreases t.len() - j,
    {
        assert(tv.take(j as int + 1).drop_last() =~= tv.take(j as int));
        assert(tv.take(j as int + 1).last() == t@[j as int]@);
        if !crate::lists::has_string(brew_trust, t[j].as_str()) && !crate::lists::has_string(ignore.tap.as_slice(), t[j].as_str()) {
            push_finding(&mut out, Finding {
                app: own("brew-trust"),
                kind: "brew-trust-extra",
                target: tap_target(t[j].as_str()),
                ok: false,
                status: own("trusted-extra"),
                detail: None,
            });
        }
        j += 1;
    }
    assert(tv.take(tv.len() as int) =~= tv);
    out
}

/// One declared dconf snapshot, and its state.
#[derive(Debug)]
pub struct DconfObservation {
    /// What the snapshot is called in output.
    pub name: String,
    /// Its captured file.
    pub file: String,
    pub state: SnapshotState,
}

pub open spec fn diff_part(group: Seq<char>, ds: Seq<KeyDiff>) -> Seq<FindingV>
    decreases ds.len(),
{
    if ds.len() == 0 {
        Seq::empty()
    } else {
        let d = ds.last();
        diff_part(group, ds.drop_last()).push((
            group,
            if dconf_status(d@) == "extra"@ { "dconf-extra"@ } else { "dconf-key"@ },
            key_id_spec(d.section@, d.key@),
            false,
            dconf_status(d@),
            None,
        ))
    }
}

/// A snapshot's findings, grouped under `dconf/<name>`: unobservable is
/// reported as status only, never captured is drift, and each differing key
/// is drift of its own.
pub open spec fn dconf_part(o: DconfObservation) -> Seq<FindingV> {
    let group = "dconf/"@ + o.name@;
    match o.state {
        SnapshotState::Unobservable(why) => seq![(group, "dconf-unavailable"@, o.file@, true, "unavailable"@, Some(why@))],
        SnapshotState::Uncaptured => seq![(group, "dconf-uncaptured"@, o.file@, false, "never captured"@, None)],
        SnapshotState::Diffs(ds) => diff_part(group, ds@),
    }
}

pub open spec fn dconfs_part(os: Seq<DconfObservation>) -> Seq<FindingV>
    decreases os.len(),
{
    if os.len() == 0 {
        Seq::empty()
    } else {
        dconfs_part(os.drop_last()) + dconf_part(os.last())
    }
}

fn push_dconf(out: &mut Vec<Finding>, o: &DconfObservation)
    ensures
        fviews(final(out)@) == fviews(old(out)@) + dconf_part(*o),
{
    let ghost start = fviews(out@);
    let mut group = String::new();
    push_str(&mut group, "dconf/");
    push_str(&mut group, o.name.as_str());
    match &o.state {
        SnapshotState::Unobservable(why) => {
            push_finding(out, Finding {
                app: group,
                kind: "dconf-unavailable",
                target: own(o.file.as_str()),
                ok: true,
                status: own("unavailable"),
                detail: Some(own(why.as_str())),
            });
            assert(fviews(out@) =~= start + dconf_part(*o));
        },
        SnapshotState::Uncaptured => {
            push_finding(out, Finding {
                app: group,
                kind: "dconf-uncaptured",
                target: own(o.file.as_str()),
                ok: false,
                status: own("never captured"),
                detail: None,
            });
            assert(fviews(out@) =~= start + dconf_part(*o));
        },
        SnapshotState::Diffs(ds) => {
            let mut i: usize = 0;
            while i < ds.len()
                invariant
                    i <= ds@.len(),
                    group@ == "dconf/"@ + o.name@,
                    fviews(out@) == start + diff_part(group@, ds@.take(i as int)),
                decreases ds.len() - i,
            {
                let d = &ds[i];
                assert(ds@.take(i as int + 1).drop_last() =~= ds@.take(i as int));
                assert(ds@.take(i as int + 1).last() == *d);
                let st = d.status();
                let kind = if str_eq(st, "extra") { "dconf-extra" } else { "dconf-key" };
                push_finding(out, Finding { app: own(group.as_str()), kind, target: d.id(), ok: false, status: own(st), detail: None });
                i += 1;
            }
            assert(ds@.take(ds@.len() as int) =~= ds@);
        },
    }
}

/// Everything observed for a drift report, in report order: the resolved
/// steps, the assertions, the packages (`None` when none are declared), the
/// taps brew trusts (`None` without brew), GNOME extensions missing and
/// extra, layered rpms extra and missing, and each declared dconf snapshot.
pub struct DriftObservations {
    pub steps: Vec<StepObservation>,
    pub asserts: Vec<AssertObservation>,
    pub packages: Option<PackageObservation>,
    pub trusted: Option<Vec<String>>,
    pub gext_missing: Vec<String>,
    pub gext_extras: Vec<String>,
    pub rpm_extras: Vec<String>,
    pub rpm_missing: Vec<String>,
    pub dconf: Vec<DconfObservation>,
}

/// The package section, given the extras list the declared set has.
pub open spec fn package_part(p: Option<PackageObservation>, xs: Seq<(Manager, Seq<char>)>) -> Seq<FindingV> {
    match p {
        Some(o) => missing_part(o.effective@.filter(|q: Pkg| is_missing(q, o.installed@))) + extras_part(xs, o.mas_names@)
            + brew_part(crate::packages::pair_views(o.brew_extras@)),
        None => Seq::empty(),
    }
}

pub open spec fn extras_fit(p: Option<PackageObservation>, ignore: Ignore, xs: Seq<(Manager, Seq<char>)>) -> bool {
    match p {
        Some(o) => is_extras_list(xs, o.effective@, o.installed@, ignore),
        None => xs.len() == 0,
    }
}

/// The whole report, given the extras list the declared set has.
pub open spec fn drift_spec(obs: DriftObservations, ignore: Ignore, brew_trust: Seq<Seq<char>>, xs: Seq<(Manager, Seq<char>)>) -> Seq<FindingV> {
    steps_part(obs.steps@) + asserts_part(obs.asserts@) + package_part(obs.packages, xs) + trust_part(
        brew_trust,
        match obs.trusted {
            Some(t) => Some(crate::manifest::str_views(t@)),
            None => None,
        },
        crate::manifest::str_views(ignore.tap@),
    ) + tagged("gnome-extensions"@, "gnome-extension"@, crate::manifest::str_views(obs.gext_missing@), "missing"@)
        + tagged("gnome-extensions"@, "gnome-extension-extra"@, crate::manifest::str_views(obs.gext_extras@), "extra — declare in a bundle or [ignore].gext"@)
        + tagged("rpm-ostree"@, "rpm-ostree-extra"@, crate::manifest::str_views(obs.rpm_extras@), "extra"@)
        + tagged("rpm-ostree"@, "rpm-ostree"@, crate::manifest::str_views(obs.rpm_missing@), "missing"@)
        + dconfs_part(obs.dconf@)
}

fn push_step(out: &mut Vec<Finding>, o: &StepObservation)
    ensures
        fviews(final(out)@) == fviews(old(out)@) + step_part(*o),
{
    let ghost start = fviews(out@);
    match &o.gate {
        Gate::Skip(d) => {
            let mut st = String::new();
            push_str(&mut st, "skipped: ");
            push_str(&mut st, d.as_str());
            push_str(&mut st, " absent");
            push_finding(out, Finding { app: own(o.app.as_str()), kind: "when", target: own(d.as_str()), ok: true, status: st, detail: None });
        },
        Gate::Require(d) => {
            let mut st = String::new();
            push_str(&mut st, "required ");
            push_str(&mut st, d.as_str());
            push_str(&mut st, " is absent");
            push_finding(out, Finding { app: own(o.app.as_str()), kind: "needs", target: own(d.as_str()), ok: false, status: st, detail: None });
        },
        Gate::Apply => match step_finding(o.app.as_str(), &o.seen) {
            Some(f) => {
                let mut g = f;
                if o.manual && !g.ok {
                    let mut st = String::new();
                    push_str(&mut st, "manual — ");
                    push_str(&mut st, g.status.as_str());
                    g.status = st;
                    g.ok = true;
                }
                push_finding(out, g);
            },
            None => {},
        },
    }
    assert(fviews(out@) =~= start + step_part(*o));
}

/// Once an assertion cannot be evaluated, the report fails with that error
/// however many assertions follow.
proof fn lemma_asserts_err_sticks(os: Seq<AssertObservation>, n: int)
    requires
        0 <= n <= os.len(),
        asserts_result(os.take(n)) is Err,
    ensures
        asserts_result(os) == asserts_result(os.take(n)),
    decreases os.len() - n,
{
    if n < os.len() {
        assert(os.take(n + 1).drop_last() =~= os.take(n));
        lemma_asserts_err_sticks(os, n + 1);
    } else {
        assert(os.take(n) =~= os);
    }
}

fn push_assert(out: &mut Vec<Finding>, o: &AssertObservation) -> (r: Result<(), EvalError>)
    ensures
        match verdict_spec(o.assert, o.seen) {
            Err(e) => r == Err::<(), EvalError>(e),
            Ok((ok, st)) => r is Ok && fviews(final(out)@) == fviews(old(out)@).push(assert_part(*o, ok, st)),
        },
{
    let (ok0, status0) = match verdict(&o.assert, &o.seen) {
        Err(e) => return Err(e),
        Ok(v) => v,
    };
    let notice = match &o.assert.severity {
        Some(sv) => str_eq(sv.as_str(), "notice"),
        None => false,
    };
    let (ok, status) = if notice && !ok0 {
        let mut st = String::new();
        push_str(&mut st, "notice — ");
        match &o.assert.message {
            Some(m) => push_str(&mut st, m.as_str()),
            None => push_str(&mut st, status0.as_str()),
        }
        (true, st)
    } else {
        (ok0, status0)
    };
    push_finding(out, Finding {
        app: own(o.app.as_str()),
        kind: crate::drift::kind(&o.assert),
        target: crate::drift::target(&o.assert),
        ok,
        status,
        detail: None,
    });
    Ok(())
}

fn append_findings(out: &mut Vec<Finding>, more: Vec<Finding>)
    ensures
        fviews(final(out)@) == fviews(old(out)@) + fviews(more@),
{
    let ghost start = fviews(out@);
    let ghost all = more@;
    let n = more.len();
    let mut rest = more;
    let mut k: usize = 0;
    while rest.len() > 0
        invariant
            all.len() == n,
            k + rest@.len() == all.len(),
            rest@ == all.skip(k as int),
            fviews(out@) == start + fviews(all.take(k as int)),
        decreases rest.len(),
    {
        let f = rest.remove(0);
        assert(f == all[k as int]);
        assert(fviews(all.take(k as int + 1)) =~= fviews(all.take(k as int)).push(fview(f)));
        push_finding(out, f);
        assert(rest@ =~= all.skip(k as int + 1));
        k += 1;
    }
    assert(all.take(all.len() as int) =~= all);
}

/// The drift report: every observation turned into findings, in report
/// order.
pub fn run_drift(obs: &DriftObservations, ignore: &Ignore, brew_trust: &[String]) -> (r: Result<Vec<Finding>, EvalError>)
    ensures
        match r {
            Err(e) => asserts_result(obs.asserts@) == Err::<Seq<FindingV>, EvalError>(e),
            Ok(v) => {
                &&& asserts_result(obs.asserts@) is Ok
                &&& exists|xs: Seq<(Manager, Seq<char>)>| extras_fit(obs.packages, *ignore, xs)
                    && fviews(v@) == drift_spec(*obs, *ignore, crate::manifest::str_views(brew_trust@), xs)
                &&& forall|i: int| 0 <= i < v@.len() ==> crate::plan_laws::well_reported(#[trigger] fviews(v@)[i])
            },
        },
{
    let mut out: Vec<Finding> = Vec::new();
    let mut i: usize = 0;
    while i < obs.steps.len()
        invariant
            i <= obs.steps@.len(),
            fviews(out@) == steps_part(obs.steps@.take(i as int)),
        decreases obs.steps.len() - i,
    {
        assert(obs.steps@.take(i as int + 1).drop_last() =~= obs.steps@.take(i as int));
        push_step(&mut out, &obs.steps[i]);
        i += 1;
    }
    assert(obs.steps@.take(obs.steps@.len() as int) =~= obs.steps@);
    let ghost s1 = fviews(out@);
    let mut j: usize = 0;
    while j < obs.asserts.len()
        invariant
            j <= obs.asserts@.len(),
            asserts_result(obs.asserts@.take(j as int)) is Ok,
            fviews(out@) == s1 + asserts_part(obs.asserts@.take(j as int)),
        decreases obs.asserts.len() - j,
    {
        assert(obs.asserts@.take(j as int + 1).drop_last() =~= obs.asserts@.take(j as int));
        assert(obs.asserts@.take(j as int + 1).last() == obs.asserts@[j as int]);
        let ghost before = fviews(out@);
        match push_assert(&mut out, &obs.asserts[j]) {
            Err(e) => {
                proof {
                    lemma_asserts_err_sticks(obs.asserts@, j as int + 1);
                }
                return Err(e);
            },
            Ok(()) => {},
        }
        assert(fviews(out@) =~= s1 + asserts_part(obs.asserts@.take(j as int + 1)));
        j += 1;
    }
    assert(obs.asserts@.take(obs.asserts@.len() as int) =~= obs.asserts@);
    let ghost s2 = fviews(out@);
    let ghost mut xs: Seq<(Manager, Seq<char>)> = Seq::empty();
    match &obs.packages {
        Some(p) => {
            let pf = package_findings(p, ignore);
            proof {
                xs = choose|x: Seq<(Manager, Seq<char>)>| is_extras_list(x, p.effective@, p.installed@, *ignore)
                    && fviews(pf@) == missing_part(p.effective@.filter(|q: Pkg| is_missing(q, p.installed@)))
                    + extras_part(x, p.mas_names@) + brew_part(crate::packages::pair_views(p.brew_extras@));
            }
            append_findings(&mut out, pf);
        },
        None => {},
    }
    assert(fviews(out@) =~= s2 + package_part(obs.packages, xs));
    let tf = trust_findings(brew_trust, &obs.trusted, ignore);
    append_findings(&mut out, tf);
    push_tagged(&mut out, "gnome-extensions", "gnome-extension", &obs.gext_missing, "missing");
    push_tagged(&mut out, "gnome-extensions", "gnome-extension-extra", &obs.gext_extras, "extra — declare in a bundle or [ignore].gext");
    push_tagged(&mut out, "rpm-ostree", "rpm-ostree-extra", &obs.rpm_extras, "extra");
    push_tagged(&mut out, "rpm-ostree", "rpm-ostree", &obs.rpm_missing, "missing");
    let ghost s3 = fviews(out@);
    let mut k: usize = 0;
    while k < obs.dconf.len()
        invariant
            k <= obs.dconf@.len(),
            fviews(out@) == s3 + dconfs_part(obs.dconf@.take(k as int)),
        decreases obs.dconf.len() - k,
    {
        assert(obs.dconf@.take(k as int + 1).drop_last() =~= obs.dconf@.take(k as int));
        push_dconf(&mut out, &obs.dconf[k]);
        k += 1;
    }
    assert(obs.dconf@.take(obs.dconf@.len() as int) =~= obs.dconf@);
    assert(extras_fit(obs.packages, *ignore, xs));
    assert(fviews(out@) =~= drift_spec(*obs, *ignore, crate::manifest::str_views(brew_trust@), xs));
    proof {
        assert(asserts_result(obs.asserts@) is Ok);
        crate::plan_laws::law_drift_findings_are_well_reported(*obs, *ignore, crate::manifest::str_views(brew_trust@), xs);
        let d = drift_spec(*obs, *ignore, crate::manifest::str_views(brew_trust@), xs);
        assert forall|i: int| 0 <= i < out@.len() implies crate::plan_laws::well_reported(#[trigger] fviews(out@)[i]) by {
            assert(fviews(out@)[i] == d[i]);
        }
    }
    Ok(out)
}

// ---------------------------------------------------------------------------
// Step lifecycles and the install / update flows' decisions

/// What the flows need to know of a step's declaration: its explicit `run`
/// lifecycle, which primitive it uses, and whether it is a seed.
#[derive(Debug, Clone)]
pub struct StepShape {
    pub run: Option<String>,
    pub copy: bool,
    pub block: bool,
    pub setkey: bool,
    /// An `exec` step: it runs a script.
    pub script: bool,
    pub profile: bool,
    pub sysfile: bool,
    pub seed: bool,
}

/// A step's lifecycle: its explicit `run`, else `install` for an exec, a
/// seed or a profile (run once), else `always`.
pub open spec fn lifecycle_spec(s: StepShape) -> Seq<char> {
    match s.run {
        Some(r) => r@,
        None => if s.script || s.seed || s.profile { "install"@ } else { "always"@ },
    }
}

pub fn lifecycle(s: &StepShape) -> (r: String)
    ensures
        r@ == lifecycle_spec(*s),
{
    match &s.run {
        Some(r) => own(r.as_str()),
        None => if s.script || s.seed || s.profile { own("install") } else { own("always") },
    }
}

/// The step uses one of the primitives.
pub open spec fn is_step_spec(s: StepShape) -> bool {
    s.copy || s.block || s.setkey || s.script || s.profile || s.sysfile
}

pub fn is_step(s: &StepShape) -> (r: bool)
    ensures
        r == is_step_spec(*s),
{
    s.copy || s.block || s.setkey || s.script || s.profile || s.sysfile
}

/// An install applies every step but a `manual` one.
pub fn install_applies(s: &StepShape) -> (r: bool)
    ensures
        r == (is_step_spec(*s) && lifecycle_spec(*s) != "manual"@),
{
    is_step(s) && !str_eq(lifecycle(s).as_str(), "manual")
}

/// An `ensure` step is applied only when its target is missing (an exec
/// when its check fails): `finding` is the step's drift finding, if it has
/// one, as `(ok, status)`.
pub open spec fn ensure_spec(finding: Option<(bool, Seq<char>)>, script: bool) -> bool {
    match finding {
        Some((ok, status)) => !ok && (status == "missing"@ || script),
        None => false,
    }
}

pub fn ensure_should_apply(finding: Option<(bool, &str)>, script: bool) -> (r: bool)
    ensures
        r == ensure_spec(match finding {
            Some((ok, st)) => Some((ok, st@)),
            None => None,
        }, script),
{
    match finding {
        Some((ok, status)) => !ok && (str_eq(status, "missing") || script),
        None => false,
    }
}

/// An update re-applies `always` steps and `ensure` steps whose target is
/// missing, and nothing else: install-only and manual steps stay put.
pub fn update_applies(s: &StepShape, ensure: bool) -> (r: bool)
    ensures
        r == (is_step_spec(*s) && (lifecycle_spec(*s) == "always"@ || (lifecycle_spec(*s) == "ensure"@ && ensure))),
{
    if !is_step(s) {
        return false;
    }
    let l = lifecycle(s);
    str_eq(l.as_str(), "always") || (str_eq(l.as_str(), "ensure") && ensure)
}

/// The refusal a live install gets on a host of another os.
pub open spec fn refusal_spec(name: Seq<char>, os: Seq<char>, host_os: Seq<char>, dry_run: bool) -> Option<Seq<char>> {
    if !dry_run && os != host_os {
        Some("refusing to install '"@ + name + "' (os="@ + os + ") on a "@ + host_os
            + " host — run it on the target machine, or use --dry-run to preview"@)
    } else {
        None
    }
}

/// Never applies one machine's config to a host of another os; a dry run
/// may preview from anywhere.
pub fn install_refusal(name: &str, os: &str, host_os: &str, dry_run: bool) -> (r: Option<String>)
    ensures
        match r {
            Some(m) => refusal_spec(name@, os@, host_os@, dry_run) == Some(m@),
            None => refusal_spec(name@, os@, host_os@, dry_run) is None,
        },
{
    if !dry_run && !str_eq(os, host_os) {
        let mut m = String::new();
        push_str(&mut m, "refusing to install '");
        push_str(&mut m, name);
        push_str(&mut m, "' (os=");
        push_str(&mut m, os);
        push_str(&mut m, ") on a ");
        push_str(&mut m, host_os);
        push_str(&mut m, " host — run it on the target machine, or use --dry-run to preview");
        Some(m)
    } else {
        None
    }
}

pub open spec fn adds_of(ps: Seq<Pkg>) -> Seq<(Manager, Seq<char>)> {
    ps.map_values(|p: Pkg| (p.manager, crate::packages::match_name_spec(p.manager, p.name@, crate::packages::opt_view(p.id))))
}

/// What a converge is about to add, known before it runs: each declared
/// package the probe found missing, by the name it is matched under.
pub fn packages_to_add(effective: &[Pkg], installed: &Installed) -> (r: Vec<(Manager, String)>)
    ensures
        crate::packages::pair_views(r@) == adds_of(effective@.filter(|p: Pkg| is_missing(p, installed@))),
{
    let miss = missing(effective, installed);
    let ghost ms = miss@.map_values(|p: &Pkg| *p);
    let mut out: Vec<(Manager, String)> = Vec::new();
    let mut i: usize = 0;
    while i < miss.len()
        invariant
            i <= miss@.len(),
            ms == miss@.map_values(|p: &Pkg| *p),
            crate::packages::pair_views(out@) == adds_of(ms.take(i as int)),
        decreases miss.len() - i,
    {
        let p = miss[i];
        let ghost before = crate::packages::pair_views(out@);
        out.push((p.manager, p.match_name()));
        assert(crate::packages::pair_views(out@) =~= before.push((p.manager, crate::packages::match_name_spec(p.manager, p.name@, crate::packages::opt_view(p.id)))));
        assert(adds_of(ms.take(i as int + 1)) =~= adds_of(ms.take(i as int)).push((p.manager, crate::packages::match_name_spec(p.manager, p.name@, crate::packages::opt_view(p.id)))));
        i += 1;
    }
    assert(ms.take(ms.len() as int) =~= ms);
    out
}

/// The names added for one manager, in order.
pub open spec fn added_for(adds: Seq<(Manager, Seq<char>)>, m: Manager) -> Seq<Seq<char>>
    decreases adds.len(),
{
    if adds.len() == 0 {
        Seq::empty()
    } else {
        let w = added_for(adds.drop_last(), m);
        if adds.last().0 == m { w.push(adds.last().1) } else { w }
    }
}

/// The journal's providers, in the order a converge records them, and the
/// managers they uninstall for.
pub open spec fn journal_order() -> Seq<(Manager, Seq<char>)> {
    seq![(Manager::Flatpak, "flatpak"@), (Manager::Brew, "brew"@), (Manager::Cask, "cask"@), (Manager::Vscode, "vscode"@), (Manager::Mas, "mas"@)]
}

fn names_for(adds: &Vec<(Manager, String)>, m: Manager) -> (r: Vec<String>)
    ensures
        crate::manifest::str_views(r@) == added_for(crate::packages::pair_views(adds@), m),
{
    let ghost av = crate::packages::pair_views(adds@);
    let mut out: Vec<String> = Vec::new();
    let mut i: usize = 0;
    while i < adds.len()
        invariant
            i <= adds@.len(),
            av == crate::packages::pair_views(adds@),
            crate::manifest::str_views(out@) == added_for(av.take(i as int), m),
        decreases adds.len() - i,
    {
        assert(av.take(i as int + 1).drop_last() =~= av.take(i as int));
        assert(av.take(i as int + 1).last() == (adds@[i as int].0, adds@[i as int].1@));
        if adds[i].0 == m {
            let ghost before = crate::manifest::str_views(out@);
            out.push(own(adds[i].1.as_str()));
            assert(crate::manifest::str_views(out@) =~= before.push(adds@[i as int].1@));
        }
        i += 1;
    }
    assert(av.take(av.len() as int) =~= av);
    out
}

/// What the journal records for a converge: per provider, in journal
/// order, the names added for its manager.
pub fn journal_groups(adds: &Vec<(Manager, String)>) -> (r: Vec<(&'static str, Vec<String>)>)
    ensures
        r@.len() == 5,
        forall|i: int| 0 <= i < 5 ==> (#[trigger] r@[i]).0@ == journal_order()[i].1 && crate::manifest::str_views(r@[i].1@)
            == added_for(crate::packages::pair_views(adds@), journal_order()[i].0),
{
    let mut out: Vec<(&'static str, Vec<String>)> = Vec::new();
    out.push(("flatpak", names_for(adds, Manager::Flatpak)));
    out.push(("brew", names_for(adds, Manager::Brew)));
    out.push(("cask", names_for(adds, Manager::Cask)));
    out.push(("vscode", names_for(adds, Manager::Vscode)));
    out.push(("mas", names_for(adds, Manager::Mas)));
    out
}

/// How one step of a flow went.
#[derive(Debug, Clone, PartialEq, Eq)]
pub enum StepOutcome {
    /// Its `when` probe failed: skipped, with the probe's description.
    Skipped(String),
    /// Its `needs` probe failed: the run stops.
    Required(String),
    /// Applied, and nothing changed.
    Unchanged,
    /// Applied and changed something (or, in a dry run, would).
    Changed,
    /// A checkless exec ran: temper cannot tell what it did.
    Ran,
}

/// The running count of a flow's config phase.
#[derive(Debug, Clone, PartialEq, Eq)]
pub struct InstallTally {
    pub changed: usize,
    pub ran: usize,
    pub total: usize,
    pub skipped: Vec<String>,
}

impl InstallTally {
    pub fn new() -> (r: InstallTally)
        ensures
            r.changed == 0 && r.ran == 0 && r.total == 0 && r.skipped@.len() == 0,
    {
        InstallTally { changed: 0, ran: 0, total: 0, skipped: Vec::new() }
    }

    /// Counts one step's outcome: a skip is listed, an applied step counts
    /// toward the total (and toward changed or ran), and a failed `needs`
    /// stops the run with its message, counting nothing.
    pub fn record(&mut self, app: &str, o: StepOutcome) -> (r: Result<(), String>)
        requires
            old(self).total < usize::MAX,
            old(self).changed <= old(self).total,
            old(self).ran <= old(self).total,
        ensures
            final(self).changed <= final(self).total,
            final(self).ran <= final(self).total,
            match o {
                StepOutcome::Skipped(d) => r is Ok && final(self).total == old(self).total && final(self).changed == old(self).changed
                    && final(self).ran == old(self).ran && crate::manifest::str_views(final(self).skipped@)
                    == crate::manifest::str_views(old(self).skipped@).push(d@),
                StepOutcome::Required(d) => *final(self) == *old(self) && (match r {
                    Err(m) => m@ == "step in `"@ + app@ + "` needs "@ + d@ + ", which is absent"@,
                    Ok(_) => false,
                }),
                StepOutcome::Unchanged => r is Ok && final(self).total == old(self).total + 1 && final(self).changed == old(self).changed
                    && final(self).ran == old(self).ran && final(self).skipped == old(self).skipped,
                StepOutcome::Changed => r is Ok && final(self).total == old(self).total + 1 && final(self).changed == old(self).changed + 1
                    && final(self).ran == old(self).ran && final(self).skipped == old(self).skipped,
                StepOutcome::Ran => r is Ok && final(self).total == old(self).total + 1 && final(self).changed == old(self).changed
                    && final(self).ran == old(self).ran + 1 && final(self).skipped == old(self).skipped,
            },
    {
        match o {
            StepOutcome::Skipped(d) => {
                let ghost before = crate::manifest::str_views(self.skipped@);
                let ghost dv = d@;
                self.skipped.push(d);
                assert(crate::manifest::str_views(self.skipped@) =~= before.push(dv));
                Ok(())
            },
            StepOutcome::Required(d) => {
                let mut m = String::new();
                push_str(&mut m, "step in `");
                push_str(&mut m, app);
                push_str(&mut m, "` needs ");
                push_str(&mut m, d.as_str());
                push_str(&mut m, ", which is absent");
                Err(m)
            },
            StepOutcome::Unchanged => {
                self.total = self.total + 1;
                Ok(())
            },
            StepOutcome::Changed => {
                self.total = self.total + 1;
                self.changed = self.changed + 1;
                Ok(())
            },
            StepOutcome::Ran => {
                self.total = self.total + 1;
                self.ran = self.ran + 1;
                Ok(())
            },
        }
    }
}

/// Outcome of an install or update run.
#[derive(Debug, Clone, PartialEq, Eq)]
pub struct InstallReport {
    /// Declared packages considered by the converge.
    pub packages: usize,
    /// Packages an update actually brought up to date; `None` on flows that
    /// do not upgrade.
    pub upgraded: Option<usize>,
    pub steps_changed: usize,
    /// Steps that ran but whose effect cannot be observed.
    pub steps_ran: usize,
    pub steps_total: usize,
    /// A layered rpm was added and the machine needs a reboot.
    pub reboot: bool,
    /// Descriptions of the probes that skipped steps.
    pub skipped: Vec<String>,
}

/// An install's report: the packages it considered, a reboot when any rpm
/// was layered, and the config phase's tally (all zero for a packages-only
/// install, which skips that phase).
pub fn install_report(packages: usize, rpm_layered: &[String], packages_only: bool, tally: InstallTally) -> (r: InstallReport)
    ensures
        r.packages == packages,
        r.upgraded is None,
        r.reboot == (rpm_layered@.len() > 0),
        packages_only ==> r.steps_changed == 0 && r.steps_ran == 0 && r.steps_total == 0 && r.skipped@.len() == 0,
        !packages_only ==> r.steps_changed == tally.changed && r.steps_ran == tally.ran && r.steps_total == tally.total
            && r.skipped == tally.skipped,
{
    let reboot = rpm_layered.len() > 0;
    if packages_only {
        InstallReport { packages, upgraded: None, steps_changed: 0, steps_ran: 0, steps_total: 0, reboot, skipped: Vec::new() }
    } else {
        InstallReport {
            packages,
            upgraded: None,
            steps_changed: tally.changed,
            steps_ran: tally.ran,
            steps_total: tally.total,
            reboot,
            skipped: tally.skipped,
        }
    }
}

/// Whether an update trusts the declared taps and upgrades packages: only
/// where the machine declares some, so a machine without packages never
/// triggers a global upgrade.
pub fn update_upgrades(effective: &[Pkg]) -> (r: bool)
    ensures
        r == (effective@.len() > 0),
{
    effective.len() > 0
}

/// An update's report: the declared packages, how many the upgrade moved
/// (measured from the installed versions seen before and after it, and only
/// where packages are declared, since only then does an update upgrade), and
/// the config phase's tally. An update layers nothing, so it never asks for a
/// reboot.
pub fn update_report(
    effective: &[Pkg],
    before: &[(String, String)],
    after: &[(String, String)],
    tally: InstallTally,
) -> (r: InstallReport)
    requires
        crate::lists::distinct_keys(before@),
    ensures
        r.packages == effective@.len(),
        effective@.len() == 0 ==> r.upgraded is None,
        effective@.len() > 0 ==> r.upgraded == Some(crate::providers::upgraded_count(before@, after@) as usize),
        !r.reboot,
        r.steps_changed == tally.changed && r.steps_ran == tally.ran && r.steps_total == tally.total && r.skipped == tally.skipped,
{
    let upgraded = if update_upgrades(effective) {
        Some(crate::providers::upgraded_between(before, after))
    } else {
        None
    };
    InstallReport {
        packages: effective.len(),
        upgraded,
        steps_changed: tally.changed,
        steps_ran: tally.ran,
        steps_total: tally.total,
        reboot: false,
        skipped: tally.skipped,
    }
}

} // verus!
