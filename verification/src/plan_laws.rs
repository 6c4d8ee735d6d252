//! What the drift report's advice promises for every report: nothing is
//! offered when everything is in sync, every offered command is one the
//! registry records for a finding that actually failed, and every verb the
//! registry records for a failing finding is offered.
use vstd::prelude::*;
use crate::plan::{
    assertion_failed, failing_verb, find_kind, kind_has_verb, kind_rows, kind_rows_0, kind_rows_1,
    kind_rows_2, kind_rows_3, kind_rows_4, kind_rows_5, kind_rows_6, kind_rows_7, lemma_find_kind_in,
    offers, opt_rem, remediations_spec, verbs_of, Finding, KindV, FindingV, StepObservation, StepSeen, Gate,
    step_part, steps_part, step_finding_spec, manual_view, asserts_part, asserts_result, assert_part,
    AssertObservation, DriftObservations, DconfObservation, drift_spec, missing_part, extras_part, brew_part,
    untrusted_part, trust_extra_part, trust_part, tagged, diff_part, dconf_part, dconfs_part, package_part,
    lifecycle_spec, StepShape,
};
use crate::dconf::{status_spec, KeyDiff, SnapshotState};
use crate::packages::{Manager, Pkg};
use crate::drift::{verdict_spec, AssertSeen};
use crate::primitives::{exec_state_spec, label_spec, FileState};
use crate::text::starts_with;
use crate::drift::{assert_kind_spec, assert_kinds};
use crate::manifest::Assert;

verus! {

/// A converge verb the advice knows how to offer.
pub open spec fn conv_offered(c: Seq<char>) -> bool {
    c == "temper install --packages-only"@ || c == "temper prune"@ || c == "temper restore-dconf"@
        || c == "temper install"@
}

/// An absorb verb the advice knows how to offer.
pub open spec fn abs_offered(c: Seq<char>) -> bool {
    c == "temper reconcile"@ || c == "temper snapshot-dconf"@
}

/// Every verb a kind records is one the advice can offer, in its direction.
pub open spec fn row_offered(k: KindV) -> bool {
    &&& forall|c: Seq<char>| #[trigger] verbs_of(k.2).contains(c) ==> conv_offered(c)
    &&& forall|c: Seq<char>| #[trigger] verbs_of(k.3).contains(c) ==> abs_offered(c)
}

pub open spec fn rows_offered(rows: Seq<KindV>) -> bool {
    forall|j: int| 0 <= j < rows.len() ==> #[trigger] row_offered(rows[j])
}

proof fn lemma_concat_contains<A>(a: Seq<A>, b: Seq<A>, x: A)
    ensures
        (a + b).contains(x) <==> (a.contains(x) || b.contains(x)),
{
    if (a + b).contains(x) {
        let i = choose|i: int| 0 <= i < (a + b).len() && (a + b)[i] == x;
        if i < a.len() {
            assert(a[i] == x);
        } else {
            assert(b[i - a.len()] == x);
        }
    }
    if a.contains(x) {
        let i = choose|i: int| 0 <= i < a.len() && a[i] == x;
        assert((a + b)[i] == x);
    }
    if b.contains(x) {
        let i = choose|i: int| 0 <= i < b.len() && b[i] == x;
        assert((a + b)[a.len() + i] == x);
    }
}

proof fn lemma_rows_concat(a: Seq<KindV>, b: Seq<KindV>)
    requires
        rows_offered(a),
        rows_offered(b),
    ensures
        rows_offered(a + b),
{
    assert forall|j: int| 0 <= j < (a + b).len() implies #[trigger] row_offered((a + b)[j]) by {
        if j < a.len() {
            assert((a + b)[j] == a[j]);
        } else {
            assert((a + b)[j] == b[j - a.len()]);
        }
    }
}

proof fn lemma_verbs_of_contains(v: Seq<(u8, Seq<char>, Seq<char>)>, c: Seq<char>)
    ensures
        verbs_of(v).contains(c) ==> exists|k: int| 0 <= k < v.len() && v[k].0 == 0 && (#[trigger] v[k]).1 == c,
    decreases v.len(),
{
    if v.len() > 0 {
        lemma_verbs_of_contains(v.drop_last(), c);
        if verbs_of(v).contains(c) {
            if verbs_of(v.drop_last()).contains(c) {
                let k = choose|k: int| 0 <= k < v.drop_last().len() && v.drop_last()[k].0 == 0 && (#[trigger] v.drop_last()[k]).1 == c;
                assert(v[k] == v.drop_last()[k]);
            } else {
                let w = verbs_of(v.drop_last());
                if v.last().0 == 0 {
                    let x = choose|x: int| 0 <= x < w.push(v.last().1).len() && w.push(v.last().1)[x] == c;
                    if x < w.len() {
                        assert(w[x] == c);
                    }
                    assert(v[v.len() - 1] == v.last());
                }
            }
        }
    }
}

/// A kind whose verb answers all name offered commands is offered.
proof fn lemma_row_offered(k: KindV)
    requires
        forall|x: int| 0 <= x < k.2.len() && k.2[x].0 == 0 ==> conv_offered(#[trigger] k.2[x].1),
        forall|x: int| 0 <= x < k.3.len() && k.3[x].0 == 0 ==> abs_offered(#[trigger] k.3[x].1),
    ensures
        row_offered(k),
{
    assert forall|c: Seq<char>| #[trigger] verbs_of(k.2).contains(c) implies conv_offered(c) by {
        lemma_verbs_of_contains(k.2, c);
    }
    assert forall|c: Seq<char>| #[trigger] verbs_of(k.3).contains(c) implies abs_offered(c) by {
        lemma_verbs_of_contains(k.3, c);
    }
}

proof fn lemma_rows_0_offered()
    ensures
        rows_offered(kind_rows_0()),
{
    let r = kind_rows_0();
    assert forall|j: int| 0 <= j < r.len() implies #[trigger] row_offered(r[j]) by {
        lemma_row_offered(r[j]);
    }
}

proof fn lemma_rows_1_offered()
    ensures
        rows_offered(kind_rows_1()),
{
    let r = kind_rows_1();
    assert forall|j: int| 0 <= j < r.len() implies #[trigger] row_offered(r[j]) by {
        lemma_row_offered(r[j]);
    }
}

proof fn lemma_rows_2_offered()
    ensures
        rows_offered(kind_rows_2()),
{
    let r = kind_rows_2();
    assert forall|j: int| 0 <= j < r.len() implies #[trigger] row_offered(r[j]) by {
        lemma_row_offered(r[j]);
    }
}

proof fn lemma_rows_3_offered()
    ensures
        rows_offered(kind_rows_3()),
{
    let r = kind_rows_3();
    assert forall|j: int| 0 <= j < r.len() implies #[trigger] row_offered(r[j]) by {
        lemma_row_offered(r[j]);
    }
}

proof fn lemma_rows_4_offered()
    ensures
        rows_offered(kind_rows_4()),
{
    let r = kind_rows_4();
    assert forall|j: int| 0 <= j < r.len() implies #[trigger] row_offered(r[j]) by {
        lemma_row_offered(r[j]);
    }
}

proof fn lemma_rows_5_offered()
    ensures
        rows_offered(kind_rows_5()),
{
    let r = kind_rows_5();
    assert forall|j: int| 0 <= j < r.len() implies #[trigger] row_offered(r[j]) by {
        lemma_row_offered(r[j]);
    }
}

proof fn lemma_rows_6_offered()
    ensures
        rows_offered(kind_rows_6()),
{
    let r = kind_rows_6();
    assert forall|j: int| 0 <= j < r.len() implies #[trigger] row_offered(r[j]) by {
        lemma_row_offered(r[j]);
    }
}

proof fn lemma_rows_7_offered()
    ensures
        rows_offered(kind_rows_7()),
{
    let r = kind_rows_7();
    assert forall|j: int| 0 <= j < r.len() implies #[trigger] row_offered(r[j]) by {
        lemma_row_offered(r[j]);
    }
}

/// Every verb the registry records is one the advice offers, in the
/// direction it is recorded for.
pub proof fn lemma_registry_offered()
    ensures
        rows_offered(kind_rows()),
{
    lemma_rows_0_offered();
    lemma_rows_1_offered();
    lemma_rows_2_offered();
    lemma_rows_3_offered();
    lemma_rows_4_offered();
    lemma_rows_5_offered();
    lemma_rows_6_offered();
    lemma_rows_7_offered();
    lemma_rows_concat(kind_rows_0(), kind_rows_1());
    lemma_rows_concat(kind_rows_0() + kind_rows_1(), kind_rows_2());
    lemma_rows_concat(kind_rows_0() + kind_rows_1() + kind_rows_2(), kind_rows_3());
    lemma_rows_concat(kind_rows_0() + kind_rows_1() + kind_rows_2() + kind_rows_3(), kind_rows_4());
    lemma_rows_concat(kind_rows_0() + kind_rows_1() + kind_rows_2() + kind_rows_3() + kind_rows_4(), kind_rows_5());
    lemma_rows_concat(kind_rows_0() + kind_rows_1() + kind_rows_2() + kind_rows_3() + kind_rows_4() + kind_rows_5(), kind_rows_6());
    lemma_rows_concat(kind_rows_0() + kind_rows_1() + kind_rows_2() + kind_rows_3() + kind_rows_4() + kind_rows_5() + kind_rows_6(), kind_rows_7());
}

/// A report in which every finding is in sync earns no remediation.
pub proof fn law_in_sync_yields_no_remediation(items: Seq<Finding>)
    requires
        forall|i: int| 0 <= i < items.len() ==> #[trigger] items[i].ok,
    ensures
        remediations_spec(items) == Seq::<(Seq<char>, Seq<char>)>::empty(),
{
    assert forall|c: Seq<char>, d: bool| !failing_verb(items, d, c) by {
        if failing_verb(items, d, c) {
            let i = choose|i: int| 0 <= i < items.len() && !items[i].ok && kind_has_verb(#[trigger] items[i].kind@, d, c);
            assert(items[i].ok);
        }
    }
    if assertion_failed(items) {
        let j = choose|j: int| 0 <= j < items.len() && !items[j].ok && crate::drift::assert_kinds().contains(#[trigger] items[j].kind@);
        assert(items[j].ok);
    }
    assert(remediations_spec(items) =~= Seq::<(Seq<char>, Seq<char>)>::empty());
}

/// The offers, one membership test each.
proof fn lemma_offers_contains(
    b1: bool,
    b2: bool,
    b3: bool,
    b4: bool,
    b5: bool,
    b6: bool,
    b7: bool,
    e1: bool,
    e2: bool,
    e3: bool,
    e4: bool,
    e5: bool,
    e6: bool,
    x: (Seq<char>, Seq<char>),
)
    ensures
        offers(b1, b2, b3, b4, b5, b6, b7, e1, e2, e3, e4, e5, e6).contains(x) <==> {
            ||| (b1 && x.1 == "temper install --packages-only"@)
            ||| (b2 && x.1 == "temper prune"@)
            ||| (b3 && x.1 == "temper restore-dconf"@)
            ||| (b4 && x.1 == "temper reconcile"@)
            ||| (b5 && x.1 == "temper snapshot-dconf"@)
            ||| (b6 && x.1 == "temper drift"@)
            ||| (b7 && x.1 == "temper install"@)
            ||| (b7 && x.1 == "temper undo"@)
        } && (
            (b1 && x == ("install declared packages/extensions that are missing, and trust declared taps"@, "temper install --packages-only"@))
            || (b2 && x == (crate::plan::prune_label(e1, e2, e3), "temper prune"@))
            || (b3 && x == ("reload the desktop snapshot, clobbering live tweaks (asks first)"@, "temper restore-dconf"@))
            || (b4 && x == ("interactively add extras / drop entries you removed on purpose ("@ + crate::plan::capture_parts(e4, e5, e6) + ")"@, "temper reconcile"@))
            || (b5 && x == ("capture the whole desktop subtree into the spec instead"@, "temper snapshot-dconf"@))
            || (b6 && x == ("an assertion failed — resolve it yourself (no verb applies); re-run drift to confirm"@, "temper drift"@))
            || (b7 && x == ("re-apply the drifted config steps above (copy/block/setkey/sysfile/exec/profile)"@, "temper install"@))
            || (b7 && x == ("revert the most recent run instead"@, "temper undo"@))
        ),
{
    let p1 = opt_rem(b1, "install declared packages/extensions that are missing, and trust declared taps"@, "temper install --packages-only"@);
    let p2 = opt_rem(b2, crate::plan::prune_label(e1, e2, e3), "temper prune"@);
    let p3 = opt_rem(b3, "reload the desktop snapshot, clobbering live tweaks (asks first)"@, "temper restore-dconf"@);
    let p4 = opt_rem(b4, "interactively add extras / drop entries you removed on purpose ("@ + crate::plan::capture_parts(e4, e5, e6) + ")"@, "temper reconcile"@);
    let p5 = opt_rem(b5, "capture the whole desktop subtree into the spec instead"@, "temper snapshot-dconf"@);
    let p6 = opt_rem(b6, "an assertion failed — resolve it yourself (no verb applies); re-run drift to confirm"@, "temper drift"@);
    let p7 = opt_rem(b7, "re-apply the drifted config steps above (copy/block/setkey/sysfile/exec/profile)"@, "temper install"@);
    let p8 = opt_rem(b7, "revert the most recent run instead"@, "temper undo"@);
    lemma_concat_contains(p1, p2, x);
    lemma_concat_contains(p1 + p2, p3, x);
    lemma_concat_contains(p1 + p2 + p3, p4, x);
    lemma_concat_contains(p1 + p2 + p3 + p4, p5, x);
    lemma_concat_contains(p1 + p2 + p3 + p4 + p5, p6, x);
    lemma_concat_contains(p1 + p2 + p3 + p4 + p5 + p6, p7, x);
    lemma_concat_contains(p1 + p2 + p3 + p4 + p5 + p6 + p7, p8, x);
    assert(offers(b1, b2, b3, b4, b5, b6, b7, e1, e2, e3, e4, e5, e6) == p1 + p2 + p3 + p4 + p5 + p6 + p7 + p8);
    assert(p1.contains(x) <==> (b1 && x == p1[0]));
    assert(p2.contains(x) <==> (b2 && x == p2[0]));
    assert(p3.contains(x) <==> (b3 && x == p3[0]));
    assert(p4.contains(x) <==> (b4 && x == p4[0]));
    assert(p5.contains(x) <==> (b5 && x == p5[0]));
    assert(p6.contains(x) <==> (b6 && x == p6[0]));
    assert(p7.contains(x) <==> (b7 && x == p7[0]));
    assert(p8.contains(x) <==> (b7 && x == p8[0]));
}

/// An offered command stands for something that drifted.
pub open spec fn backed(items: Seq<Finding>, c: Seq<char>) -> bool {
    ||| failing_verb(items, true, c)
    ||| failing_verb(items, false, c)
    ||| (c == "temper drift"@ && assertion_failed(items))
    ||| (c == "temper undo"@ && failing_verb(items, true, "temper install"@))
}

/// Remediations never invent a verb: each offered command is one the
/// registry records for a kind that failed in this report (in either
/// direction), `temper drift` for a failed assertion, or `temper undo` beside
/// the re-install it reverts.
pub proof fn law_remediations_never_invent_a_verb(items: Seq<Finding>, r: (Seq<char>, Seq<char>))
    requires
        remediations_spec(items).contains(r),
    ensures
        backed(items, r.1),
{
    lemma_offers_contains(
        failing_verb(items, true, "temper install --packages-only"@),
        failing_verb(items, true, "temper prune"@),
        failing_verb(items, true, "temper restore-dconf"@),
        failing_verb(items, false, "temper reconcile"@),
        failing_verb(items, false, "temper snapshot-dconf"@),
        assertion_failed(items),
        failing_verb(items, true, "temper install"@),
        crate::plan::drifted(items, seq!["package-extra"@]),
        crate::plan::drifted(items, seq!["brew-trust-extra"@]),
        crate::plan::drifted(items, seq!["gnome-extension-extra"@]),
        crate::plan::drifted(items, seq!["package"@, "package-extra"@, "brew-trust"@, "brew-trust-extra"@]),
        crate::plan::drifted(items, seq!["gnome-extension"@, "gnome-extension-extra"@]),
        crate::plan::drifted(items, seq!["dconf-key"@, "dconf-extra"@, "dconf-uncaptured"@]),
        r,
    );
}

/// Every verb the registry records for a kind that failed is offered: a
/// finding whose kind answers a direction with `c` earns a remediation whose
/// command is `c`.
pub proof fn law_registered_verbs_are_offered(items: Seq<Finding>, i: int, converge: bool, c: Seq<char>)
    requires
        0 <= i < items.len(),
        !items[i].ok,
        kind_has_verb(items[i].kind@, converge, c),
    ensures
        exists|label: Seq<char>| #[trigger] remediations_spec(items).contains((label, c)),
{
    lemma_registry_offered();
    lemma_find_kind_in(kind_rows(), items[i].kind@);
    let kv = find_kind(kind_rows(), items[i].kind@)->0;
    let j = choose|j: int| 0 <= j < kind_rows().len() && kind_rows()[j] == kv;
    assert(row_offered(kind_rows()[j]));
    assert(failing_verb(items, converge, c));
    if converge {
        assert(verbs_of(kv.2).contains(c));
        assert(conv_offered(c));
    } else {
        assert(verbs_of(kv.3).contains(c));
        assert(abs_offered(c));
    }
    let e1 = crate::plan::drifted(items, seq!["package-extra"@]);
    let e2 = crate::plan::drifted(items, seq!["brew-trust-extra"@]);
    let e3 = crate::plan::drifted(items, seq!["gnome-extension-extra"@]);
    let e4 = crate::plan::drifted(items, seq!["package"@, "package-extra"@, "brew-trust"@, "brew-trust-extra"@]);
    let e5 = crate::plan::drifted(items, seq!["gnome-extension"@, "gnome-extension-extra"@]);
    let e6 = crate::plan::drifted(items, seq!["dconf-key"@, "dconf-extra"@, "dconf-uncaptured"@]);
    let label = if converge {
        if c == "temper install --packages-only"@ {
            "install declared packages/extensions that are missing, and trust declared taps"@
        } else if c == "temper prune"@ {
            crate::plan::prune_label(e1, e2, e3)
        } else if c == "temper restore-dconf"@ {
            "reload the desktop snapshot, clobbering live tweaks (asks first)"@
        } else {
            "re-apply the drifted config steps above (copy/block/setkey/sysfile/exec/profile)"@
        }
    } else if c == "temper reconcile"@ {
        "interactively add extras / drop entries you removed on purpose ("@ + crate::plan::capture_parts(e4, e5, e6) + ")"@
    } else {
        "capture the whole desktop subtree into the spec instead"@
    };
    lemma_offers_contains(
        failing_verb(items, true, "temper install --packages-only"@),
        failing_verb(items, true, "temper prune"@),
        failing_verb(items, true, "temper restore-dconf"@),
        failing_verb(items, false, "temper reconcile"@),
        failing_verb(items, false, "temper snapshot-dconf"@),
        assertion_failed(items),
        failing_verb(items, true, "temper install"@),
        e1,
        e2,
        e3,
        e4,
        e5,
        e6,
        (label, c),
    );
    assert(remediations_spec(items).contains((label, c)));
}

// ---------------------------------------------------------------------------
// What a step contributes to the report.

/// A kind the registry records.
pub open spec fn registered(k: Seq<char>) -> bool {
    exists|i: int| 0 <= i < kind_rows().len() && kind_rows()[i].0 == k
}

/// A finding as the report must show it: its kind registered, a skipped
/// (`when`) step never drift, an absent hard requirement (`needs`) always
/// drift, a manual step's drift shown as status only, and an unobservable
/// snapshot never drift.
pub open spec fn well_reported(f: FindingV) -> bool {
    &&& registered(f.1)
    &&& f.1 == "when"@ ==> f.3
    &&& f.1 == "needs"@ ==> !f.3
    &&& starts_with(f.4, "manual \u{2014} "@) ==> f.3
    &&& f.1 == "dconf-unavailable"@ ==> f.3
}

proof fn lemma_step_kinds_registered()
    ensures
        registered("copy"@),
        registered("block"@),
        registered("setkey"@),
        registered("sysfile"@),
        registered("exec"@),
        registered("profile"@),
        registered("when"@),
        registered("needs"@),
{
    let r = kind_rows();
    let a = kind_rows_0() + kind_rows_1();
    assert(r == a + (kind_rows_2() + kind_rows_3() + kind_rows_4() + kind_rows_5() + kind_rows_6() + kind_rows_7())) by {
        assert(r =~= a + (kind_rows_2() + kind_rows_3() + kind_rows_4() + kind_rows_5() + kind_rows_6() + kind_rows_7()));
    }
    assert(r[0].0 == "copy"@);
    assert(r[1].0 == "block"@);
    assert(r[2].0 == "setkey"@);
    assert(r[3].0 == "sysfile"@);
    assert(r[4].0 == "exec"@);
    assert(r[5].0 == "profile"@);
    assert(r[6].0 == "when"@);
    assert(r[7].0 == "needs"@);
}

proof fn lemma_no_manual_prefix(s: Seq<char>)
    requires
        s.len() > 0,
        s[0] != 'm',
    ensures
        !starts_with(s, "manual \u{2014} "@),
{
    reveal_strlit("manual \u{2014} ");
    let p = "manual \u{2014} "@;
    assert(p[0] == 'm');
    if starts_with(s, p) {
        assert(s.subrange(0, p.len() as int)[0] == s[0]);
    }
}

proof fn lemma_labels_not_manual(st: FileState)
    ensures
        !starts_with(label_spec(st), "manual \u{2014} "@),
        !starts_with(exec_state_spec(Some(true)).1, "manual \u{2014} "@),
        !starts_with(exec_state_spec(Some(false)).1, "manual \u{2014} "@),
        !starts_with(exec_state_spec(None).1, "manual \u{2014} "@),
{
    reveal_strlit("missing");
    reveal_strlit("in sync");
    reveal_strlit("drifted");
    reveal_strlit("unavailable");
    reveal_strlit("no drift-check");
    lemma_no_manual_prefix("in sync"@);
    lemma_no_manual_prefix("drifted"@);
    lemma_no_manual_prefix("unavailable"@);
    lemma_no_manual_prefix("no drift-check"@);
    reveal_strlit("manual \u{2014} ");
}

proof fn lemma_first_differs(s: Seq<char>, t: Seq<char>)
    requires
        s.len() > 0,
        t.len() > 0,
        s[0] != t[0],
    ensures
        s != t,
{
}

/// No step kind is a gate kind.
proof fn lemma_step_kinds_apart()
    ensures
        "when"@ != "needs"@,
        "copy"@ != "when"@ && "copy"@ != "needs"@,
        "block"@ != "when"@ && "block"@ != "needs"@,
        "setkey"@ != "when"@ && "setkey"@ != "needs"@,
        "exec"@ != "when"@ && "exec"@ != "needs"@,
        "profile"@ != "when"@ && "profile"@ != "needs"@,
        "sysfile"@ != "when"@ && "sysfile"@ != "needs"@,
        "when"@ != "dconf-unavailable"@ && "needs"@ != "dconf-unavailable"@,
        "copy"@ != "dconf-unavailable"@ && "block"@ != "dconf-unavailable"@ && "setkey"@ != "dconf-unavailable"@,
        "exec"@ != "dconf-unavailable"@ && "profile"@ != "dconf-unavailable"@ && "sysfile"@ != "dconf-unavailable"@,
{
    reveal_strlit("dconf-unavailable");
    let du = "dconf-unavailable"@;
    reveal_strlit("when");
    reveal_strlit("needs");
    reveal_strlit("copy");
    reveal_strlit("block");
    reveal_strlit("setkey");
    reveal_strlit("exec");
    reveal_strlit("profile");
    reveal_strlit("sysfile");
    let w = "when"@;
    let n = "needs"@;
    lemma_first_differs(w, n);
    lemma_first_differs("copy"@, w);
    lemma_first_differs("copy"@, n);
    lemma_first_differs("block"@, w);
    lemma_first_differs("block"@, n);
    lemma_first_differs("setkey"@, w);
    lemma_first_differs("setkey"@, n);
    lemma_first_differs("exec"@, w);
    lemma_first_differs("exec"@, n);
    lemma_first_differs("profile"@, w);
    lemma_first_differs("profile"@, n);
    lemma_first_differs("sysfile"@, w);
    lemma_first_differs("sysfile"@, n);
    lemma_first_differs(w, du);
    lemma_first_differs(n, du);
    lemma_first_differs("copy"@, du);
    lemma_first_differs("block"@, du);
    lemma_first_differs("setkey"@, du);
    lemma_first_differs("exec"@, du);
    lemma_first_differs("profile"@, du);
    lemma_first_differs("sysfile"@, du);
}

proof fn lemma_step_part_well_reported(o: StepObservation)
    ensures
        forall|i: int| 0 <= i < step_part(o).len() ==> well_reported(#[trigger] step_part(o)[i]),
{
    lemma_step_kinds_registered();
    lemma_step_kinds_apart();
    match o.gate {
        Gate::Skip(d) => {},
        Gate::Require(d) => {
            reveal_strlit("required ");
            lemma_no_manual_prefix("required "@ + d@ + " is absent"@);
        },
        Gate::Apply => {
            match step_finding_spec(o.app@, o.seen) {
                Some(v) => {
                    match o.seen {
                        StepSeen::Copy(_, st) => lemma_labels_not_manual(st),
                        StepSeen::Block(_, st) => lemma_labels_not_manual(st),
                        StepSeen::SetKey(_, _, st, _) => lemma_labels_not_manual(st),
                        StepSeen::Profile(_, st, _) => lemma_labels_not_manual(st),
                        StepSeen::Sysfile(_, st) => lemma_labels_not_manual(st),
                        StepSeen::Exec(_, _) => lemma_labels_not_manual(FileState::Missing),
                        StepSeen::Unevaluated => {},
                    }
                    assert(well_reported(v));
                    assert(well_reported(manual_view(v, o.manual)));
                },
                None => {},
            }
        },
    }
}

/// Every finding the resolved steps contribute to a drift report is well
/// reported: its kind is registered, a skipped step is never drift, an
/// absent hard requirement always is, and a manual step's drift is shown as
/// status only.
pub proof fn law_step_findings_are_well_reported(os: Seq<StepObservation>)
    ensures
        forall|i: int| 0 <= i < steps_part(os).len() ==> well_reported(#[trigger] steps_part(os)[i]),
    decreases os.len(),
{
    if os.len() > 0 {
        law_step_findings_are_well_reported(os.drop_last());
        lemma_step_part_well_reported(os.last());
        let a = steps_part(os.drop_last());
        let b = step_part(os.last());
        assert forall|i: int| 0 <= i < steps_part(os).len() implies well_reported(#[trigger] steps_part(os)[i]) by {
            if i < a.len() {
                assert(steps_part(os)[i] == a[i]);
            } else {
                assert(steps_part(os)[i] == b[i - a.len()]);
            }
        }
    }
}

// ---------------------------------------------------------------------------
// Assertion kinds.

/// No row of the registry offers a verb among its converge answers.
pub open spec fn no_converge_verb(k: KindV) -> bool {
    forall|j: int| 0 <= j < k.2.len() ==> (#[trigger] k.2[j]).0 != 0u8
}

/// Every assertion kind is registered, and the registry row that holds it
/// offers no verb that converges it: an assertion reports a condition.
pub proof fn law_assert_kinds_are_registered_without_converge()
    ensures
        forall|i: int| 0 <= i < assert_kinds().len() ==> registered(#[trigger] assert_kinds()[i]),
        forall|i: int|
            0 <= i < assert_kinds().len() ==> exists|r: int|
                0 <= r < kind_rows().len() && kind_rows()[r].0 == #[trigger] assert_kinds()[i] && no_converge_verb(
                    kind_rows()[r],
                ),
{
    let rows = kind_rows();
    let a = kind_rows_0() + kind_rows_1() + kind_rows_2() + kind_rows_3();
    assert(a.len() == 20);
    assert(rows =~= a + (kind_rows_4() + kind_rows_5() + kind_rows_6() + kind_rows_7()));
    let ks = assert_kinds();
    assert(rows[20] == kind_rows_4()[0]);
    assert(rows[21] == kind_rows_4()[1]);
    assert(rows[22] == kind_rows_4()[2]);
    assert(rows[23] == kind_rows_4()[3]);
    assert(rows[24] == kind_rows_4()[4]);
    assert(rows[25] == kind_rows_5()[0]);
    assert(rows[26] == kind_rows_5()[1]);
    assert forall|i: int| 0 <= i < ks.len() implies exists|r: int|
        0 <= r < rows.len() && rows[r].0 == #[trigger] ks[i] && no_converge_verb(rows[r]) by {
        let r = 20 + i;
        assert(rows[r].0 == ks[i]);
        assert(no_converge_verb(rows[r]));
    }
}

/// An assertion's kind is one of the assertion kinds exactly when it is not
/// `unknown`.
pub proof fn law_assert_kind_is_known_unless_unknown(a: Assert)
    ensures
        assert_kinds().contains(assert_kind_spec(a)) <==> assert_kind_spec(a) != "unknown"@,
{
    let ks = assert_kinds();
    let u = "unknown"@;
    reveal_strlit("unknown");
    reveal_strlit("absent");
    reveal_strlit("contains-line");
    reveal_strlit("mode");
    reveal_strlit("executable-resolves");
    reveal_strlit("not-member");
    reveal_strlit("shell");
    reveal_strlit("json-semantic");
    assert forall|i: int| 0 <= i < ks.len() implies ks[i] != u by {
        lemma_first_differs(ks[i], u);
    }
    if assert_kind_spec(a) != u {
        let k = assert_kind_spec(a);
        if a.absent is Some {
            assert(ks[0] == k);
        } else if a.contains_line is Some {
            assert(ks[1] == k);
        } else if a.mode is Some {
            assert(ks[2] == k);
        } else if a.executable_resolves is Some {
            assert(ks[3] == k);
        } else if a.not_member is Some {
            assert(ks[4] == k);
        } else if a.shell is Some {
            assert(ks[5] == k);
        } else if a.json_semantic is Some {
            assert(ks[6] == k);
        }
    }
}

// ---------------------------------------------------------------------------
// What the assertions contribute to the report.

proof fn lemma_not_manual(s: Seq<char>)
    requires
        s.len() >= 2,
        s[0] != 'm' || s[1] != 'a',
    ensures
        !starts_with(s, "manual \u{2014} "@),
{
    reveal_strlit("manual \u{2014} ");
    let p = "manual \u{2014} "@;
    assert(p[0] == 'm' && p[1] == 'a');
    if starts_with(s, p) {
        assert(s.subrange(0, p.len() as int)[0] == s[0]);
        assert(s.subrange(0, p.len() as int)[1] == s[1]);
    }
}

/// A failing verdict's status never reads as a manual step's.
proof fn lemma_failing_verdict_not_manual(a: Assert, seen: AssertSeen)
    requires
        verdict_spec(a, seen) matches Ok((ok, _)) && !ok,
    ensures
        !starts_with(verdict_spec(a, seen)->Ok_0.1, "manual \u{2014} "@),
{
    let st = verdict_spec(a, seen)->Ok_0.1;
    reveal_strlit("should not exist");
    reveal_strlit("file missing");
    reveal_strlit("missing line `");
    reveal_strlit("path missing");
    reveal_strlit("mode ");
    reveal_strlit("not on PATH");
    reveal_strlit("in group ");
    reveal_strlit("could not read login shell");
    reveal_strlit("shell ");
    reveal_strlit("differs from reference");
    if a.absent is Some {
    } else if a.contains_line is Some {
        if seen matches AssertSeen::Text(Some(_)) {
            let pre = "missing line `"@;
            assert(st[0] == pre[0] && st[1] == pre[1]);
        }
    } else if a.mode is Some {
        if seen matches AssertSeen::Mode(Some(_)) {
            let pre = "mode "@;
            assert(st[0] == pre[0] && st[1] == pre[1]);
        }
    } else if a.executable_resolves is Some {
    } else if a.not_member is Some {
        let pre = "in group "@;
        assert(st[0] == pre[0] && st[1] == pre[1]);
    } else if a.shell is Some {
        if seen matches AssertSeen::Shell(Some(_)) {
            let pre = "shell "@;
            assert(st[0] == pre[0] && st[1] == pre[1]);
        }
    }
    lemma_not_manual(st);
}

proof fn lemma_second_differs(s: Seq<char>, t: Seq<char>)
    requires
        s.len() > 1,
        t.len() > 1,
        s[1] != t[1],
    ensures
        s != t,
{
}

proof fn lemma_assert_kinds_apart(k: Seq<char>)
    requires
        assert_kinds().contains(k) || k == "unknown"@,
    ensures
        k != "when"@,
        k != "needs"@,
        k != "dconf-unavailable"@,
        registered(k),
{
    reveal_strlit("dconf-unavailable");
    reveal_strlit("when");
    reveal_strlit("needs");
    reveal_strlit("unknown");
    reveal_strlit("absent");
    reveal_strlit("contains-line");
    reveal_strlit("mode");
    reveal_strlit("executable-resolves");
    reveal_strlit("not-member");
    reveal_strlit("shell");
    reveal_strlit("json-semantic");
    let ks = assert_kinds();
    law_assert_kinds_are_registered_without_converge();
    if k == "unknown"@ {
        lemma_first_differs(k, "dconf-unavailable"@);
        lemma_first_differs(k, "when"@);
        lemma_first_differs(k, "needs"@);
        let rows = kind_rows();
        let a = kind_rows_0() + kind_rows_1() + kind_rows_2() + kind_rows_3() + kind_rows_4();
        assert(a.len() == 25);
        assert(rows =~= a + (kind_rows_5() + kind_rows_6() + kind_rows_7()));
        assert(rows[27] == kind_rows_5()[2]);
        assert(rows[27].0 == k);
    } else {
        let i = choose|i: int| 0 <= i < ks.len() && ks[i] == k;
        assert(registered(ks[i]));
        lemma_first_differs(k, "dconf-unavailable"@);
        lemma_first_differs(k, "when"@);
        if i == 4 {
            lemma_second_differs(k, "needs"@);
        } else {
            lemma_first_differs(k, "needs"@);
        }
    }
}

proof fn lemma_assert_kind_known(a: Assert)
    ensures
        assert_kinds().contains(assert_kind_spec(a)) || assert_kind_spec(a) == "unknown"@,
{
    law_assert_kind_is_known_unless_unknown(a);
}

/// Every finding the assertions contribute is well reported: its kind is
/// registered and is never a gate's, and a status that reads as a manual
/// step's never marks drift.
pub proof fn law_assert_findings_are_well_reported(os: Seq<AssertObservation>)
    requires
        asserts_result(os) is Ok,
    ensures
        forall|i: int| 0 <= i < asserts_part(os).len() ==> well_reported(#[trigger] asserts_part(os)[i]),
    decreases os.len(),
{
    if os.len() > 0 {
        let pre = os.drop_last();
        law_assert_findings_are_well_reported(pre);
        let o = os.last();
        let (ok, st) = verdict_spec(o.assert, o.seen)->Ok_0;
        let f = assert_part(o, ok, st);
        lemma_assert_kind_known(o.assert);
        lemma_assert_kinds_apart(assert_kind_spec(o.assert));
        if !ok {
            lemma_failing_verdict_not_manual(o.assert, o.seen);
        }
        assert(well_reported(f));
        let a = asserts_part(pre);
        assert(asserts_part(os) == a.push(f));
        assert forall|i: int| 0 <= i < asserts_part(os).len() implies well_reported(#[trigger] asserts_part(os)[i]) by {
            if i < a.len() {
                assert(asserts_part(os)[i] == a[i]);
            }
        }
    }
}

// ---------------------------------------------------------------------------
// The rest of the report: packages, trust, extensions, rpms, snapshots.

proof fn lemma_differ_at(s: Seq<char>, t: Seq<char>, k: int)
    requires
        0 <= k < s.len(),
        k < t.len(),
        s[k] != t[k],
    ensures
        s != t,
{
}

/// The plain kinds: registered, and none a gate's or an unobservable
/// snapshot's.
pub open spec fn plain_kind(k: Seq<char>) -> bool {
    registered(k) && k != "when"@ && k != "needs"@ && k != "dconf-unavailable"@
}

proof fn lemma_report_kinds()
    ensures
        plain_kind("package"@),
        plain_kind("package-extra"@),
        plain_kind("rpm-ostree-extra"@),
        plain_kind("rpm-ostree"@),
        plain_kind("brew-trust"@),
        plain_kind("brew-trust-extra"@),
        plain_kind("gnome-extension"@),
        plain_kind("gnome-extension-extra"@),
        plain_kind("dconf-key"@),
        plain_kind("dconf-extra"@),
        plain_kind("dconf-uncaptured"@),
        registered("dconf-unavailable"@),
        "dconf-unavailable"@ != "needs"@,
{
    let r = kind_rows();
    let a = kind_rows_0() + kind_rows_1() + kind_rows_2() + kind_rows_3();
    assert(a.len() == 20);
    assert(r =~= a + (kind_rows_4() + kind_rows_5() + kind_rows_6() + kind_rows_7()));
    assert(r[8].0 == "package"@);
    assert(r[9].0 == "package-extra"@);
    assert(r[10].0 == "rpm-ostree-extra"@);
    assert(r[11].0 == "rpm-ostree"@);
    assert(r[12].0 == "brew-trust"@);
    assert(r[13].0 == "brew-trust-extra"@);
    assert(r[14].0 == "gnome-extension"@);
    assert(r[15].0 == "gnome-extension-extra"@);
    assert(r[16].0 == "dconf-key"@);
    assert(r[17].0 == "dconf-extra"@);
    assert(r[18].0 == "dconf-unavailable"@);
    assert(r[19].0 == "dconf-uncaptured"@);
    reveal_strlit("when");
    reveal_strlit("needs");
    reveal_strlit("dconf-unavailable");
    reveal_strlit("package");
    reveal_strlit("package-extra");
    reveal_strlit("rpm-ostree-extra");
    reveal_strlit("rpm-ostree");
    reveal_strlit("brew-trust");
    reveal_strlit("brew-trust-extra");
    reveal_strlit("gnome-extension");
    reveal_strlit("gnome-extension-extra");
    reveal_strlit("dconf-key");
    reveal_strlit("dconf-extra");
    reveal_strlit("dconf-uncaptured");
    let w = "when"@;
    let n = "needs"@;
    let du = "dconf-unavailable"@;
    let firsts = seq![
        "package"@,
        "package-extra"@,
        "rpm-ostree-extra"@,
        "rpm-ostree"@,
        "brew-trust"@,
        "brew-trust-extra"@,
        "gnome-extension"@,
        "gnome-extension-extra"@,
    ];
    assert forall|i: int| 0 <= i < firsts.len() implies firsts[i] != w && firsts[i] != n && firsts[i] != du by {
        lemma_first_differs(firsts[i], w);
        lemma_first_differs(firsts[i], n);
        lemma_first_differs(firsts[i], du);
    }
    assert(firsts[0] == "package"@);
    assert(firsts[1] == "package-extra"@);
    assert(firsts[2] == "rpm-ostree-extra"@);
    assert(firsts[3] == "rpm-ostree"@);
    assert(firsts[4] == "brew-trust"@);
    assert(firsts[5] == "brew-trust-extra"@);
    assert(firsts[6] == "gnome-extension"@);
    assert(firsts[7] == "gnome-extension-extra"@);
    lemma_first_differs("dconf-key"@, w);
    lemma_first_differs("dconf-key"@, n);
    lemma_differ_at("dconf-key"@, du, 6);
    lemma_first_differs("dconf-extra"@, w);
    lemma_first_differs("dconf-extra"@, n);
    lemma_differ_at("dconf-extra"@, du, 6);
    lemma_first_differs("dconf-uncaptured"@, w);
    lemma_first_differs("dconf-uncaptured"@, n);
    lemma_differ_at("dconf-uncaptured"@, du, 8);
    lemma_first_differs(du, n);
}

/// The statuses of plain drift never read as a manual step's.
proof fn lemma_plain_statuses()
    ensures
        !starts_with("missing"@, "manual \u{2014} "@),
        !starts_with("extra"@, "manual \u{2014} "@),
        !starts_with("untrusted"@, "manual \u{2014} "@),
        !starts_with("trusted-extra"@, "manual \u{2014} "@),
        !starts_with("extra \u{2014} declare in a bundle or [ignore].gext"@, "manual \u{2014} "@),
        !starts_with("never captured"@, "manual \u{2014} "@),
        !starts_with("changed"@, "manual \u{2014} "@),
        !starts_with("unchanged"@, "manual \u{2014} "@),
{
    reveal_strlit("missing");
    reveal_strlit("extra");
    reveal_strlit("untrusted");
    reveal_strlit("trusted-extra");
    reveal_strlit("extra \u{2014} declare in a bundle or [ignore].gext");
    reveal_strlit("never captured");
    reveal_strlit("changed");
    reveal_strlit("unchanged");
    lemma_not_manual("missing"@);
    lemma_no_manual_prefix("extra"@);
    lemma_no_manual_prefix("untrusted"@);
    lemma_no_manual_prefix("trusted-extra"@);
    lemma_no_manual_prefix("extra \u{2014} declare in a bundle or [ignore].gext"@);
    lemma_no_manual_prefix("never captured"@);
    lemma_no_manual_prefix("changed"@);
    lemma_no_manual_prefix("unchanged"@);
}

pub open spec fn all_well(s: Seq<FindingV>) -> bool {
    forall|i: int| 0 <= i < s.len() ==> well_reported(#[trigger] s[i])
}

proof fn lemma_all_well_concat(a: Seq<FindingV>, b: Seq<FindingV>)
    requires
        all_well(a),
        all_well(b),
    ensures
        all_well(a + b),
{
    assert forall|i: int| 0 <= i < (a + b).len() implies well_reported(#[trigger] (a + b)[i]) by {
        if i < a.len() {
            assert((a + b)[i] == a[i]);
        } else {
            assert((a + b)[i] == b[i - a.len()]);
        }
    }
}

proof fn lemma_all_well_push(a: Seq<FindingV>, f: FindingV)
    requires
        all_well(a),
        well_reported(f),
    ensures
        all_well(a.push(f)),
{
    assert forall|i: int| 0 <= i < a.push(f).len() implies well_reported(#[trigger] a.push(f)[i]) by {
        if i < a.len() {
            assert(a.push(f)[i] == a[i]);
        }
    }
}

proof fn lemma_missing_part(ps: Seq<Pkg>)
    ensures
        all_well(missing_part(ps)),
    decreases ps.len(),
{
    if ps.len() > 0 {
        lemma_missing_part(ps.drop_last());
        lemma_report_kinds();
        lemma_plain_statuses();
        let p = ps.last();
        lemma_all_well_push(missing_part(ps.drop_last()), ("packages"@, "package"@, crate::packages::manager_str(p.manager) + " "@ + p.name@, false, "missing"@, None));
    }
}

proof fn lemma_extras_part(xs: Seq<(Manager, Seq<char>)>, mas: Seq<(String, String)>)
    ensures
        all_well(extras_part(xs, mas)),
    decreases xs.len(),
{
    if xs.len() > 0 {
        lemma_extras_part(xs.drop_last(), mas);
        lemma_report_kinds();
        lemma_plain_statuses();
        let (m, n) = xs.last();
        lemma_all_well_push(extras_part(xs.drop_last(), mas), ("packages"@, "package-extra"@, crate::plan::extra_target(m, n, mas), false, "extra"@, None));
    }
}

proof fn lemma_brew_part(bx: Seq<(Manager, Seq<char>)>)
    ensures
        all_well(brew_part(bx)),
    decreases bx.len(),
{
    if bx.len() > 0 {
        lemma_brew_part(bx.drop_last());
        lemma_report_kinds();
        lemma_plain_statuses();
        let (m, n) = bx.last();
        lemma_all_well_push(brew_part(bx.drop_last()), ("packages"@, "package-extra"@, crate::packages::manager_str(m) + " "@ + n, false, "extra"@, None));
    }
}

proof fn lemma_untrusted_part(decl: Seq<Seq<char>>, trusted: Seq<Seq<char>>)
    ensures
        all_well(untrusted_part(decl, trusted)),
    decreases decl.len(),
{
    if decl.len() > 0 {
        lemma_untrusted_part(decl.drop_last(), trusted);
        lemma_report_kinds();
        lemma_plain_statuses();
        lemma_all_well_push(untrusted_part(decl.drop_last(), trusted), ("brew-trust"@, "brew-trust"@, "tap "@ + decl.last(), false, "untrusted"@, None));
    }
}

proof fn lemma_trust_extra_part(trusted: Seq<Seq<char>>, decl: Seq<Seq<char>>, ign: Seq<Seq<char>>)
    ensures
        all_well(trust_extra_part(trusted, decl, ign)),
    decreases trusted.len(),
{
    if trusted.len() > 0 {
        lemma_trust_extra_part(trusted.drop_last(), decl, ign);
        lemma_report_kinds();
        lemma_plain_statuses();
        lemma_all_well_push(trust_extra_part(trusted.drop_last(), decl, ign), ("brew-trust"@, "brew-trust-extra"@, "tap "@ + trusted.last(), false, "trusted-extra"@, None));
    }
}

proof fn lemma_tagged(app: Seq<char>, kind: Seq<char>, items: Seq<Seq<char>>, status: Seq<char>)
    requires
        plain_kind(kind),
        !starts_with(status, "manual \u{2014} "@),
    ensures
        all_well(tagged(app, kind, items, status)),
{
}

proof fn lemma_diff_part(group: Seq<char>, ds: Seq<KeyDiff>)
    ensures
        all_well(diff_part(group, ds)),
    decreases ds.len(),
{
    if ds.len() > 0 {
        lemma_diff_part(group, ds.drop_last());
        lemma_report_kinds();
        lemma_plain_statuses();
        let d = ds.last();
        let st = status_spec(d@);
        let f = (
            group,
            if st == "extra"@ { "dconf-extra"@ } else { "dconf-key"@ },
            crate::dconf::key_id_spec(d.section@, d.key@),
            false,
            st,
            None::<Seq<char>>,
        );
        assert(well_reported(f));
        lemma_all_well_push(diff_part(group, ds.drop_last()), f);
    }
}

proof fn lemma_dconfs_part(os: Seq<DconfObservation>)
    ensures
        all_well(dconfs_part(os)),
    decreases os.len(),
{
    if os.len() > 0 {
        lemma_dconfs_part(os.drop_last());
        lemma_report_kinds();
        lemma_plain_statuses();
        let o = os.last();
        match o.state {
            SnapshotState::Diffs(ds) => lemma_diff_part("dconf/"@ + o.name@, ds@),
            _ => {},
        }
        assert(all_well(dconf_part(o)));
        lemma_all_well_concat(dconfs_part(os.drop_last()), dconf_part(o));
    }
}

/// Every finding a drift report holds is well reported: its kind is
/// registered, a skipped step is never drift and an absent hard
/// requirement always is, a status that reads as a manual step's never
/// marks drift, and an unobservable snapshot is never drift.
pub proof fn law_drift_findings_are_well_reported(
    obs: DriftObservations,
    ignore: crate::manifest::Ignore,
    trust: Seq<Seq<char>>,
    xs: Seq<(Manager, Seq<char>)>,
)
    requires
        asserts_result(obs.asserts@) is Ok,
    ensures
        all_well(drift_spec(obs, ignore, trust, xs)),
{
    law_step_findings_are_well_reported(obs.steps@);
    law_assert_findings_are_well_reported(obs.asserts@);
    lemma_report_kinds();
    lemma_plain_statuses();
    let sp = steps_part(obs.steps@);
    let ap = asserts_part(obs.asserts@);
    lemma_all_well_concat(sp, ap);
    let pp = package_part(obs.packages, xs);
    match obs.packages {
        Some(o) => {
            let a = missing_part(o.effective@.filter(|q: Pkg| crate::packages::is_missing(q, o.installed@)));
            lemma_missing_part(o.effective@.filter(|q: Pkg| crate::packages::is_missing(q, o.installed@)));
            lemma_extras_part(xs, o.mas_names@);
            lemma_brew_part(crate::packages::pair_views(o.brew_extras@));
            lemma_all_well_concat(a, extras_part(xs, o.mas_names@));
            lemma_all_well_concat(a + extras_part(xs, o.mas_names@), brew_part(crate::packages::pair_views(o.brew_extras@)));
        },
        None => {},
    }
    lemma_all_well_concat(sp + ap, pp);
    let trusted = match obs.trusted {
        Some(t) => Some(crate::manifest::str_views(t@)),
        None => None,
    };
    let ign = crate::manifest::str_views(ignore.tap@);
    let tp = trust_part(trust, trusted, ign);
    match trusted {
        Some(t) => {
            lemma_untrusted_part(trust, t);
            lemma_trust_extra_part(t, trust, ign);
            lemma_all_well_concat(untrusted_part(trust, t), trust_extra_part(t, trust, ign));
        },
        None => {},
    }
    lemma_all_well_concat(sp + ap + pp, tp);
    let g1 = tagged("gnome-extensions"@, "gnome-extension"@, crate::manifest::str_views(obs.gext_missing@), "missing"@);
    let g2 = tagged("gnome-extensions"@, "gnome-extension-extra"@, crate::manifest::str_views(obs.gext_extras@), "extra \u{2014} declare in a bundle or [ignore].gext"@);
    let r1 = tagged("rpm-ostree"@, "rpm-ostree-extra"@, crate::manifest::str_views(obs.rpm_extras@), "extra"@);
    let r2 = tagged("rpm-ostree"@, "rpm-ostree"@, crate::manifest::str_views(obs.rpm_missing@), "missing"@);
    lemma_tagged("gnome-extensions"@, "gnome-extension"@, crate::manifest::str_views(obs.gext_missing@), "missing"@);
    lemma_tagged("gnome-extensions"@, "gnome-extension-extra"@, crate::manifest::str_views(obs.gext_extras@), "extra \u{2014} declare in a bundle or [ignore].gext"@);
    lemma_tagged("rpm-ostree"@, "rpm-ostree-extra"@, crate::manifest::str_views(obs.rpm_extras@), "extra"@);
    lemma_tagged("rpm-ostree"@, "rpm-ostree"@, crate::manifest::str_views(obs.rpm_missing@), "missing"@);
    lemma_dconfs_part(obs.dconf@);
    lemma_all_well_concat(sp + ap + pp + tp, g1);
    lemma_all_well_concat(sp + ap + pp + tp + g1, g2);
    lemma_all_well_concat(sp + ap + pp + tp + g1 + g2, r1);
    lemma_all_well_concat(sp + ap + pp + tp + g1 + g2 + r1, r2);
    lemma_all_well_concat(sp + ap + pp + tp + g1 + g2 + r1 + r2, dconfs_part(obs.dconf@));
    assert(drift_spec(obs, ignore, trust, xs) == sp + ap + pp + tp + g1 + g2 + r1 + r2 + dconfs_part(obs.dconf@));
}

// ---------------------------------------------------------------------------
// Lifecycles.

/// A step with no explicit `run` is applied once, at install, when it runs
/// a script, seeds a file or installs a profile, so no update re-applies it
/// (whether or not `ensure` steps are being checked); any other such step is
/// `always`, re-applied by every update. Neither default is `manual`.
pub proof fn law_default_lifecycles(s: StepShape, ensure: bool)
    requires
        s.run is None,
    ensures
        (s.script || s.seed || s.profile) ==> lifecycle_spec(s) == "install"@,
        (s.script || s.seed || s.profile) ==> !(lifecycle_spec(s) == "always"@ || (lifecycle_spec(s) == "ensure"@ && ensure)),
        !(s.script || s.seed || s.profile) ==> lifecycle_spec(s) == "always"@,
        lifecycle_spec(s) != "manual"@,
{
    reveal_strlit("install");
    reveal_strlit("always");
    reveal_strlit("ensure");
    reveal_strlit("manual");
    lemma_first_differs("install"@, "always"@);
    lemma_first_differs("install"@, "ensure"@);
    lemma_first_differs("install"@, "manual"@);
    lemma_first_differs("always"@, "manual"@);
}

/// An explicit `run` is the step's lifecycle, whatever the step does.
pub proof fn law_explicit_run_is_the_lifecycle(s: StepShape)
    requires
        s.run is Some,
    ensures
        lifecycle_spec(s) == s.run->Some_0@,
{
}

} // verus!
