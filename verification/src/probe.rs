//! Presence probes for `when`/`needs` step gating: which check a probe asks
//! for (its first set field decides), and how its label reads. A probe with
//! no field set never passes. Running the check is the caller's.
use vstd::prelude::*;
use crate::ledger::{expand_spec, expand_tilde, opt_str};
use crate::manifest::{str_views, Probe};
use crate::providers::first_word;
use crate::text::{chars_of, lines, lines_of, push_str, same, views};

verus! {

/// The check a presence probe comes down to.
#[derive(Debug, Clone, PartialEq, Eq)]
pub enum PresenceCheck {
    /// This command resolves on `PATH`.
    OnPath(String),
    /// This path exists.
    Exists(String),
    /// `tool` resolves on `PATH` and `argv` (which starts with it) exits 0.
    Succeeds { tool: String, argv: Vec<String> },
    /// `mas` resolves and `mas list` has a row whose first word is this id.
    MasListed(String),
    /// `sh <home>/<script>`, run in the home, exits 0.
    Script(String),
    /// Nothing is asked: never passes.
    Never,
}

pub open spec fn succeeds_ok(r: PresenceCheck, tool: Seq<char>, argv: Seq<Seq<char>>) -> bool {
    match r {
        PresenceCheck::Succeeds { tool: t, argv: a } => t@ == tool && str_views(a@) == argv,
        _ => false,
    }
}

/// The check a probe asks for: its first set field, in the order binary,
/// path (with a leading `~/` under `home`), brew, cask, flatpak, mas, gext,
/// rpm, exec.
pub open spec fn check_ok(r: PresenceCheck, p: Probe, home: Option<Seq<char>>) -> bool {
    if p.binary is Some {
        match r { PresenceCheck::OnPath(b) => b@ == p.binary->0@, _ => false }
    } else if p.path is Some {
        match r { PresenceCheck::Exists(x) => x@ == expand_spec(p.path->0@, home), _ => false }
    } else if p.brew is Some {
        succeeds_ok(r, "brew"@, seq!["brew"@, "list"@, "--formula"@, p.brew->0@])
    } else if p.cask is Some {
        succeeds_ok(r, "brew"@, seq!["brew"@, "list"@, "--cask"@, p.cask->0@])
    } else if p.flatpak is Some {
        succeeds_ok(r, "flatpak"@, seq!["flatpak"@, "info"@, p.flatpak->0@])
    } else if p.mas is Some {
        match r { PresenceCheck::MasListed(id) => id@ == p.mas->0@, _ => false }
    } else if p.gext is Some {
        succeeds_ok(r, "gnome-extensions"@, seq!["gnome-extensions"@, "info"@, p.gext->0@])
    } else if p.rpm is Some {
        succeeds_ok(r, "rpm"@, seq!["rpm"@, "-q"@, p.rpm->0@])
    } else if p.exec_script is Some {
        match r { PresenceCheck::Script(s) => s@ == p.exec_script->0@, _ => false }
    } else {
        r == PresenceCheck::Never
    }
}

fn own(s: &str) -> (r: String)
    ensures
        r@ == s@,
{
    let mut r = String::new();
    push_str(&mut r, s);
    r
}

fn words3(a: &str, b: &str, c: &str) -> (r: Vec<String>)
    ensures
        str_views(r@) == seq![a@, b@, c@],
{
    let mut v: Vec<String> = Vec::new();
    v.push(own(a));
    v.push(own(b));
    v.push(own(c));
    assert(str_views(v@) =~= seq![a@, b@, c@]);
    v
}

fn words4(a: &str, b: &str, c: &str, d: &str) -> (r: Vec<String>)
    ensures
        str_views(r@) == seq![a@, b@, c@, d@],
{
    let mut v = words3(a, b, c);
    let ghost before = str_views(v@);
    v.push(own(d));
    assert(str_views(v@) =~= before.push(d@));
    assert(seq![a@, b@, c@].push(d@) =~= seq![a@, b@, c@, d@]);
    v
}

/// The check a probe asks for, `home` being the user's home directory.
pub fn check_for(p: &Probe, home: Option<&str>) -> (r: PresenceCheck)
    ensures
        check_ok(r, *p, opt_str(home)),
{
    if let Some(b) = &p.binary {
        PresenceCheck::OnPath(own(b.as_str()))
    } else if let Some(x) = &p.path {
        PresenceCheck::Exists(expand_tilde(x.as_str(), home))
    } else if let Some(x) = &p.brew {
        PresenceCheck::Succeeds { tool: own("brew"), argv: words4("brew", "list", "--formula", x.as_str()) }
    } else if let Some(x) = &p.cask {
        PresenceCheck::Succeeds { tool: own("brew"), argv: words4("brew", "list", "--cask", x.as_str()) }
    } else if let Some(x) = &p.flatpak {
        PresenceCheck::Succeeds { tool: own("flatpak"), argv: words3("flatpak", "info", x.as_str()) }
    } else if let Some(x) = &p.mas {
        PresenceCheck::MasListed(own(x.as_str()))
    } else if let Some(x) = &p.gext {
        PresenceCheck::Succeeds { tool: own("gnome-extensions"), argv: words3("gnome-extensions", "info", x.as_str()) }
    } else if let Some(x) = &p.rpm {
        PresenceCheck::Succeeds { tool: own("rpm"), argv: words3("rpm", "-q", x.as_str()) }
    } else if let Some(x) = &p.exec_script {
        PresenceCheck::Script(own(x.as_str()))
    } else {
        PresenceCheck::Never
    }
}

/// `mas list` has a row whose first word is `id`.
pub fn mas_listed(list_output: &str, id: &str) -> (r: bool)
    ensures
        r == exists|i: int| 0 <= i < lines_of(list_output@).len() && first_word(#[trigger] lines_of(list_output@)[i]) == Some(id@),
{
    let ls = lines(chars_of(list_output).as_slice());
    let idc = chars_of(id);
    let mut i: usize = 0;
    while i < ls.len()
        invariant
            i <= ls@.len(),
            views(ls@) == lines_of(list_output@),
            idc@ == id@,
            forall|j: int| 0 <= j < i ==> first_word(#[trigger] lines_of(list_output@)[j]) != Some(id@),
        decreases ls.len() - i,
    {
        assert(lines_of(list_output@)[i as int] == ls@[i as int]@);
        match crate::providers::first_word_exec(ls[i].as_slice()) {
            Some(w) => {
                if same(w.as_slice(), idc.as_slice()) {
                    return true;
                }
            },
            None => {},
        }
        i += 1;
    }
    false
}

/// The probe's label for skip and error messages.
pub open spec fn describe_spec(p: Probe) -> Seq<char> {
    if p.binary is Some {
        "binary `"@ + p.binary->0@ + "`"@
    } else if p.path is Some {
        "path `"@ + p.path->0@ + "`"@
    } else if p.brew is Some {
        "brew `"@ + p.brew->0@ + "`"@
    } else if p.cask is Some {
        "cask `"@ + p.cask->0@ + "`"@
    } else if p.flatpak is Some {
        "flatpak `"@ + p.flatpak->0@ + "`"@
    } else if p.mas is Some {
        "mas `"@ + p.mas->0@ + "`"@
    } else if p.gext is Some {
        "gext `"@ + p.gext->0@ + "`"@
    } else if p.rpm is Some {
        "rpm `"@ + p.rpm->0@ + "`"@
    } else if p.exec_script is Some {
        "exec `"@ + p.exec_script->0@ + "`"@
    } else {
        "empty probe"@
    }
}

fn quoted(head: &str, x: &String) -> (r: String)
    ensures
        r@ == head@ + x@ + "`"@,
{
    let mut r = own(head);
    push_str(&mut r, x.as_str());
    push_str(&mut r, "`");
    r
}

/// A short human label for the probe.
pub fn describe(p: &Probe) -> (r: String)
    ensures
        r@ == describe_spec(*p),
{
    if let Some(b) = &p.binary {
        quoted("binary `", b)
    } else if let Some(x) = &p.path {
        quoted("path `", x)
    } else if let Some(x) = &p.brew {
        quoted("brew `", x)
    } else if let Some(x) = &p.cask {
        quoted("cask `", x)
    } else if let Some(x) = &p.flatpak {
        quoted("flatpak `", x)
    } else if let Some(x) = &p.mas {
        quoted("mas `", x)
    } else if let Some(x) = &p.gext {
        quoted("gext `", x)
    } else if let Some(x) = &p.rpm {
        quoted("rpm `", x)
    } else if let Some(x) = &p.exec_script {
        quoted("exec `", x)
    } else {
        own("empty probe")
    }
}

} // verus!
