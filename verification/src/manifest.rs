//! The declarative spec: `temper.toml` and its per-machine tables, as plain
//! data, and the rules that resolve a machine's effective settings from the
//! fleet's and its own.
use vstd::prelude::*;
use crate::text::{chars_of, parse_u64, parse_u64_spec, same, split_char, split_exec, trim, trimmed};

verus! {

/// A template-variable table: keys with values, a later insert replacing an
/// earlier one.
#[derive(Debug, Clone, PartialEq, Eq)]
pub struct Vars {
    entries: Vec<(String, String)>,
}

/// The map a list of `(key, value)` pairs denotes, a later pair winning.
pub open spec fn pairs_map(ps: Seq<(String, String)>) -> Map<Seq<char>, Seq<char>>
    decreases ps.len(),
{
    if ps.len() == 0 {
        Map::empty()
    } else {
        pairs_map(ps.drop_last()).insert(ps.last().0@, ps.last().1@)
    }
}

impl View for Vars {
    type V = Map<Seq<char>, Seq<char>>;

    closed spec fn view(&self) -> Map<Seq<char>, Seq<char>> {
        pairs_map(self.entries@)
    }
}

impl Default for Vars {
    fn default() -> (r: Vars)
        ensures
            r@ == Map::<Seq<char>, Seq<char>>::empty(),
    {
        Vars { entries: Vec::new() }
    }
}

impl Vars {
    pub fn new() -> (r: Vars)
        ensures
            r@ == Map::<Seq<char>, Seq<char>>::empty(),
    {
        Vars { entries: Vec::new() }
    }

    /// Sets `key` to `value`.
    pub fn insert(&mut self, key: String, value: String)
        ensures
            final(self)@ == old(self)@.insert(key@, value@),
    {
        self.entries.push((key, value));
        proof {
            assert(self.entries@.drop_last() =~= old(self).entries@);
        }
    }

    /// The value of `key`, if set.
    pub fn get(&self, key: &str) -> (r: Option<String>)
        ensures
            r matches Some(v) ==> self@.dom().contains(key@) && self@[key@] == v@,
            r is None ==> !self@.dom().contains(key@),
    {
        let k = chars_of(key);
        let mut i = self.entries.len();
        while i > 0
            invariant
                i <= self.entries@.len(),
                k@ == key@,
                forall|j: int| i <= j < self.entries@.len() ==> (#[trigger] self.entries@[j]).0@ != key@,
            decreases i,
        {
            let e = &self.entries[i - 1];
            let ek = chars_of(e.0.as_str());
            if same(ek.as_slice(), k.as_slice()) {
                proof {
                    lemma_pairs_lookup(self.entries@, i as int - 1);
                }
                return Some(e.1.clone());
            }
            i -= 1;
        }
        proof {
            lemma_pairs_absent(self.entries@, key@);
        }
        None
    }

    /// The `(key, value)` pairs, in insertion order (a key may repeat; the last
    /// one holds).
    pub fn pairs(&self) -> (r: &Vec<(String, String)>)
        ensures
            pairs_map(r@) == self@,
    {
        &self.entries
    }
}

/// The last pair for a key gives its value.
pub proof fn lemma_pairs_lookup(ps: Seq<(String, String)>, i: int)
    requires
        0 <= i < ps.len(),
        forall|j: int| i < j < ps.len() ==> (#[trigger] ps[j]).0@ != ps[i].0@,
    ensures
        pairs_map(ps).dom().contains(ps[i].0@),
        pairs_map(ps)[ps[i].0@] == ps[i].1@,
    decreases ps.len(),
{
    if i < ps.len() - 1 {
        let pre = ps.drop_last();
        assert(pre[i] == ps[i]);
        assert forall|j: int| i < j < pre.len() implies (#[trigger] pre[j]).0@ != pre[i].0@ by {
            assert(pre[j] == ps[j]);
        }
        lemma_pairs_lookup(pre, i);
        assert(ps[ps.len() - 1] == ps.last());
    }
}

/// A key no pair names is unset.
pub proof fn lemma_pairs_absent(ps: Seq<(String, String)>, k: Seq<char>)
    requires
        forall|j: int| 0 <= j < ps.len() ==> (#[trigger] ps[j]).0@ != k,
    ensures
        !pairs_map(ps).dom().contains(k),
    decreases ps.len(),
{
    if ps.len() > 0 {
        let pre = ps.drop_last();
        assert forall|j: int| 0 <= j < pre.len() implies (#[trigger] pre[j]).0@ != k by {
            assert(pre[j] == ps[j]);
        }
        lemma_pairs_absent(pre, k);
        assert(ps[ps.len() - 1] == ps.last());
    }
}

/// The map of a concatenation is the first's overridden by the second's.
pub proof fn lemma_pairs_concat(a: Seq<(String, String)>, b: Seq<(String, String)>)
    ensures
        pairs_map(a + b) == pairs_map(a).union_prefer_right(pairs_map(b)),
    decreases b.len(),
{
    if b.len() == 0 {
        assert(a + b =~= a);
        assert(pairs_map(a).union_prefer_right(pairs_map(b)) =~= pairs_map(a));
    } else {
        lemma_pairs_concat(a, b.drop_last());
        assert((a + b).drop_last() =~= a + b.drop_last());
        assert((a + b).last() == b.last());
        let x = pairs_map(a);
        let y = pairs_map(b.drop_last());
        assert(x.union_prefer_right(y).insert(b.last().0@, b.last().1@) =~= x.union_prefer_right(
            y.insert(b.last().0@, b.last().1@),
        ));
    }
}

/// `[git]`: reminders and automatic commit / push / pull.
#[derive(Debug, Clone, Copy, PartialEq, Eq, Structural)]
pub struct GitConfig {
    pub remind: bool,
    pub auto_commit: bool,
    pub auto_push: bool,
    pub auto_pull: bool,
    pub auto_rebase: bool,
}

impl Default for GitConfig {
    /// Reminders on, everything automatic off.
    fn default() -> (r: GitConfig)
        ensures
            r == (GitConfig {
                remind: true,
                auto_commit: false,
                auto_push: false,
                auto_pull: false,
                auto_rebase: false,
            }),
    {
        GitConfig {
            remind: true,
            auto_commit: false,
            auto_push: false,
            auto_pull: false,
            auto_rebase: false,
        }
    }
}

/// How the pre-run auto-pull should pull.
#[derive(Debug, Clone, Copy, PartialEq, Eq, Structural)]
pub enum PullMode {
    /// `auto_pull` off — don't pull.
    Off,
    /// `git pull --ff-only`.
    FastForward,
    /// `git pull --rebase`.
    Rebase,
}

/// What to do when the folder was written by a newer temper.
#[derive(Debug, Clone, Copy, PartialEq, Eq, Structural)]
pub enum UpdateMode {
    Off,
    Warn,
    Prompt,
    Auto,
}

impl Default for UpdateMode {
    fn default() -> (r: UpdateMode)
        ensures
            r == UpdateMode::Prompt,
    {
        UpdateMode::Prompt
    }
}

/// `[update]`.
#[derive(Debug, Clone, Copy, PartialEq, Eq, Structural)]
pub struct UpdateConfig {
    pub mode: UpdateMode,
}

/// `[ui]`.
#[derive(Debug, Clone, PartialEq, Eq)]
pub struct UiConfig {
    /// `"unicode"` (default) or `"nerd"`.
    pub icons: Option<String>,
}

/// `[brew]`.
#[derive(Debug, Clone, PartialEq, Eq)]
pub struct BrewConfig {
    /// Taps the fleet trusts.
    pub trust: Vec<String>,
}

/// `[eq_import]`.
#[derive(Debug, Clone, PartialEq, Eq)]
pub struct EqImport {
    pub repo: String,
    pub dest: String,
}

/// `[ignore]`: installed-but-undeclared things never to report as extras.
#[derive(Debug, Clone, PartialEq, Eq)]
pub struct Ignore {
    pub brew: Vec<String>,
    pub cask: Vec<String>,
    pub flatpak: Vec<String>,
    pub mas: Vec<String>,
    pub vscode: Vec<String>,
    pub tap: Vec<String>,
    pub gnome_extensions: Vec<String>,
    pub flatpak_remote: Vec<String>,
    pub rpm_ostree: Vec<String>,
}

impl Default for Ignore {
    fn default() -> (r: Ignore)
        ensures
            r.brew@.len() == 0,
            r.cask@.len() == 0,
            r.flatpak@.len() == 0,
            r.mas@.len() == 0,
            r.vscode@.len() == 0,
            r.tap@.len() == 0,
            r.gnome_extensions@.len() == 0,
            r.flatpak_remote@.len() == 0,
            r.rpm_ostree@.len() == 0,
    {
        Ignore {
            brew: Vec::new(),
            cask: Vec::new(),
            flatpak: Vec::new(),
            mas: Vec::new(),
            vscode: Vec::new(),
            tap: Vec::new(),
            gnome_extensions: Vec::new(),
            flatpak_remote: Vec::new(),
            rpm_ostree: Vec::new(),
        }
    }
}

/// `[[machine.dconf]]`: one dconf subtree snapshotted to a file.
#[derive(Debug, Clone, PartialEq, Eq)]
pub struct DconfSnapshot {
    /// The dconf path dumped, e.g. `/org/gnome/shell/extensions/`.
    pub path: String,
    /// The snapshot file, relative to the temper-home.
    pub file: String,
    /// Substrings of `section/key` ids never captured.
    pub strip: Vec<String>,
    pub label: Option<String>,
}

impl DconfSnapshot {
    /// What to call this snapshot in output: its `label`, else its `path`.
    pub fn name(&self) -> (r: &str)
        ensures
            r@ == match self.label {
                Some(l) => l@,
                None => self.path@,
            },
    {
        match &self.label {
            Some(l) => l.as_str(),
            None => self.path.as_str(),
        }
    }
}

/// A GNOME extension's table form: its uuid, whether it should be switched
/// on, and the dconf snapshot that carries its settings, if any.
#[derive(Debug, Clone, PartialEq, Eq)]
pub struct GnomeExtensionSpec {
    pub uuid: String,
    pub enabled: bool,
    pub settings: Option<DconfSnapshot>,
}

/// A declared GNOME extension: a bare uuid (switched on), or a table.
#[derive(Debug, Clone, PartialEq, Eq)]
pub enum GnomeExtension {
    Uuid(String),
    Spec(GnomeExtensionSpec),
}

impl GnomeExtension {
    pub open spec fn uuid_spec(&self) -> Seq<char> {
        match self {
            GnomeExtension::Uuid(u) => u@,
            GnomeExtension::Spec(s) => s.uuid@,
        }
    }

    pub open spec fn enabled_spec(&self) -> bool {
        match self {
            GnomeExtension::Uuid(_) => true,
            GnomeExtension::Spec(s) => s.enabled,
        }
    }

    /// The extension's uuid.
    pub fn uuid(&self) -> (r: &str)
        ensures
            r@ == self.uuid_spec(),
    {
        match self {
            GnomeExtension::Uuid(u) => u.as_str(),
            GnomeExtension::Spec(s) => s.uuid.as_str(),
        }
    }

    /// Whether the declaration wants it switched on: a bare uuid does.
    pub fn enabled(&self) -> (r: bool)
        ensures
            r == self.enabled_spec(),
    {
        match self {
            GnomeExtension::Uuid(_) => true,
            GnomeExtension::Spec(s) => s.enabled,
        }
    }

    /// The snapshot that carries this extension's settings, if it has one.
    pub fn settings_snapshot(&self) -> (r: Option<&DconfSnapshot>)
        ensures
            r == match self {
                GnomeExtension::Uuid(_) => None,
                GnomeExtension::Spec(s) => match &s.settings {
                    Some(d) => Some(d),
                    None => None,
                },
            },
    {
        match self {
            GnomeExtension::Uuid(_) => None,
            GnomeExtension::Spec(s) => match &s.settings {
                Some(d) => Some(d),
                None => None,
            },
        }
    }
}

/// `[[machine]]`.
#[derive(Debug, Clone, PartialEq, Eq)]
pub struct Machine {
    pub name: String,
    pub os: String,
    pub role: Option<String>,
    pub apps: Vec<String>,
    pub packages: Vec<String>,
    pub gnome_extensions: Vec<String>,
    pub brewfile: Option<String>,
    pub vars: Vars,
    pub brew_trust: Vec<String>,
    pub ignore: Ignore,
    pub dconf: Vec<DconfSnapshot>,
    pub git: Option<GitConfig>,
    pub flatpak_remotes: Vec<String>,
    pub rpm_ostree: Vec<String>,
}

/// The whole `temper.toml`.
#[derive(Debug, Clone, PartialEq, Eq)]
pub struct TemperToml {
    pub machine: Vec<Machine>,
    pub vars: Vars,
    pub ignore: Ignore,
    pub brew: BrewConfig,
    pub ui: UiConfig,
    pub eq_import: Option<EqImport>,
    pub git: Option<GitConfig>,
    pub update: UpdateConfig,
    pub temper_version: Option<String>,
}

/// A presence probe: each set field is one thing that must exist.
#[derive(Debug, Clone, PartialEq, Eq)]
pub struct Probe {
    pub binary: Option<String>,
    pub path: Option<String>,
    pub brew: Option<String>,
    pub cask: Option<String>,
    pub flatpak: Option<String>,
    pub mas: Option<String>,
    pub gext: Option<String>,
    pub rpm: Option<String>,
    pub exec_script: Option<String>,
}

/// `contains_line`: `file` must hold `line`.
#[derive(Debug, Clone, PartialEq, Eq)]
pub struct ContainsLine {
    pub file: String,
    pub line: String,
}

/// `mode`: `path` must carry permission bits `mode`.
#[derive(Debug, Clone, PartialEq, Eq)]
pub struct ModeCheck {
    pub path: String,
    pub mode: String,
}

/// `not_member`: the user must not be in `group`.
#[derive(Debug, Clone, PartialEq, Eq)]
pub struct GroupCheck {
    pub group: String,
}

/// `json_semantic`: `file` must mean the same JSON as `against`.
#[derive(Debug, Clone, PartialEq, Eq)]
pub struct JsonSemantic {
    pub file: String,
    pub against: String,
}

/// An `[[assert]]`: one check (the set field), with how loudly to fail.
#[derive(Debug, Clone, PartialEq, Eq)]
pub struct Assert {
    pub absent: Option<String>,
    pub contains_line: Option<ContainsLine>,
    pub mode: Option<ModeCheck>,
    pub executable_resolves: Option<String>,
    pub not_member: Option<GroupCheck>,
    pub shell: Option<String>,
    pub json_semantic: Option<JsonSemantic>,
    pub severity: Option<String>,
    pub message: Option<String>,
    pub os: Option<String>,
    pub role: Option<String>,
}

/// The load-time finding that a folder was written by a newer temper.
#[derive(Debug, Clone, PartialEq, Eq)]
pub struct NewerVersion {
    pub required: String,
    pub running: String,
    pub mode: UpdateMode,
    pub parse_error: String,
}

// ---------------------------------------------------------------------------
/// `acc` with each of `xs` appended unless already present.
pub open spec fn push_new(acc: Seq<Seq<char>>, xs: Seq<Seq<char>>) -> Seq<Seq<char>>
    decreases xs.len(),
{
    if xs.len() == 0 {
        acc
    } else {
        let a = push_new(acc, xs.drop_last());
        if a.contains(xs.last()) {
            a
        } else {
            a.push(xs.last())
        }
    }
}

pub open spec fn str_views(v: Seq<String>) -> Seq<Seq<char>> {
    v.map_values(|s: String| s@)
}

/// Appending only new items: the result holds exactly what either side holds,
/// and nothing twice that the accumulator did not already hold twice.
pub proof fn law_push_new_is_union(acc: Seq<Seq<char>>, xs: Seq<Seq<char>>)
    ensures
        forall|x: Seq<char>| #[trigger] push_new(acc, xs).contains(x) <==> acc.contains(x) || xs.contains(x),
        acc.no_duplicates() ==> push_new(acc, xs).no_duplicates(),
        push_new(acc, xs).len() >= acc.len(),
        push_new(acc, xs).take(acc.len() as int) == acc,
    decreases xs.len(),
{
    if xs.len() == 0 {
        assert(acc.take(acc.len() as int) =~= acc);
    } else {
        let pre = xs.drop_last();
        law_push_new_is_union(acc, pre);
        let a = push_new(acc, pre);
        assert forall|x: Seq<char>| #[trigger] push_new(acc, xs).contains(x) <==> acc.contains(x) || xs.contains(x) by {
            if xs.contains(x) && !pre.contains(x) {
                let i = choose|i: int| 0 <= i < xs.len() && xs[i] == x;
                if i < pre.len() {
                    assert(pre[i] == x);
                }
                assert(x == xs.last());
            }
            if pre.contains(x) {
                let i = choose|i: int| 0 <= i < pre.len() && pre[i] == x;
                assert(xs[i] == x);
            }
            if !a.contains(xs.last()) {
                if push_new(acc, xs).contains(x) && !a.contains(x) {
                    let i = choose|i: int| 0 <= i < a.push(xs.last()).len() && a.push(xs.last())[i] == x;
                    assert(x == xs.last());
                    assert(xs[xs.len() - 1] == x);
                }
                if a.contains(x) {
                    let i = choose|i: int| 0 <= i < a.len() && a[i] == x;
                    assert(a.push(xs.last())[i] == x);
                }
                if x == xs.last() {
                    assert(a.push(xs.last())[a.len() as int] == x);
                }
            } else if x == xs.last() {
                assert(xs[xs.len() - 1] == x);
            }
        }
        if !a.contains(xs.last()) {
            assert(a.push(xs.last()).take(acc.len() as int) =~= a.take(acc.len() as int));
        }
    }
}

/// `acc` extended by the new items of `xs`.
pub(crate) fn push_new_exec(acc: &mut Vec<String>, xs: &[String])
    ensures
        str_views(final(acc)@) == push_new(str_views(old(acc)@), str_views(xs@)),
{
    let ghost start = str_views(acc@);
    let mut i: usize = 0;
    while i < xs.len()
        invariant
            i <= xs@.len(),
            str_views(acc@) == push_new(start, str_views(xs@).take(i as int)),
        decreases xs.len() - i,
    {
        let x = &xs[i];
        let ghost before = str_views(acc@);
        assert(str_views(xs@).take(i as int + 1).drop_last() =~= str_views(xs@).take(i as int));
        assert(str_views(xs@).take(i as int + 1).last() == x@);
        let mut found = false;
        let mut j: usize = 0;
        while j < acc.len()
            invariant
                j <= acc@.len(),
                before == str_views(acc@),
                found == exists|q: int| 0 <= q < j && before[q] == x@,
            decreases acc.len() - j,
        {
            if acc[j] == *x {
                found = true;
            }
            proof {
                if acc@[j as int]@ == x@ {
                    assert(before[j as int] == x@);
                }
            }
            j += 1;
        }
        if !found {
            acc.push(x.clone());
            proof {
                assert(str_views(acc@) =~= before.push(x@));
            }
        }
        i += 1;
    }
    assert(str_views(xs@).take(xs@.len() as int) =~= str_views(xs@));
}

/// A machine's effective tap-trust: the fleet list plus its own, without
/// repeats.
pub fn effective_trust(fleet: &[String], machine: &Machine) -> (r: Vec<String>)
    ensures
        str_views(r@) == push_new(
            push_new(Seq::empty(), str_views(fleet@)),
            str_views(machine.brew_trust@),
        ),
{
    let mut out: Vec<String> = Vec::new();
    assert(str_views(out@) =~= Seq::<Seq<char>>::empty());
    push_new_exec(&mut out, fleet);
    push_new_exec(&mut out, machine.brew_trust.as_slice());
    out
}

/// `a` followed by the items of `b` it lacks.
fn join(a: &Vec<String>, b: &Vec<String>) -> (r: Vec<String>)
    ensures
        str_views(r@) == push_new(str_views(a@), str_views(b@)),
{
    let mut out: Vec<String> = Vec::new();
    let mut i: usize = 0;
    while i < a.len()
        invariant
            i <= a@.len(),
            str_views(out@) == str_views(a@).take(i as int),
        decreases a.len() - i,
    {
        let c = a[i].clone();
        assert(c@ == a@[i as int]@);
        let ghost before = str_views(out@);
        out.push(c);
        assert(str_views(out@) =~= before.push(c@));
        assert(str_views(out@) =~= str_views(a@).take(i as int + 1));
        i += 1;
    }
    assert(str_views(a@).take(a@.len() as int) =~= str_views(a@));
    push_new_exec(&mut out, b.as_slice());
    out
}

/// The per-list union of two ignore tables.
pub open spec fn ignore_union(f: Ignore, m: Ignore, r: Ignore) -> bool {
    &&& str_views(r.brew@) == push_new(str_views(f.brew@), str_views(m.brew@))
    &&& str_views(r.cask@) == push_new(str_views(f.cask@), str_views(m.cask@))
    &&& str_views(r.flatpak@) == push_new(str_views(f.flatpak@), str_views(m.flatpak@))
    &&& str_views(r.mas@) == push_new(str_views(f.mas@), str_views(m.mas@))
    &&& str_views(r.vscode@) == push_new(str_views(f.vscode@), str_views(m.vscode@))
    &&& str_views(r.tap@) == push_new(str_views(f.tap@), str_views(m.tap@))
    &&& str_views(r.gnome_extensions@) == push_new(
        str_views(f.gnome_extensions@),
        str_views(m.gnome_extensions@),
    )
    &&& str_views(r.flatpak_remote@) == push_new(
        str_views(f.flatpak_remote@),
        str_views(m.flatpak_remote@),
    )
    &&& str_views(r.rpm_ostree@) == push_new(str_views(f.rpm_ostree@), str_views(m.rpm_ostree@))
}

/// A machine's effective ignore lists: the fleet's plus its own, per list.
pub fn effective_ignore(fleet: &Ignore, machine: &Machine) -> (r: Ignore)
    ensures
        ignore_union(*fleet, machine.ignore, r),
{
    let m = &machine.ignore;
    Ignore {
        brew: join(&fleet.brew, &m.brew),
        cask: join(&fleet.cask, &m.cask),
        flatpak: join(&fleet.flatpak, &m.flatpak),
        mas: join(&fleet.mas, &m.mas),
        vscode: join(&fleet.vscode, &m.vscode),
        tap: join(&fleet.tap, &m.tap),
        gnome_extensions: join(&fleet.gnome_extensions, &m.gnome_extensions),
        flatpak_remote: join(&fleet.flatpak_remote, &m.flatpak_remote),
        rpm_ostree: join(&fleet.rpm_ostree, &m.rpm_ostree),
    }
}

/// A machine's effective git settings: its own `[machine.git]` wholly
/// overrides the fleet `[git]`; else the fleet's; else the defaults.
pub fn effective_git(fleet: &Option<GitConfig>, machine: &Option<GitConfig>) -> (r: GitConfig)
    ensures
        r == match machine {
            Some(g) => *g,
            None => match fleet {
                Some(g) => *g,
                None => GitConfig {
                    remind: true,
                    auto_commit: false,
                    auto_push: false,
                    auto_pull: false,
                    auto_rebase: false,
                },
            },
        },
{
    match machine {
        Some(g) => *g,
        None => match fleet {
            Some(g) => *g,
            None => GitConfig::default(),
        },
    }
}

/// Whether an os/role-gated item is skipped on this machine: a declared os
/// other than the machine's, or a declared role other than the machine's
/// (a machine that declares no role is in no role).
pub open spec fn gated_spec(os: Option<Seq<char>>, role: Option<Seq<char>>, m_os: Seq<char>, m_role: Option<Seq<char>>) -> bool {
    let os_skip = match os {
        Some(o) => o != m_os,
        None => false,
    };
    let role_skip = match (role, m_role) {
        (Some(r), Some(mr)) => r != mr,
        (Some(_), None) => true,
        (None, _) => false,
    };
    os_skip || role_skip
}

pub open spec fn opt_str(o: Option<String>) -> Option<Seq<char>> {
    match o {
        Some(s) => Some(s@),
        None => None,
    }
}

/// Whether an os/role-gated item should be skipped for this machine.
pub fn gated(os: &Option<String>, role: &Option<String>, machine: &Machine) -> (r: bool)
    ensures
        r == gated_spec(opt_str(*os), opt_str(*role), machine.os@, opt_str(machine.role)),
{
    let os_skip = match os {
        Some(o) => !(*o == machine.os),
        None => false,
    };
    let role_skip = match (role, &machine.role) {
        (Some(r), Some(mr)) => !(*r == *mr),
        (Some(_), None) => true,
        (None, _) => false,
    };
    os_skip || role_skip
}

/// A machine's effective template vars: the global table overlaid by the
/// machine's own (the machine wins).
pub fn effective_vars(global: &Vars, machine: &Machine) -> (r: Vars)
    ensures
        r@ == global@.union_prefer_right(machine.vars@),
{
    let mut merged = global.clone_vars();
    let ps = machine.vars.pairs();
    let mut i: usize = 0;
    while i < ps.len()
        invariant
            i <= ps@.len(),
            pairs_map(ps@) == machine.vars@,
            merged@ == global@.union_prefer_right(pairs_map(ps@.take(i as int))),
        decreases ps.len() - i,
    {
        let ghost before = merged@;
        merged.insert(ps[i].0.clone(), ps[i].1.clone());
        proof {
            assert(ps@.take(i as int + 1).drop_last() =~= ps@.take(i as int));
            let x = pairs_map(ps@.take(i as int));
            assert(global@.union_prefer_right(x).insert(ps@[i as int].0@, ps@[i as int].1@)
                =~= global@.union_prefer_right(x.insert(ps@[i as int].0@, ps@[i as int].1@)));
        }
        i += 1;
    }
    assert(ps@.take(ps@.len() as int) =~= ps@);
    merged
}

impl Vars {
    /// A copy.
    pub fn clone_vars(&self) -> (r: Vars)
        ensures
            r@ == self@,
    {
        let mut out: Vec<(String, String)> = Vec::new();
        let mut i: usize = 0;
        while i < self.entries.len()
            invariant
                i <= self.entries@.len(),
                out@.len() == i,
                forall|q: int| 0 <= q < i ==> (#[trigger] out@[q]).0@ == self.entries@[q].0@ && out@[q].1@
                    == self.entries@[q].1@,
            decreases self.entries.len() - i,
        {
            out.push((self.entries[i].0.clone(), self.entries[i].1.clone()));
            i += 1;
        }
        proof {
            lemma_pairs_same(out@, self.entries@);
        }
        Vars { entries: out }
    }
}

proof fn lemma_pairs_same(a: Seq<(String, String)>, b: Seq<(String, String)>)
    requires
        a.len() == b.len(),
        forall|q: int| 0 <= q < a.len() ==> (#[trigger] a[q]).0@ == b[q].0@ && a[q].1@ == b[q].1@,
    ensures
        pairs_map(a) == pairs_map(b),
    decreases a.len(),
{
    if a.len() > 0 {
        lemma_pairs_same(a.drop_last(), b.drop_last());
        assert(a.last() == a[a.len() - 1]);
        assert(b.last() == b[b.len() - 1]);
    }
}


/// A version's numeric part: up to the first `-` or `+`.
pub open spec fn version_core(t: Seq<char>) -> Seq<char>
    decreases t.len(),
{
    if t.len() == 0 || t[0] == '-' || t[0] == '+' {
        Seq::empty()
    } else {
        seq![t[0]] + version_core(t.drop_first())
    }
}

/// The `i`th dotted part as a number; unreadable or absent parts are 0.
pub open spec fn part_value(parts: Seq<Seq<char>>, i: int) -> u64 {
    if 0 <= i < parts.len() {
        match parse_u64_spec(trim(parts[i])) {
            Some(v) => v,
            None => 0,
        }
    } else {
        0
    }
}

/// Numeric `(major, minor, patch)` of a version string, ignoring any `-pre` /
/// `+build` suffix.
pub open spec fn version_triple_spec(s: Seq<char>) -> (u64, u64, u64) {
    let parts = split_char(version_core(trim(s)), '.');
    (part_value(parts, 0), part_value(parts, 1), part_value(parts, 2))
}

pub open spec fn triple_gt(a: (u64, u64, u64), b: (u64, u64, u64)) -> bool {
    a.0 > b.0 || (a.0 == b.0 && (a.1 > b.1 || (a.1 == b.1 && a.2 > b.2)))
}

fn version_core_exec(t: &[char]) -> (r: Vec<char>)
    ensures
        r@ == version_core(t@),
{
    let mut r: Vec<char> = Vec::new();
    let mut i: usize = 0;
    assert(t@.subrange(0, t@.len() as int) =~= t@);
    while i < t.len() && t[i] != '-' && t[i] != '+'
        invariant
            i <= t@.len(),
            version_core(t@) == r@ + version_core(t@.subrange(i as int, t@.len() as int)),
        decreases t.len() - i,
    {
        let ghost rest = t@.subrange(i as int, t@.len() as int);
        assert(rest.drop_first() =~= t@.subrange(i as int + 1, t@.len() as int));
        r.push(t[i]);
        assert(r@ + version_core(rest.drop_first()) =~= r@.drop_last() + (seq![rest[0]] + version_core(rest.drop_first())));
        i += 1;
    }
    assert(r@ + version_core(t@.subrange(i as int, t@.len() as int)) =~= r@);
    r
}

fn part_value_exec(parts: &Vec<Vec<char>>, i: usize) -> (r: u64)
    ensures
        r == part_value(crate::text::views(parts@), i as int),
{
    if i < parts.len() {
        let t = trimmed(parts[i].as_slice());
        match parse_u64(t.as_slice()) {
            Some(v) => v,
            None => 0,
        }
    } else {
        0
    }
}

fn version_triple(s: &str) -> (r: (u64, u64, u64))
    ensures
        r == version_triple_spec(s@),
{
    let v = chars_of(s);
    let t = trimmed(v.as_slice());
    let core = version_core_exec(t.as_slice());
    let parts = split_exec(core.as_slice(), '.');
    (part_value_exec(&parts, 0), part_value_exec(&parts, 1), part_value_exec(&parts, 2))
}

/// Is `candidate` a strictly newer temper than `running`, comparing
/// `(major, minor, patch)` numerically?
pub fn version_is_newer(candidate: &str, running: &str) -> (r: bool)
    ensures
        r == triple_gt(version_triple_spec(candidate@), version_triple_spec(running@)),
{
    let a = version_triple(candidate);
    let b = version_triple(running);
    a.0 > b.0 || (a.0 == b.0 && (a.1 > b.1 || (a.1 == b.1 && a.2 > b.2)))
}

} // verus!
