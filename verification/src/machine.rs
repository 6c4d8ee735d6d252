//! Machine identity and role: which `[[machine]]` this host is, and whether
//! its os and role are ones the spec understands.
use vstd::prelude::*;
use crate::manifest::{str_views, Machine, TemperToml};
use crate::packages::{lowercase, to_lowercase};
use crate::providers::{first_field, first_field_exec};
use crate::text::{chars_of, push_str, same, string_of, trim, trimmed};

verus! {

/// Why this machine could not be resolved.
#[derive(Debug, Clone, PartialEq, Eq)]
pub enum MachineError {
    /// The spec declares no machine.
    NoMachines,
    /// No machine has the name asked for.
    NoSuchMachine(String),
    /// Neither the hostname nor a sole machine decides: the known names.
    Unresolved(Vec<String>),
    /// A machine's os is not `mac` or `linux`: its name and os.
    UnknownOs(String, String),
    /// A machine's role is not `desktop` or `server`: its name and role.
    UnknownRole(String, String),
}

pub open spec fn join_names(ns: Seq<Seq<char>>) -> Seq<char>
    decreases ns.len(),
{
    if ns.len() == 0 {
        Seq::empty()
    } else if ns.len() == 1 {
        ns[0]
    } else {
        join_names(ns.drop_last()) + ", "@ + ns.last()
    }
}

impl MachineError {
    pub open spec fn message_spec(self) -> Seq<char> {
        match self {
            MachineError::NoMachines => "no [[machine]] entries in temper.toml"@,
            MachineError::NoSuchMachine(n) => "no machine named '"@ + n@ + "' in temper.toml"@,
            MachineError::Unresolved(ns) => "could not resolve this machine by hostname; pass a name (known: "@
                + join_names(str_views(ns@)) + ")"@,
            MachineError::UnknownOs(n, os) => "machine '"@ + n@ + "' has unknown os '"@ + os@
                + "' (expected \"mac\" or \"linux\")"@,
            MachineError::UnknownRole(n, r) => "machine '"@ + n@ + "' has unknown role '"@ + r@
                + "' (expected \"desktop\" or \"server\")"@,
        }
    }

    /// The message shown for the failure.
    pub fn message(&self) -> (r: String)
        ensures
            r@ == self.message_spec(),
    {
        let mut r = String::new();
        match self {
            MachineError::NoMachines => {
                push_str(&mut r, "no [[machine]] entries in temper.toml");
            },
            MachineError::NoSuchMachine(n) => {
                push_str(&mut r, "no machine named '");
                push_str(&mut r, n.as_str());
                push_str(&mut r, "' in temper.toml");
            },
            MachineError::Unresolved(ns) => {
                push_str(&mut r, "could not resolve this machine by hostname; pass a name (known: ");
                let ghost head = r@;
                let ghost nv = str_views(ns@);
                let mut i: usize = 0;
                while i < ns.len()
                    invariant
                        i <= ns@.len(),
                        nv == str_views(ns@),
                        r@ == head + join_names(nv.take(i as int)),
                    decreases ns.len() - i,
                {
                    if i > 0 {
                        push_str(&mut r, ", ");
                    }
                    push_str(&mut r, ns[i].as_str());
                    proof {
                        let t = nv.take(i as int + 1);
                        assert(t.drop_last() =~= nv.take(i as int));
                        assert(t.last() == ns@[i as int]@);
                        if i == 0 {
                            assert(nv.take(0) =~= Seq::<Seq<char>>::empty());
                        }
                    }
                    i += 1;
                }
                assert(nv.take(nv.len() as int) =~= nv);
                push_str(&mut r, ")");
            },
            MachineError::UnknownOs(n, os) => {
                push_str(&mut r, "machine '");
                push_str(&mut r, n.as_str());
                push_str(&mut r, "' has unknown os '");
                push_str(&mut r, os.as_str());
                push_str(&mut r, "' (expected \"mac\" or \"linux\")");
            },
            MachineError::UnknownRole(n, role) => {
                push_str(&mut r, "machine '");
                push_str(&mut r, n.as_str());
                push_str(&mut r, "' has unknown role '");
                push_str(&mut r, role.as_str());
                push_str(&mut r, "' (expected \"desktop\" or \"server\")");
            },
        }
        r
    }
}

/// An os the spec understands.
pub open spec fn known_os(os: Seq<char>) -> bool {
    os == "mac"@ || os == "linux"@
}

/// A role the spec understands.
pub open spec fn known_role(role: Seq<char>) -> bool {
    role == "desktop"@ || role == "server"@
}

/// The declared role has this text.
pub open spec fn role_is(r: Option<String>, t: Seq<char>) -> bool {
    match r {
        Some(x) => x@ == t,
        None => false,
    }
}

/// The machine's os is known, and its role, if it declares one.
pub open spec fn valid_machine(m: Machine) -> bool {
    known_os(m.os@) && match m.role {
        Some(r) => known_role(r@),
        None => true,
    }
}

fn copy(s: &str) -> (r: String)
    ensures
        r@ == s@,
{
    let mut r = String::new();
    push_str(&mut r, s);
    r
}

/// Rejects an unknown os (a typo like `Linux` would otherwise silently skip
/// every os-gated step), then an unknown role.
pub fn checked(m: Machine) -> (r: Result<Machine, MachineError>)
    ensures
        match r {
            Ok(x) => x == m && valid_machine(m),
            Err(MachineError::UnknownOs(n, os)) => !known_os(m.os@) && n@ == m.name@ && os@ == m.os@,
            Err(MachineError::UnknownRole(n, role)) => known_os(m.os@) && role_is(m.role, role@) && !known_role(role@)
                && n@ == m.name@,
            Err(_) => false,
        },
{
    let os = m.os.as_str();
    if !(crate::plan::str_eq(os, "mac") || crate::plan::str_eq(os, "linux")) {
        return Err(MachineError::UnknownOs(copy(m.name.as_str()), copy(os)));
    }
    match &m.role {
        Some(role) => {
            if !(crate::plan::str_eq(role.as_str(), "desktop") || crate::plan::str_eq(role.as_str(), "server")) {
                return Err(MachineError::UnknownRole(copy(m.name.as_str()), copy(role.as_str())));
            }
        },
        None => {},
    }
    Ok(m)
}

/// Where the first machine with this name stands, if any.
pub open spec fn named(ms: Seq<Machine>, name: Seq<char>) -> Option<int>
    decreases ms.len(),
{
    if ms.len() == 0 {
        None
    } else {
        match named(ms.drop_last(), name) {
            Some(i) => Some(i),
            None => if ms.last().name@ == name { Some(ms.len() - 1) } else { None },
        }
    }
}

proof fn lemma_named(ms: Seq<Machine>, name: Seq<char>)
    ensures
        named(ms, name) matches Some(i) ==> 0 <= i < ms.len() && ms[i].name@ == name,
        named(ms, name) is None ==> forall|j: int| 0 <= j < ms.len() ==> ms[j].name@ != name,
    decreases ms.len(),
{
    if ms.len() > 0 {
        lemma_named(ms.drop_last(), name);
        assert forall|j: int| 0 <= j < ms.len() - 1 implies ms[j] == ms.drop_last()[j] by {}
    }
}

fn find_named(ms: &Vec<Machine>, name: &str) -> (r: Option<usize>)
    ensures
        match r {
            Some(i) => named(ms@, name@) == Some(i as int) && i < ms@.len(),
            None => named(ms@, name@) is None,
        },
{
    proof {
        lemma_named(ms@, name@);
    }
    let nc = chars_of(name);
    let mut i: usize = 0;
    while i < ms.len()
        invariant
            i <= ms@.len(),
            nc@ == name@,
            named(ms@, name@) matches Some(k) ==> 0 <= k < ms@.len() && ms@[k].name@ == name@,
            named(ms@, name@) is None ==> forall|j: int| 0 <= j < ms@.len() ==> ms@[j].name@ != name@,
            forall|j: int| 0 <= j < i ==> ms@[j].name@ != name@,
        decreases ms.len() - i,
    {
        if same(chars_of(ms[i].name.as_str()).as_slice(), nc.as_slice()) {
            proof {
                if named(ms@, name@) is None {
                    assert(ms@[i as int].name@ == name@);
                }
                let k = named(ms@, name@)->0;
                if k < i {
                } else if k > i {
                    lemma_named_first(ms@, name@, i as int);
                }
            }
            return Some(i);
        }
        i += 1;
    }
    None
}

proof fn lemma_named_first(ms: Seq<Machine>, name: Seq<char>, i: int)
    requires
        0 <= i < ms.len(),
        ms[i].name@ == name,
    ensures
        named(ms, name) is Some,
        named(ms, name)->0 <= i,
    decreases ms.len(),
{
    if i < ms.len() - 1 {
        assert(ms.drop_last()[i] == ms[i]);
        lemma_named_first(ms.drop_last(), name, i);
    } else {
        lemma_named(ms.drop_last(), name);
        assert(ms.last() == ms[i]);
    }
}

pub open spec fn explicit_is(e: Option<&str>, t: Seq<char>) -> bool {
    match e {
        Some(x) => x@ == t,
        None => false,
    }
}

/// Which machine index resolution settles on: the explicit name's, else the
/// hostname's, else the sole machine.
pub open spec fn resolved_index(ms: Seq<Machine>, explicit: Option<Seq<char>>, host: Option<Seq<char>>) -> Option<int> {
    match explicit {
        Some(n) => named(ms, n),
        None => {
            let by_host = match host {
                Some(h) => named(ms, h),
                None => None,
            };
            match by_host {
                Some(i) => Some(i),
                None => if ms.len() == 1 { Some(0) } else { None },
            }
        },
    }
}

/// Resolves which machine this is: the explicit name, else the one named
/// like the host, else the sole machine; the machine found must pass
/// `checked`. `host` is this host's short name, when it has one.
pub fn resolve(ft: TemperToml, explicit: Option<&str>, host: Option<String>) -> (r: Result<Machine, MachineError>)
    ensures
        ft.machine@.len() == 0 ==> r == Err::<Machine, MachineError>(MachineError::NoMachines),
        ft.machine@.len() > 0 ==> match resolved_index(ft.machine@, match explicit {
            Some(e) => Some(e@),
            None => None,
        }, match host {
            Some(h) => Some(h@),
            None => None,
        }) {
            Some(i) => match r {
                Ok(m) => m == ft.machine@[i] && valid_machine(m),
                Err(MachineError::UnknownOs(_, _)) => !valid_machine(ft.machine@[i]),
                Err(MachineError::UnknownRole(_, _)) => !valid_machine(ft.machine@[i]),
                Err(_) => false,
            },
            None => match r {
                Err(MachineError::NoSuchMachine(n)) => explicit_is(explicit, n@),
                Err(MachineError::Unresolved(ns)) => explicit is None && str_views(ns@) == ft.machine@.map_values(
                    |m: Machine| m.name@,
                ),
                _ => false,
            },
        },
{
    let mut ms = ft.machine;
    if ms.len() == 0 {
        return Err(MachineError::NoMachines);
    }
    match explicit {
        Some(name) => {
            match find_named(&ms, name) {
                Some(i) => {
                    let m = ms.remove(i);
                    return checked(m);
                },
                None => {
                    return Err(MachineError::NoSuchMachine(copy(name)));
                },
            }
        },
        None => {},
    }
    match &host {
        Some(h) => {
            match find_named(&ms, h.as_str()) {
                Some(i) => {
                    let m = ms.remove(i);
                    return checked(m);
                },
                None => {},
            }
        },
        None => {},
    }
    if ms.len() == 1 {
        let m = ms.remove(0);
        return checked(m);
    }
    let mut names: Vec<String> = Vec::new();
    let mut i: usize = 0;
    while i < ms.len()
        invariant
            i <= ms@.len(),
            str_views(names@) == ms@.take(i as int).map_values(|m: Machine| m.name@),
        decreases ms.len() - i,
    {
        let ghost before = str_views(names@);
        names.push(copy(ms[i].name.as_str()));
        proof {
            assert(ms@.take(i as int + 1) =~= ms@.take(i as int).push(ms@[i as int]));
            assert(str_views(names@) =~= before.push(ms@[i as int].name@));
            assert(ms@.take(i as int + 1).map_values(|m: Machine| m.name@) =~= ms@.take(i as int).map_values(
                |m: Machine| m.name@,
            ).push(ms@[i as int].name@));
        }
        i += 1;
    }
    assert(ms@.take(ms@.len() as int) =~= ms@);
    Err(MachineError::Unresolved(names))
}

/// A host's short name: trimmed, lowercased, cut at the first dot; nothing
/// when that leaves nothing.
pub open spec fn short_host(raw: Seq<char>) -> Option<Seq<char>> {
    let f = first_field(lowercase(trim(raw)), '.');
    if f.len() > 0 {
        Some(f)
    } else {
        None
    }
}

/// This host's short name, from what `hostname` printed.
pub fn hostname_from(raw: &str) -> (r: Option<String>)
    ensures
        match r {
            Some(h) => short_host(raw@) == Some(h@),
            None => short_host(raw@) is None,
        },
{
    let t = string_of(trimmed(chars_of(raw).as_slice()).as_slice());
    let l = to_lowercase(t.as_str());
    let f = first_field_exec(chars_of(l.as_str()).as_slice(), '.');
    if f.len() > 0 {
        Some(string_of(f.as_slice()))
    } else {
        None
    }
}

} // verus!
