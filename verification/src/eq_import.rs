//! Calibrated speaker profiles: which files of a profile repository are
//! imported, and under what name.
use vstd::prelude::*;
use crate::text::{chars_of, ends_with, push_chars, push_str, slice};

verus! {

/// `<x>.calibrated.conf` → `<x>.conf`; nothing for any other name.
pub open spec fn dest_name_spec(f: Seq<char>) -> Option<Seq<char>> {
    if ends_with(f, ".calibrated.conf"@) {
        Some(f.take(f.len() - ".calibrated.conf"@.len()) + ".conf"@)
    } else {
        None
    }
}

/// The name a calibrated profile is imported under.
pub fn dest_name(filename: &str) -> (r: Option<String>)
    ensures
        match r {
            Some(d) => dest_name_spec(filename@) == Some(d@),
            None => dest_name_spec(filename@) is None,
        },
{
    let v = chars_of(filename);
    let suf = chars_of(".calibrated.conf");
    if suf.len() > v.len() {
        return None;
    }
    let cut = v.len() - suf.len();
    let n = v.len();
    let tail = slice(v.as_slice(), cut, n);
    if !crate::text::same(tail.as_slice(), suf.as_slice()) {
        return None;
    }
    let base = slice(v.as_slice(), 0, cut);
    let mut d = String::new();
    push_chars(&mut d, base.as_slice());
    push_str(&mut d, ".conf");
    assert(base@ =~= filename@.take(filename@.len() - ".calibrated.conf"@.len()));
    assert(d@ =~= base@ + ".conf"@);
    Some(d)
}

} // verus!
