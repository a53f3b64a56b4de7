//! Whether a game's executable is running: the names come from sysinfo, and
//! the matching is decided here.
use crate::text::chars_of;
use sysinfo::{ProcessRefreshKind, RefreshKind, System};
use vstd::prelude::*;

verus! {

/// What std's `str::to_lowercase` gives for `s`.
pub uninterp spec fn lower_of(s: Seq<char>) -> Seq<char>;

/// Relies on std's `str::to_lowercase`: the result depends on the characters alone.
#[verifier::external_body]
pub fn lowercase(s: &str) -> (r: String)
    ensures
        r@ == lower_of(s@),
{
    s.to_lowercase()
}

/// Relies on sysinfo's `System::new_with_specifics`, `System::processes` and
/// `Process::name`: the names of the processes running now, which may be any.
#[verifier::external_body]
fn running_process_names() -> (r: Vec<String>) {
    let s = System::new_with_specifics(RefreshKind::new().with_processes(ProcessRefreshKind::new()));
    s.processes().values().map(|p| p.name().to_string()).collect()
}

/// Platform executable suffix that a query may carry.
pub const EXE_SUFFIX: &'static str = ".exe";

/// `q` without the executable suffix, if it ends with one.
pub open spec fn exe_stem(q: Seq<char>) -> Option<Seq<char>> {
    let k = EXE_SUFFIX@.len();
    if q.len() >= k && q.subrange(q.len() - k, q.len() as int) == EXE_SUFFIX@ {
        Some(q.subrange(0, q.len() - k))
    } else {
        None
    }
}

/// Whether a process name matches a query, both already lowercased: equal,
/// or equal to the query without its executable suffix.
pub open spec fn name_matches(query: Seq<char>, process: Seq<char>) -> bool {
    process == query || (exe_stem(query) is Some && process == exe_stem(query)->0)
}

/// Whether some process name matches the query, case ignored.
pub open spec fn any_matches(query: Seq<char>, names: Seq<String>) -> bool {
    exists|i: int| 0 <= i < names.len() && name_matches(lower_of(query), lower_of(#[trigger] names[i]@))
}

fn chars_eq_range(a: &Vec<char>, b: &Vec<char>, start: usize, len: usize) -> (r: bool)
    requires
        start + len <= a@.len(),
    ensures
        r == (b@ == a@.subrange(start as int, start + len)),
{
    if b.len() != len {
        return false;
    }
    let mut i: usize = 0;
    while i < len
        invariant
            b@.len() == len,
            start + len <= a.len(),
            i <= len,
            forall|j: int| 0 <= j < i ==> b@[j] == a@[start + j],
        decreases len - i,
    {
        if a[start + i] != b[i] {
            assert(a@.subrange(start as int, start + len)[i as int] == a@[start + i]);
            return false;
        }
        i = i + 1;
    }
    assert(b@ =~= a@.subrange(start as int, start + len));
    true
}

/// Whether a lowercased process name matches a lowercased query.
pub fn matches_lowered(query: &str, process: &str) -> (r: bool)
    ensures
        r == name_matches(query@, process@),
{
    let q = chars_of(query);
    let p = chars_of(process);
    if chars_eq_range(&q, &p, 0, q.len()) {
        assert(q@.subrange(0, q@.len() as int) =~= q@);
        return true;
    }
    assert(q@.subrange(0, q@.len() as int) =~= q@);
    let suffix = chars_of(EXE_SUFFIX);
    let k = suffix.len();
    if q.len() < k {
        return false;
    }
    if !chars_eq_range(&q, &suffix, q.len() - k, k) {
        return false;
    }
    chars_eq_range(&q, &p, 0, q.len() - k)
}

/// Whether some name of `names` matches `query`, case ignored.
pub fn any_process_matches(query: &str, names: &Vec<String>) -> (r: bool)
    ensures
        r == any_matches(query@, names@),
{
    let q = lowercase(query);
    let mut i: usize = 0;
    while i < names.len()
        invariant
            i <= names@.len(),
            q@ == lower_of(query@),
            forall|j: int| 0 <= j < i ==> !name_matches(lower_of(query@), lower_of(#[trigger] names@[j]@)),
        decreases names@.len() - i,
    {
        let n = lowercase(names[i].as_str());
        if matches_lowered(q.as_str(), n.as_str()) {
            return true;
        }
        i = i + 1;
    }
    false
}

/// Whether a process whose name matches `process_name` is running, case
/// ignored, with or without the executable suffix of the query.
pub fn is_process_running(process_name: &str) -> (r: Result<bool, String>)
    ensures
        r is Ok,
{
    let names = running_process_names();
    Ok(any_process_matches(process_name, &names))
}

} // verus!
