//! Core of a process supervisor: restart policy, worker registry,
//! child-process monitoring decisions, fault bookkeeping and the
//! shutdown state machine. Everything here is pure state and decisions;
//! threads, child processes and OS hooks are driven by the caller.

pub mod config_parser;
pub mod exception_handler;
pub mod path;
pub mod process_manager;
pub mod restart_policy;
pub mod signal_handler;
pub mod text;
pub mod thread_manager;

use vstd::prelude::*;

verus! {

/// What `str::to_lowercase` makes of a string.
pub uninterp spec fn lower_of(s: Seq<char>) -> Seq<char>;

/// Relies on `str::to_lowercase`: its result depends on the characters alone.
#[verifier::external_body]
fn lowercase(s: &str) -> (r: String)
    ensures
        r@ == lower_of(s@),
{
    s.to_lowercase()
}

/// Whether one of `names` is exactly `target`.
pub fn any_name_equals(target: &String, names: &Vec<String>) -> (r: bool)
    ensures
        r == exists|i: int| 0 <= i < names@.len() && #[trigger] names@[i]@ == target@,
{
    let mut i: usize = 0;
    while i < names.len()
        invariant
            i <= names@.len(),
            forall|j: int| 0 <= j < i ==> #[trigger] names@[j]@ != target@,
        decreases names@.len() - i,
    {
        if names[i] == *target {
            return true;
        }
        i = i + 1;
    }
    false
}

/// Whether a process named `process_name` is among `running` (the names of
/// the processes that run now), comparing names without regard to case.
pub fn is_process_running(process_name: &str, running: &Vec<String>) -> (r: bool)
    ensures
        r == exists|i: int|
            0 <= i < running@.len() && lower_of(#[trigger] running@[i]@) == lower_of(process_name@),
{
    let target = lowercase(process_name);
    let mut folded: Vec<String> = Vec::new();
    let mut i: usize = 0;
    while i < running.len()
        invariant
            i <= running@.len(),
            folded@.len() == i,
            forall|j: int| 0 <= j < i ==> #[trigger] folded@[j]@ == lower_of(running@[j]@),
        decreases running@.len() - i,
    {
        folded.push(lowercase(running[i].as_str()));
        i = i + 1;
    }
    let r = any_name_equals(&target, &folded);
    assert(r ==> exists|j: int|
        0 <= j < running@.len() && lower_of(#[trigger] running@[j]@) == lower_of(process_name@));
    assert((exists|j: int|
        0 <= j < running@.len() && lower_of(#[trigger] running@[j]@) == lower_of(process_name@))
        ==> r) by {
        if exists|j: int|
            0 <= j < running@.len() && lower_of(#[trigger] running@[j]@) == lower_of(process_name@) {
            let j = choose|j: int|
                0 <= j < running@.len() && lower_of(#[trigger] running@[j]@) == lower_of(
                    process_name@,
                );
            assert(folded@[j]@ == target@);
        }
    }
    r
}

} // verus!
