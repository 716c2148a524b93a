//! Commands that are undone together.

use vstd::prelude::*;
use crate::text::copy_text;

verus! {

/// What starts a savepoint.
pub open spec fn begin_text(name: Seq<char>) -> Seq<char> {
    "SAVEPOINT "@ + name
}

/// What ends a savepoint and keeps what was done since.
pub open spec fn release_text(name: Seq<char>) -> Seq<char> {
    "RELEASE "@ + name
}

/// What ends a savepoint and undoes what was done since.
pub open spec fn rollback_text(name: Seq<char>) -> Seq<char> {
    "ROLLBACK TO "@ + name + ";\n"@ + release_text(name)
}

/// What starts a savepoint.
pub fn begin_savepoint(name: &str) -> (r: String)
    ensures
        r@ == begin_text(name@),
{
    let mut r = copy_text("SAVEPOINT ");
    r.push_str(name);
    r
}

fn release(name: &str) -> (r: String)
    ensures
        r@ == release_text(name@),
{
    let mut r = copy_text("RELEASE ");
    r.push_str(name);
    r
}

fn rollback(name: &str) -> (r: String)
    ensures
        r@ == rollback_text(name@),
{
    let mut r = copy_text("ROLLBACK TO ");
    r.push_str(name);
    r.push_str(";\n");
    r.push_str(release(name).as_str());
    r
}

/// What ends a savepoint: what was done since is kept where it succeeded.
pub fn with_savepoint<R, E>(name: &str, result: &Result<R, E>) -> (r: String)
    ensures
        r@ == (if *result is Ok {
            release_text(name@)
        } else {
            rollback_text(name@)
        }),
{
    match result {
        Ok(_) => release(name),
        Err(_) => rollback(name),
    }
}

/// What ends a savepoint: what was done since is kept where it succeeded and led to
/// something.
pub fn with_savepoint_rollback<R, E>(name: &str, result: &Result<Option<R>, E>) -> (r: String)
    ensures
        r@ == (if *result is Ok && result->Ok_0 is Some {
            release_text(name@)
        } else {
            rollback_text(name@)
        }),
{
    match result {
        Ok(Some(_)) => release(name),
        Ok(None) => rollback(name),
        Err(_) => rollback(name),
    }
}

/// Commands that succeed are kept, and commands that fail are undone before their savepoint
/// is released. The savepoint that ends is the one that was begun.
pub proof fn law_failed_commands_are_undone(
    name: &str,
    done: Result<Option<u64>, u64>,
    begun: String,
    ended: String,
    kept: String,
)
    requires
        call_ensures(begin_savepoint, (name,), begun),
        call_ensures(with_savepoint::<Option<u64>, u64>, (name, &done), ended),
        call_ensures(with_savepoint_rollback::<u64, u64>, (name, &done), kept),
    ensures
        begun@ == "SAVEPOINT "@ + name@,
        done is Ok ==> ended@ == "RELEASE "@ + name@,
        done is Err ==> ended@ == "ROLLBACK TO "@ + name@ + ";\n"@ + ("RELEASE "@ + name@),
        (done matches Ok(Some(_))) ==> kept@ == "RELEASE "@ + name@,
        !(done matches Ok(Some(_))) ==> kept@ == "ROLLBACK TO "@ + name@ + ";\n"@ + ("RELEASE "@
            + name@),
{
}

} // verus!
