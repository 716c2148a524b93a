//! Changes of a database that are made once, in order.

use vstd::prelude::*;
use crate::text::{copy_text, decimal, push_decimal, str_eq};

verus! {

/// What `sqlformat::format` makes of a statement, without parameters and with its usual
/// options.
pub uninterp spec fn formatted(sql: Seq<char>) -> Seq<char>;

/// `sqlformat::format` lays out a statement.
#[verifier::external_body]
fn format_sql(sql: &str) -> (r: String)
    ensures
        r@ == formatted(sql@),
{
    sqlformat::format(sql, &sqlformat::QueryParams::None, sqlformat::FormatOptions::default())
}

/// A change that is to be made, and noted once it was.
#[derive(Debug)]
pub struct MigrationStep {
    pub index: usize,
    pub sql: String,
}

/// A change that was made is not what it is now said to be.
#[derive(Debug)]
pub struct MigrationChanged {
    pub index: usize,
    pub stored: String,
    pub proposed: String,
}

/// How a change of a change is told of.
pub open spec fn changed_text(
    domain: Seq<char>,
    index: nat,
    stored: Seq<char>,
    proposed: Seq<char>,
) -> Seq<char> {
    "Migration changed for "@ + domain + " at step "@ + decimal(index)
        + "\n\nStored migration:\n"@ + stored + "\n\nProposed migration:\n"@ + proposed
}

impl MigrationChanged {
    /// How the change is told of.
    pub fn text(&self, domain: &str) -> (r: String)
        ensures
            r@ == changed_text(domain@, self.index as nat, self.stored@, self.proposed@),
    {
        let mut r = copy_text("Migration changed for ");
        r.push_str(domain);
        r.push_str(" at step ");
        push_decimal(&mut r, self.index as u64);
        r.push_str("\n\nStored migration:\n");
        r.push_str(self.stored.as_str());
        r.push_str("\n\nProposed migration:\n");
        r.push_str(self.proposed.as_str());
        r
    }
}

/// What becomes of a change.
#[derive(Copy, Clone, Debug, PartialEq, Eq, Structural)]
pub enum MigrationState {
    Done,
    Changed,
    Missing,
}

/// What becomes of a change, from how it is laid out, and from how the one that was made
/// in its place is.
pub fn migration_state(proposed: &str, stored: Option<&str>) -> (r: MigrationState)
    ensures
        r == (match stored {
            Some(stored) => if stored@ == proposed@ {
                MigrationState::Done
            } else {
                MigrationState::Changed
            },
            None => MigrationState::Missing,
        }),
{
    match stored {
        Some(stored) => if str_eq(stored, proposed) {
            MigrationState::Done
        } else {
            MigrationState::Changed
        },
        None => MigrationState::Missing,
    }
}

/// Whether a change is what was made in its place.
pub open spec fn is_unchanged(migrations: Seq<String>, completed: Seq<String>, i: int) -> bool {
    formatted(completed[i]@) == formatted(migrations[i]@)
}

/// Whether some changes are what was made in their places, up to one of them.
pub open spec fn unchanged_up_to(migrations: Seq<String>, completed: Seq<String>, n: int) -> bool {
    forall|i: int| #![trigger migrations[i]]
        0 <= i < n && i < completed.len() ==> is_unchanged(migrations, completed, i)
}

/// Whether some changes are those that are still to be made, or the first of the changes
/// that were made is told of that is not what it is now said to be.
pub open spec fn is_plan(
    migrations: Seq<String>,
    completed: Seq<String>,
    r: Result<Vec<MigrationStep>, MigrationChanged>,
) -> bool {
    match r {
        Ok(steps) => unchanged_up_to(migrations, completed, migrations.len() as int)
            && steps@.len() == (if completed.len() < migrations.len() {
            migrations.len() - completed.len()
        } else {
            0
        }) && forall|k: int|
            0 <= k < steps@.len() ==> (#[trigger] steps@[k]).index == completed.len() + k
                && steps@[k].sql@ == formatted(migrations[completed.len() + k]@),
        Err(changed) => changed.index < migrations.len() && changed.index < completed.len()
            && !is_unchanged(migrations, completed, changed.index as int) && unchanged_up_to(
            migrations,
            completed,
            changed.index as int,
        ) && changed.stored@ == formatted(completed[changed.index as int]@) && changed.proposed@
            == formatted(migrations[changed.index as int]@),
    }
}

/// The changes that are still to be made: those behind the ones that were. None of these
/// may have changed.
pub fn migrate(migrations: &Vec<String>, completed: &Vec<String>) -> (r: Result<
    Vec<MigrationStep>,
    MigrationChanged,
>)
    ensures
        is_plan(migrations@, completed@, r),
{
    let mut steps: Vec<MigrationStep> = Vec::new();
    let mut i: usize = 0;
    while i < migrations.len()
        invariant
            i <= migrations@.len(),
            unchanged_up_to(migrations@, completed@, i as int),
            steps@.len() == (if completed@.len() < i {
                i - completed@.len()
            } else {
                0
            }),
            forall|k: int|
                0 <= k < steps@.len() ==> (#[trigger] steps@[k]).index == completed@.len() + k
                    && steps@[k].sql@ == formatted(migrations@[completed@.len() + k]@),
        decreases migrations.len() - i,
    {
        let proposed = format_sql(migrations[i].as_str());
        if i < completed.len() {
            let stored = format_sql(completed[i].as_str());
            match migration_state(proposed.as_str(), Some(stored.as_str())) {
                MigrationState::Done => {},
                _ => {
                    return Err(MigrationChanged { index: i, stored, proposed });
                },
            }
        } else {
            steps.push(MigrationStep { index: i, sql: proposed });
        }
        i = i + 1;
    }
    Ok(steps)
}

/// No change is made twice: once the changes that were still to be made are noted as they
/// were made, there is nothing to be made. A statement that is laid out must not change
/// when it is laid out again.
pub proof fn law_changes_are_made_once(
    migrations: Seq<String>,
    completed: Seq<String>,
    first: Result<Vec<MigrationStep>, MigrationChanged>,
    noted: Seq<String>,
    second: Result<Vec<MigrationStep>, MigrationChanged>,
)
    requires
        is_plan(migrations, completed, first),
        first is Ok,
        noted.len() == completed.len() + first->Ok_0@.len(),
        noted.take(completed.len() as int) == completed,
        forall|k: int|
            0 <= k < first->Ok_0@.len() ==> (#[trigger] noted[completed.len() + k])@
                == first->Ok_0@[k].sql@,
        is_plan(migrations, noted, second),
        forall|i: int|
            0 <= i < migrations.len() ==> formatted(formatted((#[trigger] migrations[i])@))
                == formatted(migrations[i]@),
    ensures
        second matches Ok(steps) && steps@.len() == 0,
{
    let n = completed.len();
    let steps = first->Ok_0@;
    assert forall|i: int| 0 <= i < migrations.len() && i < noted.len() implies is_unchanged(
        migrations,
        noted,
        i,
    ) by {
        if i < n {
            assert(noted.take(n as int)[i] == completed[i]);
            assert(is_unchanged(migrations, completed, i)) by {
                assert(migrations[i] == migrations[i]);
            }
        } else {
            let k: int = i - n;
            assert(noted[n + k]@ == steps[k].sql@);
            assert(steps[k].sql@ == formatted(migrations[n + k]@));
        }
    }
    if let Err(changed) = second {
        assert(is_unchanged(migrations, noted, changed.index as int));
    }
}

/// A change that was made and then changed is told of, and nothing is made.
pub proof fn law_changed_migration_stops_everything(
    migrations: Seq<String>,
    completed: Seq<String>,
    i: int,
    r: Result<Vec<MigrationStep>, MigrationChanged>,
)
    requires
        0 <= i < migrations.len(),
        i < completed.len(),
        !is_unchanged(migrations, completed, i),
        is_plan(migrations, completed, r),
    ensures
        r matches Err(changed) && changed.index <= i,
{
    assert(migrations[i] == migrations[i]);
}

/// The changes of a database that were not made yet are made, in their order and with their
/// place among all. Those that were made must be the same as they were, but for how they are
/// written. Otherwise nothing is made, and the first one that differs is named.
pub proof fn law_missing_changes_are_made(
    migrations: Vec<String>,
    completed: Vec<String>,
    r: Result<Vec<MigrationStep>, MigrationChanged>,
)
    requires
        call_ensures(migrate, (&migrations, &completed), r),
    ensures
        r is Ok <==> forall|i: int|
            0 <= i < migrations@.len() && i < completed@.len() ==> formatted(
                (#[trigger] migrations@[i])@,
            ) == formatted(completed@[i]@),
        r matches Ok(steps) ==> steps@.len() == (if completed@.len() < migrations@.len() {
            migrations@.len() - completed@.len()
        } else {
            0
        }) && forall|k: int|
            0 <= k < steps@.len() ==> (#[trigger] steps@[k]).index == completed@.len() + k
                && steps@[k].sql@ == formatted(migrations@[completed@.len() + k]@),
        r matches Err(changed) ==> changed.index < migrations@.len() && changed.index
            < completed@.len() && changed.stored@ == formatted(
            completed@[changed.index as int]@,
        ) && changed.proposed@ == formatted(migrations@[changed.index as int]@)
            && changed.stored@ != changed.proposed@ && forall|i: int|
            0 <= i < changed.index ==> formatted((#[trigger] migrations@[i])@) == formatted(
                completed@[i]@,
            ),
{
    match r {
        Ok(_) => {
            assert forall|i: int|
                0 <= i < migrations@.len() && i < completed@.len() implies formatted(
                (#[trigger] migrations@[i])@,
            ) == formatted(completed@[i]@) by {
                assert(is_unchanged(migrations@, completed@, i));
            }
        },
        Err(changed) => {
            let at: int = changed.index as int;
            assert(formatted(migrations@[at]@) != formatted(completed@[at]@));
            assert forall|i: int| 0 <= i < at implies formatted((#[trigger] migrations@[i])@)
                == formatted(completed@[i]@) by {
                assert(is_unchanged(migrations@, completed@, i));
            }
        },
    }
}

/// A change of a migration is told of with its domain, its step and both texts.
pub proof fn law_changes_in_words(changed: MigrationChanged, domain: &str, r: String)
    requires
        call_ensures(MigrationChanged::text, (&changed, domain), r),
    ensures
        r@ == "Migration changed for "@ + domain@ + " at step "@ + decimal(changed.index as nat)
            + "\n\nStored migration:\n"@ + changed.stored@ + "\n\nProposed migration:\n"@
            + changed.proposed@,
{
}

} // verus!
