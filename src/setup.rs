//! The first run: whether a store exists, the answer to the offer to
//! import a legacy store, and the import itself.

use crate::entry::{is_malformed, log_entries, parse_habitctl_log, resolves_in, ImportError};
use crate::habit::{catalog_of, distinct_uuids, parse_habitctl_habits, uuids_assigned, Habit};
use crate::store::{
    lemma_partitions_cover, lemma_partitions_hold_their_dates, partitions_of, sort_entries_by_date,
    Partition,
};
use crate::text::{lowercase_of, to_lowercase, trim, trimmed};
use vstd::prelude::*;

verus! {

/// Whether the store is set up: its catalog file and its log directory both
/// exist.
pub fn installed(habits_file_exists: bool, log_dir_exists: bool) -> (r: bool)
    ensures
        r == (habits_file_exists && log_dir_exists),
{
    habits_file_exists && log_dir_exists
}

/// Whether a legacy store is present: its catalog file and its log file
/// both exist.
pub fn habitctl_installed(habits_file_exists: bool, log_file_exists: bool) -> (r: bool)
    ensures
        r == (habits_file_exists && log_file_exists),
{
    habits_file_exists && log_file_exists
}

/// What a trimmed, lowercased answer to the offer to import says: an empty
/// answer or `y` accepts, `n` declines, anything else is no answer.
pub open spec fn import_choice(reply: Seq<char>) -> Option<bool> {
    if reply.len() == 0 || reply == seq!['y'] {
        Some(true)
    } else if reply == seq!['n'] {
        Some(false)
    } else {
        None
    }
}

/// Reads a trimmed, lowercased answer to the offer to import.
pub fn import_choice_of(reply: &str) -> (r: Option<bool>)
    ensures
        r == import_choice(reply@),
{
    let n = reply.unicode_len();
    if n == 0 {
        return Some(true);
    }
    if n == 1 {
        let c = reply.get_char(0);
        assert(reply@ =~= seq![c]);
        if c == 'y' {
            return Some(true);
        }
        if c == 'n' {
            return Some(false);
        }
    }
    None
}

/// Reads an answer, as typed, to the offer to import: it is trimmed and
/// lowercased first.
pub fn parse_import_reply(input: &str) -> (r: Option<bool>)
    ensures
        r == import_choice(lowercase_of(trimmed(input@))),
{
    let reply = to_lowercase(trim(input));
    import_choice_of(reply.as_str())
}

/// What the import of a legacy store makes: the catalog, and the log
/// grouped by date.
#[derive(Clone, Debug)]
pub struct Import {
    pub habits: Vec<Habit>,
    pub partitions: Vec<Partition>,
}

/// Imports a legacy store from the lines of its catalog and of its log: the
/// catalog holds a habit, with an identifier of its own made from `random`
/// as `parse_habitctl_habits` says, for each catalog line that reads as one,
/// and the entries of the log lines, resolved
/// against it, are grouped by date. A log line with a malformed date stops
/// the import, and the first such line is named.
pub fn import_habitctl(habit_lines: &[String], log_lines: &[String], random: &[u128]) -> (r: Result<
    Import,
    ImportError,
>)
    ensures
        match r {
            Ok(import) => {
                &&& catalog_of(import.habits@, habit_lines@)
                &&& uuids_assigned(import.habits@, random@)
                &&& distinct_uuids(import.habits@)
                &&& partitions_of(import.partitions@, log_entries(log_lines@, import.habits@))
                &&& forall|k: int|
                    0 <= k < import.partitions@.len() ==> (
                    #[trigger] import.partitions@[k]).date.wf()
                &&& forall|k: int, j: int|
                    0 <= k < import.partitions@.len() && 0 <= j
                        < import.partitions@[k].entries@.len() ==> resolves_in(
                        #[trigger] import.partitions@[k].entries@[j],
                        import.habits@,
                    )
                &&& forall|k: int|
                    0 <= k < log_lines@.len() ==> !is_malformed(#[trigger] log_lines@[k]@)
            },
            Err(ImportError::MalformedDate { line }) => {
                &&& line < log_lines@.len()
                &&& is_malformed(log_lines@[line as int]@)
                &&& forall|k: int| 0 <= k < line ==> !is_malformed(#[trigger] log_lines@[k]@)
            },
        },
{
    let habits = parse_habitctl_habits(habit_lines, random);
    let entries = parse_habitctl_log(log_lines, habits.as_slice())?;
    let partitions = sort_entries_by_date(entries.as_slice());
    proof {
        lemma_partitions_cover(partitions@, entries@);
        lemma_partitions_hold_their_dates(partitions@, entries@);
        assert forall|k: int| 0 <= k < partitions@.len() implies (
        #[trigger] partitions@[k]).date.wf() by {
            assert(entries@.contains(partitions@[k].entries@[0]));
        }
        assert forall|k: int, j: int|
            0 <= k < partitions@.len() && 0 <= j < partitions@[k].entries@.len()
            implies resolves_in(#[trigger] partitions@[k].entries@[j], habits@) by {
            assert(entries@.contains(partitions@[k].entries@[j]));
        }
    }
    Ok(Import { habits, partitions })
}

} // verus!
