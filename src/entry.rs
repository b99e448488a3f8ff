//! Log entries, and the reading of a legacy log against a catalog.

use crate::date::{parse_date, parsed_date, Date};
use crate::habit::{
    lemma_position_of_description, lemma_uuid_resolves, position_of_description, position_of_uuid,
    Habit,
};
use crate::text::{is_blank, lemma_blank_trims_to_empty, trim, trimmed};
use vstd::prelude::*;

verus! {

/// What became of a habit on a given day.
#[derive(Clone, Copy, Debug, PartialEq, Eq, Structural, Hash)]
pub enum EntryStatus {
    Completed,
    NotCompleted,
    Skipped,
}

/// The status that a legacy status letter stands for.
pub open spec fn status_code(c: char) -> Option<EntryStatus> {
    if c == 'y' {
        Some(EntryStatus::Completed)
    } else if c == 'n' {
        Some(EntryStatus::NotCompleted)
    } else if c == 's' {
        Some(EntryStatus::Skipped)
    } else {
        None
    }
}

impl EntryStatus {
    /// Reads a legacy status letter: `'y'`, `'n'` and `'s'` give
    /// `Completed`, `NotCompleted` and `Skipped`; any other character gives
    /// nothing.
    pub fn from_habitctl_char(c: char) -> (r: Option<EntryStatus>)
        ensures
            r == status_code(c),
            c == 'y' ==> r == Some(EntryStatus::Completed),
            c == 'n' ==> r == Some(EntryStatus::NotCompleted),
            c == 's' ==> r == Some(EntryStatus::Skipped),
            c != 'y' && c != 'n' && c != 's' ==> r is None,
    {
        match c {
            'y' => Some(EntryStatus::Completed),
            'n' => Some(EntryStatus::NotCompleted),
            's' => Some(EntryStatus::Skipped),
            _ => None,
        }
    }
}

/// One day's record for one habit; `habit` is the identifier of a habit of
/// the catalog, which the entry refers to but does not hold.
#[derive(Clone, Copy, Debug, PartialEq, Eq, Structural, Hash)]
pub struct Entry {
    pub date: Date,
    pub habit: u128,
    pub entry_status: EntryStatus,
}

/// Whether the habit that `e` refers to is in the catalog `habits`.
pub open spec fn resolves_in(e: Entry, habits: Seq<Habit>) -> bool {
    position_of_uuid(habits, e.habit) is Some
}

/// A legacy log line whose first ten characters are no date.
#[derive(Clone, Copy, Debug, PartialEq, Eq, Structural)]
pub struct MalformedDate;

/// Why a legacy log could not be imported.
#[derive(Clone, Copy, Debug, PartialEq, Eq, Structural)]
pub enum ImportError {
    /// The line at this index (from 0) of the log has a malformed date.
    MalformedDate { line: usize },
}

/// The characters of a legacy log line that hold a date.
pub const DATE_LENGTH: usize = 10;

/// The entry that a trimmed legacy log line `t` gives, where `date` is what
/// was read of its first ten characters. The description lies between the
/// separator after the date and the last character, which is the status;
/// it is trimmed and looked up in `habits`. A description found in no habit,
/// or an unknown status, gives no entry; an unreadable date is an error.
pub open spec fn entry_of_fields(t: Seq<char>, date: Option<Date>, habits: Seq<Habit>) -> Result<
    Option<Entry>,
    MalformedDate,
> {
    match date {
        None => Err(MalformedDate),
        Some(d) => if t.len() < DATE_LENGTH + 2 {
            Ok(None)
        } else {
            let description = trimmed(t.subrange((DATE_LENGTH + 1) as int, t.len() - 1));
            match (position_of_description(habits, description), status_code(t.last())) {
                (Some(i), Some(s)) => Ok(
                    Some(Entry { date: d, habit: habits[i].uuid, entry_status: s }),
                ),
                _ => Ok(None),
            }
        },
    }
}

/// What one legacy log line gives: nothing for a blank line, an error where
/// the line is too short to hold a date or its date does not read, and
/// otherwise as `entry_of_fields` says of the trimmed line.
pub open spec fn entry_line_result(line: Seq<char>, habits: Seq<Habit>) -> Result<
    Option<Entry>,
    MalformedDate,
> {
    let t = trimmed(line);
    if t.len() == 0 {
        Ok(None)
    } else if t.len() < DATE_LENGTH {
        Err(MalformedDate)
    } else {
        entry_of_fields(t, parsed_date(t.subrange(0, DATE_LENGTH as int)), habits)
    }
}

/// Whether a legacy log line has a malformed date: it is not blank, and
/// its first ten characters, after trimming, are no date.
pub open spec fn is_malformed(line: Seq<char>) -> bool {
    let t = trimmed(line);
    t.len() > 0 && (t.len() < DATE_LENGTH || parsed_date(t.subrange(0, DATE_LENGTH as int)) is None)
}

/// The entries that the lines of a legacy log give, in line order.
pub open spec fn log_entries(lines: Seq<String>, habits: Seq<Habit>) -> Seq<Entry>
    decreases lines.len(),
{
    if lines.len() == 0 {
        Seq::empty()
    } else {
        let before = log_entries(lines.drop_last(), habits);
        match entry_line_result(lines.last()@, habits) {
            Ok(Some(e)) => before.push(e),
            _ => before,
        }
    }
}

/// The entries of two runs of log lines are those of each, one after the
/// other.
proof fn lemma_log_entries_append(a: Seq<String>, b: Seq<String>, habits: Seq<Habit>)
    ensures
        log_entries(a + b, habits) == log_entries(a, habits) + log_entries(b, habits),
    decreases b.len(),
{
    if b.len() == 0 {
        assert(a + b =~= a);
        assert(log_entries(a, habits) + log_entries(b, habits) =~= log_entries(a, habits));
    } else {
        assert((a + b).drop_last() =~= a + b.drop_last());
        assert((a + b).last() == b.last());
        lemma_log_entries_append(a, b.drop_last(), habits);
        let ea = log_entries(a, habits);
        let eb = log_entries(b.drop_last(), habits);
        match entry_line_result(b.last()@, habits) {
            Ok(Some(e)) => {
                assert(ea + eb.push(e) =~= (ea + eb).push(e));
            },
            _ => {},
        }
    }
}

/// A blank line of a legacy log gives no entry and no error, and wherever
/// it stands among the lines, the entries are those of the other lines.
pub proof fn lemma_blank_log_line(
    before: Seq<String>,
    blank: String,
    after: Seq<String>,
    habits: Seq<Habit>,
)
    requires
        is_blank(blank@),
    ensures
        entry_line_result(blank@, habits) == Ok::<Option<Entry>, MalformedDate>(None),
        !is_malformed(blank@),
        log_entries(before.push(blank) + after, habits) == log_entries(before + after, habits),
{
    lemma_blank_trims_to_empty(blank@);
    lemma_log_entries_append(before.push(blank), after, habits);
    lemma_log_entries_append(before, after, habits);
    assert(before.push(blank).drop_last() =~= before);
}

impl Entry {
    /// An entry of `entry_status` for the habit `habit` on `date`.
    pub fn new(date: Date, habit: u128, entry_status: EntryStatus) -> (r: Entry)
        ensures
            r == (Entry { date, habit, entry_status }),
    {
        Entry { date, habit, entry_status }
    }

    /// Builds the entry of a trimmed legacy log line `line` from `date`,
    /// what was read of its first ten characters.
    pub fn from_habitctl_fields(line: &str, date: Option<Date>, habits: &[Habit]) -> (r: Result<
        Option<Entry>,
        MalformedDate,
    >)
        ensures
            r == entry_of_fields(line@, date, habits@),
            r matches Ok(Some(e)) ==> resolves_in(e, habits@),
    {
        match date {
            None => Err(MalformedDate),
            Some(date) => {
                let n = line.unicode_len();
                if n < DATE_LENGTH + 2 {
                    return Ok(None);
                }
                let middle = line.substring_char(DATE_LENGTH + 1, n - 1);
                let description = String::from_str(trim(middle));
                proof {
                    lemma_position_of_description(habits@, description@);
                    if let Some(i) = position_of_description(habits@, description@) {
                        lemma_uuid_resolves(habits@, i);
                    }
                }
                match Habit::from_description(habits, &description) {
                    None => Ok(None),
                    Some(habit) => match EntryStatus::from_habitctl_char(line.get_char(n - 1)) {
                        None => Ok(None),
                        Some(entry_status) => Ok(Some(Entry::new(date, habit.uuid, entry_status))),
                    },
                }
            },
        }
    }

    /// Reads one line of a legacy log against the catalog `habits`.
    pub fn from_habitctl_line(line: &str, habits: &[Habit]) -> (r: Result<
        Option<Entry>,
        MalformedDate,
    >)
        ensures
            r == entry_line_result(line@, habits@),
            r is Err <==> is_malformed(line@),
            r matches Ok(Some(e)) ==> e.date.wf() && resolves_in(e, habits@),
    {
        let t = trim(line);
        let n = t.unicode_len();
        if n == 0 {
            return Ok(None);
        }
        if n < DATE_LENGTH {
            return Err(MalformedDate);
        }
        let date = parse_date(t.substring_char(0, DATE_LENGTH));
        Entry::from_habitctl_fields(t, date, habits)
    }
}

/// Reads the lines of a legacy log against the catalog `habits`: the entries
/// of its lines in line order, or the index of the first line whose date is
/// malformed.
pub fn parse_habitctl_log(lines: &[String], habits: &[Habit]) -> (r: Result<
    Vec<Entry>,
    ImportError,
>)
    ensures
        match r {
            Ok(entries) => {
                &&& entries@ == log_entries(lines@, habits@)
                &&& forall|k: int| 0 <= k < entries@.len() ==> (#[trigger] entries@[k]).date.wf()
                &&& forall|k: int|
                    0 <= k < entries@.len() ==> resolves_in(#[trigger] entries@[k], habits@)
                &&& forall|k: int| 0 <= k < lines@.len() ==> !is_malformed(#[trigger] lines@[k]@)
            },
            Err(ImportError::MalformedDate { line }) => {
                &&& line < lines@.len()
                &&& is_malformed(lines@[line as int]@)
                &&& forall|k: int| 0 <= k < line ==> !is_malformed(#[trigger] lines@[k]@)
            },
        },
{
    let mut entries: Vec<Entry> = Vec::new();
    let mut i: usize = 0;
    while i < lines.len()
        invariant
            i <= lines@.len(),
            entries@ == log_entries(lines@.subrange(0, i as int), habits@),
            forall|k: int| 0 <= k < entries@.len() ==> (#[trigger] entries@[k]).date.wf(),
            forall|k: int| 0 <= k < entries@.len() ==> resolves_in(#[trigger] entries@[k], habits@),
            forall|k: int| 0 <= k < i ==> !is_malformed(#[trigger] lines@[k]@),
        decreases lines.len() - i,
    {
        assert(lines@.subrange(0, i + 1).drop_last() =~= lines@.subrange(0, i as int));
        match Entry::from_habitctl_line(lines[i].as_str(), habits) {
            Err(MalformedDate) => {
                return Err(ImportError::MalformedDate { line: i });
            },
            Ok(Some(entry)) => {
                entries.push(entry);
            },
            Ok(None) => {},
        }
        i += 1;
    }
    assert(lines@.subrange(0, i as int) =~= lines@);
    Ok(entries)
}

} // verus!
