use chronic::date::Date;
use chronic::entry::{parse_habitctl_log, Entry, EntryStatus, ImportError};
use chronic::habit::{parse_habitctl_habits, Habit, HabitType};
use chronic::setup::{
    habitctl_installed, import_choice_of, import_habitctl, installed, parse_import_reply,
};
use chronic::store::sort_entries_by_date;

fn lines(text: &str) -> Vec<String> {
    text.lines().map(|l| l.to_string()).collect()
}

/// Random values, as the program draws them.
fn draws(n: usize) -> Vec<u128> {
    (0..n).map(|_| uuid::Uuid::new_v4().as_u128()).collect()
}

fn entry(year: i32, month: u32, day: u32, habit: u128) -> Entry {
    Entry::new(Date { year, month, day }, habit, EntryStatus::Completed)
}

#[test]
fn catalog_of_two_habits() {
    let habits = parse_habitctl_habits(&lines("1Exercise\n7Clean house\n"), &draws(64));
    assert_eq!(habits.len(), 2);
    assert_eq!(habits[0].habit_type, HabitType::Daily);
    assert_eq!(habits[0].description, "Exercise");
    assert_eq!(habits[1].habit_type, HabitType::Weekly);
    assert_eq!(habits[1].description, "Clean house");
    assert_ne!(habits[0].uuid, habits[1].uuid);
}

#[test]
fn catalog_keeps_repeated_descriptions_with_distinct_identifiers() {
    let habits = parse_habitctl_habits(&lines("1Read\n9Bad\n0Read\n"), &draws(64));
    assert_eq!(habits.len(), 2);
    assert_eq!(habits[0].habit_type, HabitType::Daily);
    assert_eq!(habits[0].description, "Read");
    assert_eq!(habits[1].habit_type, HabitType::JustTrack);
    assert_eq!(habits[1].description, "Read");
    assert_ne!(habits[0].uuid, habits[1].uuid);
}

#[test]
fn catalog_identifiers_all_differ() {
    let text: String = (0..200).map(|i| format!("1Habit {}\n", i)).collect();
    let habits = parse_habitctl_habits(&lines(&text), &draws(200));
    assert_eq!(habits.len(), 200);
    for i in 0..habits.len() {
        for j in (i + 1)..habits.len() {
            assert_ne!(habits[i].uuid, habits[j].uuid);
        }
    }
}

#[test]
fn catalog_identifiers_come_from_the_random_values() {
    let habits = parse_habitctl_habits(&lines("1A\n9x\n7B\n"), &[1, u128::MAX]);
    assert_eq!(habits.len(), 2);
    assert_eq!(habits[0].uuid, 0x0000_0000_0000_4000_8000_0000_0000_0001);
    assert_eq!(habits[1].uuid, 0xffff_ffff_ffff_4fff_bfff_ffff_ffff_ffff);
}

#[test]
fn catalog_identifier_clash_takes_smallest_free() {
    let habits = parse_habitctl_habits(&lines("1A\n1B\n1C\n"), &[7, 7]);
    assert_eq!(habits.len(), 3);
    assert_eq!(habits[0].uuid, 0x0000_0000_0000_4000_8000_0000_0000_0007);
    assert_eq!(habits[1].uuid, 0);
    assert_eq!(habits[2].uuid, 1);
}

#[test]
fn catalog_without_random_values_numbers_from_zero() {
    let habits = parse_habitctl_habits(&lines("1A\n1B\n"), &[]);
    assert_eq!(habits[0].uuid, 0);
    assert_eq!(habits[1].uuid, 1);
}

#[test]
fn catalog_skips_blank_and_unknown_lines() {
    let text = "\n   \n0Drink water\n5Nope\n\t\n1Sleep\n";
    let habits = parse_habitctl_habits(&lines(text), &draws(64));
    assert_eq!(habits.len(), 2);
    assert_eq!(habits[0].habit_type, HabitType::JustTrack);
    assert_eq!(habits[0].description, "Drink water");
    assert_eq!(habits[1].description, "Sleep");
}

#[test]
fn log_of_one_entry() {
    let habits = parse_habitctl_habits(&lines("1Exercise\n7Clean house\n"), &draws(64));
    let entries = parse_habitctl_log(&lines("2024-03-01 Exercise  y\n"), &habits).unwrap();
    assert_eq!(entries.len(), 1);
    assert_eq!(entries[0].date, Date { year: 2024, month: 3, day: 1 });
    assert_eq!(entries[0].habit, habits[0].uuid);
    assert_eq!(entries[0].entry_status, EntryStatus::Completed);
}

#[test]
fn log_line_of_absent_habit_is_dropped() {
    let habits = parse_habitctl_habits(&lines("1Exercise\n7Clean house\n"), &draws(64));
    let entries = parse_habitctl_log(&lines("2024-03-01 Meditate  y\n"), &habits).unwrap();
    assert!(entries.is_empty());
}

#[test]
fn blank_log_lines_do_not_stop_the_log() {
    let habits = parse_habitctl_habits(&lines("1Exercise\n\n  \n7Clean house\n"), &draws(64));
    assert_eq!(habits.len(), 2);
    let log = "\n2024-03-01 Exercise  y\n   \n\n2024-03-02 Clean house  n\n";
    let entries = parse_habitctl_log(&lines(log), &habits).unwrap();
    assert_eq!(entries.len(), 2);
    assert_eq!(entries[1].habit, habits[1].uuid);
    assert_eq!(entries[1].entry_status, EntryStatus::NotCompleted);
}

#[test]
fn log_reports_first_malformed_line() {
    let habits = parse_habitctl_habits(&lines("1Exercise\n"), &draws(64));
    let log = "2024-03-01 Exercise  y\n\n2024-3-1 Exercise  y\n2024-99-99 Exercise  y\n";
    assert_eq!(
        parse_habitctl_log(&lines(log), &habits),
        Err(ImportError::MalformedDate { line: 2 })
    );
}

#[test]
fn partition_keeps_order_within_dates() {
    let entries = vec![entry(2024, 1, 1, 1), entry(2024, 1, 2, 2), entry(2024, 1, 1, 3)];
    let parts = sort_entries_by_date(&entries);
    assert_eq!(parts.len(), 2);
    assert_eq!(parts[0].date, Date { year: 2024, month: 1, day: 1 });
    assert_eq!(parts[0].entries, vec![entries[0], entries[2]]);
    assert_eq!(parts[1].date, Date { year: 2024, month: 1, day: 2 });
    assert_eq!(parts[1].entries, vec![entries[1]]);
}

#[test]
fn partition_of_nothing_is_empty() {
    assert!(sort_entries_by_date(&[]).is_empty());
}

#[test]
fn import_end_to_end() {
    let habit_lines = lines("1Exercise\n7Clean house\n");
    let log_lines = lines(
        "2024-03-01 Exercise  y\n2024-03-01 Meditate  y\n\n\
         2024-03-02 Clean house  s\n2024-03-01 Clean house  n\n",
    );
    let import = import_habitctl(&habit_lines, &log_lines, &draws(8)).unwrap();
    assert_eq!(import.habits.len(), 2);
    let exercise: &Habit = &import.habits[0];
    let house: &Habit = &import.habits[1];
    assert_eq!(import.partitions.len(), 2);
    let first = &import.partitions[0];
    assert_eq!(first.date, Date { year: 2024, month: 3, day: 1 });
    assert_eq!(first.entries.len(), 2);
    assert_eq!(first.entries[0].habit, exercise.uuid);
    assert_eq!(first.entries[1].habit, house.uuid);
    assert_eq!(first.entries[1].entry_status, EntryStatus::NotCompleted);
    let second = &import.partitions[1];
    assert_eq!(second.date, Date { year: 2024, month: 3, day: 2 });
    assert_eq!(second.entries.len(), 1);
    assert_eq!(second.entries[0].entry_status, EntryStatus::Skipped);
}

#[test]
fn import_stops_on_malformed_date() {
    let habit_lines = lines("1Exercise\n");
    let log_lines = lines("2024-03-01 Exercise  y\nnot a date at all  y\n");
    assert_eq!(
        import_habitctl(&habit_lines, &log_lines, &draws(8)).err(),
        Some(ImportError::MalformedDate { line: 1 })
    );
}

#[test]
fn store_presence() {
    assert!(installed(true, true));
    assert!(!installed(true, false));
    assert!(!installed(false, true));
    assert!(habitctl_installed(true, true));
    assert!(!habitctl_installed(false, true));
    assert!(!habitctl_installed(true, false));
}

#[test]
fn import_answers() {
    assert_eq!(import_choice_of(""), Some(true));
    assert_eq!(import_choice_of("y"), Some(true));
    assert_eq!(import_choice_of("n"), Some(false));
    assert_eq!(import_choice_of("Y"), None);
    assert_eq!(import_choice_of("yes"), None);
    assert_eq!(parse_import_reply("\n"), Some(true));
    assert_eq!(parse_import_reply("Y\n"), Some(true));
    assert_eq!(parse_import_reply("  N  "), Some(false));
    assert_eq!(parse_import_reply("no"), None);
}
