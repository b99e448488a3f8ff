use chronic::date::Date;
use chronic::entry::{Entry, EntryStatus, MalformedDate};
use chronic::habit::{Habit, HabitType};

fn catalog() -> Vec<Habit> {
    vec![
        Habit { uuid: 11, habit_type: HabitType::Daily, description: "Exercise".to_string() },
        Habit { uuid: 22, habit_type: HabitType::Weekly, description: "Clean house".to_string() },
        Habit { uuid: 33, habit_type: HabitType::Daily, description: "Exercise".to_string() },
    ]
}

#[test]
fn cadence_digits() {
    assert_eq!(HabitType::from_habitctl_char('0'), Some(HabitType::JustTrack));
    assert_eq!(HabitType::from_habitctl_char('1'), Some(HabitType::Daily));
    assert_eq!(HabitType::from_habitctl_char('7'), Some(HabitType::Weekly));
    for c in ['2', '5', '9', 'a', ' ', 'y', '\u{e9}'] {
        assert_eq!(HabitType::from_habitctl_char(c), None);
    }
}

#[test]
fn status_letters() {
    assert_eq!(EntryStatus::from_habitctl_char('y'), Some(EntryStatus::Completed));
    assert_eq!(EntryStatus::from_habitctl_char('n'), Some(EntryStatus::NotCompleted));
    assert_eq!(EntryStatus::from_habitctl_char('s'), Some(EntryStatus::Skipped));
    for c in ['Y', 'N', 'x', '0', ' ', '1'] {
        assert_eq!(EntryStatus::from_habitctl_char(c), None);
    }
}

#[test]
fn habit_line_fields_are_read() {
    let h = Habit::from_habitctl_line("1Exercise", 9).unwrap();
    assert_eq!(h.uuid, 0x0000_0000_0000_4000_8000_0000_0000_0009);
    assert_eq!(h.habit_type, HabitType::Daily);
    assert_eq!(h.description, "Exercise");
    let h = Habit::from_habitctl_line("  7 Clean house \t", 9).unwrap();
    assert_eq!(h.habit_type, HabitType::Weekly);
    assert_eq!(h.description, "Clean house");
    let h = Habit::from_habitctl_line("0", 9).unwrap();
    assert_eq!(h.habit_type, HabitType::JustTrack);
    assert_eq!(h.description, "");
}

#[test]
fn habit_line_with_unknown_cadence_is_skipped() {
    assert!(Habit::from_habitctl_line("3Read", 9).is_none());
    assert!(Habit::from_habitctl_line("Read", 9).is_none());
}

#[test]
fn blank_habit_lines_give_nothing() {
    assert!(Habit::from_habitctl_line("", 9).is_none());
    assert!(Habit::from_habitctl_line("   \t  ", 9).is_none());
    assert!(Habit::from_habitctl_line("\u{a0}\u{3000}", 9).is_none());
}

#[test]
fn new_habits_get_version_4_identifiers() {
    let h = Habit::new(HabitType::Daily, "Walk".to_string(), u128::MAX);
    assert_eq!(h.uuid, 0xffff_ffff_ffff_4fff_bfff_ffff_ffff_ffff);
    assert_eq!((h.uuid >> 76) & 0xf, 4);
    assert_eq!((h.uuid >> 62) & 0x3, 2);
    assert_eq!(h.description, "Walk");
}

#[test]
fn lookup_by_uuid() {
    let habits = catalog();
    assert_eq!(Habit::from_uuid(&habits, 22).unwrap().description, "Clean house");
    assert!(Habit::from_uuid(&habits, 44).is_none());
    assert!(Habit::from_uuid(&[], 11).is_none());
}

#[test]
fn lookup_by_description_takes_the_first() {
    let habits = catalog();
    assert_eq!(Habit::from_description(&habits, &"Exercise".to_string()).unwrap().uuid, 11);
    assert_eq!(Habit::from_description(&habits, &"Clean house".to_string()).unwrap().uuid, 22);
    assert!(Habit::from_description(&habits, &"Meditate".to_string()).is_none());
}

#[test]
fn log_line_with_two_spaces_before_status() {
    let habits = catalog();
    let e = Entry::from_habitctl_line("2024-03-01 Exercise  y", &habits).unwrap().unwrap();
    assert_eq!(e.date, Date { year: 2024, month: 3, day: 1 });
    assert_eq!(e.habit, 11);
    assert_eq!(e.entry_status, EntryStatus::Completed);
}

#[test]
fn log_line_with_tabs() {
    let habits = catalog();
    let e = Entry::from_habitctl_line("2023-12-31\tClean house\ts\n", &habits).unwrap().unwrap();
    assert_eq!(e.date, Date { year: 2023, month: 12, day: 31 });
    assert_eq!(e.habit, 22);
    assert_eq!(e.entry_status, EntryStatus::Skipped);
}

#[test]
fn log_line_statuses() {
    let habits = catalog();
    let e = Entry::from_habitctl_line("2024-02-29 Exercise  n", &habits).unwrap().unwrap();
    assert_eq!(e.entry_status, EntryStatus::NotCompleted);
    assert_eq!(e.date, Date { year: 2024, month: 2, day: 29 });
    assert_eq!(Entry::from_habitctl_line("2024-02-29 Exercise  x", &habits), Ok(None));
}

#[test]
fn log_line_for_unknown_habit_gives_nothing() {
    let habits = catalog();
    assert_eq!(Entry::from_habitctl_line("2024-03-01 Meditate  y", &habits), Ok(None));
    assert_eq!(Entry::from_habitctl_line("2024-03-01 Exercise  y", &[]), Ok(None));
}

#[test]
fn log_line_with_malformed_date_is_an_error() {
    let habits = catalog();
    assert_eq!(Entry::from_habitctl_line("2024-13-01 Exercise  y", &habits), Err(MalformedDate));
    assert_eq!(Entry::from_habitctl_line("2023-02-29 Exercise  y", &habits), Err(MalformedDate));
    assert_eq!(Entry::from_habitctl_line("yesterday! Exercise  y", &habits), Err(MalformedDate));
    assert_eq!(Entry::from_habitctl_line("2024-03", &habits), Err(MalformedDate));
}

#[test]
fn log_line_too_short_for_status_gives_nothing() {
    let habits = catalog();
    assert_eq!(Entry::from_habitctl_line("2024-03-01", &habits), Ok(None));
    assert_eq!(Entry::from_habitctl_line("2024-03-01 y", &habits), Ok(None));
}

#[test]
fn blank_log_lines_give_nothing() {
    let habits = catalog();
    assert_eq!(Entry::from_habitctl_line("", &habits), Ok(None));
    assert_eq!(Entry::from_habitctl_line(" \t \r", &habits), Ok(None));
}

#[test]
fn fields_given_a_parsed_date() {
    let habits = catalog();
    let d = Date { year: 1999, month: 1, day: 2 };
    let e = Entry::from_habitctl_fields("anything!! Clean house  y", Some(d), &habits);
    assert_eq!(e, Ok(Some(Entry::new(d, 22, EntryStatus::Completed))));
    assert_eq!(
        Entry::from_habitctl_fields("2024-03-01 Clean house  y", None, &habits),
        Err(MalformedDate)
    );
}
