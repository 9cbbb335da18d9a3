use chrono::NaiveDateTime;
use simple_process_tracker_rs::background::{accrue_durations, apply_running_snapshot};
use simple_process_tracker_rs::commands::{
    Add, Change, Config as ConfigCmd, Duration, DurationCalculation, Move, MoveDirection,
};
use simple_process_tracker_rs::config::Config;
use simple_process_tracker_rs::legacy_process::{LegacyProcess, LegacyProcesses};
use simple_process_tracker_rs::process::{Process, Processes};
use simple_process_tracker_rs::user_commands::{
    add_new_process, change_config, change_duration, change_process, get_processes,
    get_settings, import_legacy_processes, import_message, import_processes, move_process,
    remove_processes, set_exit_flag,
};

fn date(text: &str) -> NaiveDateTime {
    NaiveDateTime::parse_from_str(text, "%Y/%m/%d %H:%M:%S").unwrap()
}

fn process(name: &str, running: bool, tracking: bool, duration: u64) -> Process {
    Process {
        is_running: running,
        is_tracked: tracking,
        icon: String::new(),
        name: name.to_string(),
        duration,
        notes: String::new(),
        last_seen_date: date("2020/01/01 00:00:00"),
        added_date: date("2020/01/01 00:00:00"),
    }
}

fn registry(names: &[&str]) -> Processes {
    Processes(names.iter().map(|n| process(n, false, true, 0)).collect())
}

fn names(p: &Processes) -> Vec<String> {
    p.0.iter().map(|p| p.name.clone()).collect()
}

fn add_cmd(name: &str) -> Add {
    Add { name: name.to_string(), icon: None, duration: None, notes: None, added_date: None }
}

#[test]
fn add_appends_a_tracked_process() {
    let mut reg = registry(&["a"]);
    let cmd = Add {
        name: "b".to_string(),
        icon: Some("b.png".to_string()),
        duration: Some("01:00:01".to_string()),
        notes: Some("hi".to_string()),
        added_date: Some("2021/02/03 04:05:06".to_string()),
    };
    assert_eq!(add_new_process(cmd, &mut reg).unwrap(), "added b");
    assert_eq!(names(&reg), vec!["a", "b"]);
    let p = &reg.0[1];
    assert!(!p.is_running && p.is_tracked);
    assert_eq!(p.icon, "b.png");
    assert_eq!(p.duration, 3601);
    assert_eq!(p.notes, "hi");
    assert_eq!(p.added_date, date("2021/02/03 04:05:06"));
    assert_eq!(p.last_seen_date, NaiveDateTime::default());
}

#[test]
fn add_of_a_tracked_name_is_refused() {
    let mut reg = registry(&["a", "b"]);
    assert_eq!(
        add_new_process(add_cmd("b"), &mut reg).unwrap_err(),
        "process b is already tracked"
    );
    assert_eq!(names(&reg), vec!["a", "b"]);
    assert_eq!(reg.0.len(), 2);
}

#[test]
fn add_with_bad_fields_is_refused() {
    let mut reg = registry(&["a"]);
    let mut cmd = add_cmd("b");
    cmd.duration = Some("12".to_string());
    assert_eq!(add_new_process(cmd, &mut reg).unwrap_err(), "invalid duration input");
    let mut cmd = add_cmd("b");
    cmd.added_date = Some("yesterday".to_string());
    assert!(add_new_process(cmd, &mut reg)
        .unwrap_err()
        .starts_with("invalid date time yesterday -> "));
    assert_eq!(names(&reg), vec!["a"]);
}

#[test]
fn remove_checks_the_id() {
    let mut empty = Processes::new();
    assert_eq!(remove_processes(0, &mut empty).unwrap_err(), "no processes to remove");
    let mut reg = registry(&["a", "b", "c"]);
    assert_eq!(remove_processes(3, &mut reg).unwrap_err(), "no process with id 3");
    assert_eq!(remove_processes(1, &mut reg).unwrap(), "removed b");
    assert_eq!(names(&reg), vec!["a", "c"]);
}

#[test]
fn config_changes_only_given_intervals() {
    let mut config = Config::default();
    let cmd = ConfigCmd { poll_interval: None, duration_update_interval: Some(2), autosave_interval: None };
    assert_eq!(change_config(cmd, &mut config).unwrap(), "changed config");
    assert_eq!(config, Config { poll_interval: 15, duration_update_interval: 2, autosave_interval: 300 });
    assert_eq!(get_settings(&config), config);
}

#[test]
fn config_validation_applies_minimums() {
    assert!(Config::default().validate().is_ok());
    let low = Config { poll_interval: 9, duration_update_interval: 10, autosave_interval: 300 };
    assert_eq!(low.validate().unwrap_err(), "invalid config interval");
    let low = Config { poll_interval: 10, duration_update_interval: 0, autosave_interval: 300 };
    assert!(low.validate().is_err());
    let low = Config { poll_interval: 10, duration_update_interval: 1, autosave_interval: 59 };
    assert!(low.validate().is_err());
    let edge = Config { poll_interval: 10, duration_update_interval: 1, autosave_interval: 60 };
    assert_eq!(edge.validate().unwrap(), edge);
}

#[test]
fn change_sets_given_fields() {
    let mut reg = registry(&["a", "b"]);
    let cmd = Change {
        id: 1,
        tracking: Some(false),
        icon: Some("i".to_string()),
        duration: Some("00:01:00".to_string()),
        notes: None,
        added_date: Some("2022/01/01 10:00:00".to_string()),
    };
    assert_eq!(change_process(cmd, &mut reg).unwrap(), "changed b");
    let p = &reg.0[1];
    assert!(!p.is_tracked);
    assert_eq!(p.icon, "i");
    assert_eq!(p.duration, 60);
    assert_eq!(p.notes, "");
    assert_eq!(p.added_date, date("2022/01/01 10:00:00"));
}

#[test]
fn change_is_refused_whole() {
    let mut reg = registry(&["a"]);
    let cmd = Change { id: 4, tracking: None, icon: None, duration: None, notes: None, added_date: None };
    assert_eq!(change_process(cmd, &mut reg).unwrap_err(), "invalid ID 4");
    let cmd = Change {
        id: 0,
        tracking: Some(false),
        icon: None,
        duration: Some("x:y:z".to_string()),
        notes: None,
        added_date: None,
    };
    assert_eq!(
        change_process(cmd, &mut reg).unwrap_err(),
        "invalid duration x:y:z -> invalid digit found in string"
    );
    assert!(reg.0[0].is_tracked);
}

#[test]
fn duration_changes_saturate() {
    let mut reg = Processes(vec![process("a", false, true, 10), process("b", false, true, u64::MAX - 5)]);
    let sub = Duration { id: 0, operation: DurationCalculation::Subtract { seconds: 25 } };
    assert_eq!(change_duration(sub, &mut reg).unwrap(), "subtracted 25 seconds for a");
    assert_eq!(reg.0[0].duration, 0);
    let add = Duration { id: 1, operation: DurationCalculation::Add { seconds: 100 } };
    assert_eq!(change_duration(add, &mut reg).unwrap(), "added 100 seconds for b");
    assert_eq!(reg.0[1].duration, u64::MAX);
    let add = Duration { id: 0, operation: DurationCalculation::Add { seconds: 7 } };
    change_duration(add, &mut reg).unwrap();
    assert_eq!(reg.0[0].duration, 7);
    let bad = Duration { id: 2, operation: DurationCalculation::Add { seconds: 1 } };
    assert_eq!(change_duration(bad, &mut reg).unwrap_err(), "invalid ID 2");
}

#[test]
fn move_past_either_end_is_refused() {
    let mut reg = registry(&["a", "b", "c"]);
    let up = Move { id: 0, direction: MoveDirection::Up };
    assert_eq!(move_process(up, &mut reg).unwrap_err(), "a already at top");
    let top = Move { id: 0, direction: MoveDirection::Top };
    assert_eq!(move_process(top, &mut reg).unwrap_err(), "a already at top");
    let down = Move { id: 2, direction: MoveDirection::Down };
    assert_eq!(move_process(down, &mut reg).unwrap_err(), "c already at bottom");
    let bottom = Move { id: 2, direction: MoveDirection::Bottom };
    assert_eq!(move_process(bottom, &mut reg).unwrap_err(), "c already at bottom");
    assert_eq!(names(&reg), vec!["a", "b", "c"]);
}

#[test]
fn move_reorders_the_registry() {
    let mut reg = registry(&["a", "b", "c", "d"]);
    assert_eq!(move_process(Move { id: 2, direction: MoveDirection::Up }, &mut reg).unwrap(), "moved c");
    assert_eq!(names(&reg), vec!["a", "c", "b", "d"]);
    move_process(Move { id: 1, direction: MoveDirection::Down }, &mut reg).unwrap();
    assert_eq!(names(&reg), vec!["a", "b", "c", "d"]);
    move_process(Move { id: 3, direction: MoveDirection::Top }, &mut reg).unwrap();
    assert_eq!(names(&reg), vec!["d", "a", "b", "c"]);
    move_process(Move { id: 0, direction: MoveDirection::Bottom }, &mut reg).unwrap();
    assert_eq!(names(&reg), vec!["a", "b", "c", "d"]);
}

#[test]
fn move_checks_the_registry_size() {
    let mut empty = Processes::new();
    assert_eq!(
        move_process(Move { id: 0, direction: MoveDirection::Up }, &mut empty).unwrap_err(),
        "no processes to move"
    );
    let mut one = registry(&["a"]);
    assert_eq!(
        move_process(Move { id: 0, direction: MoveDirection::Down }, &mut one).unwrap_err(),
        "cannot move only one process"
    );
    let mut two = registry(&["a", "b"]);
    assert_eq!(
        move_process(Move { id: 5, direction: MoveDirection::Down }, &mut two).unwrap_err(),
        "no process with id 5"
    );
}

#[test]
fn accrual_adds_only_to_running_tracked_processes() {
    let mut reg = Processes(vec![process("a", true, true, 10)]);
    accrue_durations(&mut reg, 5);
    assert_eq!(reg.0[0].duration, 15);
    let mut reg = Processes(vec![process("a", true, false, 10)]);
    accrue_durations(&mut reg, 5);
    assert_eq!(reg.0[0].duration, 10);
    let mut reg = Processes(vec![process("a", false, true, 10), process("b", true, true, u64::MAX - 1)]);
    accrue_durations(&mut reg, 5);
    assert_eq!(reg.0[0].duration, 10);
    assert_eq!(reg.0[1].duration, u64::MAX);
}

#[test]
fn scan_marks_running_tracked_processes() {
    let mut reg = Processes(vec![
        process("a", false, true, 0),
        process("b", true, false, 0),
        process("c", true, true, 0),
    ]);
    let now = date("2024/06/01 12:00:00");
    apply_running_snapshot(&mut reg, &vec!["a".to_string(), "b".to_string()], now);
    assert!(reg.0[0].is_running);
    assert_eq!(reg.0[0].last_seen_date, now);
    assert!(!reg.0[1].is_running);
    assert_eq!(reg.0[1].last_seen_date, date("2020/01/01 00:00:00"));
    assert!(!reg.0[2].is_running);
}

#[test]
fn show_selects_by_id_expression() {
    let reg = registry(&["a", "b", "c", "d"]);
    let all = get_processes(None, &reg).unwrap();
    assert_eq!(all.iter().map(|(i, p)| (*i, p.name.clone())).collect::<Vec<_>>(),
        vec![(0, "a".to_string()), (1, "b".to_string()), (2, "c".to_string()), (3, "d".to_string())]);
    let some = get_processes(Some("3,1-1,7-9".to_string()), &reg).unwrap();
    assert_eq!(some.iter().map(|(i, p)| (*i, p.name.clone())).collect::<Vec<_>>(),
        vec![(1, "b".to_string()), (3, "d".to_string())]);
    assert_eq!(get_processes(Some("a-b".to_string()), &reg).unwrap_err(), "invalid range a-b -> invalid digit found in string");
}

#[test]
fn import_reports_added_and_tracked_names() {
    let mut reg = Processes(vec![process("a", false, true, 1)]);
    let incoming = Processes(vec![process("a", true, true, 50), process("b", true, false, 7)]);
    let message = import_processes(incoming, &mut reg);
    assert_eq!(message, "added [\"b\"], already tracked [\"a\"]");
    assert_eq!(names(&reg), vec!["a", "b"]);
    assert_eq!(reg.0[0].duration, 1);
    assert!(!reg.0[1].is_running);
    assert_eq!(reg.0[1].duration, 7);
    assert!(!reg.0[1].is_tracked);
}

#[test]
fn import_skips_repeated_names_in_one_file() {
    let mut reg = Processes::new();
    let incoming = Processes(vec![process("x", false, true, 1), process("x", false, true, 2)]);
    assert_eq!(import_processes(incoming, &mut reg), "added [\"x\"], already tracked [\"x\"]");
    assert_eq!(reg.0.len(), 1);
    assert_eq!(reg.0[0].duration, 1);
    let mut reg = Processes::new();
    assert_eq!(import_processes(Processes::new(), &mut reg), "added []");
}

#[test]
fn import_message_shows_both_lists() {
    assert_eq!(import_message("[]", None), "added []");
    assert_eq!(import_message("[\"a\"]", Some("[\"b\"]")), "added [\"a\"], already tracked [\"b\"]");
}

fn legacy(last_seen: &str, tracking: bool) -> LegacyProcess {
    LegacyProcess {
        date_added: "2019/01/02 03:04:05".to_string(),
        duration: 42,
        icon_path: "icon.png".to_string(),
        last_seen: last_seen.to_string(),
        notes: "n".to_string(),
        tracking,
    }
}

#[test]
fn legacy_import_never_marks_running() {
    let mut reg = registry(&["old"]);
    let incoming = LegacyProcesses(vec![
        ("new".to_string(), legacy("2024/01/01 00:00:00", true)),
        ("old".to_string(), legacy("2024/01/01 00:00:00", true)),
    ]);
    let message = import_legacy_processes(incoming, &mut reg).unwrap();
    assert_eq!(message, "added [\"new\"], already tracked [\"old\"]");
    assert_eq!(names(&reg), vec!["old", "new"]);
    let p = &reg.0[1];
    assert!(!p.is_running);
    assert!(p.is_tracked);
    assert_eq!(p.duration, 42);
    assert_eq!(p.icon, "icon.png");
    assert_eq!(p.notes, "n");
    assert_eq!(p.last_seen_date, date("2024/01/01 00:00:00"));
    assert_eq!(p.added_date, date("2019/01/02 03:04:05"));
}

#[test]
fn legacy_import_with_bad_timestamp_is_refused() {
    let mut reg = registry(&["a"]);
    let incoming = LegacyProcesses(vec![
        ("b".to_string(), legacy("2024/01/01 00:00:00", true)),
        ("c".to_string(), legacy("not a date", false)),
    ]);
    assert!(import_legacy_processes(incoming, &mut reg)
        .unwrap_err()
        .starts_with("invalid date time not a date -> "));
    assert_eq!(names(&reg), vec!["a"]);
}

#[test]
fn registry_lookups() {
    let reg = registry(&["a", "b"]);
    assert!(reg.contains_process("b"));
    assert!(!reg.contains_process("c"));
    assert!(!reg.has_duplicates());
    assert!(registry(&["a", "b", "a"]).has_duplicates());
    assert!(!Processes::new().has_duplicates());
}

#[test]
fn quit_raises_the_exit_flag() {
    let mut flag = false;
    assert_eq!(set_exit_flag(&mut flag).unwrap(), "stopping server");
    assert!(flag);
}
