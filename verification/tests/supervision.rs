use fastmc::monitor::{heap_usage, rss_kib, stat_has_ticks, stat_ticks, tick_delta};
use fastmc::notes::{KeyEffect, NotesEditor};
use fastmc::supervisor::{
    clean_exit_log, crash_log, exit_log, give_up_log, Supervisor, SupervisorAction, MAX_CRASHES,
    WINDOW_SECS,
};

#[test]
fn the_window_and_limit() {
    assert_eq!(MAX_CRASHES, 3);
    assert_eq!(WINDOW_SECS, 600);
}

#[test]
fn a_stop_flag_ends_before_starting() {
    let s = Supervisor::new();
    assert_eq!(s.before_start(true), SupervisorAction::Stop);
    assert_eq!(s.before_start(false), SupervisorAction::Start);
}

#[test]
fn a_clean_exit_ends_supervision() {
    let mut s = Supervisor::new();
    assert_eq!(s.after_exit(0, false, 1000), SupervisorAction::CleanExit);
    assert_eq!(s.after_exit(1, true, 1000), SupervisorAction::Stop);
}

#[test]
fn three_crashes_within_ten_minutes_give_up() {
    let mut s = Supervisor::new();
    assert_eq!(s.after_exit(1, false, 1000), SupervisorAction::Restart);
    assert_eq!(s.after_exit(137, false, 1100), SupervisorAction::Restart);
    assert_eq!(s.after_exit(-1, false, 1599), SupervisorAction::GiveUp);
}

#[test]
fn crashes_older_than_the_window_are_forgotten() {
    let mut s = Supervisor::new();
    assert_eq!(s.after_exit(1, false, 0), SupervisorAction::Restart);
    assert_eq!(s.after_exit(1, false, 300), SupervisorAction::Restart);
    assert_eq!(s.after_exit(1, false, 600), SupervisorAction::Restart);
    assert_eq!(s.after_exit(1, false, 1200), SupervisorAction::Restart);
    assert_eq!(s.after_exit(1, false, 1300), SupervisorAction::Restart);
    assert_eq!(s.after_exit(1, false, 1400), SupervisorAction::GiveUp);
}

#[test]
fn clean_exits_and_stops_do_not_count_as_crashes() {
    let mut s = Supervisor::new();
    assert_eq!(s.after_exit(1, false, 10), SupervisorAction::Restart);
    assert_eq!(s.after_exit(1, true, 20), SupervisorAction::Stop);
    assert_eq!(s.after_exit(0, false, 30), SupervisorAction::CleanExit);
    assert_eq!(s.after_exit(1, false, 40), SupervisorAction::Restart);
    assert_eq!(s.after_exit(1, false, 50), SupervisorAction::GiveUp);
}

#[test]
fn log_lines_have_the_expected_text() {
    let stamp = "2024-05-01 10:20:30";
    assert_eq!(
        clean_exit_log(stamp, "lobby", 42),
        format!("{}  CLEAN EXIT for {} (exit 0, ran {}s)\n", stamp, "lobby", 42)
    );
    assert_eq!(
        crash_log(stamp, "2024-05-01 10:20:31", "lobby", -3, -9),
        format!("{}  CRASH: {}\n{}  Ran for: {}s  |  Exit code: {}\n", stamp, "lobby", "2024-05-01 10:20:31", -3, -9)
    );
    assert_eq!(
        give_up_log(stamp, stamp, "lobby"),
        format!(
            "{}  TOO MANY CRASHES — {} in {} min. Giving up.\n{}  Manual intervention required for: {}\n",
            stamp, 3, 600 / 60, stamp, "lobby"
        )
    );
    assert_eq!(
        crash_log("s", "t", "n", i64::MIN, i32::MIN),
        format!("s  CRASH: n\nt  Ran for: {}s  |  Exit code: {}\n", i64::MIN, i32::MIN)
    );
}

#[test]
fn notes_take_printable_keys_and_backspace() {
    let mut e = NotesEditor::new("ab");
    assert_eq!(e.key(b'c'), KeyEffect::Echo('c'));
    assert_eq!(e.contents(), "abc");
    assert_eq!(e.key(127), KeyEffect::Erase);
    assert_eq!(e.key(8), KeyEffect::Erase);
    assert_eq!(e.contents(), "a");
    assert_eq!(e.key(b'\n'), KeyEffect::Ignore);
    assert_eq!(e.key(200), KeyEffect::Ignore);
    assert_eq!(e.key(4), KeyEffect::Finish);
    assert_eq!(e.contents(), "a");
    assert_eq!(e.key(127), KeyEffect::Erase);
    assert_eq!(e.key(127), KeyEffect::Ignore);
    assert_eq!(e.contents(), "");
}

#[test]
fn typing_then_erasing_restores_the_notes() {
    for initial in ["", "x", "héllo"] {
        for b in 32u8..127 {
            let mut e = NotesEditor::new(initial);
            e.key(b);
            e.key(127);
            assert_eq!(e.contents(), initial);
        }
    }
}

#[test]
fn erasing_removes_a_whole_character() {
    let mut e = NotesEditor::new("añ");
    assert_eq!(e.key(127), KeyEffect::Erase);
    assert_eq!(e.contents(), "a");
}

#[test]
fn cpu_ticks_come_from_fields_14_and_15() {
    let stat = "1234 (java) S 1 1234 1234 0 -1 4194560 100 0 0 0 250 75 0 0 20 0 30 0";
    assert!(stat_has_ticks(stat));
    assert_eq!(stat_ticks(stat), 325);
    assert!(!stat_has_ticks("1 2 3"));
    assert_eq!(stat_ticks("1 2 3"), 0);
    let partial = "a b c d e f g h i j k l m 17";
    assert!(!stat_has_ticks(partial));
    assert_eq!(stat_ticks(partial), 17);
    let bad = "a b c d e f g h i j k l m x 5";
    assert_eq!(stat_ticks(bad), 5);
    let big = "a b c d e f g h i j k l m 18446744073709551615 2";
    assert_eq!(stat_ticks(big), 1);
}

#[test]
fn tick_deltas_saturate() {
    assert_eq!(tick_delta(None, 50), None);
    assert_eq!(tick_delta(Some(20), 50), Some(30));
    assert_eq!(tick_delta(Some(80), 50), Some(0));
}

#[test]
fn resident_size_and_heap_share() {
    assert_eq!(rss_kib("  204800\n"), 204800);
    assert_eq!(rss_kib(""), 0);
    assert_eq!(rss_kib("n/a"), 0);
    assert_eq!(heap_usage(2 * 1024 * 1024, 4096), (2048, 50));
    assert_eq!(heap_usage(1023, 4096), (0, 0));
    assert_eq!(heap_usage(5 * 1024 * 1024, 0), (5120, 0));
    let max = u64::MAX;
    assert_eq!(heap_usage(max, 1), (max / 1024, (max / 1024) * 100));
}

#[test]
fn after_giving_up_the_supervisor_waits_for_the_stop_flag() {
    let mut s = Supervisor::new();
    assert_eq!(s.after_exit(1, false, 10), SupervisorAction::Restart);
    assert_eq!(s.before_start(false), SupervisorAction::Start);
    assert_eq!(s.after_exit(1, false, 20), SupervisorAction::Restart);
    assert_eq!(s.after_exit(1, false, 30), SupervisorAction::GiveUp);
    assert_eq!(s.before_start(false), SupervisorAction::Wait);
    assert_eq!(s.before_start(false), SupervisorAction::Wait);
    assert_eq!(s.before_start(true), SupervisorAction::Stop);
}

#[test]
fn each_exit_writes_its_log_entries() {
    let st = "2024-05-01 10:20:30";
    assert_eq!(exit_log(SupervisorAction::CleanExit, st, st, "lobby", 5, 0), vec![clean_exit_log(st, "lobby", 5)]);
    assert_eq!(exit_log(SupervisorAction::Restart, st, st, "lobby", 5, 1), vec![crash_log(st, st, "lobby", 5, 1)]);
    assert_eq!(
        exit_log(SupervisorAction::GiveUp, st, st, "lobby", 5, 1),
        vec![crash_log(st, st, "lobby", 5, 1), give_up_log(st, st, "lobby")]
    );
    assert!(exit_log(SupervisorAction::Stop, st, st, "lobby", 5, 1).is_empty());
}
