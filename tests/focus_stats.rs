use focus_keeper::focus::{get_elapsed_seconds, is_focus_running, is_strict_mode, FocusSession};
use focus_keeper::stats::{format_duration, StatsData};

#[test]
fn durations_in_text() {
    assert_eq!(format_duration(0), "0s");
    assert_eq!(format_duration(59), "59s");
    assert_eq!(format_duration(61), "1m 1s");
    assert_eq!(format_duration(3600), "1h 0m 0s");
    assert_eq!(format_duration(3661), "1h 1m 1s");
    assert_eq!(format_duration(90061), "25h 1m 1s");
}

#[test]
fn session_runs_to_completion() {
    let mut s = FocusSession::new();
    assert_eq!(s.target, 1500);
    let st = s.start_focus(1, true);
    assert!(st.is_running && st.elapsed == 0 && st.target == 60 && st.is_strict_mode);
    assert!(is_focus_running(&s) && is_strict_mode(&s));
    for _ in 0..59 {
        let t = s.tick();
        assert!(t.tick.is_some() && t.complete.is_none());
    }
    assert_eq!(get_elapsed_seconds(&s), 59);
    let t = s.tick();
    assert_eq!(t.complete.map(|c| c.duration), Some(60));
    assert!(!s.running);
    let t = s.tick();
    assert!(t.tick.is_none() && t.complete.is_none());
}

#[test]
fn session_pause_resume_stop() {
    let mut s = FocusSession::new();
    s.start_focus(2, false);
    s.tick();
    let again = s.start_focus(5, true);
    assert_eq!((again.elapsed, again.target), (1, 120));
    let p = s.pause_focus();
    assert!(!p.is_running && p.elapsed == 1);
    assert!(s.tick().tick.is_none());
    let r = s.resume_focus();
    assert!(r.is_running && r.elapsed == 1 && r.is_strict_mode);
    let st = s.stop_focus();
    assert_eq!(st.elapsed, 1);
    assert_eq!(s.elapsed, 0);
    let g = s.get_focus_state();
    assert!(!g.is_running && g.target == 120);
}

#[test]
fn resume_after_target_starts_over() {
    let mut s = FocusSession::new();
    s.start_focus(0, true);
    let t = s.tick();
    assert_eq!(t.complete.map(|c| c.duration), Some(1));
    let r = s.resume_focus();
    assert_eq!(r.elapsed, 0);
}

#[test]
fn stats_counters_and_day_change() {
    let mut d = StatsData::fresh("2024-05-01");
    d.add_focus_time(300);
    d.add_block(true);
    d.add_block(false);
    assert_eq!(d.today.focus_duration_seconds, 300);
    assert_eq!(d.total_focus_seconds, 300);
    assert_eq!((d.today.block_count, d.today.websites_blocked, d.today.apps_blocked), (2, 1, 1));
    assert_eq!(d.total_blocks, 2);
    let same = d.current_or_fresh("2024-05-01");
    assert_eq!(same.today.block_count, 2);
    let next = same.current_or_fresh("2024-05-02");
    assert_eq!(next.today.date, "2024-05-02");
    assert_eq!(next.today.block_count, 0);
    assert_eq!(next.total_blocks, 0);
}
