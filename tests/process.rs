use focus_keeper::process::{
    count_confirmed, find_processes_by_name, get_process_count, is_app_running, kill_process,
    kill_processes_by_name, matches_folded, select_matching, get_all_running_processes, ProcessInfo,
};
use sysinfo::{System, SystemExt};

fn info(name: &str, pid: u32) -> ProcessInfo {
    ProcessInfo { name: name.to_string(), pid, exe: None }
}

#[test]
fn folded_match_is_substring() {
    assert!(matches_folded("chrome.exe", "chrome"));
    assert!(matches_folded("chrome", "chrome"));
    assert!(!matches_folded("chrom", "chrome"));
    assert!(matches_folded("anything", ""));
}

#[test]
fn selection_ignores_case_and_keeps_order() {
    let procs = vec![info("Chrome.exe", 10), info("bash", 11), info("chrome_helper", 12), info("CHROME", 13)];
    let found: Vec<u32> = select_matching(&procs, "chrome").iter().map(|p| p.pid).collect();
    assert_eq!(found, vec![10, 12, 13]);
    let found: Vec<u32> = select_matching(&procs, "CHROME").iter().map(|p| p.pid).collect();
    assert_eq!(found, vec![10, 12, 13]);
    assert!(select_matching(&procs, "firefox").is_empty());
}

#[test]
fn confirmed_count_counts_successes_only() {
    assert_eq!(count_confirmed(&vec![true, false, true, false]), 2);
    assert_eq!(count_confirmed(&Vec::new()), 0);
}

#[test]
fn sweep_over_missing_processes_counts_nothing() {
    let sys = System::new();
    assert_eq!(get_process_count(&sys), 0);
    assert!(!kill_process(&sys, 4_000_000));
    assert_eq!(kill_processes_by_name(&sys, "no-such-program"), 0);
    assert!(find_processes_by_name(&sys, "no-such-program").is_empty());
    assert!(!is_app_running(&sys, "no-such-program"));
}

#[test]
fn snapshot_lists_every_process_once() {
    let mut sys = System::new();
    sys.refresh_processes();
    let all = get_all_running_processes(&sys);
    assert_eq!(all.len(), get_process_count(&sys));
    assert!(!all.is_empty());
    let first = &all[0];
    assert!(is_app_running(&sys, &first.name.to_uppercase()));
    assert!(find_processes_by_name(&sys, &first.name).iter().any(|p| p.pid == first.pid));
}
