use focus_keeper::gate::{add_website_at, block_websites_at, remove_website_at, unblock_all_at};
use focus_keeper::hosts::{
    add_blocked_website, add_blocked_websites, clear_all_blocks, get_hosts_path,
    read_blocked_websites, remove_blocked_website,
};
use focus_keeper::lock::{LockError, LockState};

const MARK: &str = "# Focus Keeper Block";

fn entry(d: &str) -> String {
    format!("127.0.0.1 {} # {}", d, MARK)
}

#[test]
fn hosts_path_per_platform() {
    assert_eq!(get_hosts_path(false), "/etc/hosts");
    assert_eq!(get_hosts_path(true), r"C:\Windows\System32\drivers\etc\hosts");
}

#[test]
fn list_reads_marked_lines_and_blocks() {
    let content = format!(
        "127.0.0.1 localhost\n{}\n127.0.0.1 a.com\n# a comment\n127.0.0.1 b.com\n\n127.0.0.1 foreign.com\n{}\n",
        MARK,
        entry("c.com")
    );
    assert_eq!(read_blocked_websites(&content), vec!["a.com", "b.com", "c.com"]);
}

#[test]
fn list_of_text_without_marker_is_empty() {
    assert!(read_blocked_websites("127.0.0.1 localhost\n::1 localhost\n").is_empty());
    assert!(read_blocked_websites("").is_empty());
}

#[test]
fn list_accepts_crlf_and_tabs() {
    let content = format!("{}\r\n127.0.0.1\tx.org\r\n\r\n127.0.0.1 y.org\r\n", MARK);
    assert_eq!(read_blocked_websites(&content), vec!["x.org"]);
}

#[test]
fn add_appends_entry_after_newline() {
    let r = add_blocked_website("127.0.0.1 localhost", "x.com");
    assert_eq!(r, Some(format!("127.0.0.1 localhost\n{}\n", entry("x.com"))));
    let r = add_blocked_website("127.0.0.1 localhost\n", "x.com");
    assert_eq!(r, Some(format!("127.0.0.1 localhost\n{}\n", entry("x.com"))));
}

#[test]
fn add_to_empty_text() {
    assert_eq!(add_blocked_website("", "x.com"), Some(format!("\n{}\n", entry("x.com"))));
}

#[test]
fn add_twice_writes_nothing_the_second_time() {
    let first = add_blocked_website("127.0.0.1 localhost\n", "x.com").unwrap();
    assert_eq!(add_blocked_website(&first, "x.com"), None);
    assert_eq!(read_blocked_websites(&first), vec!["x.com"]);
}

#[test]
fn add_only_matches_exact_redirects() {
    let content = "127.0.0.1 x.com.evil\n";
    assert!(add_blocked_website(content, "x.com").is_some());
    assert_eq!(add_blocked_website("127.0.0.1   x.com\n", "x.com"), None);
}

#[test]
fn add_many_then_list_gives_the_set() {
    let domains = vec!["a.com".to_string(), "b.com".to_string(), "c.com".to_string()];
    let after = add_blocked_websites("127.0.0.1 localhost\n", &domains).unwrap();
    let mut listed = read_blocked_websites(&after);
    listed.sort();
    assert_eq!(listed, domains);
    let mut rev = domains.clone();
    rev.reverse();
    let after2 = add_blocked_websites("127.0.0.1 localhost\n", &rev).unwrap();
    let mut listed2 = read_blocked_websites(&after2);
    listed2.sort();
    assert_eq!(listed2, domains);
}

#[test]
fn add_many_skips_listed_domains() {
    let start = format!("{}\n", entry("a.com"));
    let domains = vec!["a.com".to_string(), "b.com".to_string()];
    let after = add_blocked_websites(&start, &domains).unwrap();
    assert_eq!(after, format!("{}\n{}\n", entry("a.com"), entry("b.com")));
    let all = vec!["a.com".to_string()];
    assert_eq!(add_blocked_websites(&start, &all), None);
    assert_eq!(add_blocked_websites(&start, &Vec::new()), None);
}

#[test]
fn remove_keeps_only_the_other_domain() {
    let c1 = add_blocked_website("127.0.0.1 localhost\n", "d1.com").unwrap();
    let c2 = add_blocked_website(&c1, "d2.com").unwrap();
    let c3 = remove_blocked_website(&c2, "d1.com");
    assert_eq!(read_blocked_websites(&c3), vec!["d2.com"]);
    assert_eq!(c3, format!("127.0.0.1 localhost\n{}\n", entry("d2.com")));
}

#[test]
fn remove_absent_domain_rewrites_same_lines() {
    let content = "127.0.0.1 localhost\n::1 localhost";
    assert_eq!(remove_blocked_website(content, "x.com"), "127.0.0.1 localhost\n::1 localhost\n");
}

#[test]
fn remove_last_line_leaves_one_newline() {
    assert_eq!(remove_blocked_website(&format!("{}\n", entry("x.com")), "x.com"), "\n");
}

#[test]
fn clear_keeps_foreign_lines_in_order() {
    let content = format!(
        "# header\n{}\n127.0.0.1 localhost\n{}\n10.0.0.1 nas\n",
        entry("a.com"),
        entry("b.com")
    );
    assert_eq!(clear_all_blocks(&content), "# header\n127.0.0.1 localhost\n10.0.0.1 nas\n");
    assert_eq!(clear_all_blocks(&format!("{}\n", entry("a.com"))), "\n");
}

#[test]
fn changes_are_refused_while_locked() {
    let mut lock = LockState::new();
    lock.set_password("abcd").unwrap();
    lock.lock_focus_at(10, 1_000).unwrap();
    let content = format!("127.0.0.1 localhost\n{}\n", entry("a.com"));
    let domains = vec!["b.com".to_string()];
    assert!(matches!(add_website_at(&lock, 1_000, &content, "b.com"), Err(LockError::LockedFailure)));
    assert!(matches!(remove_website_at(&lock, 1_000, &content, "a.com"), Err(LockError::LockedFailure)));
    assert!(matches!(unblock_all_at(&lock, 1_000, &content), Err(LockError::LockedFailure)));
    assert!(matches!(block_websites_at(&lock, 1_000, &content, &domains), Err(LockError::LockedFailure)));
    // once the window has passed, the same changes go through
    assert!(matches!(add_website_at(&lock, 1_600, &content, "b.com"), Ok(Some(_))));
    assert_eq!(unblock_all_at(&lock, 1_600, &content).ok(), Some("127.0.0.1 localhost\n".to_string()));
}

#[test]
fn add_many_writes_a_repeated_domain_once() {
    let domains = vec!["a.com".to_string(), "b.com".to_string(), "a.com".to_string()];
    let after = add_blocked_websites("127.0.0.1 localhost\n", &domains).unwrap();
    assert_eq!(after, format!("127.0.0.1 localhost\n{}\n{}\n", entry("a.com"), entry("b.com")));
    assert_eq!(read_blocked_websites(&after), vec!["a.com", "b.com"]);
}

#[test]
fn clearing_twice_equals_clearing_once() {
    for content in ["a\r", "a\r\r\n", "x\r\n127.0.0.1 a.com # # Focus Keeper Block\r\ny\r\n", ""] {
        let once = clear_all_blocks(content);
        assert_eq!(clear_all_blocks(&once), once);
    }
    assert_eq!(clear_all_blocks("a\r"), "a\r\n");
}

#[test]
fn crlf_foreign_lines_stay_byte_for_byte() {
    let content = format!("127.0.0.1 localhost\r\n{}\r\n::1 localhost\r\n", entry("a.com"));
    assert_eq!(clear_all_blocks(&content), "127.0.0.1 localhost\r\n::1 localhost\r\n");
    assert_eq!(remove_blocked_website(&content, "a.com"), "127.0.0.1 localhost\r\n::1 localhost\r\n");
}

#[test]
fn remove_matches_whole_domain_not_prefix() {
    let c1 = add_blocked_website("", "a.co").unwrap();
    let c2 = add_blocked_website(&c1, "a.com").unwrap();
    assert_eq!(read_blocked_websites(&remove_blocked_website(&c2, "a.co")), vec!["a.com"]);
    assert_eq!(read_blocked_websites(&remove_blocked_website(&c2, "a.com")), vec!["a.co"]);
}
