use tagami::activity::{activity_file_name, aggregate_activity, Sampler};
use tagami::autostart::{autostart_message, launcher_bytes};
use tagami::logs::{log_file_name, log_line, read_recent_logs, recent_log_files};
use tagami::report::{automation_prompt, no_activity_log, shared_report_name, shared_report_text};

fn names(list: &[&str]) -> Vec<String> {
    list.iter().map(|s| s.to_string()).collect()
}

#[test]
fn changes_are_logged() {
    let mut s = Sampler::new();
    assert_eq!(
        s.sample(0, "2026-06-19", "10:00:00", 1000, "code.exe", "a\tb \n c"),
        Some("1000\t2026-06-19 10:00:00\tcode.exe\ta b c\n".to_string())
    );
    assert_eq!(s.sample(10, "d", "t", 1010, "code.exe", "a b c"), None);
    assert_eq!(
        s.sample(0, "d", "t", 1020, "slack.exe", "x"),
        Some("1020\td t\tslack.exe\tx\n".to_string())
    );
    assert_eq!(s.sample(0, "d", "t", 1030, "", "no program"), None);
    assert_eq!(s.last_write, 1020);
}

#[test]
fn a_heartbeat_is_logged() {
    let mut s = Sampler::new();
    assert!(s.sample(0, "d", "t", 1000, "a", "w").is_some());
    assert!(s.sample(0, "d", "t", 1299, "a", "w").is_none());
    assert!(s.sample(0, "d", "t", 1300, "a", "w").is_some());
    assert!(s.sample(0, "d", "t", 900, "a", "w").is_none());
}

#[test]
fn idle_time_is_logged_as_such() {
    let mut s = Sampler::new();
    assert_eq!(s.sample(151, "d", "t", 5, "a", "w"), Some("5\td t\t(idle)\t\n".to_string()));
    assert_eq!(s.sample(150, "d", "t", 6, "a", "w"), Some("6\td t\ta\tw\n".to_string()));
    let long = s.sample(0, "d", "t", 7, "a", &"x".repeat(200)).unwrap();
    assert_eq!(long, format!("7\td t\ta\t{}\n", "x".repeat(120)));
}

#[test]
fn a_day_is_reported() {
    let log = "1000\td t\tcode.exe\tmain.rs\n1100\td t\tslack.exe\tgeneral\n1160\td t\t(idle)\t\n9000\td t\tcode.exe\tlib.rs\n9060\td t\tcode.exe\tmain.rs\nbroken line\n0\td t\tzero\tx\n12000\td t\tcode.exe\tend\n";
    assert_eq!(
        aggregate_activity(log, "田上", "2026-06-19"),
        "== 2026-06-19 作業レポート（田上） ==\nアクティブ合計: 0h08m\n\n[アプリ別]\n  0h07m    code.exe\n  0h01m    slack.exe\n\n[上位の作業 アプリ｜ウィンドウ]\n  0h06m    code.exe | main.rs\n  0h01m    slack.exe | general\n  0h01m    code.exe | lib.rs\n"
    );
}

#[test]
fn long_reports_are_cut() {
    let mut log = String::new();
    for i in 0..60u64 {
        log.push_str(&format!("{}\td t\tapp{:02}\t{}\n", 1000 + i * i, i, "w".repeat(100)));
    }
    let r = aggregate_activity(&log, "p", "d");
    let lines: Vec<&str> = r.lines().collect();
    assert_eq!(lines.len(), 4 + 15 + 2 + 25);
    assert_eq!(lines[4], "  0h01m    app58");
    assert_eq!(lines[21].chars().count(), 11 + 80);
}

#[test]
fn gaps_count_only_so_much() {
    let log = "1\td t\ta\tw\n100000\td t\tb\tw\n50\td t\tc\tw\n";
    let r = aggregate_activity(log, "p", "d");
    assert!(r.contains("アクティブ合計: 0h05m\n"));
    assert!(r.contains("  0h05m    a\n"));
    assert!(r.contains("  0h00m    b\n"));
}

#[test]
fn times_add_up() {
    let mut log = String::new();
    let mut t = 100u64;
    for i in 0..12u64 {
        log.push_str(&format!("{}\td t\tapp{}\tw{}\n", t, i % 3, i % 4));
        t += 60 * (1 + i % 4);
    }
    let r = aggregate_activity(&log, "p", "d");
    let minutes = |l: &str| -> u64 { l.trim()[2..4].parse().unwrap() };
    let apps: u64 = r.lines().filter(|l| l.contains("m    app") && !l.contains('|')).map(minutes).sum();
    let windows: u64 = r.lines().filter(|l| l.contains('|') && l.contains("app")).map(minutes).sum();
    assert_eq!(apps, 26);
    assert_eq!(windows, 26);
    assert!(r.contains("アクティブ合計: 0h26m"));
}

#[test]
fn too_little_to_report() {
    assert_eq!(
        aggregate_activity("5\td t\ta\tb\n", "p", "2026-01-01"),
        "2026-01-01 の記録が少なすぎます（1件）。しばらく記録してから見てください。"
    );
    assert_eq!(
        aggregate_activity("", "p", "d"),
        "d の記録が少なすぎます（0件）。しばらく記録してから見てください。"
    );
}

#[test]
fn a_logged_line_is_read() {
    let mut s = Sampler::new();
    let mut log = String::new();
    for (epoch, app) in [(1000, "one"), (1060, "two"), (1120, "three")] {
        log.push_str(&s.sample(0, "2026-06-19", "10:00:00", epoch, app, "title\twith tab").unwrap());
    }
    let r = aggregate_activity(&log, "p", "d");
    assert!(r.contains("  0h01m    one\n") && r.contains("  0h01m    two\n"));
    assert!(r.contains("one | title with tab\n"));
}

#[test]
fn log_lines() {
    assert_eq!(
        log_line("2026-06-19", "10:00:00", "WARN", "a\r\nb\nc"),
        "2026-06-19 10:00:00 [WARN] a  b c\n"
    );
    assert_eq!(log_line("d", "t", "INFO", "x").matches('\n').count(), 1);
}

#[test]
fn the_newest_logs() {
    let list = names(&["2026-06-18.log", "notes.txt", "2026-06-20.log", ".log", "2026-06-19.log"]);
    assert_eq!(recent_log_files(&list), vec!["2026-06-19.log", "2026-06-20.log"]);
    assert_eq!(recent_log_files(&names(&["a.log"])), vec!["a.log"]);
    assert_eq!(recent_log_files(&names(&["a.LOG", "b.logs"])), Vec::<String>::new());
}

#[test]
fn the_last_lines_are_shown() {
    let files = names(&["a\nb\n", "c\r\nd"]);
    assert_eq!(read_recent_logs(&files, 400), "a\nb\nc\nd");
    assert_eq!(read_recent_logs(&files, 3), "b\nc\nd");
    assert_eq!(read_recent_logs(&Vec::new(), 3), "（まだログはありません）");
    assert_eq!(read_recent_logs(&files, 0), "（まだログはありません）");
}

#[test]
fn shared_reports() {
    assert_eq!(shared_report_text("b", None), "b");
    assert_eq!(
        shared_report_text("b", Some("x")),
        "b\n\n== 自動化できそうな作業（Copilot提案） ==\nx"
    );
    assert_eq!(shared_report_name("2026-06-19"), "2026-06-19 作業レポート.txt");
    assert_eq!(
        no_activity_log("/x/d.tsv"),
        "活動ログがありません: /x/d.tsv（まず記録を溜めてください）"
    );
}

#[test]
fn the_prompt_for_automation() {
    assert_eq!(
        automation_prompt("田上", "R"),
        "以下は『田上』のPC作業ログの集計です。ここから、繰り返し・定型で\u{201c}自動化できそうな作業\u{201d}を重要な順に箇条書きで挙げてください。各項目は『作業内容 → 自動化の方針』の形で1〜2行にし、推測しすぎず、どのアプリ/ウィンドウから読み取れるかの根拠も短く添えてください。\n\nR"
    );
}

#[test]
fn the_launcher_survives() {
    let exe = "C:\\ツール\\𠮷\\tagami.exe";
    let bytes = launcher_bytes(exe);
    assert_eq!(&bytes[..2], &[0xFF, 0xFE]);
    let units: Vec<u16> =
        bytes[2..].chunks(2).map(|c| u16::from_le_bytes([c[0], c[1]])).collect();
    assert_eq!(
        String::from_utf16(&units).unwrap(),
        format!(
            "Set s = CreateObject(\"WScript.Shell\")\r\ns.Run \"\"\"{}\"\" watch\", 0, False\r\n",
            exe
        )
    );
    assert_eq!(autostart_message(true), "自動起動を設定しました（次回ログインから有効）");
    assert_eq!(autostart_message(false), "自動起動を解除しました");
}

#[test]
fn odd_titles_are_read() {
    let mut s = Sampler::new();
    let mut log = String::new();
    for (epoch, title) in [(1000, "a\r\nb"), (1060, "\tc\u{85}d"), (1120, "e")] {
        log.push_str(&s.sample(0, "d", "t", epoch, "one\ttwo", title).unwrap());
    }
    assert_eq!(log.lines().count(), 3);
    let r = aggregate_activity(&log, "p", "d");
    assert!(r.contains("  0h02m    one two\n"));
    assert!(r.contains("one two | a b\n"));
    assert!(r.contains("one two | c d\n"));
}

#[test]
fn idle_time_is_no_work() {
    let mut s = Sampler::new();
    let mut log = String::new();
    log.push_str(&s.sample(0, "d", "t", 1000, "a", "w").unwrap());
    log.push_str(&s.sample(200, "d", "t", 1060, "a", "w").unwrap());
    log.push_str(&s.sample(0, "d", "t", 1300, "a", "w").unwrap());
    let r = aggregate_activity(&log, "p", "d");
    assert!(r.contains("アクティブ合計: 0h01m\n"));
    assert!(!r.contains("(idle)"));
}

#[test]
fn names_of_daily_files() {
    assert_eq!(activity_file_name("2026-06-19"), "2026-06-19.tsv");
    let name = log_file_name("2026-06-19");
    assert_eq!(name, "2026-06-19.log");
    assert_eq!(recent_log_files(&vec![name.clone(), "x.tsv".to_string()]), vec![name]);
}
