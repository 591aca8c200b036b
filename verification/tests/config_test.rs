use tagami::config::{config_path, parse_interval, parse_value, resolve, Config, Overrides};
use tagami::paths::{
    activity_log_dir, autostart_path, folder_in, logs_dir, program_file, reports_dir, KnowledgeBase,
};

fn none() -> Overrides {
    Overrides {
        persona: None,
        slack_subdomain: None,
        knowledge_path: None,
        watch_interval_secs: None,
    }
}

#[test]
fn values_of_the_file() {
    let txt = "# comment\n\npersona = \"田上\"\n  slack_subdomain=abc  \nempty = \"\"\nquoted = \" x \"\n= y\nknowledge_path = \"G:\\a=b\\c.md\"\npersona = \"later\"\n";
    assert_eq!(parse_value(txt, "persona"), Some("田上".to_string()));
    assert_eq!(parse_value(txt, "slack_subdomain"), Some("abc".to_string()));
    assert_eq!(parse_value(txt, "empty"), Some(String::new()));
    assert_eq!(parse_value(txt, "quoted"), Some("x".to_string()));
    assert_eq!(parse_value(txt, ""), Some("y".to_string()));
    assert_eq!(parse_value(txt, "knowledge_path"), Some("G:\\a=b\\c.md".to_string()));
    assert_eq!(parse_value(txt, "missing"), None);
    assert_eq!(parse_value("#persona = x", "persona"), None);
    assert_eq!(parse_value("persona", "persona"), None);
}

#[test]
fn environment_comes_first() {
    let txt = "persona = \"file\"\nempty = \"\"";
    assert_eq!(resolve(txt, &Some("  env ".to_string()), "persona", "d"), "env");
    assert_eq!(resolve(txt, &Some("   ".to_string()), "persona", "d"), "file");
    assert_eq!(resolve(txt, &None, "persona", "d"), "file");
    assert_eq!(resolve(txt, &None, "empty", "d"), "d");
    assert_eq!(resolve(txt, &None, "other", "d"), "d");
}

#[test]
fn defaults_without_a_file() {
    let c = Config::load("", &none());
    assert_eq!(c.persona, "安河内");
    assert_eq!(c.slack_subdomain, "vegibushq");
    assert_eq!(c.knowledge_path, "G:\\マイドライブ\\tagamiAi\\knowledge.md");
    assert_eq!(c.watch_interval_secs, 180);
    let env = Overrides { watch_interval_secs: Some("45".to_string()), ..none() };
    assert_eq!(Config::load("watch_interval_secs = 60", &env).watch_interval_secs, 45);
    assert_eq!(Config::load("watch_interval_secs = 60", &none()).watch_interval_secs, 60);
    assert_eq!(Config::load("watch_interval_secs = soon", &none()).watch_interval_secs, 180);
}

#[test]
fn intervals() {
    assert_eq!(parse_interval(" 42 "), 42);
    assert_eq!(parse_interval("abc"), 180);
    assert_eq!(parse_interval(""), 180);
    assert_eq!(parse_interval("-1"), 180);
}

#[test]
fn saved_settings_load() {
    let c = Config {
        persona: "田上".to_string(),
        slack_subdomain: "vegibus".to_string(),
        knowledge_path: "D:\\知識\\k b.md".to_string(),
        watch_interval_secs: 90,
    };
    let txt = c.save();
    assert_eq!(
        txt,
        "# AI田上 設定（GUIから編集可）\npersona = \"田上\"\nslack_subdomain = \"vegibus\"\nknowledge_path = \"D:\\知識\\k b.md\"\nwatch_interval_secs = 90\n"
    );
    let back = Config::load(&txt, &none());
    assert_eq!(back.persona, c.persona);
    assert_eq!(back.slack_subdomain, c.slack_subdomain);
    assert_eq!(back.knowledge_path, c.knowledge_path);
    assert_eq!(back.watch_interval_secs, c.watch_interval_secs);
}

#[test]
fn places_of_files() {
    let join = |parts: &[&str]| {
        let mut p = std::path::PathBuf::from(parts[0]);
        for x in &parts[1..] {
            p.push(x);
        }
        p.to_string_lossy().into_owned()
    };
    assert_eq!(config_path(Some("/data".to_string())), join(&["/data", "tagami", "config.toml"]));
    assert_eq!(config_path(None), join(&[".", "tagami", "config.toml"]));
    assert_eq!(program_file(Some("/x/".to_string()), "a.json"), join(&["/x/", "tagami", "a.json"]));
    assert_eq!(
        autostart_path("/app"),
        join(&["/app", "Microsoft", "Windows", "Start Menu", "Programs", "Startup", "AItagami.vbs"])
    );
}

#[test]
fn folders_beside_the_knowledge_base() {
    let beside = |name: &str| std::path::Path::new("/drive/ai").join(name).to_string_lossy().into_owned();
    let k = KnowledgeBase::at("/drive/ai/knowledge.md");
    assert_eq!(k.folder, Some("/drive/ai".to_string()));
    assert_eq!(k.path, "/drive/ai/knowledge.md");
    assert_eq!(activity_log_dir(&k), beside("activity"));
    assert_eq!(reports_dir(&k), beside("レポート"));
    assert_eq!(logs_dir(&k), beside("logs"));
    let k = KnowledgeBase::at("kb/knowledge.md");
    assert_eq!(std::path::PathBuf::from(activity_log_dir(&k)), std::path::PathBuf::from("kb/activity"));
    assert_eq!(logs_dir(&KnowledgeBase::at("knowledge.md")), "logs");
    assert_eq!(logs_dir(&KnowledgeBase::at("")), "logs");
    assert_eq!(folder_in(&None, "activity"), "activity");
    assert_eq!(folder_in(&Some("x/".to_string()), "y"), "x/y");
    assert_eq!(folder_in(&Some(String::new()), "y"), "y");
}

#[test]
fn folders_are_apart() {
    for path in ["/drive/ai/knowledge.md", "kb/knowledge.md", "knowledge.md", "", "\\\\?\\C:\\kb/knowledge.md"] {
        let k = KnowledgeBase::at(path);
        let (a, r, l) = (activity_log_dir(&k), reports_dir(&k), logs_dir(&k));
        let parts = |s: &str| {
            let p = std::path::PathBuf::from(s);
            (p.parent().unwrap().to_path_buf(), p.file_name().unwrap().to_string_lossy().into_owned())
        };
        assert_eq!(parts(&r).1, "レポート");
        assert_eq!(parts(&a), (parts(&r).0, "activity".to_string()));
        assert_eq!(parts(&l), (parts(&r).0, "logs".to_string()));
        assert!(!a.starts_with(&r) && !l.starts_with(&r) && !r.starts_with(&a));
    }
}
