use tagami::json::parse_json;
use tagami::learn::{
    collect_drive_summary, collect_samples, count_lines, learn_prompt, profile_of,
    update_knowledge_section, DriveEntry, PROFILE_HEADER,
};

#[test]
fn own_messages_are_collected() {
    let h = parse_json(
        "{\"messages\": [
            {\"user\": \"ME\", \"text\": \"  よろしく お願いします！ \"},
            {\"user\": \"ME\", \"text\": \"短い\"},
            {\"user\": \"ME\", \"text\": \"<https://example.com> link\"},
            {\"user\": \"U\", \"text\": \"someone else writes\"},
            {\"text\": \"nobody writes this\"},
            {\"user\": \"ME\", \"text\": \"12345678\"}
        ]}",
    )
    .unwrap();
    let mut s = Vec::new();
    assert!(!collect_samples(&mut s, &h, "ME"));
    assert_eq!(s, vec!["よろしく お願いします！", "12345678"]);
    let empty = parse_json("{}").unwrap();
    assert!(!collect_samples(&mut s, &empty, "ME"));
    assert_eq!(s.len(), 2);
}

#[test]
fn samples_are_few_and_short() {
    let mut txt = String::from("{\"messages\": [");
    for i in 0..50 {
        if i > 0 {
            txt.push(',');
        }
        txt.push_str(&format!("{{\"user\": \"ME\", \"text\": \"{} {}\"}}", i, "x".repeat(300)));
    }
    txt.push_str("]}");
    let h = parse_json(&txt).unwrap();
    let mut s = vec!["earlier one".to_string()];
    assert!(collect_samples(&mut s, &h, "ME"));
    assert_eq!(s.len(), 40);
    assert_eq!(s[0], "earlier one");
    assert_eq!(s[1].chars().count(), 200);
    assert!(collect_samples(&mut s, &h, "ME"));
    assert_eq!(s.len(), 40);
}

#[test]
fn the_drive_is_summarised() {
    let e = |name: &str, is_dir: bool| DriveEntry { name: name.to_string(), is_dir };
    let list = vec![
        e("提案書", true),
        e(".hidden", false),
        e("~lock", false),
        e("desktop.ini", false),
        e("見積.xlsx", false),
        e("もう一つ", true),
    ];
    assert_eq!(collect_drive_summary(&list, 80), "[フォルダ] 提案書\n[ファイル] 見積.xlsx\n[フォルダ] もう一つ");
    assert_eq!(collect_drive_summary(&list, 2), "[フォルダ] 提案書\n[ファイル] 見積.xlsx");
    assert_eq!(collect_drive_summary(&list, 0), "");
    assert_eq!(collect_drive_summary(&Vec::new(), 80), "");
    assert_eq!(count_lines("a\n\n  \nb\n"), 2);
    assert_eq!(count_lines(""), 0);
}

#[test]
fn the_prompt_for_a_profile() {
    let samples = vec!["一つ目".to_string(), "二つ目".to_string()];
    assert_eq!(
        learn_prompt("田上", &samples, "[フォルダ] x").unwrap(),
        "以下は『田上』本人のSlack発言例と、本人のGoogleドライブにあるフォルダ/ファイル名です。ここから次の2つを箇条書きでまとめてください。【人物・業務】= どんな役割・業務・専門・関心を持つ人か（断定せず『〜と思われる』程度に）。【文体】= 本人になりきって返信するための書き方の特徴（書き出し・語尾・丁寧さ・絵文字・文の長さ）。見出し『【人物・業務】』『【文体】』を付け、箇条書き本文だけを出力してください。\n\n■Slack発言例:\n一つ目\n---\n二つ目\n\n■Googleドライブの項目:\n[フォルダ] x"
    );
    assert!(learn_prompt("田上", &Vec::new(), "x").is_some());
    assert!(learn_prompt("田上", &samples, "").is_some());
    assert!(learn_prompt("田上", &Vec::new(), "").is_none());
}

#[test]
fn an_empty_profile_is_none() {
    assert_eq!(profile_of(" p \n"), Some("p".to_string()));
    assert_eq!(profile_of(" \n"), None);
}

#[test]
fn a_section_is_added() {
    assert_eq!(update_knowledge_section("", "## h", "body"), "## h\nbody\n");
    assert_eq!(update_knowledge_section("facts\n\n", "## h", "body"), "facts\n\n## h\nbody\n");
}

#[test]
fn a_section_is_replaced() {
    let was = "facts\n\n## h\nold\nold\n";
    assert_eq!(update_knowledge_section(was, "## h", "new"), "facts\n\n## h\nnew\n");
    let between = "facts\n\n## h\nold\n\n## other\nkept";
    assert_eq!(
        update_knowledge_section(between, "## h", "new"),
        "facts\n\n## other\nkept\n\n## h\nnew\n"
    );
    let first = "## h\nold\n## other\nkept\n";
    assert_eq!(
        update_knowledge_section(first, "## h", "new"),
        "\n\n## other\nkept\n\n\n## h\nnew\n"
    );
}

#[test]
fn updating_twice_is_updating_once() {
    for existing in ["", "a\nb  \n", "# title\n\ntext"] {
        let once = update_knowledge_section(existing, PROFILE_HEADER, "second");
        let first = update_knowledge_section(existing, PROFILE_HEADER, "first\nwith lines");
        assert_eq!(update_knowledge_section(&first, PROFILE_HEADER, "second"), once);
    }
}

#[test]
fn the_rest_of_the_knowledge_is_kept() {
    let now = update_knowledge_section("kept text \n\n", "## h", "b");
    assert!(now.starts_with("kept text\n\n"));
    assert!(now.ends_with("## h\nb\n"));
}

#[test]
fn updating_an_old_section_twice_is_updating_it_once() {
    let existing = "facts\n\n## h\nold\n\n## other\nkept";
    let once = update_knowledge_section(existing, "## h", "second");
    let first = update_knowledge_section(existing, "## h", "first");
    assert_eq!(update_knowledge_section(&first, "## h", "second"), once);
}

#[test]
fn the_drive_is_capped() {
    let list: Vec<DriveEntry> =
        (0..100).map(|i| DriveEntry { name: format!("f{}", i), is_dir: false }).collect();
    assert_eq!(collect_drive_summary(&list, 80).lines().count(), 80);
}
