use tagami::copilot::{
    any_name_contains, extract_response, find_button, find_input_box, latest_slack_message, listing,
    richest_subtree, slack_input,
};
use tagami::uia::{
    control_type_name, Element, CT_BUTTON, CT_DOCUMENT, CT_EDIT, CT_LISTITEM, CT_TEXT,
};
use tagami::win32::{
    centre, clipboard_units, dock, find_visible_window_by_title, paste, press_enter,
    render_host_children, select_all, type_unicode, utf16_units, work_area, Area, Key, KeyEvent,
    WindowInfo,
};

fn el(name: &str, control_type: i32, has_value: bool) -> Element {
    Element { name: name.to_string(), control_type, has_value }
}

fn text(name: &str) -> Element {
    el(name, CT_TEXT, false)
}

fn shape(e: &KeyEvent) -> (u16, bool, bool) {
    match e.key {
        Key::Unit(u) => (u, false, e.up),
        Key::Virtual(v) => (v, true, e.up),
    }
}

#[test]
fn control_types_have_names() {
    assert_eq!(control_type_name(CT_BUTTON), "Button");
    assert_eq!(control_type_name(CT_EDIT), "Edit");
    assert_eq!(control_type_name(CT_TEXT), "Text");
    assert_eq!(control_type_name(CT_DOCUMENT), "Document");
    assert_eq!(control_type_name(CT_LISTITEM), "ListItem");
    assert_eq!(control_type_name(50001), "?");
}

#[test]
fn windows_are_found() {
    let w = |visible: bool, title: &str| WindowInfo { visible, title: title.to_string() };
    let list = vec![w(false, "Copilot"), w(true, "Slack"), w(true, "My Copilot"), w(true, "Copilot")];
    assert_eq!(find_visible_window_by_title(&list, "Copilot"), Some(2));
    assert_eq!(find_visible_window_by_title(&list, "Outlook"), None);
    let classes: Vec<String> = ["A", "Chrome_RenderWidgetHostHWND", "B", "RenderWidgetHost2"]
        .iter()
        .map(|s| s.to_string())
        .collect();
    assert_eq!(render_host_children(&classes), vec![1, 3]);
}

#[test]
fn windows_are_docked_in_the_corner() {
    let area = work_area(0, 0, 1920, 1040);
    let a = dock(area, 920, 800);
    assert_eq!((a.x, a.y, a.w, a.h), (1000, 240, 920, 800));
    let b = dock(Area { x: -500, y: 10, w: 400, h: 300 }, 600, 700);
    assert_eq!((b.x, b.y, b.w, b.h), (-500, 10, 400, 300));
    assert_eq!(centre(10, 20, 31, 41), (20, 30));
    assert_eq!(centre(-5, -8, 0, 3), (-2, -2));
}

#[test]
fn text_as_units() {
    for s in ["", "abc", "日本語", "𠮷野家😀x", "\u{ffff}\u{10000}\u{10ffff}\u{d7ff}\u{e000}"] {
        let want: Vec<u16> = s.encode_utf16().collect();
        assert_eq!(utf16_units(s), want);
        assert_eq!(String::from_utf16(&utf16_units(s)).unwrap(), s);
        let mut clip = want.clone();
        clip.push(0);
        assert_eq!(clipboard_units(s), clip);
    }
}

#[test]
fn typing_goes_in_bursts() {
    let s = "x".repeat(23) + "😀" + "y";
    let got = type_unicode(&s);
    let sizes: Vec<usize> = got.iter().map(Vec::len).collect();
    assert_eq!(sizes, vec![48, 4]);
    let units: Vec<u16> = s.encode_utf16().collect();
    let all: Vec<(u16, bool, bool)> = got.iter().flatten().map(shape).collect();
    let mut want = Vec::new();
    for u in units {
        want.push((u, false, false));
        want.push((u, false, true));
    }
    assert_eq!(all, want);
    assert!(type_unicode("").is_empty());
    assert_eq!(type_unicode(&"z".repeat(24)).len(), 1);
}

#[test]
fn keys_are_released() {
    let ctrl = |v: u16| {
        vec![(0x11, true, false), (v, true, false), (v, true, true), (0x11, true, true)]
    };
    assert_eq!(paste().iter().map(shape).collect::<Vec<_>>(), ctrl(0x56));
    assert_eq!(select_all().iter().map(shape).collect::<Vec<_>>(), ctrl(0x41));
    let (down, up) = press_enter();
    assert_eq!((shape(&down), shape(&up)), ((0x0D, true, false), (0x0D, true, true)));
}

#[test]
fn the_latest_turn_is_the_reply() {
    let els = vec![
        text("Copilot の発言"),
        text("old answer"),
        text("あなたの発言"),
        text("my prompt"),
        text(" Copilot の発言 "),
        text("my prompt"),
        text(" first "),
        el("ignored", CT_BUTTON, false),
        text("second"),
        text("first"),
        text("   "),
        text("third。"),
        text("Copilot へメッセージを送る"),
        text("footer"),
    ];
    assert_eq!(extract_response(&els, "my prompt"), "firstsecondthird。");
}

#[test]
fn the_footer_ends_a_reply() {
    for stop in [
        "Copilot へメッセージを送る",
        "今の Copilot のエクスペリエンスは",
        "フィードバックがあればどうぞ",
        "Copilot をご利用いただき",
    ] {
        let els = vec![text("a"), text(stop), text("b")];
        assert_eq!(extract_response(&els, "p"), "a");
    }
    let not_text = vec![text("a"), el("Copilot へメッセージを送る", CT_EDIT, true), text("b")];
    assert_eq!(extract_response(&not_text, "p"), "ab");
    assert_eq!(extract_response(&Vec::new(), "p"), "");
}

#[test]
fn the_prompt_is_left_out() {
    assert_eq!(extract_response(&vec![text("p "), text("A")], "p "), "A");
    assert_eq!(extract_response(&vec![text("p"), text("A")], " p\n"), "A");
    assert_eq!(extract_response(&vec![text("p q"), text("A")], "p"), "p qA");
}

#[test]
fn earlier_turns_do_not_matter() {
    let turn = || vec![text("one"), text("two"), text("one"), text("Copilot をご利用"), text("x")];
    let mut els = vec![text("two"), text("Copilot の発言"), text("one"), text("Copilot をご利用")];
    els.push(el(" Copilot の発言 ", CT_BUTTON, false));
    els.extend(turn());
    assert_eq!(extract_response(&els, "p"), "onetwo");
    assert_eq!(extract_response(&els, "p"), extract_response(&turn(), "p"));
}

#[test]
fn elements_are_found() {
    let els = vec![
        el("検索", CT_EDIT, false),
        el("メッセージを検索", CT_EDIT, true),
        el("新しいチャットを開始", CT_TEXT, false),
        el("新しいチャットを開始", CT_BUTTON, false),
        el("general へのメッセージ", CT_EDIT, true),
        el("short", CT_LISTITEM, false),
        el(" 七文字以上です ", CT_LISTITEM, false),
        el("abc", CT_LISTITEM, false),
    ];
    assert_eq!(find_input_box(&els), Some(1));
    assert_eq!(find_button(&els, "新しいチャット"), Some(3));
    assert_eq!(find_button(&els, "送信"), None);
    assert_eq!(slack_input(&els), Some(4));
    assert_eq!(latest_slack_message(&els), Some("七文字以上です".to_string()));
    assert_eq!(latest_slack_message(&Vec::new()), None);
    assert!(any_name_contains(&els, "七文字"));
    assert!(!any_name_contains(&els, "八文字"));
    assert_eq!(find_input_box(&Vec::new()), None);
    assert_eq!(slack_input(&vec![el("検索", CT_EDIT, true)]), None);
}

#[test]
fn the_richest_tree_wins() {
    assert_eq!(richest_subtree(&vec![Some(3), None, Some(5), Some(5), Some(1)]), Some(2));
    assert_eq!(richest_subtree(&vec![None, Some(0)]), None);
    assert_eq!(richest_subtree(&Vec::new()), None);
}

#[test]
fn elements_are_listed() {
    let els = vec![
        text("0123456789"),
        text("  01234567  "),
        el("a  long\nname here", CT_DOCUMENT, false),
        text("another long one"),
    ];
    assert_eq!(
        listing(&els, 8, 12, 2),
        vec!["[Text] 0123456789".to_string(), "[Document] a long name ".to_string()]
    );
    assert!(listing(&els, 100, 12, 2).is_empty());
}

#[test]
fn nothing_that_was_said_is_lost() {
    let said = ["一つ目", "二つ目", "三つ目"];
    let mut els = vec![text("Copilot の発言")];
    els.extend(said.iter().map(|s| text(s)));
    let reply = extract_response(&els, "p");
    for s in said {
        assert!(reply.contains(s));
    }
}
