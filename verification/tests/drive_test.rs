use tagami::drive::{shown_response, Drive, Event, Phase, Step};
use tagami::uia::{Element, CT_BUTTON, CT_EDIT, CT_TEXT};
use tagami::win32::Area;

fn el(name: &str, control_type: i32, has_value: bool) -> Element {
    Element { name: name.to_string(), control_type, has_value }
}

fn area() -> Area {
    Area { x: 0, y: 0, w: 1920, h: 1040 }
}

fn input_tree() -> Vec<Element> {
    vec![
        el("title", CT_TEXT, false),
        el("新しいチャット", CT_BUTTON, false),
        el("Copilot へメッセージを送る", CT_EDIT, true),
    ]
}

fn reply_tree(reply: &str) -> Vec<Element> {
    vec![el("Copilot の発言", CT_TEXT, false), el(reply, CT_TEXT, false)]
}

fn to_input(d: &mut Drive) {
    d.on_event(Event::Found(true));
    assert!(matches!(d.next(), Step::Survey));
    d.on_event(Event::Surveyed { area: area(), elsewhere: true });
    assert!(matches!(d.next(), Step::Place { area: Area { x: 1000, y: 240, w: 920, h: 800 } }));
    d.on_event(Event::Done);
    assert!(matches!(d.next(), Step::Foreground));
    d.on_event(Event::Done);
    assert!(matches!(d.next(), Step::Sleep { ms: 350 }));
    d.on_event(Event::Done);
    assert!(matches!(d.next(), Step::ReadApp));
    d.on_event(Event::Elements(input_tree()));
    assert!(matches!(d.next(), Step::Invoke { button: 1 }));
    d.on_event(Event::Succeeded(false));
    assert!(matches!(d.next(), Step::Sleep { ms: 1200 }));
    d.on_event(Event::Done);
    assert!(matches!(d.next(), Step::ReadApp));
    d.on_event(Event::Elements(input_tree()));
    assert!(matches!(d.next(), Step::Bounds { input: 2 }));
    d.on_event(Event::Edges(Some((100, 200, 301, 240))));
    assert!(matches!(d.next(), Step::Click { x: 200, y: 220 }));
    d.on_event(Event::Done);
    assert!(matches!(d.next(), Step::Sleep { ms: 250 }));
    d.on_event(Event::Done);
    assert!(matches!(d.next(), Step::Focus));
    d.on_event(Event::Done);
    assert!(matches!(d.next(), Step::Sleep { ms: 350 }));
    d.on_event(Event::Done);
    assert!(matches!(d.next(), Step::SelectAll));
    d.on_event(Event::Done);
    assert!(matches!(d.next(), Step::Sleep { ms: 150 }));
    d.on_event(Event::Done);
    assert!(matches!(d.next(), Step::SetClipboard));
}

fn to_waiting(d: &mut Drive) {
    to_input(d);
    d.on_event(Event::Succeeded(true));
    assert!(matches!(d.next(), Step::Paste));
    d.on_event(Event::Done);
    assert!(matches!(d.next(), Step::Sleep { ms: 700 }));
    d.on_event(Event::Done);
    assert!(matches!(d.next(), Step::ReadTree));
    d.on_event(Event::Elements(vec![el("メッセージの送信", CT_BUTTON, false)]));
    assert!(matches!(d.next(), Step::Invoke { button: 0 }));
    d.on_event(Event::Succeeded(true));
    assert!(matches!(d.next(), Step::Sleep { ms: 150 }));
    d.on_event(Event::Done);
    assert!(matches!(d.next(), Step::ReadValue));
    d.on_event(Event::Value("still here".to_string()));
    d.on_event(Event::Done);
    d.on_event(Event::Value(" \n".to_string()));
    assert!(matches!(d.next(), Step::Place { area: Area { x: 1320, y: 340, w: 600, h: 700 } }));
    d.on_event(Event::Done);
    assert!(matches!(d.next(), Step::HandBack));
    d.on_event(Event::Done);
    assert!(matches!(d.next(), Step::Sleep { ms: 2000 }));
}

fn poll(d: &mut Drive, reply: &str) {
    d.on_event(Event::Done);
    assert!(matches!(d.next(), Step::ReadTree));
    d.on_event(Event::Elements(reply_tree(reply)));
}

#[test]
fn a_run_from_end_to_end() {
    let mut d = Drive::new("line one\nline\ttwo");
    assert_eq!(d.prompt, "line one line two");
    assert!(matches!(d.next(), Step::FindWindow));
    to_waiting(&mut d);
    poll(&mut d, "hel");
    poll(&mut d, "hello");
    poll(&mut d, "hello");
    assert!(matches!(d.next(), Step::Sleep { ms: 2000 }));
    poll(&mut d, "hello");
    assert!(matches!(d.next(), Step::Finish));
    assert!(matches!(d.phase, Phase::Done));
    assert_eq!(d.last, "hello");
    assert!(d.failure().is_none());
}

#[test]
fn an_empty_reply_is_never_complete() {
    let mut d = Drive::new("p");
    to_waiting(&mut d);
    let mut polls = 0;
    while !matches!(d.next(), Step::Finish) {
        poll(&mut d, "");
        polls += 1;
    }
    assert_eq!(polls, 16);
    assert_eq!(d.last, "");
}

#[test]
fn a_reply_that_changes_is_read_to_the_last() {
    let mut d = Drive::new("p");
    to_waiting(&mut d);
    let mut n = 0;
    while !matches!(d.next(), Step::Finish) {
        poll(&mut d, if n % 2 == 0 { "a" } else { "b" });
        n += 1;
    }
    assert_eq!(n, 16);
    assert_eq!(d.last, "b");
}

#[test]
fn the_prompt_is_typed_where_it_cannot_be_pasted() {
    let mut d = Drive::new("p");
    to_input(&mut d);
    d.on_event(Event::Succeeded(false));
    assert!(matches!(d.next(), Step::Type));
    d.on_event(Event::Done);
    d.on_event(Event::Done);
    d.on_event(Event::Elements(Vec::new()));
    assert!(matches!(d.next(), Step::Enter));
    d.on_event(Event::Done);
    assert!(matches!(d.next(), Step::Sleep { ms: 150 }));
}

#[test]
fn enter_stands_in_for_the_button() {
    let mut d = Drive::new("p");
    to_input(&mut d);
    d.on_event(Event::Succeeded(true));
    d.on_event(Event::Done);
    d.on_event(Event::Done);
    d.on_event(Event::Elements(vec![el("メッセージの送信", CT_BUTTON, false)]));
    d.on_event(Event::Succeeded(false));
    assert!(matches!(d.next(), Step::Enter));
}

#[test]
fn acceptance_is_waited_for_only_so_long() {
    let mut d = Drive::new("p");
    to_input(&mut d);
    d.on_event(Event::Succeeded(true));
    d.on_event(Event::Done);
    d.on_event(Event::Done);
    d.on_event(Event::Elements(Vec::new()));
    d.on_event(Event::Done);
    let mut looks = 0;
    while matches!(d.next(), Step::Sleep { ms: 150 }) {
        d.on_event(Event::Done);
        d.on_event(Event::Value("p".to_string()));
        looks += 1;
    }
    assert_eq!(looks, 24);
    assert!(matches!(d.phase, Phase::Shrink));
}

#[test]
fn focus_stays_where_the_user_is() {
    let mut d = Drive::new("p");
    d.on_event(Event::Found(true));
    d.on_event(Event::Surveyed { area: area(), elsewhere: false });
    let mut handed = false;
    let mut steps = 0;
    loop {
        match d.next() {
            Step::Finish => break,
            Step::HandBack => {
                handed = true;
                d.on_event(Event::Done);
            }
            Step::ReadApp => d.on_event(Event::Elements(input_tree())),
            Step::ReadTree => d.on_event(Event::Elements(reply_tree("x"))),
            Step::Invoke { .. } | Step::SetClipboard => d.on_event(Event::Succeeded(true)),
            Step::Bounds { .. } => d.on_event(Event::Edges(None)),
            Step::ReadValue => d.on_event(Event::Value(String::new())),
            _ => d.on_event(Event::Done),
        }
        steps += 1;
    }
    assert!(!handed);
    assert!(steps <= 160);
    assert_eq!(d.last, "x");
}

#[test]
fn a_window_that_does_not_appear() {
    let mut d = Drive::new("p");
    d.on_event(Event::Found(false));
    assert!(matches!(d.next(), Step::Launch));
    d.on_event(Event::Done);
    let mut looks = 0;
    while !matches!(d.next(), Step::Finish) {
        assert!(matches!(d.next(), Step::Sleep { ms: 500 }));
        d.on_event(Event::Done);
        d.on_event(Event::Found(false));
        looks += 1;
    }
    assert_eq!(looks, 24);
    assert_eq!(
        d.failure(),
        Some("Copilotを開けませんでした。Copilot for Windows を起動してから再試行してください。")
    );
}

#[test]
fn a_window_that_appears_late() {
    let mut d = Drive::new("p");
    d.on_event(Event::Found(false));
    d.on_event(Event::Done);
    d.on_event(Event::Done);
    d.on_event(Event::Found(false));
    d.on_event(Event::Done);
    d.on_event(Event::Found(true));
    assert!(matches!(d.next(), Step::Survey));
}

#[test]
fn an_input_box_that_does_not_appear() {
    let mut d = Drive::new("p");
    d.on_event(Event::Found(true));
    d.on_event(Event::Surveyed { area: area(), elsewhere: false });
    d.on_event(Event::Done);
    d.on_event(Event::Done);
    d.on_event(Event::Done);
    d.on_event(Event::Elements(Vec::new()));
    let mut looks = 0;
    while !matches!(d.next(), Step::Finish) {
        assert!(matches!(d.next(), Step::ReadApp));
        d.on_event(Event::Elements(Vec::new()));
        assert!(matches!(d.next(), Step::Sleep { ms: 1200 }));
        d.on_event(Event::Done);
        looks += 1;
    }
    assert_eq!(looks, 4);
    assert_eq!(
        d.failure(),
        Some("Copilot input box not found (open the Copilot chat window)")
    );
}

#[test]
fn replies_are_shown() {
    assert_eq!(shown_response(""), "(no response captured)");
    assert_eq!(shown_response("ok"), "ok");
}

#[test]
fn a_complete_reply_was_read_three_times() {
    let mut d = Drive::new("p");
    to_waiting(&mut d);
    for reply in ["a", "a", "b", "b"] {
        poll(&mut d, reply);
        assert!(!matches!(d.next(), Step::Finish));
    }
    assert_eq!(d.stable, 1);
    poll(&mut d, "b");
    assert!(matches!(d.next(), Step::Finish));
    assert_eq!(d.stable, 2);
}

#[test]
fn the_prompt_is_entered_once() {
    let mut d = Drive::new("p");
    to_waiting(&mut d);
    while !matches!(d.next(), Step::Finish) {
        assert!(matches!(d.next(), Step::Sleep { .. } | Step::ReadTree));
        match d.next() {
            Step::ReadTree => d.on_event(Event::Elements(reply_tree("r"))),
            _ => d.on_event(Event::Done),
        }
    }
    assert_eq!(d.last, "r");
}
