//! The steps that put a prompt into the window of the assistant application and get the reply
//! out.
//!
//! The application takes input only in front, and writes its reply only while it can be seen. So
//! its window is docked in a corner, brought to the front for as long as the prompt is entered,
//! made smaller, and the window in which the user worked gets the focus back before the reply is
//! waited for. Each step is carried out by the caller, which hands back what came of it.

use vstd::prelude::*;

use crate::copilot::{
    button_place, extract_response, find_button, find_input_box, input_place, response,
};
use crate::text;
use crate::uia::Element;
use crate::win32::{centre, dock, docked, fits, half, Area};

verus! {

/// How often a window is looked for after the application was started.
pub const WINDOW_TRIES: u32 = 24;

/// How often the input box is looked for.
pub const INPUT_TRIES: u32 = 4;

/// How often the input box is looked at to see whether the prompt was accepted.
pub const ACCEPT_TRIES: u32 = 24;

/// How often the reply is read.
pub const REPLY_TRIES: u32 = 16;

/// How often the reply must be the same as the one before to count as complete.
pub const STABLE: u32 = 2;

/// The application, as the system's shell knows it.
pub const COPILOT_APP_ID: &'static str = "Microsoft.Copilot_8wekyb3d8bbwe!App";

/// What a run is at.
#[derive(Clone, Copy)]
pub enum Phase {
    /// The window is looked for.
    Find,
    /// The application is started.
    Launch,
    /// The application is given time to show its window.
    LaunchPause { n: u32 },
    /// The window is looked for again.
    LaunchFind { n: u32 },
    /// The screen is surveyed.
    Survey,
    /// The window is docked.
    Place,
    /// The window is brought to the front.
    Front,
    /// The window is given time to come to the front.
    FrontPause,
    /// The tree is read to find the button for a new conversation.
    FreshRead,
    /// A new conversation is begun.
    FreshInvoke { button: usize },
    /// The new conversation is given time to appear.
    FreshPause,
    /// The tree is read to find the input box.
    SeekRead { n: u32 },
    /// The input box is given time to appear.
    SeekPause { n: u32 },
    /// The input box is located on the screen.
    Bounds { input: usize },
    /// The input box is clicked.
    Click { x: i32, y: i32 },
    /// The click is given time to take effect.
    ClickPause,
    /// The input box gets the focus.
    Focus,
    /// The focus is given time to change.
    FocusPause,
    /// What the input box holds is selected.
    Select,
    /// The selection is given time to take effect.
    SelectPause,
    /// The prompt is put on the clipboard.
    Copy,
    /// The prompt is pasted.
    Paste,
    /// The prompt is typed.
    Type,
    /// The prompt is given time to arrive.
    EntryPause,
    /// The tree is read to find the button that submits the prompt.
    SendRead,
    /// The prompt is submitted by the button.
    SendInvoke { button: usize },
    /// The prompt is submitted by the enter key.
    Enter,
    /// The prompt is given time to be accepted.
    AcceptPause { n: u32 },
    /// The input box is looked at.
    AcceptRead { n: u32 },
    /// The window is made smaller.
    Shrink,
    /// The window in which the user worked gets the focus back.
    HandBack,
    /// The reply is given time to be written.
    ReplyPause { n: u32 },
    /// The reply is read.
    ReplyRead { n: u32 },
    /// The reply is there.
    Done,
    /// The window did not appear.
    NoWindow,
    /// The input box did not appear.
    NoInput,
}

/// What to do next.
#[derive(Clone, Copy)]
pub enum Step {
    /// Look for the window of the application.
    FindWindow,
    /// Start the application.
    Launch,
    /// Wait for this many milliseconds.
    Sleep { ms: u64 },
    /// Note which window the user works in and how much of the screen there is.
    Survey,
    /// Put the window here.
    Place { area: Area },
    /// Bring the window to the front.
    Foreground,
    /// Have the tree of the window built, and read it.
    ReadApp,
    /// Read the tree of the window.
    ReadTree,
    /// Press the button at this place of the tree that was read last.
    Invoke { button: usize },
    /// Take the element at this place of the tree that was read last as the input box, and say
    /// where on the screen it is.
    Bounds { input: usize },
    /// Click at this point.
    Click { x: i32, y: i32 },
    /// Give the input box the focus.
    Focus,
    /// Select what the input box holds.
    SelectAll,
    /// Put the prompt on the clipboard.
    SetClipboard,
    /// Paste.
    Paste,
    /// Type the prompt.
    Type,
    /// Press the enter key.
    Enter,
    /// Read what the input box holds.
    ReadValue,
    /// Give the window in which the user worked the focus back.
    HandBack,
    /// Stop.
    Finish,
}

/// What came of a step.
pub enum Event {
    /// It was carried out.
    Done,
    /// Whether the window was found.
    Found(bool),
    /// How much of the screen there is, and whether the user worked in another window.
    Surveyed { area: Area, elsewhere: bool },
    /// The elements of the tree.
    Elements(Vec<Element>),
    /// The edges of the element: left, upper, right and lower.
    Edges(Option<(i32, i32, i32, i32)>),
    /// Whether it succeeded.
    Succeeded(bool),
    /// What the input box holds.
    Value(String),
}

/// A run: a prompt on its way into the application, and its reply on the way out.
pub struct Drive {
    /// The prompt, on one line.
    pub prompt: String,
    /// How much of the screen there is.
    pub area: Area,
    /// Whether the user worked in another window.
    pub elsewhere: bool,
    /// What the run is at.
    pub phase: Phase,
    /// The reply that was read last.
    pub last: String,
    /// How often in a row the reply was the same as the one before.
    pub stable: u32,
}

/// What follows a step that was just carried out.
pub open spec fn after_done(phase: Phase, elsewhere: bool) -> Phase {
    match phase {
        Phase::Launch => Phase::LaunchPause { n: 0 },
        Phase::LaunchPause { n } => Phase::LaunchFind { n },
        Phase::Place => Phase::Front,
        Phase::Front => Phase::FrontPause,
        Phase::FrontPause => Phase::FreshRead,
        Phase::FreshInvoke { button } => Phase::FreshPause,
        Phase::FreshPause => Phase::SeekRead { n: 0 },
        Phase::SeekPause { n } => if n + 1 < INPUT_TRIES {
            Phase::SeekRead { n: (n + 1) as u32 }
        } else {
            Phase::NoInput
        },
        Phase::Click { x, y } => Phase::ClickPause,
        Phase::ClickPause => Phase::Focus,
        Phase::Focus => Phase::FocusPause,
        Phase::FocusPause => Phase::Select,
        Phase::Select => Phase::SelectPause,
        Phase::SelectPause => Phase::Copy,
        Phase::Paste => Phase::EntryPause,
        Phase::Type => Phase::EntryPause,
        Phase::EntryPause => Phase::SendRead,
        Phase::Enter => Phase::AcceptPause { n: 0 },
        Phase::AcceptPause { n } => Phase::AcceptRead { n },
        Phase::Shrink => if elsewhere {
            Phase::HandBack
        } else {
            Phase::ReplyPause { n: 0 }
        },
        Phase::HandBack => Phase::ReplyPause { n: 0 },
        Phase::ReplyPause { n } => Phase::ReplyRead { n },
        _ => phase,
    }
}

/// What follows a look for the window.
pub open spec fn after_found(phase: Phase, found: bool) -> Phase {
    match phase {
        Phase::Find => if found {
            Phase::Survey
        } else {
            Phase::Launch
        },
        Phase::LaunchFind { n } => if found {
            Phase::Survey
        } else if n + 1 < WINDOW_TRIES {
            Phase::LaunchPause { n: (n + 1) as u32 }
        } else {
            Phase::NoWindow
        },
        _ => phase,
    }
}

/// What follows a look at the tree that is not for the reply.
pub open spec fn after_elements(phase: Phase, els: Seq<Element>) -> Phase {
    match phase {
        Phase::FreshRead => match button_place(els, "新しいチャット"@, 0) {
            Some(i) => Phase::FreshInvoke { button: i as usize },
            None => Phase::SeekRead { n: 0 },
        },
        Phase::SeekRead { n } => match input_place(els, 0) {
            Some(i) => Phase::Bounds { input: i as usize },
            None => Phase::SeekPause { n },
        },
        Phase::SendRead => match button_place(els, "メッセージの送信"@, 0) {
            Some(i) => Phase::SendInvoke { button: i as usize },
            None => Phase::Enter,
        },
        _ => phase,
    }
}

/// How often in a row the reply was the same as the one before, once this reply was read.
pub open spec fn stable_after(stable: int, last: Seq<char>, reply: Seq<char>) -> int {
    if reply.len() > 0 && reply == last {
        stable + 1
    } else {
        0
    }
}

/// What follows a look at the reply.
pub open spec fn after_reply(n: u32, stable: int) -> Phase {
    if stable >= STABLE || n + 1 >= REPLY_TRIES {
        Phase::Done
    } else {
        Phase::ReplyPause { n: (n + 1) as u32 }
    }
}

impl Drive {
    /// The run is in order: it is within the tries that it has.
    pub open spec fn valid(self) -> bool {
        &&& self.area.valid()
        &&& self.stable < STABLE || self.phase is Done
        &&& match self.phase {
            Phase::LaunchPause { n } => n < WINDOW_TRIES,
            Phase::LaunchFind { n } => n < WINDOW_TRIES,
            Phase::SeekRead { n } => n < INPUT_TRIES,
            Phase::SeekPause { n } => n < INPUT_TRIES,
            Phase::AcceptPause { n } => n < ACCEPT_TRIES,
            Phase::AcceptRead { n } => n < ACCEPT_TRIES,
            Phase::ReplyPause { n } => n < REPLY_TRIES,
            Phase::ReplyRead { n } => n < REPLY_TRIES,
            _ => true,
        }
    }

    /// What to do next.
    pub open spec fn step(self) -> Step {
        match self.phase {
            Phase::Find => Step::FindWindow,
            Phase::Launch => Step::Launch,
            Phase::LaunchPause { n } => Step::Sleep { ms: 500 },
            Phase::LaunchFind { n } => Step::FindWindow,
            Phase::Survey => Step::Survey,
            Phase::Place => Step::Place { area: docked(self.area, 920, 800) },
            Phase::Front => Step::Foreground,
            Phase::FrontPause => Step::Sleep { ms: 350 },
            Phase::FreshRead => Step::ReadApp,
            Phase::FreshInvoke { button } => Step::Invoke { button },
            Phase::FreshPause => Step::Sleep { ms: 1200 },
            Phase::SeekRead { n } => Step::ReadApp,
            Phase::SeekPause { n } => Step::Sleep { ms: 1200 },
            Phase::Bounds { input } => Step::Bounds { input },
            Phase::Click { x, y } => Step::Click { x, y },
            Phase::ClickPause => Step::Sleep { ms: 250 },
            Phase::Focus => Step::Focus,
            Phase::FocusPause => Step::Sleep { ms: 350 },
            Phase::Select => Step::SelectAll,
            Phase::SelectPause => Step::Sleep { ms: 150 },
            Phase::Copy => Step::SetClipboard,
            Phase::Paste => Step::Paste,
            Phase::Type => Step::Type,
            Phase::EntryPause => Step::Sleep { ms: 700 },
            Phase::SendRead => Step::ReadTree,
            Phase::SendInvoke { button } => Step::Invoke { button },
            Phase::Enter => Step::Enter,
            Phase::AcceptPause { n } => Step::Sleep { ms: 150 },
            Phase::AcceptRead { n } => Step::ReadValue,
            Phase::Shrink => Step::Place { area: docked(self.area, 600, 700) },
            Phase::HandBack => Step::HandBack,
            Phase::ReplyPause { n } => Step::Sleep { ms: 2000 },
            Phase::ReplyRead { n } => Step::ReadTree,
            Phase::Done => Step::Finish,
            Phase::NoWindow => Step::Finish,
            Phase::NoInput => Step::Finish,
        }
    }

    /// This can come of the step that is next.
    pub open spec fn awaits(self, e: Event) -> bool {
        match self.step() {
            Step::FindWindow => e is Found,
            Step::Survey => e matches Event::Surveyed { area, elsewhere } && area.valid(),
            Step::ReadApp => e is Elements,
            Step::ReadTree => e is Elements,
            Step::Invoke { button } => e is Succeeded,
            Step::Bounds { input } => e matches Event::Edges(edges) && (edges matches Some(
                b,
            ) ==> fits(b.0 + b.2) && fits(b.1 + b.3)),
            Step::SetClipboard => e is Succeeded,
            Step::ReadValue => e is Value,
            Step::Finish => false,
            _ => e is Done,
        }
    }

    /// What the run is at once this came of the step that was next.
    pub open spec fn phase_after(self, e: Event) -> Phase {
        match e {
            Event::Done => after_done(self.phase, self.elsewhere),
            Event::Found(found) => after_found(self.phase, found),
            Event::Surveyed { area, elsewhere } => Phase::Place,
            Event::Elements(els) => match self.phase {
                Phase::ReplyRead { n } => after_reply(
                    n,
                    stable_after(
                        self.stable as int,
                        self.last@,
                        response(els@, self.prompt@),
                    ),
                ),
                _ => after_elements(self.phase, els@),
            },
            Event::Edges(edges) => match edges {
                Some(b) => Phase::Click { x: half(b.0 + b.2) as i32, y: half(b.1 + b.3) as i32 },
                None => Phase::Focus,
            },
            Event::Succeeded(ok) => match self.phase {
                Phase::Copy => if ok {
                    Phase::Paste
                } else {
                    Phase::Type
                },
                Phase::SendInvoke { button } => if ok {
                    Phase::AcceptPause { n: 0 }
                } else {
                    Phase::Enter
                },
                _ => Phase::FreshPause,
            },
            Event::Value(v) => match self.phase {
                Phase::AcceptRead { n } => if text::trim(v@).len() == 0 || n + 1 >= ACCEPT_TRIES {
                    Phase::Shrink
                } else {
                    Phase::AcceptPause { n: (n + 1) as u32 }
                },
                _ => self.phase,
            },
        }
    }

    /// A run with this prompt. Line breaks and tabs become spaces: a line break would submit what
    /// stands before it.
    pub fn new(prompt: &str) -> (r: Drive)
        ensures
            r.valid(),
            r.prompt@ == text::flat(prompt@, true),
            r.phase is Find,
            r.last@.len() == 0,
            r.stable == 0,
            r.area == (Area { x: 0, y: 0, w: 0, h: 0 }),
            !r.elsewhere,
    {
        Drive {
            prompt: text::flattened(prompt, true),
            area: Area { x: 0, y: 0, w: 0, h: 0 },
            elsewhere: false,
            phase: Phase::Find,
            last: String::new(),
            stable: 0,
        }
    }

    /// What to do next.
    pub fn next(&self) -> (r: Step)
        requires
            self.valid(),
        ensures
            r == self.step(),
    {
        match self.phase {
            Phase::Find => Step::FindWindow,
            Phase::Launch => Step::Launch,
            Phase::LaunchPause { n } => Step::Sleep { ms: 500 },
            Phase::LaunchFind { n } => Step::FindWindow,
            Phase::Survey => Step::Survey,
            Phase::Place => Step::Place { area: dock(self.area, 920, 800) },
            Phase::Front => Step::Foreground,
            Phase::FrontPause => Step::Sleep { ms: 350 },
            Phase::FreshRead => Step::ReadApp,
            Phase::FreshInvoke { button } => Step::Invoke { button },
            Phase::FreshPause => Step::Sleep { ms: 1200 },
            Phase::SeekRead { n } => Step::ReadApp,
            Phase::SeekPause { n } => Step::Sleep { ms: 1200 },
            Phase::Bounds { input } => Step::Bounds { input },
            Phase::Click { x, y } => Step::Click { x, y },
            Phase::ClickPause => Step::Sleep { ms: 250 },
            Phase::Focus => Step::Focus,
            Phase::FocusPause => Step::Sleep { ms: 350 },
            Phase::Select => Step::SelectAll,
            Phase::SelectPause => Step::Sleep { ms: 150 },
            Phase::Copy => Step::SetClipboard,
            Phase::Paste => Step::Paste,
            Phase::Type => Step::Type,
            Phase::EntryPause => Step::Sleep { ms: 700 },
            Phase::SendRead => Step::ReadTree,
            Phase::SendInvoke { button } => Step::Invoke { button },
            Phase::Enter => Step::Enter,
            Phase::AcceptPause { n } => Step::Sleep { ms: 150 },
            Phase::AcceptRead { n } => Step::ReadValue,
            Phase::Shrink => Step::Place { area: dock(self.area, 600, 700) },
            Phase::HandBack => Step::HandBack,
            Phase::ReplyPause { n } => Step::Sleep { ms: 2000 },
            Phase::ReplyRead { n } => Step::ReadTree,
            Phase::Done => Step::Finish,
            Phase::NoWindow => Step::Finish,
            Phase::NoInput => Step::Finish,
        }
    }

    fn next_after_done(&self) -> (r: Phase)
        requires
            self.valid(),
        ensures
            r == after_done(self.phase, self.elsewhere),
    {
        match self.phase {
            Phase::Launch => Phase::LaunchPause { n: 0 },
            Phase::LaunchPause { n } => Phase::LaunchFind { n },
            Phase::Place => Phase::Front,
            Phase::Front => Phase::FrontPause,
            Phase::FrontPause => Phase::FreshRead,
            Phase::FreshInvoke { button } => Phase::FreshPause,
            Phase::FreshPause => Phase::SeekRead { n: 0 },
            Phase::SeekPause { n } => if n + 1 < INPUT_TRIES {
                Phase::SeekRead { n: n + 1 }
            } else {
                Phase::NoInput
            },
            Phase::Click { x, y } => Phase::ClickPause,
            Phase::ClickPause => Phase::Focus,
            Phase::Focus => Phase::FocusPause,
            Phase::FocusPause => Phase::Select,
            Phase::Select => Phase::SelectPause,
            Phase::SelectPause => Phase::Copy,
            Phase::Paste => Phase::EntryPause,
            Phase::Type => Phase::EntryPause,
            Phase::EntryPause => Phase::SendRead,
            Phase::Enter => Phase::AcceptPause { n: 0 },
            Phase::AcceptPause { n } => Phase::AcceptRead { n },
            Phase::Shrink => if self.elsewhere {
                Phase::HandBack
            } else {
                Phase::ReplyPause { n: 0 }
            },
            Phase::HandBack => Phase::ReplyPause { n: 0 },
            Phase::ReplyPause { n } => Phase::ReplyRead { n },
            _ => self.phase,
        }
    }

    fn next_after_elements(&self, els: &Vec<Element>) -> (r: Phase)
        ensures
            r == after_elements(self.phase, els@),
    {
        match self.phase {
            Phase::FreshRead => match find_button(els, "新しいチャット") {
                Some(i) => Phase::FreshInvoke { button: i },
                None => Phase::SeekRead { n: 0 },
            },
            Phase::SeekRead { n } => match find_input_box(els) {
                Some(i) => Phase::Bounds { input: i },
                None => Phase::SeekPause { n },
            },
            Phase::SendRead => match find_button(els, "メッセージの送信") {
                Some(i) => Phase::SendInvoke { button: i },
                None => Phase::Enter,
            },
            _ => self.phase,
        }
    }

    fn read_reply(&mut self, n: u32, els: &Vec<Element>)
        requires
            old(self).valid(),
            old(self).phase == (Phase::ReplyRead { n }),
        ensures
            final(self).valid(),
            final(self).prompt == old(self).prompt,
            final(self).area == old(self).area,
            final(self).elsewhere == old(self).elsewhere,
            final(self).last@ == response(els@, old(self).prompt@),
            final(self).stable == stable_after(
                old(self).stable as int,
                old(self).last@,
                response(els@, old(self).prompt@),
            ),
            final(self).phase == after_reply(n, final(self).stable as int),
    {
        let reply: String = extract_response(els, self.prompt.as_str());
        if !reply.as_str().is_empty() && text::same_text(reply.as_str(), self.last.as_str()) {
            self.stable = self.stable + 1;
        } else {
            self.stable = 0;
        }
        self.last = reply;
        self.phase = if self.stable >= STABLE || n + 1 >= REPLY_TRIES {
            Phase::Done
        } else {
            Phase::ReplyPause { n: n + 1 }
        };
    }

    /// Takes what came of the step that was next.
    pub fn on_event(&mut self, e: Event)
        requires
            old(self).valid(),
            old(self).awaits(e),
        ensures
            final(self).valid(),
            final(self).phase == old(self).phase_after(e),
            final(self).prompt == old(self).prompt,
            match e {
                Event::Surveyed { area, elsewhere } => {
                    &&& final(self).area == area
                    &&& final(self).elsewhere == elsewhere
                },
                _ => {
                    &&& final(self).area == old(self).area
                    &&& final(self).elsewhere == old(self).elsewhere
                },
            },
            match (old(self).phase, e) {
                (Phase::ReplyRead { n }, Event::Elements(els)) => {
                    &&& final(self).last@ == response(els@, old(self).prompt@)
                    &&& final(self).stable == stable_after(
                        old(self).stable as int,
                        old(self).last@,
                        response(els@, old(self).prompt@),
                    )
                },
                _ => final(self).last == old(self).last && final(self).stable == old(self).stable,
            },
    {
        match e {
            Event::Done => {
                self.phase = self.next_after_done();
            },
            Event::Found(found) => {
                match self.phase {
                    Phase::Find => {
                        self.phase = if found {
                            Phase::Survey
                        } else {
                            Phase::Launch
                        };
                    },
                    Phase::LaunchFind { n } => {
                        self.phase = if found {
                            Phase::Survey
                        } else if n + 1 < WINDOW_TRIES {
                            Phase::LaunchPause { n: n + 1 }
                        } else {
                            Phase::NoWindow
                        };
                    },
                    _ => {},
                }
            },
            Event::Surveyed { area, elsewhere } => {
                self.area = area;
                self.elsewhere = elsewhere;
                self.phase = Phase::Place;
            },
            Event::Elements(els) => {
                match self.phase {
                    Phase::ReplyRead { n } => {
                        self.read_reply(n, &els);
                    },
                    _ => {
                        self.phase = self.next_after_elements(&els);
                    },
                }
            },
            Event::Edges(edges) => {
                self.phase = match edges {
                    Some(b) => {
                        let (x, y) = centre(b.0, b.1, b.2, b.3);
                        Phase::Click { x, y }
                    },
                    None => Phase::Focus,
                };
            },
            Event::Succeeded(ok) => {
                self.phase = match self.phase {
                    Phase::Copy => if ok {
                        Phase::Paste
                    } else {
                        Phase::Type
                    },
                    Phase::SendInvoke { button } => if ok {
                        Phase::AcceptPause { n: 0 }
                    } else {
                        Phase::Enter
                    },
                    _ => Phase::FreshPause,
                };
            },
            Event::Value(v) => {
                match self.phase {
                    Phase::AcceptRead { n } => {
                        self.phase = if text::blank(v.as_str()) || n + 1 >= ACCEPT_TRIES {
                            Phase::Shrink
                        } else {
                            Phase::AcceptPause { n: n + 1 }
                        };
                    },
                    _ => {},
                }
            },
        }
    }

    /// What to tell where the run failed.
    pub fn failure(&self) -> (r: Option<&'static str>)
        ensures
            match self.phase {
                Phase::NoWindow => r matches Some(s) && s@
                    == "Copilotを開けませんでした。Copilot for Windows を起動してから再試行してください。"@,
                Phase::NoInput => r matches Some(s) && s@
                    == "Copilot input box not found (open the Copilot chat window)"@,
                _ => r is None,
            },
    {
        match self.phase {
            Phase::NoWindow => Some(
                "Copilotを開けませんでした。Copilot for Windows を起動してから再試行してください。",
            ),
            Phase::NoInput => Some(
                "Copilot input box not found (open the Copilot chat window)",
            ),
            _ => None,
        }
    }
}

/// How far a run is from its end, at most.
pub open spec fn distance(phase: Phase) -> int {
    match phase {
        Phase::Done => 0,
        Phase::NoWindow => 0,
        Phase::NoInput => 0,
        Phase::ReplyRead { n } => 2 * (REPLY_TRIES - n) - 1,
        Phase::ReplyPause { n } => 2 * (REPLY_TRIES - n),
        Phase::HandBack => 33,
        Phase::Shrink => 34,
        Phase::AcceptRead { n } => 34 + 2 * (ACCEPT_TRIES - n) - 1,
        Phase::AcceptPause { n } => 34 + 2 * (ACCEPT_TRIES - n),
        Phase::Enter => 83,
        Phase::SendInvoke { button } => 84,
        Phase::SendRead => 85,
        Phase::EntryPause => 86,
        Phase::Type => 87,
        Phase::Paste => 87,
        Phase::Copy => 88,
        Phase::SelectPause => 89,
        Phase::Select => 90,
        Phase::FocusPause => 91,
        Phase::Focus => 92,
        Phase::ClickPause => 93,
        Phase::Click { x, y } => 94,
        Phase::Bounds { input } => 95,
        Phase::SeekPause { n } => 95 + 2 * (INPUT_TRIES - n) - 1,
        Phase::SeekRead { n } => 95 + 2 * (INPUT_TRIES - n),
        Phase::FreshPause => 104,
        Phase::FreshInvoke { button } => 105,
        Phase::FreshRead => 106,
        Phase::FrontPause => 107,
        Phase::Front => 108,
        Phase::Place => 109,
        Phase::Survey => 110,
        Phase::LaunchFind { n } => 110 + 2 * (WINDOW_TRIES - n) - 1,
        Phase::LaunchPause { n } => 110 + 2 * (WINDOW_TRIES - n),
        Phase::Launch => 159,
        Phase::Find => 160,
    }
}

/// A run ends: each step brings it nearer to its end, whatever comes of the step.
pub proof fn law_run_ends(d: Drive, e: Event)
    requires
        d.valid(),
        d.awaits(e),
    ensures
        0 <= distance(d.phase_after(e)) < distance(d.phase),
{
}

/// The prompt is entered once: once it was pasted or typed, no run that is nearer to its end pastes
/// or types it.
pub proof fn law_prompt_is_entered_once(d: Drive, later: Drive)
    requires
        d.step() is Paste || d.step() is Type,
        later.valid(),
        distance(later.phase) < distance(d.phase),
    ensures
        !(later.step() is Paste),
        !(later.step() is Type),
{
}

/// The user gets the focus back before the reply is waited for: a run begins to wait only behind
/// the step that gives it back, or where the user did not work in another window.
pub proof fn law_focus_is_handed_back(d: Drive, e: Event)
    requires
        d.valid(),
        d.awaits(e),
        d.phase_after(e) == (Phase::ReplyPause { n: 0 }),
    ensures
        d.step() is HandBack || !d.elsewhere,
{
}

/// While the reply is waited for, the run does nothing but wait and read.
pub proof fn law_waiting_disturbs_nobody(d: Drive, e: Event)
    requires
        d.valid(),
        d.phase is ReplyPause || d.phase is ReplyRead,
        d.awaits(e),
    ensures
        d.step() is Sleep || d.step() is ReadTree,
        d.phase_after(e) is ReplyPause || d.phase_after(e) is ReplyRead || d.phase_after(e) is Done,
{
}

/// The reply that was read last of the first `n`, and none where none was read.
pub open spec fn last_of(replies: Seq<Seq<char>>, n: int) -> Seq<char> {
    if n <= 0 {
        Seq::empty()
    } else {
        replies[n - 1]
    }
}

/// How often in a row, at the end of the first `n`, a reply was the same as the one before.
pub open spec fn repeats(replies: Seq<Seq<char>>, n: int) -> int
    decreases n,
{
    if n <= 0 {
        0
    } else {
        stable_after(repeats(replies, n - 1), last_of(replies, n - 1), replies[n - 1])
    }
}

impl Drive {
    /// The run has read the first `n` of these replies.
    pub open spec fn has_read(self, replies: Seq<Seq<char>>, n: int) -> bool {
        self.last@ == last_of(replies, n) && self.stable == repeats(replies, n)
    }
}

/// A run keeps count of what it reads: after another reply it knows which came last, and how often
/// in a row it was the same.
pub proof fn law_run_keeps_count(was: Drive, now: Drive, replies: Seq<Seq<char>>, n: int)
    requires
        0 <= n < replies.len(),
        was.has_read(replies, n),
        now.last@ == replies[n],
        now.stable == stable_after(was.stable as int, was.last@, replies[n]),
    ensures
        now.has_read(replies, n + 1),
{
}

/// A reply counts as complete before the last try only where it was read three times in a row: it
/// says something, and it is the same as the two before.
pub proof fn law_complete_reply_is_stable(d: Drive, els: Vec<Element>, replies: Seq<Seq<char>>, n: int)
    requires
        0 <= n < replies.len(),
        d.has_read(replies, n),
        replies[n] == response(els@, d.prompt@),
        d.phase is ReplyRead,
        d.phase_after(Event::Elements(els)) is Done,
        d.phase->ReplyRead_n + 1 < REPLY_TRIES,
    ensures
        n >= 2,
        replies[n].len() > 0,
        replies[n] == replies[n - 1],
        replies[n] == replies[n - 2],
{
    reveal_with_fuel(repeats, 3);
}

/// While the prompt is entered the window is wide enough for the button that begins a new
/// conversation, as long as the screen is, and it is small while the reply is waited for.
pub proof fn law_window_has_the_right_size(area: Area)
    ensures
        area.w >= 840 ==> docked(area, 920, 800).w >= 840,
        docked(area, 600, 700).w <= 600,
        docked(area, 600, 700).h <= 700,
{
}

/// The text to show as the reply.
pub fn shown_response(reply: &str) -> (r: String)
    ensures
        r@ == if reply@.len() == 0 {
            "(no response captured)"@
        } else {
            reply@
        },
{
    if reply.is_empty() {
        text::copy("(no response captured)")
    } else {
        text::copy(reply)
    }
}

// ---------------------------------------------------------------------------------------------
// The order of the steps
// ---------------------------------------------------------------------------------------------
/// The window of the application is looked for first. Where there is none the application is
/// started, and the window is looked for again every half second, twenty-four times at most. A
/// window that is found leads to a survey of the screen.
pub proof fn law_window_is_looked_for(d: Drive, n: u32)
    requires
        n < 24,
    ensures
        d.phase is Find ==> {
            let missing = Drive { phase: d.phase_after(Event::Found(false)), ..d };
            let started = Drive { phase: missing.phase_after(Event::Done), ..d };
            let again = Drive { phase: started.phase_after(Event::Done), ..d };
            let found = Drive { phase: d.phase_after(Event::Found(true)), ..d };
            &&& d.step() is FindWindow
            &&& found.step() is Survey
            &&& missing.step() is Launch
            &&& started.step() == (Step::Sleep { ms: 500 })
            &&& again.step() is FindWindow
            &&& again.phase == (Phase::LaunchFind { n: 0 })
        },
        d.phase == (Phase::LaunchFind { n }) ==> {
            let found = Drive { phase: d.phase_after(Event::Found(true)), ..d };
            let missing = Drive { phase: d.phase_after(Event::Found(false)), ..d };
            let again = Drive { phase: missing.phase_after(Event::Done), ..d };
            &&& d.step() is FindWindow
            &&& found.step() is Survey
            &&& n == 23 ==> missing.step() is Finish && missing.phase is NoWindow
            &&& n < 23 ==> missing.step() == (Step::Sleep { ms: 500 }) && again.phase == (
            Phase::LaunchFind { n: (n + 1) as u32 })
        },
{
}

/// Behind the survey the window is docked, wide and high enough to be worked in, brought to the
/// front and given a third of a second, and then its tree is read.
pub proof fn law_window_comes_to_the_front(d: Drive, area: Area, elsewhere: bool)
    ensures
        d.phase is Survey ==> d.step() is Survey && d.phase_after(
            Event::Surveyed { area, elsewhere },
        ) is Place,
        d.phase is Place ==> {
            let front = Drive { phase: d.phase_after(Event::Done), ..d };
            let pause = Drive { phase: front.phase_after(Event::Done), ..d };
            let read = Drive { phase: pause.phase_after(Event::Done), ..d };
            &&& d.step() == (Step::Place { area: docked(d.area, 920, 800) })
            &&& front.step() is Foreground
            &&& pause.step() == (Step::Sleep { ms: 350 })
            &&& read.step() is ReadApp
            &&& read.phase is FreshRead
        },
{
}

/// A new conversation is begun wherever there is a button for that, and the input box is looked for
/// whether there is one or not, and whether it could be pressed or not.
pub proof fn law_conversation_is_fresh(d: Drive, els: Vec<Element>, ok: bool)
    requires
        d.phase is FreshRead,
    ensures
        ({
            let place = button_place(els@, "新しいチャット"@, 0);
            let next = Drive { phase: d.phase_after(Event::Elements(els)), ..d };
            let pause = Drive { phase: next.phase_after(Event::Succeeded(ok)), ..d };
            let seek = Phase::SeekRead { n: 0 };
            &&& place is None ==> next.phase == seek && next.step() is ReadApp
            &&& place is Some ==> next.step() == (Step::Invoke { button: place->0 as usize })
            &&& place is Some ==> pause.step() == (Step::Sleep { ms: 1200 })
            &&& place is Some ==> pause.phase_after(Event::Done) == seek
        }),
{
}

/// The input box is looked for four times at most, and located as soon as it is found.
pub proof fn law_input_box_is_looked_for(d: Drive, els: Vec<Element>, n: u32)
    requires
        n < 4,
        d.phase == (Phase::SeekRead { n }),
    ensures
        ({
            let place = input_place(els@, 0);
            let next = Drive { phase: d.phase_after(Event::Elements(els)), ..d };
            let again = Drive { phase: next.phase_after(Event::Done), ..d };
            &&& d.step() is ReadApp
            &&& place is Some ==> next.step() == (Step::Bounds { input: place->0 as usize })
            &&& place is None ==> next.step() == (Step::Sleep { ms: 1200 })
            &&& place is None && n < 3 ==> again.phase == (Phase::SeekRead { n: (n + 1) as u32 })
            &&& place is None && n == 3 ==> again.phase is NoInput && again.step() is Finish
        }),
{
}

/// The input box is clicked in its middle where it is known where it is, and gets the focus either
/// way. What it holds is selected before the prompt is put on the clipboard, so that the prompt
/// takes its place.
pub proof fn law_input_box_is_made_ready(d: Drive, edges: (i32, i32, i32, i32))
    requires
        fits(edges.0 + edges.2),
        fits(edges.1 + edges.3),
    ensures
        d.phase is Bounds ==> {
            let click = Drive { phase: d.phase_after(Event::Edges(Some(edges))), ..d };
            let pause = Drive { phase: click.phase_after(Event::Done), ..d };
            &&& click.step() matches Step::Click { x, y } && {
                &&& x == half(edges.0 + edges.2)
                &&& y == half(edges.1 + edges.3)
            }
            &&& pause.step() == (Step::Sleep { ms: 250 })
            &&& pause.phase_after(Event::Done) is Focus
            &&& d.phase_after(Event::Edges(None)) is Focus
        },
        d.phase is Focus ==> {
            let pause = Drive { phase: d.phase_after(Event::Done), ..d };
            let select = Drive { phase: pause.phase_after(Event::Done), ..d };
            let selected = Drive { phase: select.phase_after(Event::Done), ..d };
            let copy = Drive { phase: selected.phase_after(Event::Done), ..d };
            &&& d.step() is Focus
            &&& pause.step() == (Step::Sleep { ms: 350 })
            &&& select.step() is SelectAll
            &&& selected.step() == (Step::Sleep { ms: 150 })
            &&& copy.step() is SetClipboard
            &&& copy.phase is Copy
        },
{
    crate::win32::law_half_is_half(edges.0 + edges.2);
    crate::win32::law_half_is_half(edges.1 + edges.3);
}

/// The prompt is pasted where it could be put on the clipboard, and typed where it could not. It is
/// submitted by the button where there is one that can be pressed, and by the enter key otherwise.
pub proof fn law_prompt_is_entered_and_submitted(d: Drive, els: Vec<Element>, ok: bool)
    ensures
        d.phase is Copy ==> {
            let entry = Drive { phase: d.phase_after(Event::Succeeded(ok)), ..d };
            let pause = Drive { phase: entry.phase_after(Event::Done), ..d };
            let look = Drive { phase: pause.phase_after(Event::Done), ..d };
            &&& ok ==> entry.step() is Paste
            &&& !ok ==> entry.step() is Type
            &&& pause.step() == (Step::Sleep { ms: 700 })
            &&& look.step() is ReadTree
            &&& look.phase is SendRead
        },
        d.phase is SendRead ==> {
            let place = button_place(els@, "メッセージの送信"@, 0);
            let send = Drive { phase: d.phase_after(Event::Elements(els)), ..d };
            let pressed = Drive { phase: send.phase_after(Event::Succeeded(ok)), ..d };
            &&& place is None ==> send.step() is Enter
            &&& place is Some ==> send.step() == (Step::Invoke { button: place->0 as usize })
            &&& place is Some && !ok ==> pressed.step() is Enter
            &&& place is Some && ok ==> pressed.phase == (Phase::AcceptPause { n: 0 })
        },
        d.phase is Enter ==> d.step() is Enter && d.phase_after(Event::Done) == (
        Phase::AcceptPause { n: 0 }),
{
}

/// Once it was submitted, the prompt counts as accepted when the input box is blank, or after
/// twenty-four looks. Then the window is made small, and the user gets the focus back before the
/// reply is waited for.
pub proof fn law_prompt_is_accepted(d: Drive, v: String, n: u32)
    requires
        n < 24,
    ensures
        d.phase == (Phase::AcceptPause { n }) ==> {
            let look = Drive { phase: d.phase_after(Event::Done), ..d };
            &&& d.step() == (Step::Sleep { ms: 150 })
            &&& look.step() is ReadValue
            &&& look.phase == (Phase::AcceptRead { n })
        },
        d.phase == (Phase::AcceptRead { n }) ==> {
            let next = Drive { phase: d.phase_after(Event::Value(v)), ..d };
            &&& text::trim(v@).len() == 0 || n == 23 ==> next.step() == (Step::Place {
                area: docked(d.area, 600, 700),
            }) && next.phase is Shrink
            &&& text::trim(v@).len() > 0 && n < 23 ==> next.phase == (Phase::AcceptPause {
                n: (n + 1) as u32,
            })
        },
        d.phase is Shrink ==> {
            let next = Drive { phase: d.phase_after(Event::Done), ..d };
            let wait = Phase::ReplyPause { n: 0 };
            &&& d.elsewhere ==> next.step() is HandBack && next.phase_after(Event::Done) == wait
            &&& !d.elsewhere ==> next.phase == wait
        },
{
}

/// The reply is read every two seconds, sixteen times at most, and the run ends at the first that
/// is not empty and the same as the two before it.
pub proof fn law_reply_is_waited_for(d: Drive, els: Vec<Element>, n: u32)
    requires
        n < 16,
        d.stable < 2,
    ensures
        d.phase == (Phase::ReplyPause { n }) ==> {
            let look = Drive { phase: d.phase_after(Event::Done), ..d };
            &&& d.step() == (Step::Sleep { ms: 2000 })
            &&& look.step() is ReadTree
            &&& look.phase == (Phase::ReplyRead { n })
        },
        d.phase == (Phase::ReplyRead { n }) ==> {
            let reply = response(els@, d.prompt@);
            let same = reply.len() > 0 && reply == d.last@;
            let next = Drive { phase: d.phase_after(Event::Elements(els)), ..d };
            &&& n == 15 || (same && d.stable == 1) ==> next.phase is Done && next.step() is Finish
            &&& n < 15 && !(same && d.stable == 1) ==> next.phase == (Phase::ReplyPause {
                n: (n + 1) as u32,
            })
        },
{
}

/// A reply that says something and is the same as the one before is one more of a row, and every
/// other one ends the row.
pub proof fn law_same_replies_are_counted(stable: int, last: Seq<char>, reply: Seq<char>)
    ensures
        reply.len() > 0 && reply == last ==> stable_after(stable, last, reply) == stable + 1,
        reply.len() == 0 || reply != last ==> stable_after(stable, last, reply) == 0,
        stable_after(stable, last, Seq::empty()) == 0,
{
}

/// Whatever can come of a step is taken: any answer to a look, any tree, any value, and that a
/// press or the clipboard worked as well as that it did not.
pub proof fn law_answers_are_taken(
    d: Drive,
    found: bool,
    ok: bool,
    els: Vec<Element>,
    v: String,
    area: Area,
    elsewhere: bool,
    edges: (i32, i32, i32, i32),
)
    requires
        area.valid(),
        i32::MIN <= edges.0 + edges.2 <= i32::MAX,
        i32::MIN <= edges.1 + edges.3 <= i32::MAX,
    ensures
        d.step() is FindWindow ==> d.awaits(Event::Found(found)),
        d.step() is Survey ==> d.awaits(Event::Surveyed { area, elsewhere }),
        d.step() is ReadApp || d.step() is ReadTree ==> d.awaits(Event::Elements(els)),
        d.step() is Invoke || d.step() is SetClipboard ==> d.awaits(Event::Succeeded(ok)),
        d.step() is Bounds ==> d.awaits(Event::Edges(None)) && d.awaits(Event::Edges(Some(edges))),
        d.step() is ReadValue ==> d.awaits(Event::Value(v)),
        d.step() is Launch || d.step() is Sleep || d.step() is Place || d.step() is Foreground
            || d.step() is Click || d.step() is Focus || d.step() is SelectAll || d.step() is Paste
            || d.step() is Type || d.step() is Enter || d.step() is HandBack ==> d.awaits(
            Event::Done,
        ),
        d.step() is Finish <==> d.phase is Done || d.phase is NoWindow || d.phase is NoInput,
{
}

} // verus!
