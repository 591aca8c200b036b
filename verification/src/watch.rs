//! Watching the chat for new messages.

use vstd::prelude::*;

use crate::text;
use crate::updater::CURRENT_VERSION;

verus! {

/// The fewest seconds between two looks at the chat.
pub const MIN_INTERVAL: u64 = 30;

/// The seconds between two looks for an update.
pub const UPDATE_SECS: u64 = 21600;

/// What a look at the chat leads to.
#[derive(Clone, Copy)]
pub enum Outcome {
    /// The messages from before the start are not answered: note the latest.
    Remember,
    /// There is a new message: note it, and open a window to answer it.
    Open,
    /// There is nothing new.
    Nothing,
}

/// What is kept between two looks at the chat.
pub struct Watcher {
    /// Whether a look at the chat succeeded yet.
    pub initialized: bool,
    /// Why the last look failed, and empty where it succeeded.
    pub last_err: String,
}

/// What came of a look at the chat.
pub enum Look {
    /// It failed, for this reason.
    Failed(Seq<char>),
    /// It succeeded, and found a new message, or not.
    Found(bool),
}

/// Whether a look at the chat succeeded among the first `n`.
pub open spec fn succeeded(looks: Seq<Look>, n: int) -> bool {
    exists|i: int| 0 <= i < n && (#[trigger] looks[i]) is Found
}

/// Why the last of the first `n` looks failed, and empty where it succeeded or there was none.
pub open spec fn reason(looks: Seq<Look>, n: int) -> Seq<char> {
    if n <= 0 {
        Seq::empty()
    } else {
        match looks[n - 1] {
            Look::Failed(msg) => msg,
            Look::Found(_) => Seq::empty(),
        }
    }
}

impl Watcher {
    /// This is what is kept after the first `n` looks.
    pub open spec fn is_after(self, looks: Seq<Look>, n: int) -> bool {
        self.initialized == succeeded(looks, n) && self.last_err@ == reason(looks, n)
    }

    /// This follows from what was kept before, by one more look.
    pub open spec fn follows(self, before: Watcher, look: Look) -> bool {
        match look {
            Look::Failed(msg) => {
                &&& self.initialized == before.initialized
                &&& self.last_err@ == msg
            },
            Look::Found(_) => self.initialized && self.last_err@.len() == 0,
        }
    }
}

/// The seconds to wait before the next look at the chat.
pub fn pause_secs(interval_secs: u64) -> (r: u64)
    ensures
        r == if interval_secs < MIN_INTERVAL {
            MIN_INTERVAL
        } else {
            interval_secs
        },
        r >= 30,
        r >= interval_secs,
        r == 30 || r == interval_secs,
{
    if interval_secs < MIN_INTERVAL {
        MIN_INTERVAL
    } else {
        interval_secs
    }
}

/// Whether to look for an update, this many seconds after the last look.
pub fn update_due(elapsed_secs: u64) -> (r: bool)
    ensures
        r == (elapsed_secs >= UPDATE_SECS),
        r <==> elapsed_secs >= 6 * 60 * 60,
{
    elapsed_secs >= UPDATE_SECS
}

impl Watcher {
    /// Nothing was looked at yet.
    pub fn new() -> (r: Watcher)
        ensures
            !r.initialized,
            r.last_err@.len() == 0,
    {
        Watcher { initialized: false, last_err: String::new() }
    }

    /// Takes the reason why a look failed, and gives what to log: nothing where the look before
    /// failed for the same reason.
    pub fn on_error(&mut self, msg: String) -> (r: Option<String>)
        ensures
            final(self).follows(*old(self), Look::Failed(msg@)),
            match r {
                Some(line) => msg@ != old(self).last_err@ && line@ == "Slack確認に失敗: "@ + msg@,
                None => msg@ == old(self).last_err@,
            },
    {
        if text::same_text(msg.as_str(), self.last_err.as_str()) {
            None
        } else {
            let line: String = text::concat("Slack確認に失敗: ", msg.as_str());
            self.last_err = msg;
            Some(line)
        }
    }

    /// Takes whether a look that succeeded found a new message: one that is later than the one that
    /// was noted or, where none was noted yet, later than the start. Gives what to do, and whether
    /// to log that looking succeeds again.
    pub fn on_look(&mut self, newer: bool) -> (r: (Outcome, bool))
        ensures
            final(self).follows(*old(self), Look::Found(newer)),
            r.1 == (old(self).last_err@.len() > 0),
            r.0 == if newer {
                Outcome::Open
            } else if !old(self).initialized {
                Outcome::Remember
            } else {
                Outcome::Nothing
            },
    {
        let recovered: bool = !self.last_err.as_str().is_empty();
        if recovered {
            self.last_err = String::new();
        }
        let first: bool = !self.initialized;
        self.initialized = true;
        if newer {
            (Outcome::Open, recovered)
        } else if first {
            (Outcome::Remember, recovered)
        } else {
            (Outcome::Nothing, recovered)
        }
    }
}

/// What is kept tells all that matters of the looks so far: whether one of them succeeded, and why
/// the last one failed.
pub proof fn law_watcher_keeps_track(before: Watcher, now: Watcher, looks: Seq<Look>, n: int)
    requires
        0 <= n < looks.len(),
        before.is_after(looks, n),
        now.follows(before, looks[n]),
    ensures
        now.is_after(looks, n + 1),
{
    if succeeded(looks, n) {
        let i = choose|i: int| 0 <= i < n && (#[trigger] looks[i]) is Found;
        assert(looks[i] is Found);
    }
    if looks[n] is Found {
        assert(succeeded(looks, n + 1));
        assert(now.last_err@ =~= Seq::<char>::empty());
    } else if succeeded(looks, n + 1) {
        let i = choose|i: int| 0 <= i < n + 1 && (#[trigger] looks[i]) is Found;
        assert(i < n);
    }
}

/// What to log at the start.
pub fn start_message(subdomain: &str) -> (r: String)
    ensures
        r@ == "常駐を開始 v"@ + CURRENT_VERSION@ + "（"@ + subdomain@ + "）"@,
{
    let mut out: String = text::copy("常駐を開始 v");
    out.push_str(CURRENT_VERSION);
    out.push_str("（");
    out.push_str(subdomain);
    out.push_str("）");
    out
}

/// A failure leaves it as it was whether a look succeeded, and is kept as the last reason. A look
/// that succeeds is noted, and forgets the reason.
pub proof fn law_look_is_noted(before: Watcher, now: Watcher, msg: Seq<char>, newer: bool)
    ensures
        now.follows(before, Look::Failed(msg)) <==> now.initialized == before.initialized
            && now.last_err@ == msg,
        now.follows(before, Look::Found(newer)) <==> now.initialized && now.last_err@.len() == 0,
{
}

} // verus!
