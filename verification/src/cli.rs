//! The commands of the program.

use vstd::prelude::*;

use crate::json::opt_view;
use crate::text;

verus! {

/// A command.
pub enum Command {
    /// List the messages that the chat client shows.
    SlackRead,
    /// List what the assistant application shows.
    CopilotRead,
    /// Type a text into the assistant application without submitting it.
    CopilotType { text: String },
    /// Ask the assistant application.
    CopilotAsk { text: String },
    /// Show whose session is used.
    SlackAuth,
    /// Draft a reply, and post it where `send` says so.
    Reply { send: bool },
    /// Open the window with a reply to look at.
    ReplyGui,
    /// Watch the chat.
    Watch,
    /// Log what the user works with.
    Activity,
    /// Start the program at logon, or do not.
    Autostart { on: bool },
    /// Report on a day's work, and ask what could be automated where `ai` says so.
    Report { date: Option<String>, ai: bool },
    /// Learn how the user writes.
    Learn,
    /// Bring the window of the assistant application back on the screen.
    CopilotShow,
    /// Update the program.
    Update,
    /// Show the version.
    Version,
    /// Show the commands.
    Help,
    /// Open the window with the menu.
    Home,
}

/// What is seen of a command.
pub enum CommandView {
    /// List the messages that the chat client shows.
    SlackRead,
    /// List what the assistant application shows.
    CopilotRead,
    /// Type a text into the assistant application without submitting it.
    CopilotType { text: Seq<char> },
    /// Ask the assistant application.
    CopilotAsk { text: Seq<char> },
    /// Show whose session is used.
    SlackAuth,
    /// Draft a reply, and post it where `send` says so.
    Reply { send: bool },
    /// Open the window with a reply to look at.
    ReplyGui,
    /// Watch the chat.
    Watch,
    /// Log what the user works with.
    Activity,
    /// Start the program at logon, or do not.
    Autostart { on: bool },
    /// Report on a day's work, and ask what could be automated where `ai` says so.
    Report { date: Option<Seq<char>>, ai: bool },
    /// Learn how the user writes.
    Learn,
    /// Bring the window of the assistant application back on the screen.
    CopilotShow,
    /// Update the program.
    Update,
    /// Show the version.
    Version,
    /// Show the commands.
    Help,
    /// Open the window with the menu.
    Home,
}

impl Command {
    /// What is seen of the command.
    pub open spec fn view(&self) -> CommandView {
        match self {
            Command::SlackRead => CommandView::SlackRead,
            Command::CopilotRead => CommandView::CopilotRead,
            Command::CopilotType { text } => CommandView::CopilotType { text: text@ },
            Command::CopilotAsk { text } => CommandView::CopilotAsk { text: text@ },
            Command::SlackAuth => CommandView::SlackAuth,
            Command::Reply { send } => CommandView::Reply { send: *send },
            Command::ReplyGui => CommandView::ReplyGui,
            Command::Watch => CommandView::Watch,
            Command::Activity => CommandView::Activity,
            Command::Autostart { on } => CommandView::Autostart { on: *on },
            Command::Report { date, ai } => CommandView::Report { date: opt_view(*date), ai: *ai },
            Command::Learn => CommandView::Learn,
            Command::CopilotShow => CommandView::CopilotShow,
            Command::Update => CommandView::Update,
            Command::Version => CommandView::Version,
            Command::Help => CommandView::Help,
            Command::Home => CommandView::Home,
        }
    }
}

/// The argument at this place, where there is one. The program itself is at the first place.
pub open spec fn argument(args: Seq<Seq<char>>, i: int) -> Option<Seq<char>> {
    if 0 <= i < args.len() {
        Some(args[i])
    } else {
        None
    }
}

/// The command that arguments give. Without one, and with one that is not known, the window with
/// the menu is opened. A text that is missing is missed.
pub open spec fn command_of(args: Seq<Seq<char>>) -> Result<CommandView, Seq<char>> {
    let second = argument(args, 2);
    match argument(args, 1) {
        None => Ok(CommandView::Home),
        Some(c) => if c == "slack-read"@ {
            Ok(CommandView::SlackRead)
        } else if c == "copilot-read"@ {
            Ok(CommandView::CopilotRead)
        } else if c == "copilot-type"@ {
            match second {
                Some(text) => Ok(CommandView::CopilotType { text }),
                None => Err("usage: tagami copilot-type \"text\""@),
            }
        } else if c == "copilot-ask"@ {
            match second {
                Some(text) => Ok(CommandView::CopilotAsk { text }),
                None => Err("usage: tagami copilot-ask \"prompt\""@),
            }
        } else if c == "slack-auth"@ {
            Ok(CommandView::SlackAuth)
        } else if c == "reply"@ {
            Ok(CommandView::Reply { send: args.contains("--send"@) })
        } else if c == "reply-gui"@ {
            Ok(CommandView::ReplyGui)
        } else if c == "watch"@ {
            Ok(CommandView::Watch)
        } else if c == "activity"@ {
            Ok(CommandView::Activity)
        } else if c == "autostart"@ {
            Ok(CommandView::Autostart { on: second != Some("off"@) })
        } else if c == "report"@ {
            Ok(
                CommandView::Report {
                    date: match second {
                        Some(d) if !text::begins_with(d, "--"@) => Some(d),
                        _ => None,
                    },
                    ai: args.contains("--ai"@),
                },
            )
        } else if c == "learn"@ {
            Ok(CommandView::Learn)
        } else if c == "copilot-show"@ {
            Ok(CommandView::CopilotShow)
        } else if c == "update"@ {
            Ok(CommandView::Update)
        } else if c == "version"@ {
            Ok(CommandView::Version)
        } else if c == "help"@ || c == "-h"@ || c == "--help"@ {
            Ok(CommandView::Help)
        } else {
            Ok(CommandView::Home)
        },
    }
}

fn has_argument(args: &Vec<String>, name: &str) -> (r: bool)
    ensures
        r == text::texts(args@).contains(name@),
{
    let mut i: usize = 0;
    while i < args.len()
        invariant
            i <= args@.len(),
            forall|j: int| 0 <= j < i ==> (#[trigger] args@[j])@ != name@,
        decreases args@.len() - i,
    {
        if text::same_text(args[i].as_str(), name) {
            assert(text::texts(args@)[i as int] == name@);
            return true;
        }
        i = i + 1;
    }
    proof {
        let all = text::texts(args@);
        if all.contains(name@) {
            let j = choose|j: int| 0 <= j < all.len() && all[j] == name@;
            assert(args@[j]@ == name@);
        }
    }
    false
}

fn argument_at(args: &Vec<String>, i: usize) -> (r: Option<String>)
    ensures
        opt_view(r) == argument(text::texts(args@), i as int),
{
    if i < args.len() {
        Some(args[i].clone())
    } else {
        None
    }
}

/// The command that the arguments of the program give, the program itself being the first of them,
/// or how to use it where a text is missing.
pub fn parse_command(args: &Vec<String>) -> (r: Result<Command, &'static str>)
    ensures
        match command_of(text::texts(args@)) {
            Ok(c) => r matches Ok(x) && x@ == c,
            Err(usage) => r matches Err(s) && s@ == usage,
        },
{
    let second: Option<String> = argument_at(args, 2);
    let cmd: String = match argument_at(args, 1) {
        Some(c) => c,
        None => {
            return Ok(Command::Home);
        },
    };
    let c: &str = cmd.as_str();
    if text::same_text(c, "slack-read") {
        Ok(Command::SlackRead)
    } else if text::same_text(c, "copilot-read") {
        Ok(Command::CopilotRead)
    } else if text::same_text(c, "copilot-type") {
        match second {
            Some(text) => Ok(Command::CopilotType { text }),
            None => Err("usage: tagami copilot-type \"text\""),
        }
    } else if text::same_text(c, "copilot-ask") {
        match second {
            Some(text) => Ok(Command::CopilotAsk { text }),
            None => Err("usage: tagami copilot-ask \"prompt\""),
        }
    } else if text::same_text(c, "slack-auth") {
        Ok(Command::SlackAuth)
    } else if text::same_text(c, "reply") {
        Ok(Command::Reply { send: has_argument(args, "--send") })
    } else if text::same_text(c, "reply-gui") {
        Ok(Command::ReplyGui)
    } else if text::same_text(c, "watch") {
        Ok(Command::Watch)
    } else if text::same_text(c, "activity") {
        Ok(Command::Activity)
    } else if text::same_text(c, "autostart") {
        let off: bool = match &second {
            Some(s) => text::same_text(s.as_str(), "off"),
            None => false,
        };
        Ok(Command::Autostart { on: !off })
    } else if text::same_text(c, "report") {
        let ai: bool = has_argument(args, "--ai");
        let date: Option<String> = match second {
            Some(d) => if text::starts_with(d.as_str(), "--") {
                None
            } else {
                Some(d)
            },
            None => None,
        };
        Ok(Command::Report { date, ai })
    } else if text::same_text(c, "learn") {
        Ok(Command::Learn)
    } else if text::same_text(c, "copilot-show") {
        Ok(Command::CopilotShow)
    } else if text::same_text(c, "update") {
        Ok(Command::Update)
    } else if text::same_text(c, "version") {
        Ok(Command::Version)
    } else if text::same_text(c, "help") || text::same_text(c, "-h") || text::same_text(
        c,
        "--help",
    ) {
        Ok(Command::Help)
    } else {
        Ok(Command::Home)
    }
}

/// Nothing is posted unless it is asked for: only the command to reply can post, and only where an
/// argument says so.
pub proof fn law_sending_is_asked_for(args: Seq<Seq<char>>)
    ensures
        command_of(args) matches Ok(CommandView::Reply { send: true }) ==> args.contains(
            "--send"@,
        ) && argument(args, 1) == Some("reply"@),
{
}

/// Each command is told by its word, which is the first argument, and the window with the menu is
/// opened where there is no argument or the word is none of these.
pub proof fn law_commands_are_told_by_their_words(args: Seq<Seq<char>>)
    ensures
        args.len() < 2 ==> command_of(args) == Ok::<CommandView, Seq<char>>(CommandView::Home),
        args.len() >= 2 ==> {
            let c = args[1];
            let is = |v: CommandView| command_of(args) == Ok::<CommandView, Seq<char>>(v);
            &&& c == "slack-read"@ ==> is(CommandView::SlackRead)
            &&& c == "copilot-read"@ ==> is(CommandView::CopilotRead)
            &&& c == "slack-auth"@ ==> is(CommandView::SlackAuth)
            &&& c == "reply-gui"@ ==> is(CommandView::ReplyGui)
            &&& c == "watch"@ ==> is(CommandView::Watch)
            &&& c == "activity"@ ==> is(CommandView::Activity)
            &&& c == "learn"@ ==> is(CommandView::Learn)
            &&& c == "copilot-show"@ ==> is(CommandView::CopilotShow)
            &&& c == "update"@ ==> is(CommandView::Update)
            &&& c == "version"@ ==> is(CommandView::Version)
            &&& c == "help"@ ==> is(CommandView::Help)
            &&& c == "-h"@ ==> is(CommandView::Help)
            &&& c == "--help"@ ==> is(CommandView::Help)
            &&& c == "reply"@ ==> is(CommandView::Reply { send: args.contains("--send"@) })
            &&& !(seq![
                "slack-read"@,
                "copilot-read"@,
                "slack-auth"@,
                "reply-gui"@,
                "watch"@,
                "activity"@,
                "learn"@,
                "copilot-show"@,
                "update"@,
                "version"@,
                "help"@,
                "-h"@,
                "--help"@,
                "copilot-type"@,
                "copilot-ask"@,
                "reply"@,
                "autostart"@,
                "report"@,
            ].contains(c)) ==> is(CommandView::Home)
        },
{
    reveal_strlit("slack-read");
    reveal_strlit("copilot-read");
    reveal_strlit("slack-auth");
    reveal_strlit("reply-gui");
    reveal_strlit("watch");
    reveal_strlit("activity");
    reveal_strlit("learn");
    reveal_strlit("copilot-show");
    reveal_strlit("update");
    reveal_strlit("version");
    reveal_strlit("help");
    reveal_strlit("-h");
    reveal_strlit("--help");
    reveal_strlit("copilot-type");
    reveal_strlit("copilot-ask");
    reveal_strlit("reply");
    reveal_strlit("autostart");
    reveal_strlit("report");
    if args.len() >= 2 {
        let c = args[1];
        let known = seq![
            "slack-read"@,
            "copilot-read"@,
            "slack-auth"@,
            "reply-gui"@,
            "watch"@,
            "activity"@,
            "learn"@,
            "copilot-show"@,
            "update"@,
            "version"@,
            "help"@,
            "-h"@,
            "--help"@,
            "copilot-type"@,
            "copilot-ask"@,
            "reply"@,
            "autostart"@,
            "report"@,
        ];
        assert(known[0] == "slack-read"@);
        assert(known[1] == "copilot-read"@);
        assert(known[2] == "slack-auth"@);
        assert(known[3] == "reply-gui"@);
        assert(known[4] == "watch"@);
        assert(known[5] == "activity"@);
        assert(known[6] == "learn"@);
        assert(known[7] == "copilot-show"@);
        assert(known[8] == "update"@);
        assert(known[9] == "version"@);
        assert(known[10] == "help"@);
        assert(known[11] == "-h"@);
        assert(known[12] == "--help"@);
        assert(known[13] == "copilot-type"@);
        assert(known[14] == "copilot-ask"@);
        assert(known[15] == "reply"@);
        assert(known[16] == "autostart"@);
        assert(known[17] == "report"@);
        lemma_words_differ(c);
    }
}

/// A command that needs a text takes the second argument whole, and misses it where there is none.
/// The launcher is switched off by that word only. A report is about the day that the second
/// argument names, unless that is an option.
pub proof fn law_arguments_are_taken(args: Seq<Seq<char>>)
    requires
        args.len() >= 2,
    ensures
        args[1] == "copilot-type"@ ==> command_of(args) == if args.len() > 2 {
            Ok(CommandView::CopilotType { text: args[2] })
        } else {
            Err("usage: tagami copilot-type \"text\""@)
        },
        args[1] == "copilot-ask"@ ==> command_of(args) == if args.len() > 2 {
            Ok(CommandView::CopilotAsk { text: args[2] })
        } else {
            Err("usage: tagami copilot-ask \"prompt\""@)
        },
        args[1] == "autostart"@ ==> command_of(args) == Ok::<CommandView, Seq<char>>(
            CommandView::Autostart { on: args.len() <= 2 || args[2] != "off"@ },
        ),
        args[1] == "report"@ ==> command_of(args) == Ok::<CommandView, Seq<char>>(
            CommandView::Report {
                date: if args.len() > 2 && !text::begins_with(args[2], "--"@) {
                    Some(args[2])
                } else {
                    None
                },
                ai: args.contains("--ai"@),
            },
        ),
{
    lemma_words_differ(args[1]);
}

/// No two commands have the same word.
proof fn lemma_words_differ(c: Seq<char>)
    ensures
        c == "copilot-read"@ ==> c != "slack-read"@,
        c == "copilot-type"@ ==> c != "slack-read"@ && c != "copilot-read"@,
        c == "copilot-ask"@ ==> c != "slack-read"@ && c != "copilot-read"@ && c != "copilot-type"@,
        c == "slack-auth"@ ==> {
            &&& c != "slack-read"@
            &&& c != "copilot-read"@
            &&& c != "copilot-type"@
            &&& c != "copilot-ask"@
        },
        c == "reply"@ ==> {
            &&& c != "slack-read"@
            &&& c != "copilot-read"@
            &&& c != "copilot-type"@
            &&& c != "copilot-ask"@
            &&& c != "slack-auth"@
        },
        c == "reply-gui"@ ==> {
            &&& c != "slack-read"@
            &&& c != "copilot-read"@
            &&& c != "copilot-type"@
            &&& c != "copilot-ask"@
            &&& c != "slack-auth"@
            &&& c != "reply"@
        },
        c == "watch"@ ==> {
            &&& c != "slack-read"@
            &&& c != "copilot-read"@
            &&& c != "copilot-type"@
            &&& c != "copilot-ask"@
            &&& c != "slack-auth"@
            &&& c != "reply"@
            &&& c != "reply-gui"@
        },
        c == "activity"@ ==> {
            &&& c != "slack-read"@
            &&& c != "copilot-read"@
            &&& c != "copilot-type"@
            &&& c != "copilot-ask"@
            &&& c != "slack-auth"@
            &&& c != "reply"@
            &&& c != "reply-gui"@
            &&& c != "watch"@
        },
        c == "autostart"@ ==> {
            &&& c != "slack-read"@
            &&& c != "copilot-read"@
            &&& c != "copilot-type"@
            &&& c != "copilot-ask"@
            &&& c != "slack-auth"@
            &&& c != "reply"@
            &&& c != "reply-gui"@
            &&& c != "watch"@
            &&& c != "activity"@
        },
        c == "report"@ ==> {
            &&& c != "slack-read"@
            &&& c != "copilot-read"@
            &&& c != "copilot-type"@
            &&& c != "copilot-ask"@
            &&& c != "slack-auth"@
            &&& c != "reply"@
            &&& c != "reply-gui"@
            &&& c != "watch"@
            &&& c != "activity"@
            &&& c != "autostart"@
        },
        c == "learn"@ ==> {
            &&& c != "slack-read"@
            &&& c != "copilot-read"@
            &&& c != "copilot-type"@
            &&& c != "copilot-ask"@
            &&& c != "slack-auth"@
            &&& c != "reply"@
            &&& c != "reply-gui"@
            &&& c != "watch"@
            &&& c != "activity"@
            &&& c != "autostart"@
            &&& c != "report"@
        },
        c == "copilot-show"@ ==> {
            &&& c != "slack-read"@
            &&& c != "copilot-read"@
            &&& c != "copilot-type"@
            &&& c != "copilot-ask"@
            &&& c != "slack-auth"@
            &&& c != "reply"@
            &&& c != "reply-gui"@
            &&& c != "watch"@
            &&& c != "activity"@
            &&& c != "autostart"@
            &&& c != "report"@
            &&& c != "learn"@
        },
        c == "update"@ ==> {
            &&& c != "slack-read"@
            &&& c != "copilot-read"@
            &&& c != "copilot-type"@
            &&& c != "copilot-ask"@
            &&& c != "slack-auth"@
            &&& c != "reply"@
            &&& c != "reply-gui"@
            &&& c != "watch"@
            &&& c != "activity"@
            &&& c != "autostart"@
            &&& c != "report"@
            &&& c != "learn"@
            &&& c != "copilot-show"@
        },
        c == "version"@ ==> {
            &&& c != "slack-read"@
            &&& c != "copilot-read"@
            &&& c != "copilot-type"@
            &&& c != "copilot-ask"@
            &&& c != "slack-auth"@
            &&& c != "reply"@
            &&& c != "reply-gui"@
            &&& c != "watch"@
            &&& c != "activity"@
            &&& c != "autostart"@
            &&& c != "report"@
            &&& c != "learn"@
            &&& c != "copilot-show"@
            &&& c != "update"@
        },
        c == "help"@ ==> {
            &&& c != "slack-read"@
            &&& c != "copilot-read"@
            &&& c != "copilot-type"@
            &&& c != "copilot-ask"@
            &&& c != "slack-auth"@
            &&& c != "reply"@
            &&& c != "reply-gui"@
            &&& c != "watch"@
            &&& c != "activity"@
            &&& c != "autostart"@
            &&& c != "report"@
            &&& c != "learn"@
            &&& c != "copilot-show"@
            &&& c != "update"@
            &&& c != "version"@
        },
        c == "-h"@ ==> {
            &&& c != "slack-read"@
            &&& c != "copilot-read"@
            &&& c != "copilot-type"@
            &&& c != "copilot-ask"@
            &&& c != "slack-auth"@
            &&& c != "reply"@
            &&& c != "reply-gui"@
            &&& c != "watch"@
            &&& c != "activity"@
            &&& c != "autostart"@
            &&& c != "report"@
            &&& c != "learn"@
            &&& c != "copilot-show"@
            &&& c != "update"@
            &&& c != "version"@
        },
        c == "--help"@ ==> {
            &&& c != "slack-read"@
            &&& c != "copilot-read"@
            &&& c != "copilot-type"@
            &&& c != "copilot-ask"@
            &&& c != "slack-auth"@
            &&& c != "reply"@
            &&& c != "reply-gui"@
            &&& c != "watch"@
            &&& c != "activity"@
            &&& c != "autostart"@
            &&& c != "report"@
            &&& c != "learn"@
            &&& c != "copilot-show"@
            &&& c != "update"@
            &&& c != "version"@
        },
{
    reveal_strlit("slack-read");
    reveal_strlit("copilot-read");
    reveal_strlit("copilot-type");
    reveal_strlit("copilot-ask");
    reveal_strlit("slack-auth");
    reveal_strlit("reply");
    reveal_strlit("reply-gui");
    reveal_strlit("watch");
    reveal_strlit("activity");
    reveal_strlit("autostart");
    reveal_strlit("report");
    reveal_strlit("learn");
    reveal_strlit("copilot-show");
    reveal_strlit("update");
    reveal_strlit("version");
    reveal_strlit("help");
    reveal_strlit("-h");
    reveal_strlit("--help");
    assert("slack-read"@.len() == 10);
    assert("copilot-read"@.len() == 12);
    assert("copilot-type"@.len() == 12);
    assert("copilot-ask"@.len() == 11);
    assert("slack-auth"@.len() == 10);
    assert("reply"@.len() == 5);
    assert("reply-gui"@.len() == 9);
    assert("watch"@.len() == 5);
    assert("activity"@.len() == 8);
    assert("autostart"@.len() == 9);
    assert("report"@.len() == 6);
    assert("learn"@.len() == 5);
    assert("copilot-show"@.len() == 12);
    assert("update"@.len() == 6);
    assert("version"@.len() == 7);
    assert("help"@.len() == 4);
    assert("-h"@.len() == 2);
    assert("--help"@.len() == 6);
    assert("--help"@[0] == '-');
    assert("autostart"@[0] == 'a');
    assert("copilot-read"@[8] == 'r');
    assert("copilot-show"@[8] == 's');
    assert("copilot-type"@[8] == 't');
    assert("learn"@[0] == 'l');
    assert("reply"@[0] == 'r');
    assert("reply-gui"@[0] == 'r');
    assert("report"@[0] == 'r');
    assert("slack-auth"@[6] == 'a');
    assert("slack-read"@[6] == 'r');
    assert("update"@[0] == 'u');
    assert("watch"@[0] == 'w');
}

/// What is seen of a command is that command, with what it was given.
pub proof fn law_commands_are_seen(c: Command)
    ensures
        c is SlackRead <==> c@ is SlackRead,
        c is CopilotRead <==> c@ is CopilotRead,
        c is CopilotType <==> c@ is CopilotType,
        c is CopilotAsk <==> c@ is CopilotAsk,
        c is SlackAuth <==> c@ is SlackAuth,
        c is Reply <==> c@ is Reply,
        c is ReplyGui <==> c@ is ReplyGui,
        c is Watch <==> c@ is Watch,
        c is Activity <==> c@ is Activity,
        c is Autostart <==> c@ is Autostart,
        c is Report <==> c@ is Report,
        c is Learn <==> c@ is Learn,
        c is CopilotShow <==> c@ is CopilotShow,
        c is Update <==> c@ is Update,
        c is Version <==> c@ is Version,
        c is Help <==> c@ is Help,
        c is Home <==> c@ is Home,
        c matches Command::CopilotType { text } ==> c@ == (CommandView::CopilotType {
            text: text@,
        }),
        c matches Command::CopilotAsk { text } ==> c@ == (CommandView::CopilotAsk { text: text@ }),
        c matches Command::Reply { send } ==> c@ == (CommandView::Reply { send }),
        c matches Command::Autostart { on } ==> c@ == (CommandView::Autostart { on }),
        c matches Command::Report { date, ai } ==> c@ == (CommandView::Report {
            date: match date {
                Some(d) => Some(d@),
                None => None,
            },
            ai,
        }),
{
}

} // verus!
