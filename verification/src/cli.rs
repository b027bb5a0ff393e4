//! Command line parsing. Three flags don't justify a dependency.
use vstd::prelude::*;

use crate::text::{joined, same};

verus! {

/// What to do with the arguments we were given.
#[derive(Debug)]
pub enum Invocation {
    Run(Options),
    /// Stop the process that quick capture left running.
    StopDaemon(Options),
    Help,
    Version,
    /// The message explains what was wrong.
    Invalid(String),
}

#[derive(Debug, Default, Clone, Copy, PartialEq, Eq, Structural)]
pub struct Options {
    /// Quick capture: a floating panel that records the moment it opens and
    /// puts the transcript on the clipboard as it closes.
    pub quick: bool,
}

pub const USAGE: &'static str = "\
yapper — push-to-talk speech-to-text for Wayland

USAGE:
    yapper [OPTIONS]

OPTIONS:
    -q, --quick      Quick capture: open as a floating panel, start recording
                     immediately, and copy the transcript to the clipboard on
                     close. Meant to be bound to a key.
        --stop-daemon
                     Stop the process quick capture leaves running, and free
                     the memory its model takes up
    -h, --help       Print this help
    -V, --version    Print the version

While running:
    Ctrl+Space       Start recording
    Enter or Space   Finish, transcribe and copy
    Escape           Discard the recording
    Ctrl+C           Copy the selected transcript
    Delete           Delete the selected transcript
    Ctrl+,           Open preferences

    pkill -USR1 yapper toggles recording without the window being focused.
";

/// What one argument asks for.
pub enum Meaning {
    Quick,
    Stop,
    Help,
    Version,
    Unknown,
}

/// What one argument asks for.
pub open spec fn meaning(argument: Seq<char>) -> Meaning {
    if argument == "-q"@ || argument == "--quick"@ {
        Meaning::Quick
    } else if argument == "--stop-daemon"@ {
        Meaning::Stop
    } else if argument == "-h"@ || argument == "--help"@ {
        Meaning::Help
    } else if argument == "-V"@ || argument == "--version"@ {
        Meaning::Version
    } else {
        Meaning::Unknown
    }
}

/// Whether an argument leaves the decision to the ones after it.
pub open spec fn goes_on(argument: Seq<char>) -> bool {
    meaning(argument) is Quick || meaning(argument) is Stop
}

/// Whether this is the argument that decides: the first that does not leave the
/// decision to the ones after it.
pub open spec fn decides(args: Seq<String>, at: int) -> bool {
    &&& 0 <= at < args.len()
    &&& !goes_on(args[at]@)
    &&& forall|i: int| 0 <= i < at ==> goes_on((#[trigger] args[i])@)
}

/// Whether no argument decides.
pub open spec fn undecided(args: Seq<String>) -> bool {
    forall|i: int| 0 <= i < args.len() ==> goes_on((#[trigger] args[i])@)
}

/// Whether quick capture is asked for.
pub open spec fn asks_quick(args: Seq<String>) -> bool {
    exists|i: int| 0 <= i < args.len() && meaning((#[trigger] args[i])@) is Quick
}

/// Whether stopping is asked for.
pub open spec fn asks_stop(args: Seq<String>) -> bool {
    exists|i: int| 0 <= i < args.len() && meaning((#[trigger] args[i])@) is Stop
}

/// Read the arguments, in order. The first that asks for help or for the version
/// is answered whatever came before it; so is the first that means nothing.
pub fn parse(args: Vec<String>) -> (invocation: Invocation)
    ensures
        match invocation {
            Invocation::Run(options) => {
                &&& undecided(args@)
                &&& !asks_stop(args@)
                &&& options.quick == asks_quick(args@)
            },
            Invocation::StopDaemon(options) => {
                &&& undecided(args@)
                &&& asks_stop(args@)
                &&& options.quick == asks_quick(args@)
            },
            Invocation::Help => exists|at: int| #[trigger]
                decides(args@, at) && meaning(args@[at]@) is Help,
            Invocation::Version => exists|at: int| #[trigger]
                decides(args@, at) && meaning(args@[at]@) is Version,
            Invocation::Invalid(message) => exists|at: int| #[trigger]
                decides(args@, at) && meaning(args@[at]@) is Unknown && message@
                    == "unrecognised argument: "@ + args@[at]@,
        },
{
    let mut options = Options { quick: false };
    let mut stop: bool = false;
    let count: usize = args.len();
    let mut at: usize = 0;
    while at < count
        invariant
            count == args@.len(),
            at <= count,
            forall|i: int| 0 <= i < at ==> goes_on((#[trigger] args@[i])@),
            options.quick == exists|i: int| 0 <= i < at && meaning((#[trigger] args@[i])@) is Quick,
            stop == exists|i: int| 0 <= i < at && meaning((#[trigger] args@[i])@) is Stop,
        decreases count - at,
    {
        let argument = args[at].as_str();
        if same(argument, "-q") || same(argument, "--quick") {
            options.quick = true;
        } else if same(argument, "--stop-daemon") {
            stop = true;
        } else if same(argument, "-h") || same(argument, "--help") {
            assert(decides(args@, at as int));
            return Invocation::Help;
        } else if same(argument, "-V") || same(argument, "--version") {
            assert(decides(args@, at as int));
            return Invocation::Version;
        } else {
            assert(decides(args@, at as int));
            return Invocation::Invalid(joined("unrecognised argument: ", argument));
        }
        at += 1;
    }
    if stop {
        Invocation::StopDaemon(options)
    } else {
        Invocation::Run(options)
    }
}

/// No more than one argument decides, so a command line means one thing.
pub proof fn one_argument_decides(args: Seq<String>, i: int, j: int)
    requires
        decides(args, i),
        decides(args, j),
    ensures
        i == j,
{
    if i < j {
        assert(goes_on(args[i]@));
    }
    if j < i {
        assert(goes_on(args[j]@));
    }
}

impl Options {
    /// Whether a transcript is to be typed: only ever when the settings say so,
    /// and quick capture does not ask them.
    pub fn type_output(self) -> (typed: bool)
        ensures
            !typed,
    {
        false
    }

    /// Whether a transcript is to be copied: it is what quick capture is for.
    pub fn copy_output(self) -> (copied: bool)
        ensures
            copied == self.quick,
    {
        self.quick
    }

    /// The name the process goes by. Quick capture gets its own so a compositor
    /// rule can target it, and so it doesn't fold into an already-running normal
    /// window.
    pub fn application_id(self) -> (id: &'static str)
        ensures
            id@ == if self.quick {
                QUICK_APP_ID@
            } else {
                APP_ID@
            },
    {
        if self.quick {
            QUICK_APP_ID
        } else {
            APP_ID
        }
    }
}

pub const APP_ID: &'static str = "dev.yapper.Yapper";

pub const QUICK_APP_ID: &'static str = "dev.yapper.Yapper.Quick";

/// What the process sets out to do.
#[derive(Debug)]
pub enum Launch {
    Usage,
    Version,
    /// Say what was wrong, and how it should have been said.
    Refuse(String),
    /// Quick capture would lose what it copied.
    NoClipboard,
    StopDaemon,
    Run(Options),
}

/// Why quick capture will not start without wl-clipboard.
pub const NO_CLIPBOARD: &'static str = "--copy needs wl-clipboard installed — GTK's own clipboard is dropped when the process exits";

/// What the process sets out to do. Quick capture hands the clipboard off and
/// exits, so it needs a clipboard that outlives the process. GTK's own does not.
pub fn launch(invocation: Invocation, has_wl_copy: bool) -> (launch: Launch)
    ensures
        match invocation {
            Invocation::Help => launch is Usage,
            Invocation::Version => launch is Version,
            Invocation::Invalid(message) => launch == Launch::Refuse(message),
            Invocation::Run(options) => if options.quick && !has_wl_copy {
                launch is NoClipboard
            } else {
                launch == Launch::Run(options)
            },
            Invocation::StopDaemon(options) => if options.quick && !has_wl_copy {
                launch is NoClipboard
            } else {
                launch is StopDaemon
            },
        },
{
    match invocation {
        Invocation::Help => Launch::Usage,
        Invocation::Version => Launch::Version,
        Invocation::Invalid(message) => Launch::Refuse(message),
        Invocation::Run(options) => if options.quick && options.copy_output() && !has_wl_copy {
            Launch::NoClipboard
        } else {
            Launch::Run(options)
        },
        Invocation::StopDaemon(options) => if options.quick && options.copy_output()
            && !has_wl_copy {
            Launch::NoClipboard
        } else {
            Launch::StopDaemon
        },
    }
}

/// What stopping came to, given whether there was a process to stop.
pub fn stopped_message(running: bool) -> (message: &'static str)
    ensures
        message@ == if running {
            "yapper: quick capture stopped"@
        } else {
            "yapper: no quick capture process running"@
        },
{
    if running {
        "yapper: quick capture stopped"
    } else {
        "yapper: no quick capture process running"
    }
}

/// What each argument asks for: quick capture, the end of the process it left, help or
/// the version, by their long names and by their short ones, and nothing else.
pub proof fn arguments_go_by_their_names(argument: Seq<char>)
    ensures
        meaning(argument) is Quick <==> argument == "-q"@ || argument == "--quick"@,
        meaning(argument) is Stop <==> argument == "--stop-daemon"@,
        meaning(argument) is Help <==> argument == "-h"@ || argument == "--help"@,
        meaning(argument) is Version <==> argument == "-V"@ || argument == "--version"@,
{
    reveal_strlit("-q");
    reveal_strlit("--quick");
    reveal_strlit("--stop-daemon");
    reveal_strlit("-h");
    reveal_strlit("--help");
    reveal_strlit("-V");
    reveal_strlit("--version");
    assert("-q"@[1] == 'q' && "-h"@[1] == 'h' && "-V"@[1] == 'V');
    assert("-q"@ != "-h"@ && "-q"@ != "-V"@ && "-h"@ != "-V"@);
    assert("--quick"@.len() == 7 && "--help"@.len() == 6 && "--version"@.len() == 9);
}

/// The first argument that is neither of the two that leave the decision open makes it;
/// where there is none, quick capture and stopping are asked for wherever they stand.
pub proof fn the_first_other_argument_decides(args: Seq<String>, at: int)
    requires
        0 <= at <= args.len(),
        forall|i: int|
            0 <= i < at ==> (#[trigger] args[i])@ == "-q"@ || args[i]@ == "--quick"@ || args[i]@
                == "--stop-daemon"@,
        at < args.len() ==> args[at]@ != "-q"@ && args[at]@ != "--quick"@ && args[at]@
            != "--stop-daemon"@,
    ensures
        at < args.len() ==> decides(args, at) && !undecided(args),
        at == args.len() ==> undecided(args) && forall|i: int| !#[trigger] decides(args, i),
        asks_quick(args) <==> exists|i: int|
            0 <= i < args.len() && ((#[trigger] args[i])@ == "-q"@ || args[i]@ == "--quick"@),
        asks_stop(args) <==> exists|i: int|
            0 <= i < args.len() && (#[trigger] args[i])@ == "--stop-daemon"@,
{
    assert forall|i: int| 0 <= i < args.len() implies ({
        &&& meaning((#[trigger] args[i])@) is Quick <==> args[i]@ == "-q"@ || args[i]@
            == "--quick"@
        &&& meaning(args[i]@) is Stop <==> args[i]@ == "--stop-daemon"@
    }) by {
        arguments_go_by_their_names(args[i]@);
    }
}

/// Quick capture starts only where what it copies will outlive it; nothing else asks for
/// that, and what is run is run with the options that were given.
pub proof fn quick_capture_needs_a_lasting_clipboard(
    invocation: Invocation,
    has_wl_copy: bool,
    found: Launch,
)
    requires
        call_ensures(launch, (invocation, has_wl_copy), found),
    ensures
        found is NoClipboard ==> !has_wl_copy,
        invocation matches Invocation::Run(options) ==> (options.quick && !has_wl_copy
            <==> found is NoClipboard) && (found matches Launch::Run(run) ==> run == options) && (
        found is NoClipboard || found is Run),
        invocation matches Invocation::StopDaemon(options) ==> (options.quick && !has_wl_copy
            <==> found is NoClipboard) && (found is NoClipboard || found is StopDaemon),
        invocation is Help <==> found is Usage,
        invocation is Version <==> found is Version,
        invocation matches Invocation::Invalid(message) ==> found == Launch::Refuse(message),
{
}

} // verus!
