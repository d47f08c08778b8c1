//! The command line of the window manager, and what wakes its loop.
use vstd::prelude::*;

use crate::text;

verus! {

#[derive(Debug)]
pub struct Args {
    pub config_path: Option<String>,
    pub check_config: bool,
    pub setup: bool,
}

/// What a command line asks for.
#[derive(Debug)]
pub enum Invocation {
    Run(Args),
    Version,
    Help,
    /// `--config` without a path.
    MissingPath,
    Unknown(String),
}

/// The same as mathematics.
#[verifier::ext_equal]
pub struct ArgsView {
    pub config_path: Option<Seq<char>>,
    pub check_config: bool,
    pub setup: bool,
}

#[verifier::ext_equal]
pub enum InvocationView {
    Run(ArgsView),
    Version,
    Help,
    MissingPath,
    Unknown(Seq<char>),
}

pub open spec fn args_view(a: Args) -> ArgsView {
    ArgsView {
        config_path: match a.config_path {
            Some(p) => Some(p@),
            None => None,
        },
        check_config: a.check_config,
        setup: a.setup,
    }
}

impl View for Invocation {
    type V = InvocationView;

    open spec fn view(&self) -> InvocationView {
        match *self {
            Invocation::Run(a) => InvocationView::Run(args_view(a)),
            Invocation::Version => InvocationView::Version,
            Invocation::Help => InvocationView::Help,
            Invocation::MissingPath => InvocationView::MissingPath,
            Invocation::Unknown(s) => InvocationView::Unknown(s@),
        }
    }
}

pub open spec fn is_either(s: Seq<char>, a: Seq<char>, b: Seq<char>) -> bool {
    s == a || s == b
}

/// What the arguments from `i` on ask for, after `so_far`. The first one that ends the reading
/// decides.
pub open spec fn parsed(args: Seq<Seq<char>>, so_far: ArgsView, i: int) -> InvocationView
    decreases args.len() - i,
{
    if i >= args.len() {
        InvocationView::Run(so_far)
    } else if is_either(args[i], "-c"@, "--config"@) {
        if i + 1 < args.len() {
            parsed(args, ArgsView { config_path: Some(args[i + 1]), ..so_far }, i + 2)
        } else {
            InvocationView::MissingPath
        }
    } else if args[i] == "--check-config"@ {
        parsed(args, ArgsView { check_config: true, ..so_far }, i + 1)
    } else if args[i] == "--setup"@ {
        parsed(args, ArgsView { setup: true, ..so_far }, i + 1)
    } else if is_either(args[i], "-v"@, "--version"@) {
        InvocationView::Version
    } else if is_either(args[i], "-h"@, "--help"@) {
        InvocationView::Help
    } else {
        InvocationView::Unknown(args[i])
    }
}

/// Reads a command line; the first of `args` is the program's own name.
pub fn parse_args(args: &Vec<String>) -> (r: Invocation)
    ensures
        r@ == parsed(
            text::texts(args@),
            ArgsView { config_path: None, check_config: false, setup: false },
            1,
        ),
{
    let ghost all = text::texts(args@);
    let ghost fresh = ArgsView { config_path: None, check_config: false, setup: false };
    let mut out = Args { config_path: None, check_config: false, setup: false };
    let mut i: usize = 1;
    while i < args.len()
        invariant
            all == text::texts(args@),
            1 <= i,
            i <= args.len() || args.len() == 0,
            parsed(all, fresh, 1) == parsed(all, args_view(out), i as int),
            fresh == (ArgsView { config_path: None, check_config: false, setup: false }),
        decreases args.len() - i,
    {
        let a = args[i].as_str();
        assert(all[i as int] == a@);
        if text::same_text(a, "-c") || text::same_text(a, "--config") {
            if i + 1 < args.len() {
                i += 1;
                assert(all[i as int] == args@[i as int]@);
                out.config_path = Some(args[i].clone());
            } else {
                return Invocation::MissingPath;
            }
        } else if text::same_text(a, "--check-config") {
            out.check_config = true;
        } else if text::same_text(a, "--setup") {
            out.setup = true;
        } else if text::same_text(a, "-v") || text::same_text(a, "--version") {
            return Invocation::Version;
        } else if text::same_text(a, "-h") || text::same_text(a, "--help") {
            return Invocation::Help;
        } else {
            return Invocation::Unknown(args[i].clone());
        }
        i += 1;
    }
    Invocation::Run(out)
}

// --- the loop ---

/// What follows a wait for events.
#[derive(Debug, Clone, Copy, PartialEq, Eq, Structural)]
pub enum PollStep {
    Handle,
    /// A signal interrupted the wait.
    Again,
    Stop,
}

pub fn poll_step(failed: bool, interrupted: bool) -> (r: PollStep)
    ensures
        r == if !failed {
            PollStep::Handle
        } else if interrupted {
            PollStep::Again
        } else {
            PollStep::Stop
        },
{
    if !failed {
        PollStep::Handle
    } else if interrupted {
        PollStep::Again
    } else {
        PollStep::Stop
    }
}

/// Signal numbers of the platform.
pub const SIGINT: u32 = 2;

pub const SIGTERM: u32 = 15;

pub const SIGCHLD: u32 = 17;

#[derive(Debug, Clone, Copy, PartialEq, Eq, Structural)]
pub enum SignalStep {
    /// Collect the children that ended.
    Reap,
    Shutdown,
    Ignore,
}

pub fn signal_step(signo: u32) -> (r: SignalStep)
    ensures
        r == if signo == SIGCHLD {
            SignalStep::Reap
        } else if signo == SIGINT || signo == SIGTERM {
            SignalStep::Shutdown
        } else {
            SignalStep::Ignore
        },
        r == after_signal(signo),
{
    if signo == SIGCHLD {
        SignalStep::Reap
    } else if signo == SIGINT || signo == SIGTERM {
        SignalStep::Shutdown
    } else {
        SignalStep::Ignore
    }
}

/// Options take effect wherever they stand: a command line of nothing but the two switches runs, and
/// each switch is on exactly where it was given.
pub proof fn law_switches_take_effect(args: Seq<Seq<char>>, so_far: ArgsView, i: int)
    requires
        0 <= i <= args.len(),
        forall|j: int|
            i <= j < args.len() ==> #[trigger] args[j] == "--check-config"@ || args[j] == "--setup"@,
    ensures
        parsed(args, so_far, i) == InvocationView::Run(
            ArgsView {
                config_path: so_far.config_path,
                check_config: so_far.check_config || exists|j: int|
                    i <= j < args.len() && #[trigger] args[j] == "--check-config"@,
                setup: so_far.setup || exists|j: int|
                    i <= j < args.len() && #[trigger] args[j] == "--setup"@,
            },
        ),
    decreases args.len() - i,
{
    lemma_options_differ();
    if i < args.len() {
        let check = args[i] == "--check-config"@;
        let next = if check {
            ArgsView { check_config: true, ..so_far }
        } else {
            ArgsView { setup: true, ..so_far }
        };
        assert(args[i] == "--check-config"@ || args[i] == "--setup"@);
        law_switches_take_effect(args, next, i + 1);
        assert((exists|j: int| i <= j < args.len() && #[trigger] args[j] == "--check-config"@)
            == (check || exists|j: int|
            i + 1 <= j < args.len() && #[trigger] args[j] == "--check-config"@)) by {
            if exists|j: int| i + 1 <= j < args.len() && #[trigger] args[j] == "--check-config"@ {
                let j = choose|j: int|
                    i + 1 <= j < args.len() && #[trigger] args[j] == "--check-config"@;
                assert(i <= j < args.len());
            }
        }
        assert((exists|j: int| i <= j < args.len() && #[trigger] args[j] == "--setup"@) == (!check
            || exists|j: int| i + 1 <= j < args.len() && #[trigger] args[j] == "--setup"@)) by {
            if exists|j: int| i + 1 <= j < args.len() && #[trigger] args[j] == "--setup"@ {
                let j = choose|j: int|
                    i + 1 <= j < args.len() && #[trigger] args[j] == "--setup"@;
                assert(i <= j < args.len());
            }
        }
    }
}

proof fn lemma_options_differ()
    ensures
        "--check-config"@ != "-c"@,
        "--check-config"@ != "--config"@,
        "--setup"@ != "-c"@,
        "--setup"@ != "--config"@,
        "--setup"@ != "--check-config"@,
        "-v"@ != "-c"@,
        "-v"@ != "--config"@,
        "-v"@ != "--check-config"@,
        "-v"@ != "--setup"@,
        "--version"@ != "-c"@,
        "--version"@ != "--config"@,
        "--version"@ != "--check-config"@,
        "--version"@ != "--setup"@,
        "-h"@ != "-c"@,
        "-h"@ != "--config"@,
        "-h"@ != "--check-config"@,
        "-h"@ != "--setup"@,
        "-h"@ != "-v"@,
        "-h"@ != "--version"@,
        "--help"@ != "-c"@,
        "--help"@ != "--config"@,
        "--help"@ != "--check-config"@,
        "--help"@ != "--setup"@,
        "--help"@ != "-v"@,
        "--help"@ != "--version"@,
{
    reveal_strlit("-c");
    reveal_strlit("--config");
    reveal_strlit("--check-config");
    reveal_strlit("--setup");
    reveal_strlit("-v");
    reveal_strlit("--version");
    reveal_strlit("-h");
    reveal_strlit("--help");
    assert("-c"@.len() == 2 && "-v"@.len() == 2 && "-h"@.len() == 2);
    assert("-c"@[1] == 'c' && "-v"@[1] == 'v' && "-h"@[1] == 'h');
    assert("--config"@.len() == 8 && "--check-config"@.len() == 14 && "--setup"@.len() == 7);
    assert("--version"@.len() == 9 && "--help"@.len() == 6);
}

/// The path behind either name of its option is the configuration's, the last one of several, and
/// the option without a path is refused; what follows the path is read on.
pub proof fn law_config_path_is_taken(
    args: Seq<Seq<char>>,
    so_far: ArgsView,
    i: int,
)
    requires
        0 <= i < args.len(),
        args[i] == "-c"@ || args[i] == "--config"@,
    ensures
        i + 1 == args.len() ==> parsed(args, so_far, i) == InvocationView::MissingPath,
        i + 2 == args.len() ==> parsed(args, so_far, i) == InvocationView::Run(
            ArgsView { config_path: Some(args[i + 1]), ..so_far },
        ),
        i + 1 < args.len() ==> parsed(args, so_far, i) == parsed(
            args,
            ArgsView { config_path: Some(args[i + 1]), ..so_far },
            i + 2,
        ),
{
}

/// The first word that asks for the version or for help, or that is no option, decides: what stands
/// behind it is not read.
pub proof fn law_first_other_word_decides(args: Seq<Seq<char>>, so_far: ArgsView, i: int)
    requires
        0 <= i < args.len(),
    ensures
        args[i] == "-v"@ || args[i] == "--version"@ ==> parsed(args, so_far, i)
            == InvocationView::Version,
        args[i] == "-h"@ || args[i] == "--help"@ ==> parsed(args, so_far, i) == InvocationView::Help,
        args[i] != "-v"@ && args[i] != "--version"@ && args[i] != "-h"@ && args[i] != "--help"@
            && args[i] != "-c"@ && args[i] != "--config"@ && args[i] != "--check-config"@ && args[i]
            != "--setup"@ ==> parsed(args, so_far, i) == InvocationView::Unknown(args[i]),
        parsed(args, so_far, args.len() as int) == InvocationView::Run(so_far),
{
    lemma_options_differ();
}

/// What a signal leads to.
pub open spec fn after_signal(signo: u32) -> SignalStep {
    if signo == SIGCHLD {
        SignalStep::Reap
    } else if signo == SIGINT || signo == SIGTERM {
        SignalStep::Shutdown
    } else {
        SignalStep::Ignore
    }
}

/// The end of a child, which is signal 17, is reaped, an interrupt and a termination, 2 and 15, shut
/// down, and no other signal does anything.
pub proof fn law_signals_have_their_meaning(signo: u32)
    ensures
        after_signal(signo) == SignalStep::Reap <==> signo == 17,
        after_signal(signo) == SignalStep::Shutdown <==> signo == 2 || signo == 15,
        after_signal(signo) == SignalStep::Ignore <==> signo != 2 && signo != 15 && signo != 17,
{
}

} // verus!
