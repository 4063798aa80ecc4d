//! The operator's commands and how a tokenised line spells them.

use crate::parse::{number_of, parse_unsigned};
use vstd::prelude::*;
use vstd::string::*;

verus! {

/// A command of the operator.
#[derive(Clone, Debug, PartialEq, Eq)]
pub enum DebuggerCommand {
    /// Terminate any running target and leave.
    Quit,
    /// Start the target afresh with these arguments.
    Run(Vec<String>),
    /// Resume after a stop.
    Continue,
    /// Show the call chain, innermost frame first.
    Backtrace,
    /// Set a breakpoint at a raw address, a line number or a function.
    BreakPoint(String),
    /// Advance by this many source lines.
    Step(u64),
}

/// Why a line of tokens is no command.
#[derive(Clone, Debug, PartialEq, Eq)]
pub enum Rejection {
    /// A breakpoint command without a location.
    NoBreakpointLocation,
    /// A step command whose count is not a number; holds the count as typed.
    InvalidStepCount(String),
    /// The first token names no command.
    Unrecognized,
}

/// A command, with text as sequences of characters.
pub enum CommandView {
    Quit,
    Run(Seq<Seq<char>>),
    Continue,
    Backtrace,
    BreakPoint(Seq<char>),
    Step(u64),
}

/// A rejection, with text as a sequence of characters.
pub enum RejectionView {
    NoBreakpointLocation,
    InvalidStepCount(Seq<char>),
    Unrecognized,
}

impl View for DebuggerCommand {
    type V = CommandView;

    open spec fn view(&self) -> CommandView {
        match *self {
            DebuggerCommand::Quit => CommandView::Quit,
            DebuggerCommand::Run(args) => CommandView::Run(args.deep_view()),
            DebuggerCommand::Continue => CommandView::Continue,
            DebuggerCommand::Backtrace => CommandView::Backtrace,
            DebuggerCommand::BreakPoint(target) => CommandView::BreakPoint(target@),
            DebuggerCommand::Step(count) => CommandView::Step(count),
        }
    }
}

impl View for Rejection {
    type V = RejectionView;

    open spec fn view(&self) -> RejectionView {
        match *self {
            Rejection::NoBreakpointLocation => RejectionView::NoBreakpointLocation,
            Rejection::InvalidStepCount(count) => RejectionView::InvalidStepCount(count@),
            Rejection::Unrecognized => RejectionView::Unrecognized,
        }
    }
}

/// The command that a line of tokens spells, or why it spells none.
///
/// The first token picks the command by its full name or its abbreviation.
/// `run` takes every further token as an argument, `break` its second token as
/// the location, `step` an optional count, one by default.
pub open spec fn command_of(tokens: Seq<Seq<char>>) -> Result<CommandView, RejectionView> {
    if tokens.len() == 0 {
        Err(RejectionView::Unrecognized)
    } else {
        let head = tokens[0];
        if head == "q"@ || head == "quit"@ {
            Ok(CommandView::Quit)
        } else if head == "r"@ || head == "run"@ {
            Ok(CommandView::Run(tokens.skip(1)))
        } else if head == "c"@ || head == "cont"@ || head == "continue"@ {
            Ok(CommandView::Continue)
        } else if head == "bt"@ || head == "back"@ || head == "backtrace"@ {
            Ok(CommandView::Backtrace)
        } else if head == "b"@ || head == "break"@ || head == "breakpoint"@ {
            if tokens.len() < 2 {
                Err(RejectionView::NoBreakpointLocation)
            } else {
                Ok(CommandView::BreakPoint(tokens[1]))
            }
        } else if head == "s"@ || head == "step"@ {
            if tokens.len() < 2 {
                Ok(CommandView::Step(1))
            } else {
                match number_of(tokens[1], 10) {
                    Some(count) => Ok(CommandView::Step(count)),
                    None => Err(RejectionView::InvalidStepCount(tokens[1])),
                }
            }
        } else {
            Err(RejectionView::Unrecognized)
        }
    }
}

/// What a parse of a line came to, with text as sequences of characters.
pub open spec fn parse_view(parsed: Result<DebuggerCommand, Rejection>) -> Result<
    CommandView,
    RejectionView,
> {
    match parsed {
        Ok(command) => Ok(command@),
        Err(rejection) => Err(rejection@),
    }
}

/// The command that a line of tokens spells, if it spells one.
pub open spec fn accepted(tokens: Seq<Seq<char>>) -> Option<CommandView> {
    match command_of(tokens) {
        Ok(command) => Some(command),
        Err(_) => None,
    }
}

/// A command that may not be there, with text as sequences of characters.
pub open spec fn command_view(command: Option<DebuggerCommand>) -> Option<CommandView> {
    match command {
        Some(command) => Some(command@),
        None => None,
    }
}

/// Whether two pieces of text hold the same characters.
pub fn text_equals(a: &str, b: &str) -> (same: bool)
    ensures
        same == (a@ == b@),
{
    let n: usize = a.unicode_len();
    if n != b.unicode_len() {
        return false;
    }
    let mut i: usize = 0;
    while i < n
        invariant
            i <= n,
            n == a@.len(),
            n == b@.len(),
            forall|j: int| 0 <= j < i ==> a@[j] == b@[j],
        decreases n - i,
    {
        if a.get_char(i) != b.get_char(i) {
            return false;
        }
        i = i + 1;
    }
    assert(a@ =~= b@);
    true
}

impl DebuggerCommand {
    /// Reads a command out of a tokenised line, and says why where there is
    /// none.
    pub fn parse(tokens: &Vec<&str>) -> (parsed: Result<DebuggerCommand, Rejection>)
        ensures
            parse_view(parsed) == command_of(tokens.deep_view()),
    {
        let ghost words = tokens.deep_view();
        if tokens.len() == 0 {
            return Err(Rejection::Unrecognized);
        }
        let head: &str = tokens[0];
        assert(words[0] == head@);
        if text_equals(head, "q") || text_equals(head, "quit") {
            Ok(DebuggerCommand::Quit)
        } else if text_equals(head, "r") || text_equals(head, "run") {
            let mut args: Vec<String> = Vec::new();
            let mut i: usize = 1;
            while i < tokens.len()
                invariant
                    1 <= i <= tokens.len(),
                    args.len() == i - 1,
                    forall|j: int| 0 <= j < args.len() ==> args[j]@ == tokens[j + 1]@,
                decreases tokens.len() - i,
            {
                args.push(String::from_str(tokens[i]));
                i = i + 1;
            }
            assert(args.deep_view() =~= words.skip(1));
            Ok(DebuggerCommand::Run(args))
        } else if text_equals(head, "c") || text_equals(head, "cont") || text_equals(
            head,
            "continue",
        ) {
            Ok(DebuggerCommand::Continue)
        } else if text_equals(head, "bt") || text_equals(head, "back") || text_equals(
            head,
            "backtrace",
        ) {
            Ok(DebuggerCommand::Backtrace)
        } else if text_equals(head, "b") || text_equals(head, "break") || text_equals(
            head,
            "breakpoint",
        ) {
            if tokens.len() < 2 {
                Err(Rejection::NoBreakpointLocation)
            } else {
                assert(words[1] == tokens[1]@);
                Ok(DebuggerCommand::BreakPoint(String::from_str(tokens[1])))
            }
        } else if text_equals(head, "s") || text_equals(head, "step") {
            if tokens.len() < 2 {
                Ok(DebuggerCommand::Step(1))
            } else {
                assert(words[1] == tokens[1]@);
                match parse_unsigned(tokens[1], 10) {
                    Some(count) => Ok(DebuggerCommand::Step(count)),
                    None => Err(Rejection::InvalidStepCount(String::from_str(tokens[1]))),
                }
            }
        } else {
            Err(Rejection::Unrecognized)
        }
    }

    /// Reads a command out of a tokenised line. `None` where the line spells
    /// no command.
    pub fn from_tokens(tokens: &Vec<&str>) -> (command: Option<DebuggerCommand>)
        ensures
            command_view(command) == accepted(tokens.deep_view()),
    {
        match DebuggerCommand::parse(tokens) {
            Ok(command) => Some(command),
            Err(_) => None,
        }
    }
}

} // verus!
