//! The vocabulary between the engine and the world around it.
//!
//! A [`Request`] names one thing to be done by the tracer, the symbol provider
//! or the operator's terminal; a [`Reply`] carries back what came of it.

use vstd::prelude::*;

verus! {

/// The number of the signal that a trap instruction or a completed single
/// step raises.
pub const SIGTRAP: i32 = 5;

/// A signal, by its number.
#[derive(Clone, Copy, Debug, PartialEq, Eq, Structural)]
pub struct Signal {
    pub number: i32,
}

impl Signal {
    /// Whether this is the trap signal.
    pub open spec fn trap(self) -> bool {
        self.number == SIGTRAP
    }

    /// Whether this is the trap signal.
    #[verifier::when_used_as_spec(trap)]
    pub fn is_trap(self) -> (yes: bool)
        ensures
            yes == self.trap(),
    {
        self.number == SIGTRAP
    }
}

/// What a wait on the tracee observed.
#[derive(Clone, Copy, Debug, PartialEq, Eq, Structural)]
pub enum Change {
    /// The tracee stopped on a signal.
    Stopped(Signal),
    /// The tracee exited with a code.
    Exited(i32),
    /// A signal killed the tracee.
    Signaled(Signal),
}

/// The registers of the tracee that the engine reads.
#[derive(Clone, Copy, Debug, PartialEq, Eq, Structural)]
pub struct Registers {
    /// The instruction pointer.
    pub rip: u64,
    /// The frame base pointer.
    pub rbp: u64,
}

/// The state of the tracee after a wait.
#[derive(Clone, Copy, Debug, PartialEq, Eq, Structural)]
pub enum Status {
    /// Stopped by a signal, at an instruction pointer.
    Stopped(Signal, u64),
    /// Exited with a code.
    Exited(i32),
    /// Killed by a signal.
    Signaled(Signal),
}

impl Status {
    /// A status after which the tracee no longer exists.
    pub open spec fn terminal(self) -> bool {
        !(self is Stopped)
    }

    /// Stopped by the trap signal.
    pub open spec fn trapped(self) -> bool {
        self matches Status::Stopped(signal, _) && signal.trap()
    }
}

/// Why an operation of the engine failed.
#[derive(Clone, Copy, Debug, PartialEq, Eq, Structural)]
pub enum Failure {
    /// The target could not be started.
    Spawn,
    /// The first stop of a new tracee was not the expected trap.
    Initialization,
    /// A trace request failed, with the operating system's error number.
    Trace(i32),
    /// An address maps to no known line or function.
    Unresolved,
    /// A reply did not answer the request that was outstanding.
    Protocol,
}

/// A source line.
#[derive(Clone, Debug, PartialEq, Eq)]
pub struct Line {
    pub file: String,
    pub number: u64,
}

impl Line {
    /// Two lines are the same when file and number agree.
    pub open spec fn same(self, other: Line) -> bool {
        self.file@ == other.file@ && self.number == other.number
    }

    /// Whether `self` and `other` name the same file and number.
    pub fn is_same(&self, other: &Line) -> (yes: bool)
        ensures
            yes == self.same(*other),
    {
        self.number == other.number && self.file == other.file
    }
}

/// One frame of a backtrace: the function and the line it is executing.
#[derive(Clone, Debug, PartialEq, Eq)]
pub struct Frame {
    pub function: String,
    pub line: Line,
}

/// Something to tell the operator.
#[derive(Clone, Debug, PartialEq, Eq)]
pub enum Report {
    /// An interrupt was ignored; how to leave instead.
    Hint,
    /// The line typed is no command.
    Rejected(crate::debugger_command::Rejection),
    /// The command needs a tracee and there is none.
    NoActiveTracee,
    /// The target could not be started.
    LaunchFailed(Failure),
    /// The tracee with this process identifier was killed.
    Killed(i32),
    /// The tracee could not be killed.
    KillFailed(Failure),
    /// The tracee stopped; where, as far as the symbols tell.
    Stopped { signal: Signal, function: Option<String>, line: Option<Line> },
    /// The tracee exited with a code.
    Exited(i32),
    /// A signal killed the tracee.
    Signaled(Signal),
    /// One frame of a backtrace.
    Frame(Frame),
    /// The backtrace could not go on.
    BacktraceFailed(Failure),
    /// The tracee could not be resumed.
    ResumeFailed(Failure),
    /// The line step failed.
    StepFailed(Failure),
    /// The breakpoint could not be installed in the running tracee.
    InstallFailed(Failure),
    /// The breakpoint target names no address.
    UnresolvedTarget(String),
    /// A breakpoint was registered under this index at this address.
    BreakpointSet { index: usize, addr: u64 },
}

/// One thing for the world around the engine to do.
#[derive(Clone, Debug, PartialEq, Eq)]
pub enum Request {
    /// Read the operator's next line. Answered by `Command`, `Rejected`,
    /// `Interrupted` or `EndOfInput`.
    Prompt,
    /// Show this to the operator. Answered by `Done`.
    Report(Report),
    /// Start the target with these arguments, traced, so that it stops
    /// before its first instruction. Answered by `Spawned`.
    Spawn(Vec<String>),
    /// Block until the tracee changes state. Answered by `Changed`.
    Wait,
    /// Read the tracee's registers. Answered by `Regs`.
    GetRegs,
    /// Write the registers last read back with this instruction pointer.
    /// Answered by `Done`.
    SetRip(u64),
    /// Read the word at this address of the tracee's memory. Answered by
    /// `Word`.
    Peek(u64),
    /// Write this word at this address of the tracee's memory. Answered by
    /// `Done`.
    Poke(u64, u64),
    /// Let the tracee execute one instruction, delivering the signal if there
    /// is one. Answered by `Done`.
    Step(Option<Signal>),
    /// Let the tracee run, delivering the signal if there is one. Answered by
    /// `Done`.
    Cont(Option<Signal>),
    /// Terminate the tracee. Answered by `Done`.
    Kill,
    /// Resolve the source line of this address. Answered by `Source`.
    LineAt(u64),
    /// Resolve the function around this address. Answered by `Function`.
    FunctionAt(u64),
    /// Find the address of this line number. Answered by `Address`.
    AddressOfLine(u64),
    /// Find the entry address of this function. Answered by `Address`.
    AddressOfFunction(String),
}

/// What came of a request. Any request may also be answered by `Failed`.
#[derive(Clone, Debug, PartialEq, Eq)]
pub enum Reply {
    /// The request was carried out.
    Done,
    /// The request failed, with the operating system's error number.
    Failed(i32),
    /// The command that the operator's line spells.
    Command(crate::debugger_command::DebuggerCommand),
    /// Why the operator's line spells no command.
    Rejected(crate::debugger_command::Rejection),
    /// The operator interrupted the prompt.
    Interrupted,
    /// The operator's input has ended.
    EndOfInput,
    /// The target runs as the process with this identifier.
    Spawned(i32),
    /// The tracee changed state.
    Changed(Change),
    /// The tracee's registers.
    Regs(Registers),
    /// A word of the tracee's memory.
    Word(u64),
    /// The source line of the address, if it has one.
    Source(Option<Line>),
    /// The function around the address, if it has one.
    Function(Option<String>),
    /// The address looked up, if there is one.
    Address(Option<u64>),
}

/// How far an operation on the tracee has come.
#[derive(Clone, Debug, PartialEq, Eq)]
pub enum Progress {
    /// The operation needs this done; its reply goes to `advance`.
    Request(Request),
    /// A wait, a resume or a line step ended with the tracee in this state.
    Status(Status),
    /// A breakpoint was installed over this original byte.
    Installed(u8),
    /// A launch, a backtrace, a kill or a step by no lines ran to its end.
    Finished,
    /// The operation failed.
    Failed(Failure),
}

} // verus!
