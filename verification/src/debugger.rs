//! The session: the operator's commands played against the tracee controller.
//!
//! A [`Debugger`] holds the breakpoint addresses that outlive every tracee
//! and the controller of the tracee that currently exists, if any. It is
//! driven like the controller: `run` takes the reply to the request that is
//! outstanding and hands back the next request, until the operator quits.
//!
//! What each step does is given by the functions of [`DebuggerView`], the
//! mathematical model of the session.

use crate::debugger_command::DebuggerCommand;
use crate::event::{Failure, Line, Progress, Reply, Report, Request, Signal, Status};
use crate::inferior::{Inferior, InferiorView, Resume};
use crate::parse::{address_of, number_of, parse_address_from, parse_unsigned};
use vstd::prelude::*;
use vstd::string::*;

verus! {

/// Why the tracee is carrying out an operation.
#[derive(Clone, Debug, PartialEq, Eq)]
pub enum Errand {
    /// It is killed to make room for a run with these arguments.
    Replace(Vec<String>),
    /// It is killed because the operator quits.
    Quit,
    /// It is being launched.
    Launch,
    /// It continues, after a launch or on the operator's command.
    Continue,
    /// It steps by source lines.
    Step,
    /// Its call chain is shown.
    Backtrace,
    /// A breakpoint is installed in it.
    Install,
}

/// Where the session stands. Each stage but `Over` awaits the reply to one
/// request.
#[derive(Clone, Debug, PartialEq, Eq)]
pub enum Stage {
    /// Awaits the operator's next line.
    Prompting,
    /// Awaits the showing of a report, after which the prompt returns.
    Reporting,
    /// The tracee carries out an operation; awaits the reply to its request.
    Tracing(Errand),
    /// Awaits the showing of how the kill went, before the target is started
    /// with these arguments.
    Killed(Vec<String>),
    /// Awaits the showing of how the kill went, before the session ends.
    Leaving,
    /// Awaits the start of the target.
    Spawning,
    /// Awaits the address of this breakpoint target.
    Resolving(String),
    /// Awaits the showing of a new breakpoint at this address.
    Announcing(u64),
    /// Awaits the line of a stop on this signal at this address.
    StopLine(Signal, u64),
    /// Awaits the function of a stop on this signal, on this line.
    StopFunction(Signal, Option<Line>),
    /// The session has ended.
    Over,
}

/// The failure that an outcome stands for: its own if it is one, a
/// breach of protocol if the operation ended in a way it cannot end.
pub open spec fn failure_of(outcome: Progress) -> Failure {
    match outcome {
        Progress::Failed(failure) => failure,
        _ => Failure::Protocol,
    }
}

/// What to say after a kill of process `pid` ended with `outcome`.
pub open spec fn kill_report(pid: i32, outcome: Progress) -> Report {
    match outcome {
        Progress::Failed(failure) => Report::KillFailed(failure),
        _ => Report::Killed(pid),
    }
}

/// The session as a mathematical value.
pub struct DebuggerView {
    /// The controller of the tracee, while one exists.
    pub inferior: Option<InferiorView>,
    /// Every breakpoint address registered so far, in order.
    pub breakpoints: Seq<u64>,
    /// What the session awaits.
    pub stage: Stage,
}

impl DebuggerView {
    /// A session at its first prompt: no tracee, no breakpoints.
    pub open spec fn fresh() -> DebuggerView {
        DebuggerView { inferior: None, breakpoints: Seq::empty(), stage: Stage::Prompting }
    }

    /// The session in another stage.
    pub open spec fn at(self, stage: Stage) -> DebuggerView {
        DebuggerView { stage, ..self }
    }

    /// The session with this controller.
    pub open spec fn holding(self, inferior: InferiorView) -> DebuggerView {
        DebuggerView { inferior: Some(inferior), ..self }
    }

    /// The session without a tracee.
    pub open spec fn released(self) -> DebuggerView {
        DebuggerView { inferior: None, ..self }
    }

    /// Moves to `stage` and asks for `request`.
    pub open spec fn ask(self, stage: Stage, request: Request) -> (DebuggerView, Option<Request>) {
        (self.at(stage), Some(request))
    }

    /// Returns to the prompt.
    pub open spec fn prompt(self) -> (DebuggerView, Option<Request>) {
        self.ask(Stage::Prompting, Request::Prompt)
    }

    /// Tells the operator something, then returns to the prompt.
    pub open spec fn say(self, report: Report) -> (DebuggerView, Option<Request>) {
        self.ask(Stage::Reporting, Request::Report(report))
    }

    /// Ends the session.
    pub open spec fn leave(self) -> (DebuggerView, Option<Request>) {
        (self.at(Stage::Over), None)
    }

    /// Registers a breakpoint address and announces it under its index.
    pub open spec fn announce(self, addr: u64) -> (DebuggerView, Option<Request>) {
        DebuggerView { breakpoints: self.breakpoints.push(addr), ..self }.ask(
            Stage::Announcing(addr),
            Request::Report(Report::BreakpointSet { index: self.breakpoints.len() as usize, addr }),
        )
    }

    /// Finds the address of a breakpoint target: after a `*`, a raw
    /// hexadecimal address; a decimal number is a line to look up; anything
    /// else is a function to look up.
    pub open spec fn locate(self, target: String) -> (DebuggerView, Option<Request>) {
        if target@.len() > 0 && target@[0] == '*' {
            match address_of(target@.skip(1)) {
                Some(addr) => self.announce(addr),
                None => self.say(Report::UnresolvedTarget(target)),
            }
        } else {
            match number_of(target@, 10) {
                Some(number) => self.ask(Stage::Resolving(target), Request::AddressOfLine(number)),
                None => self.ask(Stage::Resolving(target), Request::AddressOfFunction(target)),
            }
        }
    }

    /// Reports a status. A stop is located by the symbols first; an exit or
    /// a death by signal ends the session's hold on the tracee.
    pub open spec fn show_status(self, status: Status) -> (DebuggerView, Option<Request>) {
        match status {
            Status::Stopped(signal, rip) => self.ask(
                Stage::StopLine(signal, rip),
                Request::LineAt(rip),
            ),
            Status::Exited(code) => self.released().say(Report::Exited(code)),
            Status::Signaled(signal) => self.released().say(Report::Signaled(signal)),
        }
    }

    /// Goes on after the tracee's operation ended with `outcome`.
    pub open spec fn finished(self, errand: Errand, outcome: Progress) -> (
        DebuggerView,
        Option<Request>,
    ) {
        match self.inferior {
            None => self.prompt(),
            Some(inferior) => match errand {
                Errand::Replace(args) => self.released().ask(
                    Stage::Killed(args),
                    Request::Report(kill_report(inferior.pid, outcome)),
                ),
                Errand::Quit => self.released().ask(
                    Stage::Leaving,
                    Request::Report(kill_report(inferior.pid, outcome)),
                ),
                Errand::Launch => match outcome {
                    Progress::Finished => {
                        let (resumed, first) = inferior.cont();
                        match first {
                            Progress::Request(request) => self.holding(resumed).ask(
                                Stage::Tracing(Errand::Continue),
                                request,
                            ),
                            _ => self.holding(resumed).say(
                                Report::ResumeFailed(failure_of(first)),
                            ),
                        }
                    },
                    _ => self.released().say(Report::LaunchFailed(failure_of(outcome))),
                },
                Errand::Continue => match outcome {
                    Progress::Status(status) => self.show_status(status),
                    _ => self.say(Report::ResumeFailed(failure_of(outcome))),
                },
                Errand::Step => match outcome {
                    Progress::Status(status) => self.show_status(status),
                    Progress::Finished => self.prompt(),
                    _ => self.say(Report::StepFailed(failure_of(outcome))),
                },
                Errand::Backtrace => match outcome {
                    Progress::Finished => self.prompt(),
                    _ => self.say(Report::BacktraceFailed(failure_of(outcome))),
                },
                Errand::Install => match outcome {
                    Progress::Installed(_) => self.prompt(),
                    _ => self.say(Report::InstallFailed(failure_of(outcome))),
                },
            },
        }
    }

    /// Goes on after the tracee's operation made `progress`: a request is
    /// passed on, anything else is its outcome.
    pub open spec fn proceed(self, errand: Errand, progress: Progress) -> (
        DebuggerView,
        Option<Request>,
    ) {
        match progress {
            Progress::Request(request) => self.ask(Stage::Tracing(errand), request),
            _ => self.finished(errand, progress),
        }
    }

    /// Goes on after the controller took a step for `errand`.
    pub open spec fn traced(self, errand: Errand, step: (InferiorView, Progress)) -> (
        DebuggerView,
        Option<Request>,
    ) {
        self.holding(step.0).proceed(errand, step.1)
    }

    /// Carries out a command of the operator.
    pub open spec fn command(self, command: DebuggerCommand) -> (DebuggerView, Option<Request>) {
        match command {
            DebuggerCommand::Run(args) => match self.inferior {
                Some(inferior) => self.traced(Errand::Replace(args), inferior.kill()),
                None => self.ask(Stage::Spawning, Request::Spawn(args)),
            },
            DebuggerCommand::Continue => match self.inferior {
                Some(inferior) => self.traced(
                    Errand::Continue,
                    inferior.cont(),
                ),
                None => self.say(Report::NoActiveTracee),
            },
            DebuggerCommand::Backtrace => match self.inferior {
                Some(inferior) => self.traced(Errand::Backtrace, inferior.print_backtrace()),
                None => self.say(Report::NoActiveTracee),
            },
            DebuggerCommand::Step(count) => match self.inferior {
                Some(inferior) => self.traced(Errand::Step, inferior.step_lines(count)),
                None => self.say(Report::NoActiveTracee),
            },
            DebuggerCommand::BreakPoint(target) => self.locate(target),
            DebuggerCommand::Quit => match self.inferior {
                Some(inferior) => self.traced(Errand::Quit, inferior.kill()),
                None => self.leave(),
            },
        }
    }

    /// The step of the session: from the stage it is in and the reply to its
    /// outstanding request, the stage it moves to and the next request, or
    /// no request when the session is over.
    pub open spec fn run(self, reply: Reply) -> (DebuggerView, Option<Request>) {
        match self.stage {
            Stage::Prompting => match reply {
                Reply::Command(command) => self.command(command),
                Reply::Rejected(rejection) => self.say(Report::Rejected(rejection)),
                Reply::Interrupted => self.say(Report::Hint),
                Reply::EndOfInput => self.command(DebuggerCommand::Quit),
                _ => self.prompt(),
            },
            Stage::Reporting => self.prompt(),
            Stage::Tracing(errand) => match self.inferior {
                Some(inferior) => self.traced(errand, inferior.advance(reply)),
                None => self.prompt(),
            },
            Stage::Killed(args) => self.ask(Stage::Spawning, Request::Spawn(args)),
            Stage::Leaving => self.leave(),
            Stage::Spawning => match reply {
                Reply::Spawned(pid) => self.holding(
                    InferiorView::launched(pid, self.breakpoints),
                ).ask(Stage::Tracing(Errand::Launch), Request::Wait),
                _ => self.say(Report::LaunchFailed(Failure::Spawn)),
            },
            Stage::Resolving(target) => match reply {
                Reply::Address(Some(addr)) => self.announce(addr),
                _ => self.say(Report::UnresolvedTarget(target)),
            },
            Stage::Announcing(addr) => match self.inferior {
                Some(inferior) => self.traced(Errand::Install, inferior.set_breakpoint(addr)),
                None => self.prompt(),
            },
            Stage::StopLine(signal, rip) => self.ask(
                Stage::StopFunction(
                    signal,
                    match reply {
                        Reply::Source(line) => line,
                        _ => None,
                    },
                ),
                Request::FunctionAt(rip),
            ),
            Stage::StopFunction(signal, line) => self.say(
                Report::Stopped {
                    signal,
                    function: match reply {
                        Reply::Function(function) => function,
                        _ => None,
                    },
                    line,
                },
            ),
            Stage::Over => self.leave(),
        }
    }
}

/// The session of one operator with one target.
pub struct Debugger {
    inferior: Option<Inferior>,
    breakpoints: Vec<u64>,
    stage: Stage,
}

impl View for Debugger {
    type V = DebuggerView;

    closed spec fn view(&self) -> DebuggerView {
        DebuggerView {
            inferior: match self.inferior {
                Some(inferior) => Some(inferior@),
                None => None,
            },
            breakpoints: self.breakpoints@,
            stage: self.stage,
        }
    }
}

impl Debugger {
    /// A session at its first prompt. Its outstanding request is
    /// `Request::Prompt`.
    pub fn new() -> (debugger: Debugger)
        ensures
            debugger@ == DebuggerView::fresh(),
    {
        Debugger { inferior: None, breakpoints: Vec::new(), stage: Stage::Prompting }
    }

    /// Whether a tracee exists.
    pub fn has_tracee(&self) -> (yes: bool)
        ensures
            yes == (self@.inferior is Some),
    {
        self.inferior.is_some()
    }

    /// The breakpoint addresses registered so far, in order.
    pub fn breakpoints(&self) -> (addresses: &Vec<u64>)
        ensures
            addresses@ == self@.breakpoints,
    {
        &self.breakpoints
    }

    /// Whether the session has ended.
    pub fn is_over(&self) -> (over: bool)
        ensures
            over == (self@.stage is Over),
    {
        match self.stage {
            Stage::Over => true,
            _ => false,
        }
    }

    fn ask(&mut self, stage: Stage, request: Request) -> (next: Option<Request>)
        ensures
            (final(self)@, next) == old(self)@.ask(stage, request),
    {
        self.stage = stage;
        Some(request)
    }

    fn prompt(&mut self) -> (next: Option<Request>)
        ensures
            (final(self)@, next) == old(self)@.prompt(),
    {
        self.ask(Stage::Prompting, Request::Prompt)
    }

    fn say(&mut self, report: Report) -> (next: Option<Request>)
        ensures
            (final(self)@, next) == old(self)@.say(report),
    {
        self.ask(Stage::Reporting, Request::Report(report))
    }

    fn leave(&mut self) -> (next: Option<Request>)
        ensures
            (final(self)@, next) == old(self)@.leave(),
    {
        self.stage = Stage::Over;
        None
    }

    fn announce(&mut self, addr: u64) -> (next: Option<Request>)
        ensures
            (final(self)@, next) == old(self)@.announce(addr),
    {
        let index: usize = self.breakpoints.len();
        self.breakpoints.push(addr);
        self.ask(Stage::Announcing(addr), Request::Report(Report::BreakpointSet { index, addr }))
    }

    fn locate(&mut self, target: String) -> (next: Option<Request>)
        ensures
            (final(self)@, next) == old(self)@.locate(target),
    {
        let text: &str = target.as_str();
        if text.unicode_len() > 0 && text.get_char(0) == '*' {
            match parse_address_from(text, 1) {
                Some(addr) => self.announce(addr),
                None => self.say(Report::UnresolvedTarget(target)),
            }
        } else {
            match parse_unsigned(text, 10) {
                Some(number) => self.ask(Stage::Resolving(target), Request::AddressOfLine(number)),
                None => {
                    let name: String = target.clone();
                    self.ask(Stage::Resolving(target), Request::AddressOfFunction(name))
                },
            }
        }
    }

    fn show_status(&mut self, status: Status) -> (next: Option<Request>)
        ensures
            (final(self)@, next) == old(self)@.show_status(status),
    {
        match status {
            Status::Stopped(signal, rip) => self.ask(
                Stage::StopLine(signal, rip),
                Request::LineAt(rip),
            ),
            Status::Exited(code) => {
                self.inferior = None;
                self.say(Report::Exited(code))
            },
            Status::Signaled(signal) => {
                self.inferior = None;
                self.say(Report::Signaled(signal))
            },
        }
    }

    fn finished(&mut self, errand: Errand, outcome: Progress) -> (next: Option<Request>)
        ensures
            (final(self)@, next) == old(self)@.finished(errand, outcome),
    {
        let held: Option<Inferior> = self.inferior.take();
        let mut inferior: Inferior = match held {
            Some(inferior) => inferior,
            None => {
                return self.prompt();
            },
        };
        let failure: Failure = match outcome {
            Progress::Failed(failure) => failure,
            _ => Failure::Protocol,
        };
        match errand {
            Errand::Replace(args) => {
                let report = match outcome {
                    Progress::Failed(failure) => Report::KillFailed(failure),
                    _ => Report::Killed(inferior.pid()),
                };
                self.ask(Stage::Killed(args), Request::Report(report))
            },
            Errand::Quit => {
                let report = match outcome {
                    Progress::Failed(failure) => Report::KillFailed(failure),
                    _ => Report::Killed(inferior.pid()),
                };
                self.ask(Stage::Leaving, Request::Report(report))
            },
            Errand::Launch => match outcome {
                Progress::Finished => {
                    let first: Progress = inferior.cont();
                    self.inferior = Some(inferior);
                    match first {
                        Progress::Request(request) => self.ask(
                            Stage::Tracing(Errand::Continue),
                            request,
                        ),
                        _ => self.say(Report::ResumeFailed(Failure::Protocol)),
                    }
                },
                _ => self.say(Report::LaunchFailed(failure)),
            },
            Errand::Continue => {
                self.inferior = Some(inferior);
                match outcome {
                    Progress::Status(status) => self.show_status(status),
                    _ => self.say(Report::ResumeFailed(failure)),
                }
            },
            Errand::Step => {
                self.inferior = Some(inferior);
                match outcome {
                    Progress::Status(status) => self.show_status(status),
                    Progress::Finished => self.prompt(),
                    _ => self.say(Report::StepFailed(failure)),
                }
            },
            Errand::Backtrace => {
                self.inferior = Some(inferior);
                match outcome {
                    Progress::Finished => self.prompt(),
                    _ => self.say(Report::BacktraceFailed(failure)),
                }
            },
            Errand::Install => {
                self.inferior = Some(inferior);
                match outcome {
                    Progress::Installed(_) => self.prompt(),
                    _ => self.say(Report::InstallFailed(failure)),
                }
            },
        }
    }

    fn proceed(&mut self, errand: Errand, progress: Progress) -> (next: Option<Request>)
        ensures
            (final(self)@, next) == old(self)@.proceed(errand, progress),
    {
        match progress {
            Progress::Request(request) => self.ask(Stage::Tracing(errand), request),
            _ => self.finished(errand, progress),
        }
    }

    fn command(&mut self, command: DebuggerCommand) -> (next: Option<Request>)
        ensures
            (final(self)@, next) == old(self)@.command(command),
    {
        if let DebuggerCommand::BreakPoint(target) = command {
            return self.locate(target);
        }
        let held: Option<Inferior> = self.inferior.take();
        let mut inferior: Inferior = match held {
            Some(inferior) => inferior,
            None => {
                return match command {
                    DebuggerCommand::Run(args) => self.ask(Stage::Spawning, Request::Spawn(args)),
                    DebuggerCommand::Quit => self.leave(),
                    _ => self.say(Report::NoActiveTracee),
                };
            },
        };
        match command {
            DebuggerCommand::Run(args) => {
                let first: Progress = inferior.kill();
                self.inferior = Some(inferior);
                self.proceed(Errand::Replace(args), first)
            },
            DebuggerCommand::Continue => {
                let first: Progress = inferior.cont();
                self.inferior = Some(inferior);
                self.proceed(Errand::Continue, first)
            },
            DebuggerCommand::Backtrace => {
                let first: Progress = inferior.print_backtrace();
                self.inferior = Some(inferior);
                self.proceed(Errand::Backtrace, first)
            },
            DebuggerCommand::Step(count) => {
                let first: Progress = inferior.step_lines(count);
                self.inferior = Some(inferior);
                self.proceed(Errand::Step, first)
            },
            DebuggerCommand::BreakPoint(target) => {
                self.inferior = Some(inferior);
                self.locate(target)
            },
            DebuggerCommand::Quit => {
                let first: Progress = inferior.kill();
                self.inferior = Some(inferior);
                self.proceed(Errand::Quit, first)
            },
        }
    }

    /// Carries the session on with the reply to its outstanding request.
    /// Hands back the next request, or `None` when the session is over.
    pub fn run(&mut self, reply: Reply) -> (next: Option<Request>)
        ensures
            (final(self)@, next) == old(self)@.run(reply),
    {
        let mut stage = Stage::Over;
        std::mem::swap(&mut self.stage, &mut stage);
        proof {
            assert(self@ == old(self)@.at(Stage::Over));
        }
        match stage {
            Stage::Prompting => match reply {
                Reply::Command(command) => self.command(command),
                Reply::Rejected(rejection) => self.say(Report::Rejected(rejection)),
                Reply::Interrupted => self.say(Report::Hint),
                Reply::EndOfInput => self.command(DebuggerCommand::Quit),
                _ => self.prompt(),
            },
            Stage::Reporting => self.prompt(),
            Stage::Tracing(errand) => {
                let held: Option<Inferior> = self.inferior.take();
                match held {
                    Some(mut inferior) => {
                        let progress: Progress = inferior.advance(reply);
                        self.inferior = Some(inferior);
                        self.proceed(errand, progress)
                    },
                    None => self.prompt(),
                }
            },
            Stage::Killed(args) => self.ask(Stage::Spawning, Request::Spawn(args)),
            Stage::Leaving => self.leave(),
            Stage::Spawning => match reply {
                Reply::Spawned(pid) => {
                    let (inferior, first) = Inferior::new(pid, &self.breakpoints);
                    self.inferior = Some(inferior);
                    self.ask(Stage::Tracing(Errand::Launch), first)
                },
                _ => self.say(Report::LaunchFailed(Failure::Spawn)),
            },
            Stage::Resolving(target) => match reply {
                Reply::Address(Some(addr)) => self.announce(addr),
                _ => self.say(Report::UnresolvedTarget(target)),
            },
            Stage::Announcing(addr) => {
                let held: Option<Inferior> = self.inferior.take();
                match held {
                    Some(mut inferior) => {
                        let first: Progress = inferior.set_breakpoint(addr);
                        self.inferior = Some(inferior);
                        self.proceed(Errand::Install, first)
                    },
                    None => self.prompt(),
                }
            },
            Stage::StopLine(signal, rip) => {
                let line: Option<Line> = match reply {
                    Reply::Source(line) => line,
                    _ => None,
                };
                self.ask(Stage::StopFunction(signal, line), Request::FunctionAt(rip))
            },
            Stage::StopFunction(signal, line) => {
                let function: Option<String> = match reply {
                    Reply::Function(function) => function,
                    _ => None,
                };
                self.say(Report::Stopped { signal, function, line })
            },
            Stage::Over => self.leave(),
        }
    }
}

} // verus!
