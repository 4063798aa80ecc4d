//! The tracee controller.
//!
//! An [`Inferior`] owns what is known of one traced process: its breakpoints,
//! the signal seen at its last stop, and the operation that is under way. An
//! operation is started by one of `wait`, `cont`, `step`, `step_lines`,
//! `set_breakpoint`, `print_backtrace` and `kill`, which hand back the first
//! request, and is carried on by `advance` with each reply until it yields
//! something other than a request. One operation is under way at a time: to
//! begin another before it has ended is a breach of protocol and changes
//! nothing.
//!
//! What each step does is given by the functions of [`InferiorView`], the
//! mathematical model of the controller.

use crate::event::{
    Change, Failure, Frame, Line, Progress, Registers, Reply, Report, Request, Signal, Status,
};
use crate::word::{
    align_addr_to_word, byte_at, byte_offset, extract_byte, replace_byte, with_byte, word_base,
    TRAP_OPCODE,
};
use std::collections::HashMap;
use vstd::prelude::*;
use vstd::string::*;

verus! {

broadcast use vstd::std_specs::hash::group_hash_axioms;

/// One instrumented location: where the trap opcode sits and the byte that it
/// replaced.
#[derive(Clone, Copy, Debug, PartialEq, Eq, Structural)]
pub struct Breakpoint {
    pub addr: u64,
    pub orig_byte: u8,
}

/// The way a tracee is set going again.
#[derive(Clone, Debug, PartialEq, Eq)]
pub enum Resume {
    /// Run until the next stop.
    Cont,
    /// Execute one instruction.
    Step,
    /// Execute one instruction as part of a step by source lines: `remaining`
    /// lines are still to be left, and `start` is the line on which the
    /// current one began, if it is known.
    Lines { remaining: u64, start: Option<Line> },
}

/// What a patched byte is for.
#[derive(Clone, Debug, PartialEq, Eq)]
pub enum Purpose {
    /// A breakpoint asked for while the tracee is stopped.
    Install,
    /// A breakpoint of the launch list; `next` is the index of the one after
    /// it.
    Launch { next: usize },
    /// The original byte goes back so that the instruction under a
    /// breakpoint can execute.
    Restore(Resume),
    /// The trap goes back in after that instruction has executed.
    Rearm(Resume),
}

/// A byte to store in the tracee's memory.
#[derive(Clone, Debug, PartialEq, Eq)]
pub struct Patch {
    pub addr: u64,
    pub val: u8,
    pub purpose: Purpose,
}

/// What a wait is for.
#[derive(Clone, Debug, PartialEq, Eq)]
pub enum Waiter {
    /// A wait on its own.
    Plain,
    /// The first stop of a new tracee.
    Launch,
    /// The stop after the single step over the breakpoint at this address.
    StepOver(Resume, u64),
    /// The stop that ends a resume.
    Arrival(Resume),
    /// The end of a tracee that was killed.
    Reaped,
}

/// Where the controller stands in its current operation. Each phase but
/// `Idle` awaits the reply to one request.
#[derive(Clone, Debug, PartialEq, Eq)]
pub enum Phase {
    /// No operation is under way.
    Idle,
    /// Awaits a change of the tracee's state.
    Waiting(Waiter),
    /// The tracee stopped on this signal; awaits its registers.
    Reading(Waiter, Signal),
    /// Awaits the word around the byte to patch.
    Peeking(Patch),
    /// Awaits the store of the patched word; keeps the byte that was there.
    Poking(Patch, u8),
    /// Awaits the registers, to see whether a breakpoint lies just behind the
    /// instruction pointer.
    Locating(Resume),
    /// Awaits the rewind of the instruction pointer to this address.
    Rewinding(Resume, u64),
    /// Awaits the start of the single step over the instruction at this
    /// address.
    SteppingOver(Resume, u64),
    /// Awaits the start of the resume proper.
    Departing(Resume),
    /// A line step awaits the registers at the start of a line.
    LineRegs { remaining: u64 },
    /// A line step awaits the line on which it starts.
    LineStart { remaining: u64 },
    /// A line step awaits the line of the stop it has reached.
    LineCheck { remaining: u64, start: Option<Line>, status: Status },
    /// A backtrace awaits the registers.
    FrameRegs,
    /// A backtrace awaits the line of a frame.
    FrameLine { ip: u64, bp: u64 },
    /// A backtrace awaits the function of a frame.
    FrameFunction { ip: u64, bp: u64, line: Option<Line> },
    /// A backtrace awaits the showing of a frame; `entry` says that it is the
    /// frame of the entry function.
    FrameShown { bp: u64, entry: bool },
    /// A backtrace awaits the return address of a frame.
    ReturnAddress { bp: u64 },
    /// A backtrace awaits the caller's frame pointer; holds the return
    /// address and the frame pointer of the frame just shown.
    CallerFrame { ip: u64, bp: u64 },
    /// Awaits the killing of the tracee.
    Killing,
}

/// The name of the function at which a backtrace ends.
pub open spec fn entry_function() -> Seq<char> {
    "main"@
}

/// The signal to deliver on a resume: the one last observed, unless that was
/// the trap, which is the debugger's own.
pub open spec fn forwarded(pending: Option<Signal>) -> Option<Signal> {
    match pending {
        Some(signal) => if signal.trap() {
            None
        } else {
            Some(signal)
        },
        None => None,
    }
}

/// The request that sets the tracee going: a continue for a continue, a
/// single step for a step and for a step by lines.
pub open spec fn departure(resume: Resume, signal: Option<Signal>) -> Request {
    if resume is Cont {
        Request::Cont(signal)
    } else {
        Request::Step(signal)
    }
}

/// The controller as a mathematical value.
pub struct InferiorView {
    /// The process identifier of the tracee.
    pub pid: i32,
    /// The installed breakpoints, by address.
    pub breakpoints: Map<u64, Breakpoint>,
    /// The signal observed at the last stop.
    pub pending_signal: Option<Signal>,
    /// The addresses to instrument at launch.
    pub to_install: Seq<u64>,
    /// The operation under way.
    pub phase: Phase,
}

impl InferiorView {
    /// The controller in another phase.
    pub open spec fn at(self, phase: Phase) -> InferiorView {
        InferiorView { phase, ..self }
    }

    /// The breakpoint installed at `addr`, if there is one.
    pub open spec fn breakpoint_at(self, addr: u64) -> Option<Breakpoint> {
        if self.breakpoints.contains_key(addr) {
            Some(self.breakpoints[addr])
        } else {
            None
        }
    }

    /// The original byte of the breakpoint at `addr`, once the trap opcode
    /// was stored there over the byte `read`: the byte already recorded
    /// where there is a breakpoint, for what was read there is then the
    /// trap of an earlier installation or was put back from the record; and
    /// `read` where there is none yet.
    pub open spec fn original_at(self, addr: u64, read: u8) -> u8 {
        if self.breakpoints.contains_key(addr) {
            self.breakpoints[addr].orig_byte
        } else {
            read
        }
    }

    /// The controller with a breakpoint recorded at `addr`, where the trap
    /// opcode was stored over the byte `read`. A breakpoint that is already
    /// recorded there stays as it is.
    pub open spec fn record(self, addr: u64, read: u8) -> InferiorView {
        if self.breakpoints.contains_key(addr) {
            self
        } else {
            InferiorView {
                breakpoints: self.breakpoints.insert(addr, Breakpoint { addr, orig_byte: read }),
                ..self
            }
        }
    }

    /// The controller after a stop or an end was observed.
    pub open spec fn observe(self, pending_signal: Option<Signal>) -> InferiorView {
        InferiorView { pending_signal, ..self }
    }

    /// Moves to `phase` and asks for `request`.
    pub open spec fn ask(self, phase: Phase, request: Request) -> (InferiorView, Progress) {
        (self.at(phase), Progress::Request(request))
    }

    /// Ends the operation with `progress`.
    pub open spec fn settle(self, progress: Progress) -> (InferiorView, Progress) {
        (self.at(Phase::Idle), progress)
    }

    /// The controller of a tracee that was just spawned: it awaits the first
    /// stop, and has `to_install` to instrument after it.
    pub open spec fn launched(pid: i32, to_install: Seq<u64>) -> InferiorView {
        InferiorView {
            pid,
            breakpoints: Map::empty(),
            pending_signal: None,
            to_install,
            phase: Phase::Waiting(Waiter::Launch),
        }
    }

    /// Starts a wait.
    pub open spec fn start_wait(self, waiter: Waiter) -> (InferiorView, Progress) {
        self.ask(Phase::Waiting(waiter), Request::Wait)
    }

    /// Starts the patching of one byte: the word around it is read first.
    pub open spec fn start_patch(self, patch: Patch) -> (InferiorView, Progress) {
        self.ask(Phase::Peeking(patch), Request::Peek(word_base(patch.addr)))
    }

    /// Starts the installation of a breakpoint at `addr`: the patching of the
    /// trap opcode over the byte there.
    pub open spec fn start_install(self, addr: u64) -> (InferiorView, Progress) {
        self.start_patch(Patch { addr, val: TRAP_OPCODE, purpose: Purpose::Install })
    }

    /// Starts a resume: the registers are read first.
    pub open spec fn start_resume(self, resume: Resume) -> (InferiorView, Progress) {
        self.ask(Phase::Locating(resume), Request::GetRegs)
    }

    /// Starts a step by `count` source lines. A step by no lines is over at
    /// once: it asks for nothing and leaves the tracee as it is.
    pub open spec fn start_lines(self, count: u64) -> (InferiorView, Progress) {
        if count == 0 {
            self.settle(Progress::Finished)
        } else {
            self.ask(Phase::LineRegs { remaining: count }, Request::GetRegs)
        }
    }

    /// Starts a backtrace.
    pub open spec fn start_backtrace(self) -> (InferiorView, Progress) {
        self.ask(Phase::FrameRegs, Request::GetRegs)
    }

    /// Starts the killing of the tracee.
    pub open spec fn start_kill(self) -> (InferiorView, Progress) {
        self.ask(Phase::Killing, Request::Kill)
    }

    /// Instruments the launch list from index `index` on, and finishes the
    /// launch when the list is done.
    pub open spec fn install_from(self, index: usize) -> (InferiorView, Progress) {
        if index < self.to_install.len() {
            self.start_patch(
                Patch {
                    addr: self.to_install[index as int],
                    val: TRAP_OPCODE,
                    purpose: Purpose::Launch { next: (index + 1) as usize },
                },
            )
        } else {
            self.settle(Progress::Finished)
        }
    }

    /// Sets the tracee going: a continue or a single step, with the pending
    /// signal unless it is the trap.
    pub open spec fn depart(self, resume: Resume) -> (InferiorView, Progress) {
        self.ask(Phase::Departing(resume), departure(resume, forwarded(self.pending_signal)))
    }

    /// Goes on after the registers of a resume came: where a breakpoint lies
    /// one byte behind the instruction pointer, its original byte is put back
    /// first; otherwise the tracee departs at once.
    pub open spec fn located(self, resume: Resume, regs: Registers) -> (InferiorView, Progress) {
        if regs.rip >= 1 && self.breakpoints.contains_key((regs.rip - 1) as u64) {
            let addr = (regs.rip - 1) as u64;
            self.start_patch(
                Patch { addr, val: self.breakpoints[addr].orig_byte, purpose: Purpose::Restore(
                    resume,
                ) },
            )
        } else {
            self.depart(resume)
        }
    }

    /// Goes on after a byte was stored over the byte `read`. Where the trap
    /// opcode was stored, the breakpoint is recorded, unless it is recorded
    /// already; an installation ends with the original byte of the
    /// breakpoint.
    pub open spec fn patched(self, patch: Patch, read: u8) -> (InferiorView, Progress) {
        match patch.purpose {
            Purpose::Install => self.record(patch.addr, read).settle(
                Progress::Installed(self.original_at(patch.addr, read)),
            ),
            Purpose::Launch { next } => self.record(patch.addr, read).install_from(next),
            Purpose::Restore(resume) => self.ask(
                Phase::Rewinding(resume, patch.addr),
                Request::SetRip(patch.addr),
            ),
            Purpose::Rearm(resume) => self.record(patch.addr, read).depart(resume),
        }
    }

    /// Goes on after a resume ended with `status`. A continue or a single
    /// step is over. A line step is over unless the tracee stopped on the
    /// trap, in which case the line of the stop is looked up.
    pub open spec fn arrived(self, resume: Resume, status: Status) -> (InferiorView, Progress) {
        match resume {
            Resume::Lines { remaining, start } => match status {
                Status::Stopped(signal, rip) => if signal.trap() {
                    self.ask(Phase::LineCheck { remaining, start, status }, Request::LineAt(rip))
                } else {
                    self.settle(Progress::Status(status))
                },
                _ => self.settle(Progress::Status(status)),
            },
            _ => self.settle(Progress::Status(status)),
        }
    }

    /// Goes on after a wait ended with `status`.
    pub open spec fn waited(self, waiter: Waiter, status: Status) -> (InferiorView, Progress) {
        match waiter {
            Waiter::Plain => self.settle(Progress::Status(status)),
            Waiter::Launch => if status.trapped() {
                self.install_from(0)
            } else {
                self.settle(Progress::Failed(Failure::Initialization))
            },
            Waiter::StepOver(resume, addr) => if status.trapped() {
                self.start_patch(
                    Patch { addr, val: TRAP_OPCODE, purpose: Purpose::Rearm(resume) },
                )
            } else {
                self.arrived(resume, status)
            },
            Waiter::Arrival(resume) => self.arrived(resume, status),
            Waiter::Reaped => self.settle(Progress::Finished),
        }
    }

    /// Goes on after the line of a stop came. The line step has crossed a
    /// boundary when both lines are known and differ; it is then over if
    /// this was the last line to leave, and otherwise begins the next line.
    /// Without a boundary the next instruction is stepped.
    pub open spec fn line_checked(
        self,
        remaining: u64,
        start: Option<Line>,
        status: Status,
        current: Option<Line>,
    ) -> (InferiorView, Progress) {
        if crossed(start, current) {
            if remaining <= 1 {
                self.settle(Progress::Status(status))
            } else {
                self.ask(
                    Phase::LineRegs { remaining: (remaining - 1) as u64 },
                    Request::GetRegs,
                )
            }
        } else {
            self.start_resume(Resume::Lines { remaining, start })
        }
    }

    /// Goes on after line and function of a frame came: a frame with both is
    /// shown, one without either ends the backtrace.
    pub open spec fn frame_resolved(
        self,
        bp: u64,
        line: Option<Line>,
        function: Option<String>,
    ) -> (InferiorView, Progress) {
        match (line, function) {
            (Some(line), Some(function)) => self.ask(
                Phase::FrameShown { bp, entry: function@ == entry_function() },
                Request::Report(Report::Frame(Frame { function, line })),
            ),
            _ => self.settle(Progress::Failed(Failure::Unresolved)),
        }
    }

    /// Goes on after a frame was shown: the entry function's frame is the
    /// last; of any other the return address is read, one word above the
    /// frame pointer.
    pub open spec fn frame_shown(self, bp: u64, entry: bool) -> (InferiorView, Progress) {
        if entry {
            self.settle(Progress::Finished)
        } else if bp + 8 > u64::MAX {
            self.settle(Progress::Failed(Failure::Unresolved))
        } else {
            self.ask(Phase::ReturnAddress { bp }, Request::Peek((bp + 8) as u64))
        }
    }

    /// Goes on after the caller's frame pointer came, with the return
    /// address `ip` and the frame pointer `bp` of the frame just shown. A
    /// caller's frame lies above the frame of what it called: a frame pointer
    /// that does not lie above `bp` cannot be followed and ends the
    /// backtrace, so that no chain of frames is walked in a circle.
    pub open spec fn caller_found(self, ip: u64, bp: u64, caller: u64) -> (
        InferiorView,
        Progress,
    ) {
        if caller > bp {
            self.ask(Phase::FrameLine { ip, bp: caller }, Request::LineAt(ip))
        } else {
            self.settle(Progress::Failed(Failure::Unresolved))
        }
    }

    /// What a starter yields: the start of its operation where the
    /// controller is idle, and a breach of protocol, with nothing changed,
    /// where an operation is under way.
    pub open spec fn begin(self, started: (InferiorView, Progress)) -> (InferiorView, Progress) {
        if self.phase is Idle {
            started
        } else {
            (self, Progress::Failed(Failure::Protocol))
        }
    }

    /// Begins a wait.
    pub open spec fn wait(self) -> (InferiorView, Progress) {
        self.begin(self.start_wait(Waiter::Plain))
    }

    /// Begins a continue.
    pub open spec fn cont(self) -> (InferiorView, Progress) {
        self.begin(self.start_resume(Resume::Cont))
    }

    /// Begins a single step.
    pub open spec fn step(self) -> (InferiorView, Progress) {
        self.begin(self.start_resume(Resume::Step))
    }

    /// Begins a step by `count` source lines.
    pub open spec fn step_lines(self, count: u64) -> (InferiorView, Progress) {
        self.begin(self.start_lines(count))
    }

    /// Begins the installation of a breakpoint at `addr`.
    pub open spec fn set_breakpoint(self, addr: u64) -> (InferiorView, Progress) {
        self.begin(self.start_install(addr))
    }

    /// Begins a backtrace.
    pub open spec fn print_backtrace(self) -> (InferiorView, Progress) {
        self.begin(self.start_backtrace())
    }

    /// Begins the killing of the tracee.
    pub open spec fn kill(self) -> (InferiorView, Progress) {
        self.begin(self.start_kill())
    }

    /// The step of the controller: from the phase it is in and the reply to
    /// its outstanding request, the phase it moves to and what it yields.
    ///
    /// A failed request ends the operation with `Failure::Trace`, except
    /// while the end of a killed tracee is awaited, where it is ignored. A
    /// reply that does not answer the outstanding request ends the operation
    /// with `Failure::Protocol`.
    pub open spec fn advance(self, reply: Reply) -> (InferiorView, Progress) {
        let idle = self.at(Phase::Idle);
        match (self.phase, reply) {
            (Phase::Waiting(Waiter::Reaped), Reply::Failed(_)) => idle.settle(Progress::Finished),
            (Phase::Reading(Waiter::Reaped, _), Reply::Failed(_)) => idle.settle(
                Progress::Finished,
            ),
            (Phase::Idle, _) => idle.settle(Progress::Failed(Failure::Protocol)),
            (_, Reply::Failed(errno)) => idle.settle(Progress::Failed(Failure::Trace(errno))),
            (Phase::Waiting(waiter), Reply::Changed(change)) => match change {
                Change::Stopped(signal) => idle.ask(
                    Phase::Reading(waiter, signal),
                    Request::GetRegs,
                ),
                Change::Exited(code) => idle.observe(None).waited(waiter, Status::Exited(code)),
                Change::Signaled(signal) => idle.observe(Some(signal)).waited(
                    waiter,
                    Status::Signaled(signal),
                ),
            },
            (Phase::Reading(waiter, signal), Reply::Regs(regs)) => idle.observe(
                Some(signal),
            ).waited(waiter, Status::Stopped(signal, regs.rip)),
            (Phase::Peeking(patch), Reply::Word(word)) => {
                let k = (patch.addr - word_base(patch.addr)) as u64;
                idle.ask(
                    Phase::Poking(patch, byte_at(word, k)),
                    Request::Poke(word_base(patch.addr), with_byte(word, k, patch.val)),
                )
            },
            (Phase::Poking(patch, orig_byte), Reply::Done) => idle.patched(patch, orig_byte),
            (Phase::Locating(resume), Reply::Regs(regs)) => idle.located(resume, regs),
            (Phase::Rewinding(resume, addr), Reply::Done) => idle.ask(
                Phase::SteppingOver(resume, addr),
                Request::Step(None),
            ),
            (Phase::SteppingOver(resume, addr), Reply::Done) => idle.start_wait(
                Waiter::StepOver(resume, addr),
            ),
            (Phase::Departing(resume), Reply::Done) => idle.start_wait(Waiter::Arrival(resume)),
            (Phase::LineRegs { remaining }, Reply::Regs(regs)) => idle.ask(
                Phase::LineStart { remaining },
                Request::LineAt(regs.rip),
            ),
            (Phase::LineStart { remaining }, Reply::Source(start)) => idle.start_resume(
                Resume::Lines { remaining, start },
            ),
            (Phase::LineCheck { remaining, start, status }, Reply::Source(current)) => {
                idle.line_checked(remaining, start, status, current)
            },
            (Phase::FrameRegs, Reply::Regs(regs)) => idle.ask(
                Phase::FrameLine { ip: regs.rip, bp: regs.rbp },
                Request::LineAt(regs.rip),
            ),
            (Phase::FrameLine { ip, bp }, Reply::Source(line)) => idle.ask(
                Phase::FrameFunction { ip, bp, line },
                Request::FunctionAt(ip),
            ),
            (Phase::FrameFunction { ip, bp, line }, Reply::Function(function)) => {
                idle.frame_resolved(bp, line, function)
            },
            (Phase::FrameShown { bp, entry }, Reply::Done) => idle.frame_shown(bp, entry),
            (Phase::ReturnAddress { bp }, Reply::Word(ip)) => idle.ask(
                Phase::CallerFrame { ip, bp },
                Request::Peek(bp),
            ),
            (Phase::CallerFrame { ip, bp }, Reply::Word(caller)) => idle.caller_found(
                ip,
                bp,
                caller,
            ),
            (Phase::Killing, Reply::Done) => idle.start_wait(Waiter::Reaped),
            _ => idle.settle(Progress::Failed(Failure::Protocol)),
        }
    }
}

/// Whether a step has left the line it started on: both lines are known and
/// differ in file or number.
pub open spec fn crossed(start: Option<Line>, current: Option<Line>) -> bool {
    match (start, current) {
        (Some(start), Some(current)) => !start.same(current),
        _ => false,
    }
}

/// The tracee controller.
pub struct Inferior {
    pid: i32,
    addr_to_breakpoints: HashMap<u64, Breakpoint>,
    pending_signal: Option<Signal>,
    to_install: Vec<u64>,
    phase: Phase,
}

impl View for Inferior {
    type V = InferiorView;

    closed spec fn view(&self) -> InferiorView {
        InferiorView {
            pid: self.pid,
            breakpoints: self.addr_to_breakpoints@,
            pending_signal: self.pending_signal,
            to_install: self.to_install@,
            phase: self.phase,
        }
    }
}

fn copy_addresses(addresses: &Vec<u64>) -> (copy: Vec<u64>)
    ensures
        copy@ == addresses@,
{
    let mut copy: Vec<u64> = Vec::new();
    let mut i: usize = 0;
    while i < addresses.len()
        invariant
            i <= addresses.len(),
            copy@ == addresses@.take(i as int),
        decreases addresses.len() - i,
    {
        copy.push(addresses[i]);
        assert(addresses@.take(i + 1) =~= addresses@.take(i as int).push(addresses@[i as int]));
        i = i + 1;
    }
    assert(addresses@.take(i as int) =~= addresses@);
    copy
}

impl Inferior {
    /// Takes control of the tracee that was just spawned as process `pid`.
    /// The controller awaits the tracee's first stop, which must be the trap,
    /// and then instruments every address of `breakpoints`. The first request
    /// of the launch comes back with the controller.
    pub fn new(pid: i32, breakpoints: &Vec<u64>) -> (started: (Inferior, Request))
        ensures
            started.0@ == InferiorView::launched(pid, breakpoints@),
            started.1 == Request::Wait,
    {
        let inferior = Inferior {
            pid,
            addr_to_breakpoints: HashMap::new(),
            pending_signal: None,
            to_install: copy_addresses(breakpoints),
            phase: Phase::Waiting(Waiter::Launch),
        };
        assert(inferior.addr_to_breakpoints@ =~= Map::<u64, Breakpoint>::empty());
        (inferior, Request::Wait)
    }

    /// The process identifier of the tracee.
    pub fn pid(&self) -> (pid: i32)
        ensures
            pid == self@.pid,
    {
        self.pid
    }

    /// The signal observed at the last stop of the tracee.
    pub fn pending_signal(&self) -> (signal: Option<Signal>)
        ensures
            signal == self@.pending_signal,
    {
        self.pending_signal
    }

    /// The breakpoint installed at `addr`, if there is one.
    pub fn breakpoint_at(&self, addr: u64) -> (found: Option<Breakpoint>)
        ensures
            found == self@.breakpoint_at(addr),
    {
        match self.addr_to_breakpoints.get(&addr) {
            Some(breakpoint) => Some(*breakpoint),
            None => None,
        }
    }

    /// Whether no operation is under way.
    pub fn is_idle(&self) -> (idle: bool)
        ensures
            idle == (self@.phase is Idle),
    {
        match self.phase {
            Phase::Idle => true,
            _ => false,
        }
    }

    fn ask(&mut self, phase: Phase, request: Request) -> (progress: Progress)
        ensures
            (final(self)@, progress) == old(self)@.ask(phase, request),
    {
        self.phase = phase;
        Progress::Request(request)
    }

    fn settle(&mut self, outcome: Progress) -> (progress: Progress)
        ensures
            (final(self)@, progress) == old(self)@.settle(outcome),
    {
        self.phase = Phase::Idle;
        outcome
    }

    fn record(&mut self, addr: u64, read: u8) -> (original: u8)
        ensures
            final(self)@ == old(self)@.record(addr, read),
            original == old(self)@.original_at(addr, read),
    {
        match self.breakpoint_at(addr) {
            Some(breakpoint) => breakpoint.orig_byte,
            None => {
                self.addr_to_breakpoints.insert(addr, Breakpoint { addr, orig_byte: read });
                read
            },
        }
    }

    fn start_wait(&mut self, waiter: Waiter) -> (progress: Progress)
        ensures
            (final(self)@, progress) == old(self)@.start_wait(waiter),
    {
        self.ask(Phase::Waiting(waiter), Request::Wait)
    }

    fn start_patch(&mut self, patch: Patch) -> (progress: Progress)
        ensures
            (final(self)@, progress) == old(self)@.start_patch(patch),
    {
        let aligned: u64 = align_addr_to_word(patch.addr);
        self.ask(Phase::Peeking(patch), Request::Peek(aligned))
    }

    fn start_resume(&mut self, resume: Resume) -> (progress: Progress)
        ensures
            (final(self)@, progress) == old(self)@.start_resume(resume),
    {
        self.ask(Phase::Locating(resume), Request::GetRegs)
    }

    fn install_from(&mut self, index: usize) -> (progress: Progress)
        ensures
            (final(self)@, progress) == old(self)@.install_from(index),
    {
        if index < self.to_install.len() {
            let addr: u64 = self.to_install[index];
            self.start_patch(
                Patch { addr, val: TRAP_OPCODE, purpose: Purpose::Launch { next: index + 1 } },
            )
        } else {
            self.settle(Progress::Finished)
        }
    }

    fn depart(&mut self, resume: Resume) -> (progress: Progress)
        ensures
            (final(self)@, progress) == old(self)@.depart(resume),
    {
        let signal: Option<Signal> = match self.pending_signal {
            Some(signal) => if signal.is_trap() {
                None
            } else {
                Some(signal)
            },
            None => None,
        };
        let request = match resume {
            Resume::Cont => Request::Cont(signal),
            _ => Request::Step(signal),
        };
        self.ask(Phase::Departing(resume), request)
    }

    fn located(&mut self, resume: Resume, regs: Registers) -> (progress: Progress)
        ensures
            (final(self)@, progress) == old(self)@.located(resume, regs),
    {
        if regs.rip >= 1 {
            let addr: u64 = regs.rip - 1;
            let found: Option<Breakpoint> = self.breakpoint_at(addr);
            match found {
                Some(breakpoint) => {
                    let val: u8 = breakpoint.orig_byte;
                    return self.start_patch(Patch { addr, val, purpose: Purpose::Restore(resume) });
                },
                None => {},
            }
        }
        self.depart(resume)
    }

    fn patched(&mut self, patch: Patch, read: u8) -> (progress: Progress)
        ensures
            (final(self)@, progress) == old(self)@.patched(patch, read),
    {
        match patch.purpose {
            Purpose::Install => {
                let original: u8 = self.record(patch.addr, read);
                self.settle(Progress::Installed(original))
            },
            Purpose::Launch { next } => {
                self.record(patch.addr, read);
                self.install_from(next)
            },
            Purpose::Restore(resume) => self.ask(
                Phase::Rewinding(resume, patch.addr),
                Request::SetRip(patch.addr),
            ),
            Purpose::Rearm(resume) => {
                self.record(patch.addr, read);
                self.depart(resume)
            },
        }
    }

    fn arrived(&mut self, resume: Resume, status: Status) -> (progress: Progress)
        ensures
            (final(self)@, progress) == old(self)@.arrived(resume, status),
    {
        match resume {
            Resume::Lines { remaining, start } => match status {
                Status::Stopped(signal, rip) => if signal.is_trap() {
                    self.ask(Phase::LineCheck { remaining, start, status }, Request::LineAt(rip))
                } else {
                    self.settle(Progress::Status(status))
                },
                _ => self.settle(Progress::Status(status)),
            },
            _ => self.settle(Progress::Status(status)),
        }
    }

    fn waited(&mut self, waiter: Waiter, status: Status) -> (progress: Progress)
        ensures
            (final(self)@, progress) == old(self)@.waited(waiter, status),
    {
        let trapped: bool = match status {
            Status::Stopped(signal, _) => signal.is_trap(),
            _ => false,
        };
        match waiter {
            Waiter::Plain => self.settle(Progress::Status(status)),
            Waiter::Launch => if trapped {
                self.install_from(0)
            } else {
                self.settle(Progress::Failed(Failure::Initialization))
            },
            Waiter::StepOver(resume, addr) => if trapped {
                self.start_patch(Patch { addr, val: TRAP_OPCODE, purpose: Purpose::Rearm(resume) })
            } else {
                self.arrived(resume, status)
            },
            Waiter::Arrival(resume) => self.arrived(resume, status),
            Waiter::Reaped => self.settle(Progress::Finished),
        }
    }

    fn line_checked(
        &mut self,
        remaining: u64,
        start: Option<Line>,
        status: Status,
        current: Option<Line>,
    ) -> (progress: Progress)
        ensures
            (final(self)@, progress) == old(self)@.line_checked(remaining, start, status, current),
    {
        let boundary: bool = match (&start, &current) {
            (Some(from), Some(to)) => !from.is_same(to),
            _ => false,
        };
        if boundary {
            if remaining <= 1 {
                self.settle(Progress::Status(status))
            } else {
                self.ask(Phase::LineRegs { remaining: remaining - 1 }, Request::GetRegs)
            }
        } else {
            self.start_resume(Resume::Lines { remaining, start })
        }
    }

    fn frame_resolved(
        &mut self,
        bp: u64,
        line: Option<Line>,
        function: Option<String>,
    ) -> (progress: Progress)
        ensures
            (final(self)@, progress) == old(self)@.frame_resolved(bp, line, function),
    {
        match (line, function) {
            (Some(line), Some(function)) => {
                let entry: bool = crate::debugger_command::text_equals(function.as_str(), "main");
                self.ask(
                    Phase::FrameShown { bp, entry },
                    Request::Report(Report::Frame(Frame { function, line })),
                )
            },
            _ => self.settle(Progress::Failed(Failure::Unresolved)),
        }
    }

    fn frame_shown(&mut self, bp: u64, entry: bool) -> (progress: Progress)
        ensures
            (final(self)@, progress) == old(self)@.frame_shown(bp, entry),
    {
        if entry {
            self.settle(Progress::Finished)
        } else if bp > u64::MAX - 8 {
            self.settle(Progress::Failed(Failure::Unresolved))
        } else {
            self.ask(Phase::ReturnAddress { bp }, Request::Peek(bp + 8))
        }
    }

    /// Waits for the tracee to change state. Ends with the status observed,
    /// which also becomes the pending signal.
    ///
    /// Like every operation, a wait is begun on an idle controller. While
    /// an operation is under way, beginning another fails as a breach of
    /// protocol and leaves the one under way as it is.
    pub fn wait(&mut self) -> (progress: Progress)
        ensures
            (final(self)@, progress) == old(self)@.wait(),
    {
        if !self.is_idle() {
            return Progress::Failed(Failure::Protocol);
        }
        self.start_wait(Waiter::Plain)
    }

    /// Lets the tracee run until its next stop or its end, stepping over a
    /// breakpoint under the instruction pointer first. Ends with the status
    /// observed.
    pub fn cont(&mut self) -> (progress: Progress)
        ensures
            (final(self)@, progress) == old(self)@.cont(),
    {
        if !self.is_idle() {
            return Progress::Failed(Failure::Protocol);
        }
        self.start_resume(Resume::Cont)
    }

    /// Lets the tracee execute one instruction, stepping over a breakpoint
    /// under the instruction pointer first. Ends with the status observed.
    pub fn step(&mut self) -> (progress: Progress)
        ensures
            (final(self)@, progress) == old(self)@.step(),
    {
        if !self.is_idle() {
            return Progress::Failed(Failure::Protocol);
        }
        self.start_resume(Resume::Step)
    }

    /// Steps the tracee by `count` source lines. Ends with the status of the
    /// last stop: on a new line after `count` line boundaries, or earlier
    /// where the tracee stopped on another signal than the trap, or ended. A
    /// step by no lines is finished at once and leaves the tracee alone.
    pub fn step_lines(&mut self, count: u64) -> (progress: Progress)
        ensures
            (final(self)@, progress) == old(self)@.step_lines(count),
    {
        if !self.is_idle() {
            return Progress::Failed(Failure::Protocol);
        }
        if count == 0 {
            self.settle(Progress::Finished)
        } else {
            self.ask(Phase::LineRegs { remaining: count }, Request::GetRegs)
        }
    }

    /// Installs a breakpoint at `addr`: stores the trap opcode there and
    /// records the byte that it replaced. Where a breakpoint is recorded at
    /// `addr` already, its original byte stays. Ends with the original byte
    /// of the breakpoint.
    pub fn set_breakpoint(&mut self, addr: u64) -> (progress: Progress)
        ensures
            (final(self)@, progress) == old(self)@.set_breakpoint(addr),
    {
        if !self.is_idle() {
            return Progress::Failed(Failure::Protocol);
        }
        self.start_patch(Patch { addr, val: TRAP_OPCODE, purpose: Purpose::Install })
    }

    /// Shows the call chain, innermost frame first, by following the frame
    /// pointers up to the entry function. Fails as unresolved at a frame
    /// without line or function, and at a frame whose saved frame pointer
    /// does not lie above its own or has no room for a return address above
    /// it; so the walk ends on every chain.
    pub fn print_backtrace(&mut self) -> (progress: Progress)
        ensures
            (final(self)@, progress) == old(self)@.print_backtrace(),
    {
        if !self.is_idle() {
            return Progress::Failed(Failure::Protocol);
        }
        self.ask(Phase::FrameRegs, Request::GetRegs)
    }

    /// Kills the tracee and awaits its end.
    pub fn kill(&mut self) -> (progress: Progress)
        ensures
            (final(self)@, progress) == old(self)@.kill(),
    {
        if !self.is_idle() {
            return Progress::Failed(Failure::Protocol);
        }
        self.ask(Phase::Killing, Request::Kill)
    }

    /// Carries the operation under way on with the reply to its outstanding
    /// request.
    pub fn advance(&mut self, reply: Reply) -> (progress: Progress)
        ensures
            (final(self)@, progress) == old(self)@.advance(reply),
    {
        let mut phase = Phase::Idle;
        std::mem::swap(&mut self.phase, &mut phase);
        match (phase, reply) {
            (Phase::Waiting(Waiter::Reaped), Reply::Failed(_)) => self.settle(Progress::Finished),
            (Phase::Reading(Waiter::Reaped, _), Reply::Failed(_)) => self.settle(
                Progress::Finished,
            ),
            (Phase::Idle, _) => self.settle(Progress::Failed(Failure::Protocol)),
            (_, Reply::Failed(errno)) => self.settle(Progress::Failed(Failure::Trace(errno))),
            (Phase::Waiting(waiter), Reply::Changed(change)) => match change {
                Change::Stopped(signal) => self.ask(
                    Phase::Reading(waiter, signal),
                    Request::GetRegs,
                ),
                Change::Exited(code) => {
                    self.pending_signal = None;
                    self.waited(waiter, Status::Exited(code))
                },
                Change::Signaled(signal) => {
                    self.pending_signal = Some(signal);
                    self.waited(waiter, Status::Signaled(signal))
                },
            },
            (Phase::Reading(waiter, signal), Reply::Regs(regs)) => {
                self.pending_signal = Some(signal);
                self.waited(waiter, Status::Stopped(signal, regs.rip))
            },
            (Phase::Peeking(patch), Reply::Word(word)) => {
                let aligned: u64 = align_addr_to_word(patch.addr);
                let k: u64 = byte_offset(patch.addr);
                let orig_byte: u8 = extract_byte(word, k);
                let updated: u64 = replace_byte(word, k, patch.val);
                self.ask(Phase::Poking(patch, orig_byte), Request::Poke(aligned, updated))
            },
            (Phase::Poking(patch, orig_byte), Reply::Done) => self.patched(patch, orig_byte),
            (Phase::Locating(resume), Reply::Regs(regs)) => self.located(resume, regs),
            (Phase::Rewinding(resume, addr), Reply::Done) => self.ask(
                Phase::SteppingOver(resume, addr),
                Request::Step(None),
            ),
            (Phase::SteppingOver(resume, addr), Reply::Done) => self.start_wait(
                Waiter::StepOver(resume, addr),
            ),
            (Phase::Departing(resume), Reply::Done) => self.start_wait(Waiter::Arrival(resume)),
            (Phase::LineRegs { remaining }, Reply::Regs(regs)) => self.ask(
                Phase::LineStart { remaining },
                Request::LineAt(regs.rip),
            ),
            (Phase::LineStart { remaining }, Reply::Source(start)) => self.start_resume(
                Resume::Lines { remaining, start },
            ),
            (Phase::LineCheck { remaining, start, status }, Reply::Source(current)) => {
                self.line_checked(remaining, start, status, current)
            },
            (Phase::FrameRegs, Reply::Regs(regs)) => self.ask(
                Phase::FrameLine { ip: regs.rip, bp: regs.rbp },
                Request::LineAt(regs.rip),
            ),
            (Phase::FrameLine { ip, bp }, Reply::Source(line)) => self.ask(
                Phase::FrameFunction { ip, bp, line },
                Request::FunctionAt(ip),
            ),
            (Phase::FrameFunction { ip, bp, line }, Reply::Function(function)) => {
                self.frame_resolved(bp, line, function)
            },
            (Phase::FrameShown { bp, entry }, Reply::Done) => self.frame_shown(bp, entry),
            (Phase::ReturnAddress { bp }, Reply::Word(ip)) => self.ask(
                Phase::CallerFrame { ip, bp },
                Request::Peek(bp),
            ),
            (Phase::CallerFrame { ip, bp }, Reply::Word(caller)) => {
                if caller > bp {
                    self.ask(Phase::FrameLine { ip, bp: caller }, Request::LineAt(ip))
                } else {
                    self.settle(Progress::Failed(Failure::Unresolved))
                }
            },
            (Phase::Killing, Reply::Done) => self.start_wait(Waiter::Reaped),
            _ => self.settle(Progress::Failed(Failure::Protocol)),
        }
    }
}

} // verus!
