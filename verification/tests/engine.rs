use deet::debugger::Debugger;
use deet::debugger_command::{DebuggerCommand, Rejection};
use deet::event::{
    Change, Failure, Frame, Line, Progress, Registers, Reply, Report, Request, Signal, Status,
    SIGTRAP,
};
use deet::inferior::{Breakpoint, Inferior};
use deet::word::TRAP_OPCODE;
use std::collections::HashMap;

const SIGSEGV: i32 = 11;
const EIO: i32 = 5;
const NOP: u8 = 0x90;

/// A function of the simulated target: its name, the addresses it spans and
/// the line of each instruction.
struct Function {
    name: &'static str,
    start: u64,
    end: u64,
    file: &'static str,
    lines: Vec<(u64, u64)>,
}

/// A simulated tracee. Its program is the list of instruction addresses that
/// it will execute, in order; every instruction is one byte long.
struct Tracee {
    memory: HashMap<u64, u8>,
    unmapped_from: u64,
    path: Vec<u64>,
    at: usize,
    rip: u64,
    rbp: u64,
    exit_code: i32,
    fault_at: Option<usize>,
    pending: Option<Change>,
    functions: Vec<Function>,
    line_addresses: HashMap<u64, u64>,
    log: Vec<Request>,
    shown: Vec<Report>,
    spawns: usize,
    first_stop: Change,
    kill_fails: bool,
}

fn trap() -> Signal {
    Signal { number: SIGTRAP }
}

fn segv() -> Signal {
    Signal { number: SIGSEGV }
}

impl Tracee {
    fn new(path: Vec<u64>) -> Tracee {
        let rip = path[0];
        Tracee {
            memory: HashMap::new(),
            unmapped_from: u64::MAX,
            path,
            at: 0,
            rip,
            rbp: 0x7ffc_0000,
            exit_code: 0,
            fault_at: None,
            pending: Some(Change::Stopped(trap())),
            functions: Vec::new(),
            line_addresses: HashMap::new(),
            log: Vec::new(),
            shown: Vec::new(),
            spawns: 0,
            first_stop: Change::Stopped(trap()),
            kill_fails: false,
        }
    }

    fn byte(&self, addr: u64) -> u8 {
        *self.memory.get(&addr).unwrap_or(&NOP)
    }

    fn word(&self, addr: u64) -> u64 {
        let mut bytes = [0u8; 8];
        for k in 0..8u64 {
            bytes[k as usize] = self.byte(addr.wrapping_add(k));
        }
        u64::from_le_bytes(bytes)
    }

    fn put_word(&mut self, addr: u64, word: u64) {
        let bytes = word.to_le_bytes();
        for k in 0..8u64 {
            self.memory.insert(addr.wrapping_add(k), bytes[k as usize]);
        }
    }

    /// Executes one instruction. `None` while the tracee can go on.
    fn execute(&mut self) -> Option<Change> {
        if self.at >= self.path.len() {
            return Some(Change::Exited(self.exit_code));
        }
        let addr = self.path[self.at];
        if self.fault_at == Some(self.at) {
            self.fault_at = None;
            self.rip = addr;
            return Some(Change::Stopped(segv()));
        }
        if self.byte(addr) == TRAP_OPCODE {
            self.rip = addr + 1;
            return Some(Change::Stopped(trap()));
        }
        self.at += 1;
        if self.at >= self.path.len() {
            return Some(Change::Exited(self.exit_code));
        }
        self.rip = self.path[self.at];
        None
    }

    fn function_of(&self, addr: u64) -> Option<&Function> {
        self.functions.iter().find(|f| f.start <= addr && addr < f.end)
    }

    fn line_of(&self, addr: u64) -> Option<Line> {
        let function = self.function_of(addr)?;
        let mut found: Option<u64> = None;
        for (start, number) in &function.lines {
            if *start <= addr {
                found = Some(*number);
            }
        }
        found.map(|number| Line { file: function.file.to_string(), number })
    }

    fn perform(&mut self, request: Request) -> Reply {
        self.log.push(request.clone());
        match request {
            Request::Spawn(_) => {
                self.spawns += 1;
                self.memory.clear();
                self.at = 0;
                self.rip = self.path[0];
                self.pending = Some(self.first_stop);
                Reply::Spawned(4000 + self.spawns as i32)
            }
            Request::Wait => match self.pending.take() {
                Some(change) => Reply::Changed(change),
                None => Reply::Failed(10),
            },
            Request::GetRegs => Reply::Regs(Registers { rip: self.rip, rbp: self.rbp }),
            Request::SetRip(rip) => {
                self.rip = rip;
                Reply::Done
            }
            Request::Peek(addr) => {
                if addr >= self.unmapped_from {
                    Reply::Failed(EIO)
                } else {
                    Reply::Word(self.word(addr))
                }
            }
            Request::Poke(addr, word) => {
                if addr >= self.unmapped_from {
                    Reply::Failed(EIO)
                } else {
                    self.put_word(addr, word);
                    Reply::Done
                }
            }
            Request::Step(_) => {
                let change = self.execute().unwrap_or(Change::Stopped(trap()));
                self.pending = Some(change);
                Reply::Done
            }
            Request::Cont(_) => {
                let change = loop {
                    if let Some(change) = self.execute() {
                        break change;
                    }
                };
                self.pending = Some(change);
                Reply::Done
            }
            Request::Kill => {
                if self.kill_fails {
                    Reply::Failed(3)
                } else {
                    self.pending = Some(Change::Signaled(Signal { number: 9 }));
                    Reply::Done
                }
            }
            Request::LineAt(addr) => Reply::Source(self.line_of(addr)),
            Request::FunctionAt(addr) => {
                Reply::Function(self.function_of(addr).map(|f| f.name.to_string()))
            }
            Request::AddressOfLine(number) => {
                Reply::Address(self.line_addresses.get(&number).copied())
            }
            Request::AddressOfFunction(name) => {
                Reply::Address(self.functions.iter().find(|f| f.name == name).map(|f| f.start))
            }
            Request::Report(report) => {
                self.shown.push(report);
                Reply::Done
            }
            Request::Prompt => panic!("the prompt is answered by the test"),
        }
    }

    fn pokes(&self) -> Vec<(u64, u64)> {
        let mut pokes = Vec::new();
        for request in &self.log {
            if let Request::Poke(addr, word) = request {
                pokes.push((*addr, *word));
            }
        }
        pokes
    }
}

/// Carries an operation of the controller to its end.
fn drive(inferior: &mut Inferior, first: Progress, tracee: &mut Tracee) -> Progress {
    let mut progress = first;
    let mut turns = 0;
    loop {
        match progress {
            Progress::Request(request) => {
                turns += 1;
                assert!(turns < 100_000, "the operation does not end");
                let reply = tracee.perform(request);
                progress = inferior.advance(reply);
            }
            outcome => return outcome,
        }
    }
}

/// Launches a controller on the tracee with these breakpoints.
fn launch(tracee: &mut Tracee, breakpoints: &Vec<u64>) -> (Inferior, Progress) {
    let (mut inferior, first) = Inferior::new(4242, breakpoints);
    assert_eq!(first, Request::Wait);
    let outcome = drive(&mut inferior, Progress::Request(first), tracee);
    (inferior, outcome)
}

/// Carries the session on from a command to the next prompt, or to its end.
fn command(debugger: &mut Debugger, tracee: &mut Tracee, command: DebuggerCommand) -> bool {
    answer(debugger, tracee, Reply::Command(command))
}

fn answer(debugger: &mut Debugger, tracee: &mut Tracee, reply: Reply) -> bool {
    let mut next = debugger.run(reply);
    let mut turns = 0;
    loop {
        match next {
            Some(Request::Prompt) => return true,
            Some(request) => {
                turns += 1;
                assert!(turns < 100_000, "the command does not end");
                let reply = tracee.perform(request);
                next = debugger.run(reply);
            }
            None => return false,
        }
    }
}

fn straight(from: u64, count: u64) -> Vec<u64> {
    (0..count).map(|k| from + k).collect()
}

/// A target with `main` at 0x401000 calling `foo` at 0x401100.
fn target_with_foo() -> Tracee {
    let mut path = straight(0x401000, 4);
    path.extend(straight(0x401100, 4));
    path.extend(straight(0x401004, 4));
    let mut tracee = Tracee::new(path);
    tracee.functions.push(Function {
        name: "main",
        start: 0x401000,
        end: 0x401010,
        file: "prog.c",
        lines: vec![(0x401000, 20), (0x401002, 21), (0x401004, 22), (0x401006, 23)],
    });
    tracee.functions.push(Function {
        name: "foo",
        start: 0x401100,
        end: 0x401110,
        file: "prog.c",
        lines: vec![(0x401100, 10), (0x401102, 11)],
    });
    tracee.line_addresses.insert(21, 0x401002);
    tracee.line_addresses.insert(10, 0x401100);
    tracee
}

/// Sets the frame of `foo` up as if `main` had called it.
fn enter_foo(tracee: &mut Tracee) {
    tracee.rbp = 0x7ffc_0100;
    tracee.put_word(0x7ffc_0100, 0x7ffc_0200);
    tracee.put_word(0x7ffc_0108, 0x401004);
}

#[test]
fn new_inferior_waits_for_first_stop() {
    let (inferior, first) = Inferior::new(77, &vec![0x401000]);
    assert_eq!(first, Request::Wait);
    assert_eq!(inferior.pid(), 77);
    assert_eq!(inferior.pending_signal(), None);
    assert_eq!(inferior.breakpoint_at(0x401000), None);
    assert!(!inferior.is_idle());
}

#[test]
fn launch_installs_every_breakpoint() {
    let mut tracee = Tracee::new(straight(0x401000, 32));
    tracee.memory.insert(0x401003, 0x55);
    tracee.memory.insert(0x401011, 0x48);
    let (inferior, outcome) = launch(&mut tracee, &vec![0x401003, 0x401011, 0x401012]);
    assert_eq!(outcome, Progress::Finished);
    assert!(inferior.is_idle());
    assert_eq!(tracee.byte(0x401003), TRAP_OPCODE);
    assert_eq!(tracee.byte(0x401011), TRAP_OPCODE);
    assert_eq!(tracee.byte(0x401012), TRAP_OPCODE);
    assert_eq!(tracee.byte(0x401002), NOP);
    assert_eq!(tracee.byte(0x401004), NOP);
    assert_eq!(tracee.byte(0x401010), NOP);
    assert_eq!(tracee.byte(0x401013), NOP);
    assert_eq!(
        inferior.breakpoint_at(0x401003),
        Some(Breakpoint { addr: 0x401003, orig_byte: 0x55 })
    );
    assert_eq!(
        inferior.breakpoint_at(0x401011),
        Some(Breakpoint { addr: 0x401011, orig_byte: 0x48 })
    );
    assert_eq!(
        inferior.breakpoint_at(0x401012),
        Some(Breakpoint { addr: 0x401012, orig_byte: NOP })
    );
    assert_eq!(inferior.breakpoint_at(0x401004), None);
    assert_eq!(inferior.pending_signal(), Some(trap()));
    // The first stop is awaited before any byte is patched.
    assert_eq!(tracee.log[0], Request::Wait);
    assert_eq!(tracee.log[1], Request::GetRegs);
    assert_eq!(tracee.log[2], Request::Peek(0x401000));
    assert_eq!(tracee.log.len(), 2 + 2 * 3);
}

#[test]
fn launch_without_breakpoints_only_waits() {
    let mut tracee = Tracee::new(straight(0x401000, 4));
    let (inferior, outcome) = launch(&mut tracee, &Vec::new());
    assert_eq!(outcome, Progress::Finished);
    assert!(inferior.is_idle());
    assert_eq!(tracee.log, vec![Request::Wait, Request::GetRegs]);
}

#[test]
fn launch_fails_when_first_stop_is_not_the_trap() {
    let mut tracee = Tracee::new(straight(0x401000, 4));
    tracee.pending = Some(Change::Stopped(segv()));
    let (_, outcome) = launch(&mut tracee, &vec![0x401001]);
    assert_eq!(outcome, Progress::Failed(Failure::Initialization));
    assert_eq!(tracee.byte(0x401001), NOP);
    assert!(tracee.pokes().is_empty());

    let mut tracee = Tracee::new(straight(0x401000, 4));
    tracee.pending = Some(Change::Exited(3));
    let (_, outcome) = launch(&mut tracee, &vec![0x401001]);
    assert_eq!(outcome, Progress::Failed(Failure::Initialization));

    let mut tracee = Tracee::new(straight(0x401000, 4));
    tracee.pending = Some(Change::Signaled(segv()));
    let (_, outcome) = launch(&mut tracee, &vec![0x401001]);
    assert_eq!(outcome, Progress::Failed(Failure::Initialization));
}

#[test]
fn launch_fails_when_a_breakpoint_cannot_be_written() {
    let mut tracee = Tracee::new(straight(0x401000, 4));
    tracee.unmapped_from = 0x500000;
    let (inferior, outcome) = launch(&mut tracee, &vec![0x401001, 0x500003, 0x401002]);
    assert_eq!(outcome, Progress::Failed(Failure::Trace(EIO)));
    assert!(inferior.is_idle());
    assert_eq!(tracee.byte(0x401001), TRAP_OPCODE);
    assert_eq!(tracee.byte(0x401002), NOP);
}

#[test]
fn set_breakpoint_patches_one_byte_and_restoring_round_trips() {
    let mut tracee = Tracee::new(straight(0x401000, 16));
    tracee.put_word(0x401008, 0x8877_6655_4433_2211);
    let before = tracee.memory.clone();
    let (mut inferior, _) = launch(&mut tracee, &Vec::new());
    let first = inferior.set_breakpoint(0x40100b);
    assert_eq!(first, Progress::Request(Request::Peek(0x401008)));
    let outcome = drive(&mut inferior, first, &mut tracee);
    assert_eq!(outcome, Progress::Installed(0x44));
    assert_eq!(tracee.word(0x401008), 0x8877_6655_cc33_2211);
    assert_eq!(tracee.byte(0x40100b), TRAP_OPCODE);
    assert_eq!(
        inferior.breakpoint_at(0x40100b),
        Some(Breakpoint { addr: 0x40100b, orig_byte: 0x44 })
    );
    assert_eq!(tracee.pokes(), vec![(0x401008, 0x8877_6655_cc33_2211)]);
    // Putting the recorded byte back restores the memory.
    let original = inferior.breakpoint_at(0x40100b).unwrap().orig_byte;
    let word = tracee.word(0x401008);
    let restored = deet::word::replace_byte(word, deet::word::byte_offset(0x40100b), original);
    tracee.put_word(0x401008, restored);
    assert_eq!(tracee.memory, before);
}

#[test]
fn set_breakpoint_reports_a_failed_access() {
    let mut tracee = Tracee::new(straight(0x401000, 4));
    tracee.unmapped_from = 0x500000;
    let (mut inferior, _) = launch(&mut tracee, &Vec::new());
    let first = inferior.set_breakpoint(0x500001);
    let outcome = drive(&mut inferior, first, &mut tracee);
    assert_eq!(outcome, Progress::Failed(Failure::Trace(EIO)));
    assert_eq!(inferior.breakpoint_at(0x500001), None);
    assert!(inferior.is_idle());
}

#[test]
fn cont_runs_to_the_breakpoint_and_then_past_it() {
    let mut tracee = Tracee::new(straight(0x401000, 8));
    tracee.memory.insert(0x401003, 0x55);
    tracee.exit_code = 7;
    let (mut inferior, outcome) = launch(&mut tracee, &vec![0x401003]);
    assert_eq!(outcome, Progress::Finished);

    let first = inferior.cont();
    assert_eq!(first, Progress::Request(Request::GetRegs));
    let outcome = drive(&mut inferior, first, &mut tracee);
    assert_eq!(outcome, Progress::Status(Status::Stopped(trap(), 0x401004)));
    assert_eq!(tracee.at, 3);
    assert_eq!(inferior.pending_signal(), Some(trap()));

    tracee.log.clear();
    let first = inferior.cont();
    let outcome = drive(&mut inferior, first, &mut tracee);
    assert_eq!(outcome, Progress::Status(Status::Exited(7)));
    assert_eq!(inferior.pending_signal(), None);
    // The step over the breakpoint, exchange by exchange.
    assert_eq!(
        tracee.log,
        vec![
            Request::GetRegs,
            Request::Peek(0x401000),
            Request::Poke(0x401000, 0x9090_9090_5590_9090),
            Request::SetRip(0x401003),
            Request::Step(None),
            Request::Wait,
            Request::GetRegs,
            Request::Peek(0x401000),
            Request::Poke(0x401000, 0x9090_9090_cc90_9090),
            Request::Cont(None),
            Request::Wait,
        ]
    );
    // The breakpoint is still in place, over the same original byte.
    assert_eq!(tracee.byte(0x401003), TRAP_OPCODE);
    assert_eq!(
        inferior.breakpoint_at(0x401003),
        Some(Breakpoint { addr: 0x401003, orig_byte: 0x55 })
    );
}

#[test]
fn cont_traps_again_on_a_breakpoint_in_a_loop() {
    let mut path = straight(0x401000, 4);
    path.extend(straight(0x401000, 4));
    path.extend(straight(0x401000, 4));
    let mut tracee = Tracee::new(path);
    let (mut inferior, _) = launch(&mut tracee, &vec![0x401002]);
    for round in 0..3 {
        let first = inferior.cont();
        let outcome = drive(&mut inferior, first, &mut tracee);
        assert_eq!(outcome, Progress::Status(Status::Stopped(trap(), 0x401003)));
        assert_eq!(tracee.at, 4 * round + 2);
        assert_eq!(tracee.byte(0x401002), TRAP_OPCODE);
    }
    let first = inferior.cont();
    let outcome = drive(&mut inferior, first, &mut tracee);
    assert_eq!(outcome, Progress::Status(Status::Exited(0)));
}

#[test]
fn step_executes_one_instruction() {
    let mut tracee = Tracee::new(straight(0x401000, 4));
    let (mut inferior, _) = launch(&mut tracee, &Vec::new());
    tracee.log.clear();
    let first = inferior.step();
    let outcome = drive(&mut inferior, first, &mut tracee);
    assert_eq!(outcome, Progress::Status(Status::Stopped(trap(), 0x401001)));
    assert_eq!(
        tracee.log,
        vec![Request::GetRegs, Request::Step(None), Request::Wait, Request::GetRegs]
    );
    assert_eq!(tracee.at, 1);
}

#[test]
fn step_over_a_breakpoint_executes_two_instructions() {
    let mut tracee = Tracee::new(straight(0x401000, 8));
    let (mut inferior, _) = launch(&mut tracee, &vec![0x401002]);
    let first = inferior.cont();
    let outcome = drive(&mut inferior, first, &mut tracee);
    assert_eq!(outcome, Progress::Status(Status::Stopped(trap(), 0x401003)));
    tracee.log.clear();
    let first = inferior.step();
    let outcome = drive(&mut inferior, first, &mut tracee);
    // One instruction to get over the breakpoint, one for the step itself.
    assert_eq!(outcome, Progress::Status(Status::Stopped(trap(), 0x401004)));
    assert_eq!(tracee.at, 4);
    assert_eq!(tracee.byte(0x401002), TRAP_OPCODE);
    assert_eq!(tracee.log[3], Request::SetRip(0x401002));
    assert_eq!(tracee.log[9], Request::Step(None));
    assert_eq!(tracee.log.len(), 12);
}

#[test]
fn step_over_short_circuits_when_the_tracee_ends() {
    let mut tracee = Tracee::new(straight(0x401000, 3));
    tracee.exit_code = 9;
    let (mut inferior, _) = launch(&mut tracee, &vec![0x401002]);
    let first = inferior.cont();
    let outcome = drive(&mut inferior, first, &mut tracee);
    assert_eq!(outcome, Progress::Status(Status::Stopped(trap(), 0x401003)));
    tracee.log.clear();
    let first = inferior.cont();
    let outcome = drive(&mut inferior, first, &mut tracee);
    assert_eq!(outcome, Progress::Status(Status::Exited(9)));
    // The single step ended the tracee: nothing is patched or resumed after.
    assert_eq!(tracee.log.len(), 6);
    assert_eq!(tracee.log[4], Request::Step(None));
    assert_eq!(tracee.log[5], Request::Wait);
}

#[test]
fn step_over_short_circuits_on_another_signal() {
    let mut tracee = Tracee::new(straight(0x401000, 8));
    let (mut inferior, _) = launch(&mut tracee, &vec![0x401002]);
    let first = inferior.cont();
    drive(&mut inferior, first, &mut tracee);
    tracee.fault_at = Some(2);
    tracee.log.clear();
    let first = inferior.cont();
    let outcome = drive(&mut inferior, first, &mut tracee);
    assert_eq!(outcome, Progress::Status(Status::Stopped(segv(), 0x401002)));
    assert_eq!(inferior.pending_signal(), Some(segv()));
    assert_eq!(tracee.log.len(), 7);
    // The operation ended before the trap went back in.
    assert_eq!(tracee.byte(0x401002), NOP);
    assert_eq!(
        inferior.breakpoint_at(0x401002),
        Some(Breakpoint { addr: 0x401002, orig_byte: NOP })
    );
}

#[test]
fn resume_forwards_a_real_signal_and_suppresses_the_trap() {
    let mut tracee = Tracee::new(straight(0x401000, 8));
    tracee.fault_at = Some(3);
    let (mut inferior, _) = launch(&mut tracee, &Vec::new());
    tracee.log.clear();
    let first = inferior.cont();
    let outcome = drive(&mut inferior, first, &mut tracee);
    assert_eq!(outcome, Progress::Status(Status::Stopped(segv(), 0x401003)));
    assert_eq!(tracee.log[1], Request::Cont(None));
    assert_eq!(inferior.pending_signal(), Some(segv()));

    tracee.log.clear();
    let first = inferior.step();
    let outcome = drive(&mut inferior, first, &mut tracee);
    assert_eq!(outcome, Progress::Status(Status::Stopped(trap(), 0x401004)));
    assert_eq!(tracee.log[1], Request::Step(Some(segv())));

    tracee.log.clear();
    let first = inferior.cont();
    let outcome = drive(&mut inferior, first, &mut tracee);
    assert_eq!(outcome, Progress::Status(Status::Exited(0)));
    assert_eq!(tracee.log[1], Request::Cont(None));
}

#[test]
fn wait_reports_each_kind_of_change() {
    let mut tracee = Tracee::new(straight(0x401000, 4));
    let (mut inferior, _) = launch(&mut tracee, &Vec::new());

    tracee.pending = Some(Change::Stopped(segv()));
    tracee.rip = 0x401002;
    let first = inferior.wait();
    assert_eq!(first, Progress::Request(Request::Wait));
    let outcome = drive(&mut inferior, first, &mut tracee);
    assert_eq!(outcome, Progress::Status(Status::Stopped(segv(), 0x401002)));
    assert_eq!(inferior.pending_signal(), Some(segv()));

    tracee.pending = Some(Change::Signaled(segv()));
    let first = inferior.wait();
    let outcome = drive(&mut inferior, first, &mut tracee);
    assert_eq!(outcome, Progress::Status(Status::Signaled(segv())));
    assert_eq!(inferior.pending_signal(), Some(segv()));

    tracee.pending = Some(Change::Exited(42));
    let first = inferior.wait();
    let outcome = drive(&mut inferior, first, &mut tracee);
    assert_eq!(outcome, Progress::Status(Status::Exited(42)));
    assert_eq!(inferior.pending_signal(), None);

    let first = inferior.wait();
    let outcome = drive(&mut inferior, first, &mut tracee);
    assert_eq!(outcome, Progress::Failed(Failure::Trace(10)));
}

#[test]
fn kill_awaits_the_end_of_the_tracee() {
    let mut tracee = Tracee::new(straight(0x401000, 4));
    let (mut inferior, _) = launch(&mut tracee, &Vec::new());
    tracee.log.clear();
    let first = inferior.kill();
    assert_eq!(first, Progress::Request(Request::Kill));
    let outcome = drive(&mut inferior, first, &mut tracee);
    assert_eq!(outcome, Progress::Finished);
    assert_eq!(tracee.log, vec![Request::Kill, Request::Wait]);
    assert_eq!(inferior.pending_signal(), Some(Signal { number: 9 }));
}

#[test]
fn kill_ignores_a_failed_wait_and_reports_a_failed_kill() {
    let mut tracee = Tracee::new(straight(0x401000, 4));
    let (mut inferior, _) = launch(&mut tracee, &Vec::new());
    assert_eq!(inferior.kill(), Progress::Request(Request::Kill));
    assert_eq!(inferior.advance(Reply::Done), Progress::Request(Request::Wait));
    assert_eq!(inferior.advance(Reply::Failed(10)), Progress::Finished);
    assert!(inferior.is_idle());

    assert_eq!(inferior.kill(), Progress::Request(Request::Kill));
    assert_eq!(inferior.advance(Reply::Failed(3)), Progress::Failed(Failure::Trace(3)));
    assert!(inferior.is_idle());
}

#[test]
fn a_reply_out_of_turn_is_a_breach_of_protocol() {
    let mut tracee = Tracee::new(straight(0x401000, 4));
    let (mut inferior, _) = launch(&mut tracee, &Vec::new());
    assert_eq!(inferior.advance(Reply::Done), Progress::Failed(Failure::Protocol));
    assert_eq!(inferior.cont(), Progress::Request(Request::GetRegs));
    assert_eq!(inferior.advance(Reply::Word(1)), Progress::Failed(Failure::Protocol));
    assert!(inferior.is_idle());
    assert_eq!(inferior.cont(), Progress::Request(Request::GetRegs));
    assert_eq!(inferior.advance(Reply::Failed(3)), Progress::Failed(Failure::Trace(3)));
    assert!(inferior.is_idle());
}

#[test]
fn an_operation_under_way_is_not_dropped_for_another() {
    let mut tracee = Tracee::new(straight(0x401000, 8));
    tracee.memory.insert(0x401002, 0x55);
    tracee.exit_code = 4;
    let (mut inferior, _) = launch(&mut tracee, &vec![0x401002]);
    let first = inferior.cont();
    drive(&mut inferior, first, &mut tracee);
    // A continue over the breakpoint, carried on until the original byte is
    // back and the trap is not yet.
    let mut progress = inferior.cont();
    for _ in 0..4 {
        match progress {
            Progress::Request(request) => progress = inferior.advance(tracee.perform(request)),
            _ => panic!("the continue ended early"),
        }
    }
    assert_eq!(progress, Progress::Request(Request::Step(None)));
    assert_eq!(tracee.byte(0x401002), 0x55);
    assert!(!inferior.is_idle());
    // No other operation begins now.
    let refused = Progress::Failed(Failure::Protocol);
    assert_eq!(inferior.cont(), refused);
    assert_eq!(inferior.step(), refused);
    assert_eq!(inferior.step_lines(1), refused);
    assert_eq!(inferior.step_lines(0), refused);
    assert_eq!(inferior.wait(), refused);
    assert_eq!(inferior.kill(), refused);
    assert_eq!(inferior.print_backtrace(), refused);
    assert_eq!(inferior.set_breakpoint(0x401004), refused);
    assert!(!inferior.is_idle());
    // The continue goes on where it was, and the trap goes back in.
    let outcome = drive(&mut inferior, progress, &mut tracee);
    assert_eq!(outcome, Progress::Status(Status::Exited(4)));
    assert_eq!(tracee.byte(0x401002), TRAP_OPCODE);
    assert_eq!(inferior.breakpoint_at(0x401004), None);
}

#[test]
fn step_lines_stops_on_the_next_line() {
    let mut tracee = target_with_foo();
    let (mut inferior, _) = launch(&mut tracee, &Vec::new());
    let first = inferior.step_lines(1);
    assert_eq!(first, Progress::Request(Request::GetRegs));
    let outcome = drive(&mut inferior, first, &mut tracee);
    // Line 20 spans two instructions.
    assert_eq!(outcome, Progress::Status(Status::Stopped(trap(), 0x401002)));
    assert_eq!(tracee.at, 2);
}

#[test]
fn step_lines_crosses_one_boundary_per_count() {
    let mut tracee = target_with_foo();
    let (mut inferior, _) = launch(&mut tracee, &Vec::new());
    let first = inferior.step_lines(3);
    let outcome = drive(&mut inferior, first, &mut tracee);
    // 20 -> 21 -> foo's 10 -> foo's 11.
    assert_eq!(outcome, Progress::Status(Status::Stopped(trap(), 0x401102)));
    assert_eq!(tracee.at, 6);
    let first = inferior.step_lines(1);
    let outcome = drive(&mut inferior, first, &mut tracee);
    assert_eq!(outcome, Progress::Status(Status::Stopped(trap(), 0x401004)));
}

#[test]
fn step_lines_of_zero_does_nothing() {
    let mut tracee = target_with_foo();
    let (mut inferior, _) = launch(&mut tracee, &vec![0x401002]);
    tracee.log.clear();
    assert_eq!(inferior.step_lines(0), Progress::Finished);
    assert!(inferior.is_idle());
    assert!(tracee.log.is_empty());
    assert_eq!(tracee.at, 0);
    assert_eq!(inferior.pending_signal(), Some(trap()));
    assert_eq!(
        inferior.breakpoint_at(0x401002),
        Some(Breakpoint { addr: 0x401002, orig_byte: NOP })
    );
    // The tracee is still there to be stepped.
    let first = inferior.step_lines(1);
    let outcome = drive(&mut inferior, first, &mut tracee);
    assert_eq!(outcome, Progress::Status(Status::Stopped(trap(), 0x401002)));
    assert_eq!(tracee.at, 2);
}

#[test]
fn step_lines_ends_with_the_tracee() {
    let mut tracee = target_with_foo();
    tracee.exit_code = 5;
    let (mut inferior, _) = launch(&mut tracee, &Vec::new());
    let first = inferior.step_lines(100);
    let outcome = drive(&mut inferior, first, &mut tracee);
    assert_eq!(outcome, Progress::Status(Status::Exited(5)));
}

#[test]
fn step_lines_stops_on_another_signal() {
    let mut tracee = target_with_foo();
    tracee.fault_at = Some(1);
    let (mut inferior, _) = launch(&mut tracee, &Vec::new());
    let first = inferior.step_lines(2);
    let outcome = drive(&mut inferior, first, &mut tracee);
    assert_eq!(outcome, Progress::Status(Status::Stopped(segv(), 0x401001)));
}

#[test]
fn step_lines_without_line_information_steps_to_the_end() {
    let mut tracee = Tracee::new(straight(0x401000, 6));
    tracee.exit_code = 2;
    let (mut inferior, _) = launch(&mut tracee, &Vec::new());
    let first = inferior.step_lines(1);
    let outcome = drive(&mut inferior, first, &mut tracee);
    assert_eq!(outcome, Progress::Status(Status::Exited(2)));
}

#[test]
fn step_lines_steps_over_breakpoints() {
    let mut tracee = target_with_foo();
    let (mut inferior, _) = launch(&mut tracee, &vec![0x401001, 0x401002]);
    let first = inferior.cont();
    let outcome = drive(&mut inferior, first, &mut tracee);
    assert_eq!(outcome, Progress::Status(Status::Stopped(trap(), 0x401002)));
    // The instruction pointer is one byte past the trap, on line 21; the
    // second breakpoint traps on that line too, so the step goes on until
    // the tracee enters foo.
    let first = inferior.step_lines(1);
    let outcome = drive(&mut inferior, first, &mut tracee);
    assert_eq!(outcome, Progress::Status(Status::Stopped(trap(), 0x401100)));
    assert_eq!(tracee.at, 4);
    assert_eq!(tracee.byte(0x401001), TRAP_OPCODE);
    assert_eq!(tracee.byte(0x401002), TRAP_OPCODE);
}

#[test]
fn backtrace_shows_frames_up_to_main() {
    let mut tracee = target_with_foo();
    let (mut inferior, _) = launch(&mut tracee, &vec![0x401100]);
    let first = inferior.cont();
    let outcome = drive(&mut inferior, first, &mut tracee);
    assert_eq!(outcome, Progress::Status(Status::Stopped(trap(), 0x401101)));
    enter_foo(&mut tracee);
    let first = inferior.print_backtrace();
    assert_eq!(first, Progress::Request(Request::GetRegs));
    let outcome = drive(&mut inferior, first, &mut tracee);
    assert_eq!(outcome, Progress::Finished);
    assert_eq!(
        tracee.shown,
        vec![
            Report::Frame(Frame {
                function: "foo".to_string(),
                line: Line { file: "prog.c".to_string(), number: 10 },
            }),
            Report::Frame(Frame {
                function: "main".to_string(),
                line: Line { file: "prog.c".to_string(), number: 22 },
            }),
        ]
    );
}

#[test]
fn backtrace_in_main_shows_one_frame() {
    let mut tracee = target_with_foo();
    let (mut inferior, _) = launch(&mut tracee, &Vec::new());
    tracee.log.clear();
    let first = inferior.print_backtrace();
    let outcome = drive(&mut inferior, first, &mut tracee);
    assert_eq!(outcome, Progress::Finished);
    assert_eq!(tracee.shown.len(), 1);
    assert_eq!(tracee.log.len(), 4);
}

#[test]
fn backtrace_fails_on_a_corrupted_chain() {
    let mut tracee = target_with_foo();
    let (mut inferior, _) = launch(&mut tracee, &vec![0x401100]);
    let first = inferior.cont();
    drive(&mut inferior, first, &mut tracee);
    tracee.rbp = 0x7ffc_0100;
    tracee.put_word(0x7ffc_0100, 0x7ffc_0200);
    tracee.put_word(0x7ffc_0108, 0xdead_beef);
    tracee.log.clear();
    let first = inferior.print_backtrace();
    let outcome = drive(&mut inferior, first, &mut tracee);
    assert_eq!(outcome, Progress::Failed(Failure::Unresolved));
    assert_eq!(tracee.shown.len(), 1);
    // Registers, one frame resolved and shown, its caller found and not
    // resolved.
    assert_eq!(tracee.log.len(), 1 + 5 + 2);
    assert!(inferior.is_idle());
}

#[test]
fn backtrace_ends_on_a_chain_that_turns_back_on_itself() {
    let mut tracee = target_with_foo();
    let (mut inferior, _) = launch(&mut tracee, &vec![0x401100]);
    let first = inferior.cont();
    drive(&mut inferior, first, &mut tracee);
    // The frame pointer points at itself, and the return address lies in
    // foo: every frame of the circle resolves outside the entry function.
    tracee.rbp = 0x7ffc_0100;
    tracee.put_word(0x7ffc_0100, 0x7ffc_0100);
    tracee.put_word(0x7ffc_0108, 0x401102);
    tracee.log.clear();
    let first = inferior.print_backtrace();
    let outcome = drive(&mut inferior, first, &mut tracee);
    assert_eq!(outcome, Progress::Failed(Failure::Unresolved));
    assert_eq!(
        tracee.shown,
        vec![Report::Frame(Frame {
            function: "foo".to_string(),
            line: Line { file: "prog.c".to_string(), number: 10 },
        })]
    );
    assert_eq!(
        tracee.log[1..5],
        [
            Request::LineAt(0x401101),
            Request::FunctionAt(0x401101),
            Request::Report(tracee.shown[0].clone()),
            Request::Peek(0x7ffc_0108),
        ]
    );
    assert_eq!(tracee.log[5], Request::Peek(0x7ffc_0100));
    assert_eq!(tracee.log.len(), 6);
    assert!(inferior.is_idle());
}

#[test]
fn backtrace_ends_on_a_circle_of_two_frames() {
    let mut tracee = target_with_foo();
    let (mut inferior, _) = launch(&mut tracee, &vec![0x401100]);
    let first = inferior.cont();
    drive(&mut inferior, first, &mut tracee);
    tracee.rbp = 0x7ffc_0100;
    tracee.put_word(0x7ffc_0100, 0x7ffc_0200);
    tracee.put_word(0x7ffc_0108, 0x401102);
    tracee.put_word(0x7ffc_0200, 0x7ffc_0100);
    tracee.put_word(0x7ffc_0208, 0x401103);
    tracee.log.clear();
    let first = inferior.print_backtrace();
    let outcome = drive(&mut inferior, first, &mut tracee);
    // The second frame leads back down to the first: the walk ends there.
    assert_eq!(outcome, Progress::Failed(Failure::Unresolved));
    assert_eq!(tracee.shown.len(), 2);
    assert_eq!(tracee.log.len(), 1 + 5 + 5);
}

#[test]
fn backtrace_in_a_session_ends_on_a_circle() {
    let mut tracee = target_with_foo();
    let mut debugger = Debugger::new();
    assert!(command(&mut debugger, &mut tracee, DebuggerCommand::BreakPoint("foo".to_string())));
    assert!(command(&mut debugger, &mut tracee, DebuggerCommand::Run(Vec::new())));
    tracee.rbp = 0x7ffc_0100;
    tracee.put_word(0x7ffc_0100, 0x7ffc_0100);
    tracee.put_word(0x7ffc_0108, 0x401102);
    tracee.shown.clear();
    assert!(command(&mut debugger, &mut tracee, DebuggerCommand::Backtrace));
    assert_eq!(tracee.shown.len(), 2);
    assert_eq!(tracee.shown[1], Report::BacktraceFailed(Failure::Unresolved));
    assert!(debugger.has_tracee());
}

#[test]
fn backtrace_fails_in_unmapped_code() {
    let mut tracee = Tracee::new(straight(0x401000, 4));
    let (mut inferior, _) = launch(&mut tracee, &Vec::new());
    let first = inferior.print_backtrace();
    let outcome = drive(&mut inferior, first, &mut tracee);
    assert_eq!(outcome, Progress::Failed(Failure::Unresolved));
    assert!(tracee.shown.is_empty());
}

#[test]
fn backtrace_fails_when_the_frame_pointer_leaves_no_room() {
    let mut tracee = target_with_foo();
    let (mut inferior, _) = launch(&mut tracee, &vec![0x401100]);
    let first = inferior.cont();
    drive(&mut inferior, first, &mut tracee);
    tracee.rbp = u64::MAX - 3;
    let first = inferior.print_backtrace();
    let outcome = drive(&mut inferior, first, &mut tracee);
    assert_eq!(outcome, Progress::Failed(Failure::Unresolved));
    assert_eq!(tracee.shown.len(), 1);
}

#[test]
fn backtrace_fails_when_the_stack_cannot_be_read() {
    let mut tracee = target_with_foo();
    let (mut inferior, _) = launch(&mut tracee, &vec![0x401100]);
    let first = inferior.cont();
    drive(&mut inferior, first, &mut tracee);
    tracee.rbp = 0x7ffc_0100;
    tracee.unmapped_from = 0x7ffc_0000;
    let first = inferior.print_backtrace();
    let outcome = drive(&mut inferior, first, &mut tracee);
    assert_eq!(outcome, Progress::Failed(Failure::Trace(EIO)));
}

#[test]
fn session_starts_at_the_prompt() {
    let debugger = Debugger::new();
    assert!(!debugger.has_tracee());
    assert!(!debugger.is_over());
    assert!(debugger.breakpoints().is_empty());
}

#[test]
fn continue_without_a_tracee_is_turned_away() {
    let mut tracee = target_with_foo();
    let mut debugger = Debugger::new();
    let next = debugger.run(Reply::Command(DebuggerCommand::Continue));
    assert_eq!(next, Some(Request::Report(Report::NoActiveTracee)));
    assert_eq!(debugger.run(Reply::Done), Some(Request::Prompt));
    assert!(!debugger.has_tracee());
    assert!(!debugger.is_over());
    assert!(command(&mut debugger, &mut tracee, DebuggerCommand::Step(1)));
    assert!(command(&mut debugger, &mut tracee, DebuggerCommand::Backtrace));
    assert_eq!(
        tracee.shown,
        vec![Report::NoActiveTracee, Report::NoActiveTracee]
    );
    assert!(tracee.log.iter().all(|request| matches!(request, Request::Report(_))));
}

#[test]
fn break_at_a_function_then_run_stops_there_and_backtraces() {
    let mut tracee = target_with_foo();
    let mut debugger = Debugger::new();
    assert!(command(&mut debugger, &mut tracee, DebuggerCommand::BreakPoint("foo".to_string())));
    assert_eq!(debugger.breakpoints(), &vec![0x401100]);
    assert_eq!(tracee.shown, vec![Report::BreakpointSet { index: 0, addr: 0x401100 }]);
    assert!(!debugger.has_tracee());

    tracee.shown.clear();
    assert!(command(&mut debugger, &mut tracee, DebuggerCommand::Run(Vec::new())));
    assert!(debugger.has_tracee());
    assert_eq!(
        tracee.shown,
        vec![Report::Stopped {
            signal: trap(),
            function: Some("foo".to_string()),
            line: Some(Line { file: "prog.c".to_string(), number: 10 }),
        }]
    );

    tracee.shown.clear();
    enter_foo(&mut tracee);
    assert!(command(&mut debugger, &mut tracee, DebuggerCommand::Backtrace));
    assert_eq!(
        tracee.shown,
        vec![
            Report::Frame(Frame {
                function: "foo".to_string(),
                line: Line { file: "prog.c".to_string(), number: 10 },
            }),
            Report::Frame(Frame {
                function: "main".to_string(),
                line: Line { file: "prog.c".to_string(), number: 22 },
            }),
        ]
    );
}

#[test]
fn unreached_breakpoint_lets_the_target_exit() {
    let mut tracee = Tracee::new(straight(0x402000, 8));
    tracee.exit_code = 3;
    let mut debugger = Debugger::new();
    assert!(command(
        &mut debugger,
        &mut tracee,
        DebuggerCommand::BreakPoint("*0x401000".to_string())
    ));
    assert_eq!(debugger.breakpoints(), &vec![0x401000]);
    tracee.shown.clear();
    assert!(command(&mut debugger, &mut tracee, DebuggerCommand::Run(Vec::new())));
    assert_eq!(tracee.shown, vec![Report::Exited(3)]);
    assert!(!debugger.has_tracee());
    assert!(!debugger.is_over());
}

#[test]
fn run_again_reinstalls_every_breakpoint() {
    let mut tracee = target_with_foo();
    let mut debugger = Debugger::new();
    // One breakpoint before any tracee exists, one while the first exists.
    assert!(command(&mut debugger, &mut tracee, DebuggerCommand::BreakPoint("21".to_string())));
    assert!(command(&mut debugger, &mut tracee, DebuggerCommand::Run(Vec::new())));
    assert!(debugger.has_tracee());
    assert!(command(&mut debugger, &mut tracee, DebuggerCommand::BreakPoint("foo".to_string())));
    assert_eq!(tracee.byte(0x401100), TRAP_OPCODE);
    assert_eq!(debugger.breakpoints(), &vec![0x401002, 0x401100]);

    tracee.log.clear();
    tracee.shown.clear();
    assert!(command(
        &mut debugger,
        &mut tracee,
        DebuggerCommand::Run(vec!["again".to_string()])
    ));
    assert_eq!(tracee.spawns, 2);
    assert_eq!(tracee.log[0], Request::Kill);
    assert_eq!(tracee.log[1], Request::Wait);
    assert_eq!(tracee.log[2], Request::Report(Report::Killed(4001)));
    assert_eq!(tracee.log[3], Request::Spawn(vec!["again".to_string()]));
    // Both addresses were patched in the fresh memory of the new tracee.
    let pokes = tracee.pokes();
    assert_eq!(pokes[0], (0x401000, 0x9090_9090_90cc_9090));
    assert_eq!(pokes[1], (0x401100, 0x9090_9090_9090_90cc));
    assert_eq!(tracee.byte(0x401002), TRAP_OPCODE);
    assert_eq!(tracee.byte(0x401100), TRAP_OPCODE);
    assert_eq!(
        tracee.shown,
        vec![
            Report::Killed(4001),
            Report::Stopped {
                signal: trap(),
                function: Some("main".to_string()),
                line: Some(Line { file: "prog.c".to_string(), number: 21 }),
            },
        ]
    );
    assert_eq!(debugger.breakpoints(), &vec![0x401002, 0x401100]);
}

#[test]
fn duplicate_breakpoints_accumulate() {
    let mut tracee = target_with_foo();
    let mut debugger = Debugger::new();
    assert!(command(&mut debugger, &mut tracee, DebuggerCommand::BreakPoint("foo".to_string())));
    assert!(command(&mut debugger, &mut tracee, DebuggerCommand::BreakPoint("*401100".to_string())));
    assert_eq!(debugger.breakpoints(), &vec![0x401100, 0x401100]);
    assert_eq!(
        tracee.shown,
        vec![
            Report::BreakpointSet { index: 0, addr: 0x401100 },
            Report::BreakpointSet { index: 1, addr: 0x401100 },
        ]
    );
}

#[test]
fn installing_twice_keeps_the_original_byte() {
    let mut tracee = Tracee::new(straight(0x401000, 8));
    tracee.memory.insert(0x401003, 0x55);
    tracee.exit_code = 7;
    let (mut inferior, _) = launch(&mut tracee, &Vec::new());
    let first = inferior.set_breakpoint(0x401003);
    assert_eq!(drive(&mut inferior, first, &mut tracee), Progress::Installed(0x55));
    let first = inferior.set_breakpoint(0x401003);
    assert_eq!(drive(&mut inferior, first, &mut tracee), Progress::Installed(0x55));
    assert_eq!(tracee.byte(0x401003), TRAP_OPCODE);
    assert_eq!(
        inferior.breakpoint_at(0x401003),
        Some(Breakpoint { addr: 0x401003, orig_byte: 0x55 })
    );
    // The tracee stops at the breakpoint, and then executes the instruction
    // under it and goes on to its end.
    let first = inferior.cont();
    let outcome = drive(&mut inferior, first, &mut tracee);
    assert_eq!(outcome, Progress::Status(Status::Stopped(trap(), 0x401004)));
    assert_eq!(tracee.at, 3);
    tracee.log.clear();
    let first = inferior.cont();
    let outcome = drive(&mut inferior, first, &mut tracee);
    assert_eq!(outcome, Progress::Status(Status::Exited(7)));
    assert_eq!(tracee.log[2], Request::Poke(0x401000, 0x9090_9090_5590_9090));
    assert_eq!(tracee.byte(0x401003), TRAP_OPCODE);
    assert_eq!(
        inferior.breakpoint_at(0x401003),
        Some(Breakpoint { addr: 0x401003, orig_byte: 0x55 })
    );
}

#[test]
fn installing_again_rearms_a_breakpoint_that_was_left_disarmed() {
    let mut tracee = Tracee::new(straight(0x401000, 8));
    tracee.memory.insert(0x401002, 0x55);
    let (mut inferior, _) = launch(&mut tracee, &vec![0x401002]);
    let first = inferior.cont();
    drive(&mut inferior, first, &mut tracee);
    tracee.fault_at = Some(2);
    let first = inferior.cont();
    let outcome = drive(&mut inferior, first, &mut tracee);
    assert_eq!(outcome, Progress::Status(Status::Stopped(segv(), 0x401002)));
    assert_eq!(tracee.byte(0x401002), 0x55);
    let first = inferior.set_breakpoint(0x401002);
    assert_eq!(drive(&mut inferior, first, &mut tracee), Progress::Installed(0x55));
    assert_eq!(tracee.byte(0x401002), TRAP_OPCODE);
    assert_eq!(
        inferior.breakpoint_at(0x401002),
        Some(Breakpoint { addr: 0x401002, orig_byte: 0x55 })
    );
}

#[test]
fn launch_with_a_repeated_address_records_the_byte_of_the_image() {
    let mut tracee = Tracee::new(straight(0x401000, 8));
    tracee.memory.insert(0x401003, 0x55);
    tracee.memory.insert(0x401005, 0x48);
    tracee.exit_code = 2;
    let image = tracee.memory.clone();
    let (mut inferior, outcome) = launch(&mut tracee, &vec![0x401003, 0x401005, 0x401003]);
    assert_eq!(outcome, Progress::Finished);
    assert_eq!(tracee.log.len(), 2 + 2 * 3);
    assert_eq!(
        inferior.breakpoint_at(0x401003),
        Some(Breakpoint { addr: 0x401003, orig_byte: 0x55 })
    );
    assert_eq!(
        inferior.breakpoint_at(0x401005),
        Some(Breakpoint { addr: 0x401005, orig_byte: 0x48 })
    );
    // No byte but those of the two addresses has changed.
    for addr in 0x400ff0u64..0x401020 {
        let expected = if addr == 0x401003 || addr == 0x401005 {
            TRAP_OPCODE
        } else {
            *image.get(&addr).unwrap_or(&NOP)
        };
        assert_eq!(tracee.byte(addr), expected);
    }
    // The tracee passes both breakpoints and ends.
    let first = inferior.cont();
    let outcome = drive(&mut inferior, first, &mut tracee);
    assert_eq!(outcome, Progress::Status(Status::Stopped(trap(), 0x401004)));
    let first = inferior.cont();
    let outcome = drive(&mut inferior, first, &mut tracee);
    assert_eq!(outcome, Progress::Status(Status::Stopped(trap(), 0x401006)));
    assert_eq!(tracee.at, 5);
    let first = inferior.cont();
    let outcome = drive(&mut inferior, first, &mut tracee);
    assert_eq!(outcome, Progress::Status(Status::Exited(2)));
}

#[test]
fn breaking_twice_at_one_target_is_harmless() {
    let mut tracee = target_with_foo();
    tracee.exit_code = 8;
    let mut debugger = Debugger::new();
    assert!(command(&mut debugger, &mut tracee, DebuggerCommand::BreakPoint("foo".to_string())));
    assert!(command(&mut debugger, &mut tracee, DebuggerCommand::Run(Vec::new())));
    assert!(command(&mut debugger, &mut tracee, DebuggerCommand::BreakPoint("foo".to_string())));
    assert_eq!(debugger.breakpoints(), &vec![0x401100, 0x401100]);
    assert_eq!(tracee.byte(0x401100), TRAP_OPCODE);
    tracee.shown.clear();
    assert!(command(&mut debugger, &mut tracee, DebuggerCommand::Continue));
    assert_eq!(tracee.shown, vec![Report::Exited(8)]);
    // And so it is with both in the list of the next launch.
    tracee.shown.clear();
    assert!(command(&mut debugger, &mut tracee, DebuggerCommand::Run(Vec::new())));
    assert_eq!(tracee.at, 4);
    tracee.shown.clear();
    assert!(command(&mut debugger, &mut tracee, DebuggerCommand::Continue));
    assert_eq!(tracee.shown, vec![Report::Exited(8)]);
}

#[test]
fn unresolved_targets_change_nothing() {
    let mut tracee = target_with_foo();
    let mut debugger = Debugger::new();
    for target in ["bar", "99", "*zz", "*", "*0x"] {
        tracee.shown.clear();
        assert!(command(
            &mut debugger,
            &mut tracee,
            DebuggerCommand::BreakPoint(target.to_string())
        ));
        assert_eq!(tracee.shown, vec![Report::UnresolvedTarget(target.to_string())]);
        assert!(debugger.breakpoints().is_empty());
    }
}

#[test]
fn break_targets_are_told_apart() {
    let mut debugger = Debugger::new();
    assert_eq!(
        debugger.run(Reply::Command(DebuggerCommand::BreakPoint("21".to_string()))),
        Some(Request::AddressOfLine(21))
    );
    assert_eq!(
        debugger.run(Reply::Address(Some(0x401002))),
        Some(Request::Report(Report::BreakpointSet { index: 0, addr: 0x401002 }))
    );
    assert_eq!(debugger.run(Reply::Done), Some(Request::Prompt));
    assert_eq!(
        debugger.run(Reply::Command(DebuggerCommand::BreakPoint("main".to_string()))),
        Some(Request::AddressOfFunction("main".to_string()))
    );
    assert_eq!(
        debugger.run(Reply::Address(None)),
        Some(Request::Report(Report::UnresolvedTarget("main".to_string())))
    );
    assert_eq!(debugger.run(Reply::Done), Some(Request::Prompt));
    assert_eq!(
        debugger.run(Reply::Command(DebuggerCommand::BreakPoint("*0X10".to_string()))),
        Some(Request::Report(Report::BreakpointSet { index: 1, addr: 0x10 }))
    );
    assert_eq!(debugger.breakpoints(), &vec![0x401002, 0x10]);
}

#[test]
fn break_in_a_live_tracee_reports_a_failed_install() {
    let mut tracee = target_with_foo();
    tracee.unmapped_from = 0x500000;
    let mut debugger = Debugger::new();
    assert!(command(&mut debugger, &mut tracee, DebuggerCommand::BreakPoint("foo".to_string())));
    assert!(command(&mut debugger, &mut tracee, DebuggerCommand::Run(Vec::new())));
    tracee.shown.clear();
    assert!(command(
        &mut debugger,
        &mut tracee,
        DebuggerCommand::BreakPoint("*0x500008".to_string())
    ));
    assert_eq!(
        tracee.shown,
        vec![
            Report::BreakpointSet { index: 1, addr: 0x500008 },
            Report::InstallFailed(Failure::Trace(EIO)),
        ]
    );
    assert!(debugger.has_tracee());
    // The address stays registered, and fails the next launch.
    tracee.shown.clear();
    assert!(command(&mut debugger, &mut tracee, DebuggerCommand::Run(Vec::new())));
    assert_eq!(
        tracee.shown,
        vec![Report::Killed(4001), Report::LaunchFailed(Failure::Trace(EIO))]
    );
    assert!(!debugger.has_tracee());
}

#[test]
fn run_reports_a_failed_spawn() {
    let mut debugger = Debugger::new();
    assert_eq!(
        debugger.run(Reply::Command(DebuggerCommand::Run(vec!["x".to_string()]))),
        Some(Request::Spawn(vec!["x".to_string()]))
    );
    assert_eq!(
        debugger.run(Reply::Failed(2)),
        Some(Request::Report(Report::LaunchFailed(Failure::Spawn)))
    );
    assert_eq!(debugger.run(Reply::Done), Some(Request::Prompt));
    assert!(!debugger.has_tracee());
}

#[test]
fn run_reports_a_failed_initialization() {
    let mut tracee = target_with_foo();
    tracee.first_stop = Change::Stopped(segv());
    let mut debugger = Debugger::new();
    assert!(command(&mut debugger, &mut tracee, DebuggerCommand::Run(Vec::new())));
    assert_eq!(tracee.shown, vec![Report::LaunchFailed(Failure::Initialization)]);
    assert!(!debugger.has_tracee());
}

#[test]
fn step_and_continue_report_where_the_tracee_is() {
    let mut tracee = target_with_foo();
    tracee.exit_code = 4;
    let mut debugger = Debugger::new();
    assert!(command(&mut debugger, &mut tracee, DebuggerCommand::BreakPoint("21".to_string())));
    assert!(command(&mut debugger, &mut tracee, DebuggerCommand::Run(Vec::new())));
    tracee.shown.clear();
    assert!(command(&mut debugger, &mut tracee, DebuggerCommand::Step(1)));
    assert_eq!(
        tracee.shown,
        vec![Report::Stopped {
            signal: trap(),
            function: Some("foo".to_string()),
            line: Some(Line { file: "prog.c".to_string(), number: 10 }),
        }]
    );
    assert!(debugger.has_tracee());
    tracee.shown.clear();
    assert!(command(&mut debugger, &mut tracee, DebuggerCommand::Continue));
    assert_eq!(tracee.shown, vec![Report::Exited(4)]);
    assert!(!debugger.has_tracee());
    tracee.shown.clear();
    assert!(command(&mut debugger, &mut tracee, DebuggerCommand::Continue));
    assert_eq!(tracee.shown, vec![Report::NoActiveTracee]);
}

#[test]
fn stop_in_unknown_code_is_reported_without_location() {
    let mut tracee = Tracee::new(straight(0x401000, 8));
    tracee.fault_at = Some(2);
    let mut debugger = Debugger::new();
    assert!(command(&mut debugger, &mut tracee, DebuggerCommand::Run(Vec::new())));
    assert_eq!(
        tracee.shown,
        vec![Report::Stopped { signal: segv(), function: None, line: None }]
    );
    tracee.shown.clear();
    assert!(command(&mut debugger, &mut tracee, DebuggerCommand::Backtrace));
    assert_eq!(tracee.shown, vec![Report::BacktraceFailed(Failure::Unresolved)]);
}

#[test]
fn death_by_signal_ends_the_hold_on_the_tracee() {
    let mut tracee = target_with_foo();
    let mut debugger = Debugger::new();
    assert!(command(&mut debugger, &mut tracee, DebuggerCommand::BreakPoint("foo".to_string())));
    assert!(command(&mut debugger, &mut tracee, DebuggerCommand::Run(Vec::new())));
    assert_eq!(debugger.run(Reply::Command(DebuggerCommand::Continue)), Some(Request::GetRegs));
    let mut next = debugger.run(Reply::Regs(Registers { rip: 0x401200, rbp: 0 }));
    assert_eq!(next, Some(Request::Cont(None)));
    next = debugger.run(Reply::Done);
    assert_eq!(next, Some(Request::Wait));
    next = debugger.run(Reply::Changed(Change::Signaled(segv())));
    assert_eq!(next, Some(Request::Report(Report::Signaled(segv()))));
    assert!(!debugger.has_tracee());
}

#[test]
fn step_zero_keeps_the_tracee_and_reports_nothing() {
    let mut tracee = target_with_foo();
    tracee.exit_code = 6;
    let mut debugger = Debugger::new();
    assert!(command(&mut debugger, &mut tracee, DebuggerCommand::BreakPoint("foo".to_string())));
    assert!(command(&mut debugger, &mut tracee, DebuggerCommand::Run(Vec::new())));
    assert!(debugger.has_tracee());
    let stopped_at = tracee.at;
    tracee.shown.clear();
    tracee.log.clear();
    assert_eq!(
        debugger.run(Reply::Command(DebuggerCommand::Step(0))),
        Some(Request::Prompt)
    );
    assert!(debugger.has_tracee());
    assert!(!debugger.is_over());
    assert!(tracee.shown.is_empty());
    assert!(tracee.log.is_empty());
    assert_eq!(tracee.at, stopped_at);
    // The tracee goes on from where it was.
    assert!(command(&mut debugger, &mut tracee, DebuggerCommand::Continue));
    assert_eq!(tracee.shown, vec![Report::Exited(6)]);
    assert!(!debugger.has_tracee());
}

#[test]
fn step_zero_without_a_tracee_is_turned_away() {
    let mut debugger = Debugger::new();
    assert_eq!(
        debugger.run(Reply::Command(DebuggerCommand::Step(0))),
        Some(Request::Report(Report::NoActiveTracee))
    );
}

#[test]
fn step_reports_a_failure() {
    let mut tracee = target_with_foo();
    let mut debugger = Debugger::new();
    assert!(command(&mut debugger, &mut tracee, DebuggerCommand::BreakPoint("foo".to_string())));
    assert!(command(&mut debugger, &mut tracee, DebuggerCommand::Run(Vec::new())));
    assert_eq!(debugger.run(Reply::Command(DebuggerCommand::Step(2))), Some(Request::GetRegs));
    assert_eq!(
        debugger.run(Reply::Failed(3)),
        Some(Request::Report(Report::StepFailed(Failure::Trace(3))))
    );
    assert_eq!(debugger.run(Reply::Done), Some(Request::Prompt));
    assert!(debugger.has_tracee());
    assert_eq!(debugger.run(Reply::Command(DebuggerCommand::Continue)), Some(Request::GetRegs));
    assert_eq!(
        debugger.run(Reply::Failed(3)),
        Some(Request::Report(Report::ResumeFailed(Failure::Trace(3))))
    );
}

#[test]
fn quit_kills_the_tracee_and_ends_the_session() {
    let mut tracee = target_with_foo();
    let mut debugger = Debugger::new();
    assert!(command(&mut debugger, &mut tracee, DebuggerCommand::BreakPoint("foo".to_string())));
    assert!(command(&mut debugger, &mut tracee, DebuggerCommand::Run(Vec::new())));
    tracee.shown.clear();
    tracee.log.clear();
    assert!(!command(&mut debugger, &mut tracee, DebuggerCommand::Quit));
    assert!(debugger.is_over());
    assert!(!debugger.has_tracee());
    assert_eq!(tracee.shown, vec![Report::Killed(4001)]);
    assert_eq!(tracee.log[0], Request::Kill);
    assert_eq!(debugger.run(Reply::Done), None);
}

#[test]
fn quit_reports_a_failed_kill() {
    let mut tracee = target_with_foo();
    tracee.kill_fails = true;
    let mut debugger = Debugger::new();
    assert!(command(&mut debugger, &mut tracee, DebuggerCommand::BreakPoint("foo".to_string())));
    assert!(command(&mut debugger, &mut tracee, DebuggerCommand::Run(Vec::new())));
    tracee.shown.clear();
    assert!(!command(&mut debugger, &mut tracee, DebuggerCommand::Quit));
    assert_eq!(tracee.shown, vec![Report::KillFailed(Failure::Trace(3))]);
    assert!(debugger.is_over());
}

#[test]
fn quit_without_a_tracee_ends_at_once() {
    let mut debugger = Debugger::new();
    assert_eq!(debugger.run(Reply::Command(DebuggerCommand::Quit)), None);
    assert!(debugger.is_over());
}

#[test]
fn end_of_input_is_a_quit() {
    let mut debugger = Debugger::new();
    assert_eq!(debugger.run(Reply::EndOfInput), None);
    assert!(debugger.is_over());
}

#[test]
fn interrupt_is_answered_with_a_hint() {
    let mut debugger = Debugger::new();
    assert_eq!(debugger.run(Reply::Interrupted), Some(Request::Report(Report::Hint)));
    assert_eq!(debugger.run(Reply::Done), Some(Request::Prompt));
    assert!(!debugger.is_over());
}

#[test]
fn rejected_line_is_reported() {
    let mut debugger = Debugger::new();
    assert_eq!(
        debugger.run(Reply::Rejected(Rejection::Unrecognized)),
        Some(Request::Report(Report::Rejected(Rejection::Unrecognized)))
    );
    assert_eq!(debugger.run(Reply::Done), Some(Request::Prompt));
}
