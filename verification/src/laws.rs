//! What holds of every run of the engine against an ideal tracee.
//!
//! Of the controller: it is idle exactly between operations, asks only of
//! the tracer and the symbols, and never removes or changes a breakpoint; a
//! breakpoint replaces one byte, and putting the recorded byte back
//! restores the memory; installing where a breakpoint already is keeps its
//! original byte; a completed step over a breakpoint leaves the trap in
//! place and the breakpoints as they were; a finished launch has
//! instrumented its whole list over the image of the tracee; a step by
//! lines ends on a new line after one line boundary per line asked for, or
//! earlier on another stop or the end of the tracee, and a step by no lines
//! does nothing; a backtrace follows the frame pointers upwards to the entry
//! function, or to the first frame that is unmapped or does not lead
//! upwards; one operation is under way at a time, and every operation but a
//! step by lines ends within a number of exchanges that is known
//! beforehand.
//!
//! Of the session: it stays in step with the controller, never forgets a
//! breakpoint, starts every tracee with all of them in place, lets go of a
//! tracee that has ended, and turns commands away that need a tracee when
//! there is none.

use crate::debugger::{DebuggerView, Errand, Stage};
use crate::debugger_command::DebuggerCommand;
use crate::event::{
    Failure, Frame, Line, Progress, Registers, Reply, Report, Request, Signal, Status,
};
use crate::inferior::{
    crossed, departure, entry_function, forwarded, Breakpoint, InferiorView, Patch, Phase,
    Purpose, Resume, Waiter,
};
use crate::model::{
    end_world, exchanges, honest, lemma_honest_takes_every_turn, lemma_patch_changes_one_byte,
    load, patch, run, session_run, whole, Memory, Turn, World,
};
use crate::word::{word_base, TRAP_OPCODE};
use vstd::prelude::*;

verus! {

/// The controller is idle exactly when it has nothing outstanding: a step
/// that yields a request leaves it in a phase that awaits the reply, and a
/// step that ends the operation leaves it idle.
pub proof fn lemma_idle_when_done(inferior: InferiorView, reply: Reply)
    ensures
        inferior.advance(reply).1 is Request <==> !(inferior.advance(reply).0.phase is Idle),
        inferior.advance(reply).0.pid == inferior.pid,
        inferior.advance(reply).0.to_install == inferior.to_install,
{
}

/// Whether every breakpoint is recorded under its own address.
pub open spec fn keyed_by_address(inferior: InferiorView) -> bool {
    forall|a: u64| #[trigger]
        inferior.breakpoints.contains_key(a) ==> inferior.breakpoints[a].addr == a
}

/// A breakpoint, once set, is neither removed nor changed: whatever reply
/// comes, the controller holds the breakpoints it held before, each with the
/// original byte it had, and each under its own address if they were so
/// before.
pub proof fn lemma_breakpoints_never_removed(inferior: InferiorView, reply: Reply)
    ensures
        forall|a: u64| #[trigger]
            inferior.breakpoints.contains_key(a) ==> inferior.advance(
                reply,
            ).0.breakpoints.contains_key(a),
        forall|a: u64| #[trigger]
            inferior.breakpoints.contains_key(a) ==> inferior.advance(reply).0.breakpoints[a]
                == inferior.breakpoints[a],
        keyed_by_address(inferior) ==> keyed_by_address(inferior.advance(reply).0),
        keyed_by_address(InferiorView::launched(inferior.pid, inferior.to_install)),
{
}

/// Whether a request is one for the tracer or the symbols, or shows a frame.
pub open spec fn of_controller(request: Request) -> bool {
    match request {
        Request::Prompt => false,
        Request::Spawn(_) => false,
        Request::AddressOfLine(_) => false,
        Request::AddressOfFunction(_) => false,
        Request::Report(report) => report is Frame,
        _ => true,
    }
}

/// The controller asks only of the tracer and the symbols, and shows nothing
/// but frames: it never prompts, spawns or looks an address up.
pub proof fn lemma_controller_asks_tracer_only(inferior: InferiorView, reply: Reply)
    ensures
        inferior.advance(reply).1 matches Progress::Request(request) ==> of_controller(request),
{
}

/// One operation is under way at a time. On an idle controller every
/// starter begins its operation; while an operation is under way, every
/// starter fails as a breach of protocol and changes nothing, so that no
/// operation is dropped half way, and no breakpoint is left disarmed by a
/// step-over that was cut short.
pub proof fn lemma_one_operation_at_a_time(inferior: InferiorView, count: u64, addr: u64)
    ensures
        ({
            let refused = (inferior, Progress::Failed(Failure::Protocol));
            let idle = inferior.phase is Idle;
            &&& inferior.wait() == if idle {
                inferior.start_wait(Waiter::Plain)
            } else {
                refused
            }
            &&& inferior.cont() == if idle {
                inferior.start_resume(Resume::Cont)
            } else {
                refused
            }
            &&& inferior.step() == if idle {
                inferior.start_resume(Resume::Step)
            } else {
                refused
            }
            &&& inferior.step_lines(count) == if idle {
                inferior.start_lines(count)
            } else {
                refused
            }
            &&& inferior.set_breakpoint(addr) == if idle {
                inferior.start_install(addr)
            } else {
                refused
            }
            &&& inferior.print_backtrace() == if idle {
                inferior.start_backtrace()
            } else {
                refused
            }
            &&& inferior.kill() == if idle {
                inferior.start_kill()
            } else {
                refused
            }
        }),
{
}

/// A resume that finds no breakpoint under the instruction pointer sets the
/// tracee going at once, and delivers the signal of the last stop unless
/// that was the trap.
pub proof fn lemma_resume_forwards_signal(inferior: InferiorView, resume: Resume, regs: Registers)
    requires
        regs.rip == 0 || !inferior.breakpoints.contains_key((regs.rip - 1) as u64),
    ensures
        inferior.start_resume(resume).1 == Progress::Request(Request::GetRegs),
        inferior.start_resume(resume).0.advance(Reply::Regs(regs)).1 == Progress::Request(
            departure(resume, forwarded(inferior.pending_signal)),
        ),
        forall|signal: Signal|
            !signal.trap() ==> #[trigger] forwarded(Some(signal)) == Some(signal),
        forall|signal: Signal| signal.trap() ==> #[trigger] forwarded(Some(signal)) is None,
        forwarded(None) is None,
{
}

/// The signal that a status leaves pending: that of a stop or of a death by
/// signal, none after an exit.
pub open spec fn signal_of(status: Status) -> Option<Signal> {
    match status {
        Status::Stopped(signal, _) => Some(signal),
        Status::Signaled(signal) => Some(signal),
        Status::Exited(_) => None,
    }
}

/// A wait that ends with a status records the signal of that status as
/// pending, and changes nothing else. It takes one exchange for an exit or a
/// death by signal, and a second one to read the registers after a stop.
pub proof fn lemma_wait_records_signal(inferior: InferiorView, world: World, turns: Seq<Turn>)
    requires
        honest(
            inferior.start_wait(Waiter::Plain).0,
            inferior.start_wait(Waiter::Plain).1,
            world,
            turns,
        ),
        run(
            inferior.start_wait(Waiter::Plain).0,
            inferior.start_wait(Waiter::Plain).1,
            turns,
        ).1 is Status,
    ensures
        ({
            let start = inferior.start_wait(Waiter::Plain);
            let end = run(start.0, start.1, turns);
            let status = end.1->Status_0;
            &&& end.0 == inferior.observe(signal_of(status)).at(Phase::Idle)
            &&& status is Stopped ==> turns.len() == 2 && (turns[1].reply matches Reply::Regs(regs)
                && status->Stopped_1 == regs.rip)
            &&& !(status is Stopped) ==> turns.len() == 1
        }),
{
    let start = inferior.start_wait(Waiter::Plain);
    lemma_unfailed(start.0, start.1, world, turns);
    let s1 = start.0.advance(turns[0].reply);
    let r1 = turns.drop_first();
    if s1.1 is Request {
        lemma_unfailed(s1.0, s1.1, turns[0].world, r1);
        let s2 = s1.0.advance(r1[0].reply);
        assert(r1[0] == turns[1]);
        assert(honest(s2.0, s2.1, r1[0].world, r1.drop_first()));
    } else {
        assert(honest(s1.0, s1.1, turns[0].world, r1));
    }
}

/// The two turns of a patch, step by step: the word is read, the patched word
/// is written, and the memory differs from before in the patched byte alone.
proof fn lemma_patch_turns(inferior: InferiorView, target: Patch, world: World, turns: Seq<Turn>)
    requires
        whole(world.memory),
        turns.len() >= 2,
        honest(
            inferior.start_patch(target).0,
            inferior.start_patch(target).1,
            world,
            turns,
        ),
        !(turns[0].reply is Failed),
        !(turns[1].reply is Failed),
    ensures
        turns[0].world == world,
        turns[1].world == world.with_memory(world.memory.insert(target.addr as int, target.val)),
        whole(turns[1].world.memory),
        run(inferior.start_patch(target).0, inferior.start_patch(target).1, turns) == run(
            inferior.at(Phase::Idle).patched(target, world.memory[target.addr as int]).0,
            inferior.at(Phase::Idle).patched(target, world.memory[target.addr as int]).1,
            turns.skip(2),
        ),
        honest(
            inferior.at(Phase::Idle).patched(target, world.memory[target.addr as int]).0,
            inferior.at(Phase::Idle).patched(target, world.memory[target.addr as int]).1,
            turns[1].world,
            turns.skip(2),
        ),
{
    let started = inferior.start_patch(target);
    let base = word_base(target.addr);
    let k = (target.addr - base) as u64;
    let peeked = started.0.advance(turns[0].reply);
    let rest = turns.drop_first();
    assert(rest[0] == turns[1]);
    assert(honest(peeked.0, peeked.1, turns[0].world, rest));
    let poked = peeked.0.advance(rest[0].reply);
    assert(rest.drop_first() =~= turns.skip(2));
    crate::model::lemma_load_bytes(world.memory, base, k);
    lemma_patch_changes_one_byte(world.memory, target.addr, target.val);
    assert(run(started.0, started.1, turns) == run(peeked.0, peeked.1, rest));
    assert(run(peeked.0, peeked.1, rest) == run(poked.0, poked.1, turns.skip(2)));
}

/// Installing a breakpoint puts the trap opcode at its address and changes
/// no other byte, in two exchanges: a read and a write of the aligned word
/// around the address.
///
/// Where no breakpoint was recorded at the address, the controller records
/// the byte that was there, and patching that byte back restores the memory
/// as it was. Where one was recorded already, the installation changes
/// nothing in the controller: the breakpoint keeps the original byte it
/// had. Either way the installation ends with the original byte of the
/// breakpoint, and no other breakpoint is touched.
pub proof fn lemma_install_round_trip(
    inferior: InferiorView,
    addr: u64,
    world: World,
    turns: Seq<Turn>,
)
    requires
        whole(world.memory),
        honest(inferior.start_install(addr).0, inferior.start_install(addr).1, world, turns),
        run(inferior.start_install(addr).0, inferior.start_install(addr).1, turns).1 is Installed,
    ensures
        ({
            let start = inferior.start_install(addr);
            let end = run(start.0, start.1, turns);
            let before = world.memory;
            let after = end_world(world, turns).memory;
            let original = inferior.original_at(addr, before[addr as int]);
            &&& turns.len() == 2
            &&& start.1 == Progress::Request(Request::Peek(word_base(addr)))
            &&& word_base(addr) % 8 == 0
            &&& word_base(addr) <= addr < word_base(addr) + 8
            &&& start.0.advance(turns[0].reply).1 matches Progress::Request(Request::Poke(at, _))
                && at == word_base(addr)
            &&& after == before.insert(addr as int, TRAP_OPCODE)
            &&& after[addr as int] == TRAP_OPCODE
            &&& end.1 == Progress::Installed(original)
            &&& end.0 == inferior.record(addr, before[addr as int]).at(Phase::Idle)
            &&& end.0.breakpoints.contains_key(addr)
            &&& end.0.breakpoints[addr].orig_byte == original
            &&& forall|a: u64| #[trigger]
                inferior.breakpoints.contains_key(a) ==> end.0.breakpoints[a]
                    == inferior.breakpoints[a]
            &&& inferior.breakpoints.contains_key(addr) ==> end.0.breakpoints
                == inferior.breakpoints
            &&& !inferior.breakpoints.contains_key(addr) ==> original == before[addr as int]
                && patch(after, addr, original) == before
            &&& patch(after, addr, original) == before.insert(addr as int, original)
        }),
{
    let target = Patch { addr, val: TRAP_OPCODE, purpose: Purpose::Install };
    let start = inferior.start_patch(target);
    assert(turns.len() >= 1);
    let peeked = start.0.advance(turns[0].reply);
    let rest = turns.drop_first();
    assert(run(start.0, start.1, turns) == run(peeked.0, peeked.1, rest));
    assert(!(turns[0].reply is Failed));
    assert(rest.len() >= 1);
    let poked = peeked.0.advance(rest[0].reply);
    assert(run(peeked.0, peeked.1, rest) == run(poked.0, poked.1, rest.drop_first()));
    assert(honest(peeked.0, peeked.1, turns[0].world, rest));
    assert(!(rest[0].reply is Failed));
    assert(turns[1] == rest[0]);
    lemma_patch_turns(inferior, target, world, turns);
    assert(turns.skip(2).len() == 0);
    let before = world.memory;
    let after = end_world(world, turns).memory;
    let original = inferior.original_at(addr, before[addr as int]);
    lemma_patch_changes_one_byte(after, addr, original);
    assert(after.insert(addr as int, original) =~= before.insert(addr as int, original));
    if !inferior.breakpoints.contains_key(addr) {
        assert(before.insert(addr as int, original) =~= before);
    }
}

/// A completed step over a breakpoint leaves the breakpoint in place.
///
/// When a resume finds a breakpoint one byte behind the instruction pointer,
/// nine exchanges pass before the tracee departs: the registers are read, the
/// original byte is patched back, the instruction pointer is rewound, the
/// tracee takes a single step and stops on the trap, and the trap opcode is
/// patched in again. If the ninth exchange leaves the controller with a
/// request, that request is the departure. The single step has then run
/// with the recorded original byte of the breakpoint in place of the trap
/// and with no other byte changed; the memory holds the trap opcode at the
/// breakpoint again and differs in no other byte from what the step left;
/// and the controller holds the breakpoints it held before, each with the
/// original byte it had, whatever the tracee did to its memory during the
/// step.
pub proof fn lemma_step_over_rearms(
    inferior: InferiorView,
    resume: Resume,
    world: World,
    turns: Seq<Turn>,
)
    requires
        whole(world.memory),
        turns.len() == 9,
        honest(inferior.start_resume(resume).0, inferior.start_resume(resume).1, world, turns),
        turns[0].reply matches Reply::Regs(regs) && regs.rip >= 1
            && inferior.breakpoints.contains_key((regs.rip - 1) as u64),
        run(inferior.start_resume(resume).0, inferior.start_resume(resume).1, turns).1 is Request,
    ensures
        ({
            let addr = (turns[0].reply->Regs_0.rip - 1) as u64;
            let start = inferior.start_resume(resume);
            let end = run(start.0, start.1, turns);
            &&& turns[2].world.memory == world.memory.insert(
                addr as int,
                inferior.breakpoints[addr].orig_byte,
            )
            &&& turns[2].world.memory[addr as int] == inferior.breakpoints[addr].orig_byte
            &&& turns[3].reply == Reply::Done
            &&& turns[4].reply == Reply::Done
            &&& turns[6].reply is Regs
            &&& end_world(world, turns).memory == turns[6].world.memory.insert(
                addr as int,
                TRAP_OPCODE,
            )
            &&& end_world(world, turns).memory[addr as int] == TRAP_OPCODE
            &&& end.0.breakpoints == inferior.breakpoints
            &&& end.0.phase == Phase::Departing(resume)
            &&& end.1 == Progress::Request(departure(resume, None))
        }),
{
    let addr = (turns[0].reply->Regs_0.rip - 1) as u64;
    let orig = inferior.breakpoints[addr].orig_byte;
    let start = inferior.start_resume(resume);
    let end = run(start.0, start.1, turns);
    // The registers arrive; the original byte goes back.
    let s1 = start.0.advance(turns[0].reply);
    let r1 = turns.skip(1);
    assert(turns.drop_first() =~= r1);
    assert(run(start.0, start.1, turns) == run(s1.0, s1.1, r1));
    let restore = Patch { addr, val: orig, purpose: Purpose::Restore(resume) };
    let idle = inferior.at(Phase::Idle);
    assert(s1 == idle.start_patch(restore));
    assert(r1[0] == turns[1] && r1[1] == turns[2]);
    lemma_unfailed(s1.0, s1.1, turns[0].world, r1);
    let s2 = s1.0.advance(r1[0].reply);
    assert(r1.drop_first() =~= turns.skip(2));
    lemma_unfailed(s2.0, s2.1, r1[0].world, turns.skip(2));
    assert(turns.skip(2)[0] == turns[2]);
    lemma_patch_turns(idle, restore, turns[0].world, r1);
    let r3 = turns.skip(3);
    assert(r1.skip(2) =~= r3);
    let s3 = idle.at(Phase::Idle).patched(restore, turns[0].world.memory[addr as int]);
    assert(end == run(s3.0, s3.1, r3));
    // The instruction pointer is rewound and the single step begins.
    assert(r3[0] == turns[3]);
    lemma_unfailed(s3.0, s3.1, turns[2].world, r3);
    let s4 = s3.0.advance(r3[0].reply);
    let r4 = turns.skip(4);
    assert(r3.drop_first() =~= r4);
    assert(r4[0] == turns[4]);
    lemma_unfailed(s4.0, s4.1, turns[3].world, r4);
    let s5 = s4.0.advance(r4[0].reply);
    let r5 = turns.skip(5);
    assert(r4.drop_first() =~= r5);
    assert(r5[0] == turns[5]);
    // The tracee stops.
    lemma_unfailed(s5.0, s5.1, turns[4].world, r5);
    let s6 = s5.0.advance(r5[0].reply);
    let r6 = turns.skip(6);
    assert(r5.drop_first() =~= r6);
    assert(r6[0] == turns[6]);
    lemma_unfailed(s6.0, s6.1, turns[5].world, r6);
    let s7 = s6.0.advance(r6[0].reply);
    let r7 = turns.skip(7);
    assert(r6.drop_first() =~= r7);
    assert(r7[0] == turns[7] && r7[1] == turns[8]);
    assert(end == run(s7.0, s7.1, r7));
    // The trap goes back in.
    let rearm = Patch { addr, val: TRAP_OPCODE, purpose: Purpose::Rearm(resume) };
    let ready = s6.0.at(Phase::Idle).observe(s7.0.pending_signal);
    assert(s7 == ready.start_patch(rearm));
    lemma_unfailed(s7.0, s7.1, turns[6].world, r7);
    let s8 = s7.0.advance(r7[0].reply);
    assert(r7.drop_first() =~= turns.skip(8));
    assert(turns.skip(8)[0] == turns[8]);
    lemma_unfailed(s8.0, s8.1, r7[0].world, turns.skip(8));
    lemma_patch_turns(ready, rearm, turns[6].world, r7);
    assert(r7.skip(2).len() == 0);
}

/// A run that does not end in failure took its first turn from a request
/// and did not fail in it.
proof fn lemma_unfailed(
    inferior: InferiorView,
    progress: Progress,
    world: World,
    turns: Seq<Turn>,
)
    requires
        turns.len() > 0,
        honest(inferior, progress, world, turns),
        !(run(inferior, progress, turns).1 is Failed),
    ensures
        progress is Request,
        run(inferior, progress, turns) == run(
            inferior.advance(turns[0].reply).0,
            inferior.advance(turns[0].reply).1,
            turns.drop_first(),
        ),
        honest(
            inferior.advance(turns[0].reply).0,
            inferior.advance(turns[0].reply).1,
            turns[0].world,
            turns.drop_first(),
        ),
        world.obeys(progress->Request_0, turns[0].reply, turns[0].world),
        !(inferior.advance(turns[0].reply).1 is Failed),
        (inferior.phase is Peeking || inferior.phase is Poking) ==> !(turns[0].reply is Failed),
{
    let step = inferior.advance(turns[0].reply);
    let rest = turns.drop_first();
    if !(step.1 is Request) {
        assert(run(step.0, step.1, rest) == step);
    }
}

/// Whether `a` is one of `addresses`.
pub open spec fn listed(addresses: Seq<u64>, a: int) -> bool {
    exists|j: int| 0 <= j < addresses.len() && #[trigger] addresses[j] == a
}

/// The memory `image` with the trap opcode at each of `addresses` and every
/// other byte as it is.
pub open spec fn instrumented(image: Memory, addresses: Seq<u64>) -> Memory {
    Map::new(
        |a: int| image.dom().contains(a),
        |a: int|
            if listed(addresses, a) {
                TRAP_OPCODE
            } else {
                image[a]
            },
    )
}

/// Whether the controller holds a breakpoint for each of `addresses` and for
/// nothing else, each with the byte that `image` has there as its original.
pub open spec fn recorded_from(
    inferior: InferiorView,
    image: Memory,
    addresses: Seq<u64>,
) -> bool {
    forall|a: u64|
        (#[trigger] inferior.breakpoints.contains_key(a) <==> listed(addresses, a as int)) && (
        inferior.breakpoints.contains_key(a) ==> inferior.breakpoints[a] == (Breakpoint {
            addr: a,
            orig_byte: image[a as int],
        }))
}

/// One more address of a list is listed besides those listed before it.
proof fn lemma_listed_next(addresses: Seq<u64>, index: int, a: int)
    requires
        0 <= index < addresses.len(),
    ensures
        listed(addresses.take(index + 1), a) <==> listed(addresses.take(index), a)
            || addresses[index] == a,
{
    let shorter = addresses.take(index);
    let longer = addresses.take(index + 1);
    if listed(longer, a) {
        let j = choose|j: int| 0 <= j < longer.len() && #[trigger] longer[j] == a;
        if j < index {
            assert(shorter[j] == a);
        }
    }
    if listed(shorter, a) {
        let j = choose|j: int| 0 <= j < shorter.len() && #[trigger] shorter[j] == a;
        assert(longer[j] == a);
    }
    if addresses[index] == a {
        assert(longer[index] == a);
    }
}

/// The rest of a launch, from index `index` of the list on: if it finishes,
/// the memory is the image with the trap opcode at every address of the
/// list, and every address has its breakpoint, with the byte of the image
/// as its original.
proof fn lemma_install_rest(
    inferior: InferiorView,
    index: usize,
    image: Memory,
    world: World,
    turns: Seq<Turn>,
)
    requires
        whole(image),
        index <= inferior.to_install.len() <= usize::MAX,
        world.memory == instrumented(image, inferior.to_install.take(index as int)),
        recorded_from(inferior, image, inferior.to_install.take(index as int)),
        honest(inferior.install_from(index).0, inferior.install_from(index).1, world, turns),
        run(inferior.install_from(index).0, inferior.install_from(index).1, turns).1
            == Progress::Finished,
    ensures
        ({
            let list = inferior.to_install;
            let end = run(inferior.install_from(index).0, inferior.install_from(index).1, turns);
            &&& turns.len() == 2 * (list.len() - index)
            &&& end_world(world, turns).memory == instrumented(image, list)
            &&& recorded_from(end.0, image, list)
        }),
    decreases inferior.to_install.len() - index,
{
    let list = inferior.to_install;
    let start = inferior.install_from(index);
    let prefix = list.take(index as int);
    if index < list.len() {
        let addr = list[index as int];
        let next = (index + 1) as usize;
        let longer = list.take(next as int);
        let target = Patch { addr, val: TRAP_OPCODE, purpose: Purpose::Launch { next } };
        assert(start == inferior.start_patch(target));
        assert(turns.len() > 0);
        lemma_unfailed(start.0, start.1, world, turns);
        let peeked = start.0.advance(turns[0].reply);
        let rest = turns.drop_first();
        assert(rest.len() > 0);
        lemma_unfailed(peeked.0, peeked.1, turns[0].world, rest);
        assert(rest[0] == turns[1]);
        assert(whole(world.memory));
        lemma_patch_turns(inferior, target, world, turns);
        let read = world.memory[addr as int];
        let recorded = inferior.at(Phase::Idle).record(addr, read);
        let tail = turns.skip(2);
        assert(inferior.at(Phase::Idle).patched(target, read) == recorded.install_from(next));
        assert forall|a: int| #[trigger]
            listed(longer, a) <==> listed(prefix, a) || addr == a by {
            lemma_listed_next(list, index as int, a);
        }
        assert(turns[1].world.memory =~= instrumented(image, longer));
        assert(recorded_from(recorded, image, longer)) by {
            assert forall|a: u64|
                (#[trigger] recorded.breakpoints.contains_key(a) <==> listed(longer, a as int))
                    && (recorded.breakpoints.contains_key(a) ==> recorded.breakpoints[a]
                    == (Breakpoint { addr: a, orig_byte: image[a as int] })) by {
                assert(inferior.breakpoints.contains_key(a) <==> listed(prefix, a as int));
                assert(inferior.breakpoints.contains_key(addr) <==> listed(prefix, addr as int));
                assert(listed(longer, a as int) <==> listed(prefix, a as int) || addr == a);
            }
        }
        lemma_install_rest(recorded, next, image, turns[1].world, tail);
        assert(end_world(turns[1].world, tail) == end_world(world, turns)) by {
            if tail.len() > 0 {
                assert(tail.last() == turns.last());
            }
        }
    } else {
        assert(start.1 == Progress::Finished);
        assert(turns.len() == 0);
        assert(prefix =~= list);
    }
}

/// A launch that finishes has instrumented its whole list.
///
/// The controller of a new tracee awaits the first stop, which must be the
/// trap, and then installs a breakpoint at each address of the list it was
/// given, in order. When the launch finishes, the memory is the image that
/// the tracee had at its first stop with the trap opcode at every address of
/// the list and no other byte changed. The controller holds a breakpoint for
/// exactly those addresses, each with the byte of the image as its original,
/// also where the list holds an address more than once; so patching the
/// original of any of them back gives that byte of the image again.
pub proof fn lemma_launch_installs_all(
    pid: i32,
    addresses: Seq<u64>,
    world: World,
    turns: Seq<Turn>,
)
    requires
        addresses.len() <= usize::MAX,
        honest(
            InferiorView::launched(pid, addresses),
            Progress::Request(Request::Wait),
            world,
            turns,
        ),
        run(InferiorView::launched(pid, addresses), Progress::Request(Request::Wait), turns).1
            == Progress::Finished,
    ensures
        ({
            let end = run(
                InferiorView::launched(pid, addresses),
                Progress::Request(Request::Wait),
                turns,
            );
            let image = turns[0].world.memory;
            let after = end_world(world, turns).memory;
            &&& turns.len() == 2 + 2 * addresses.len()
            &&& turns[0].reply matches Reply::Changed(crate::event::Change::Stopped(signal))
                && signal.trap()
            &&& after == instrumented(image, addresses)
            &&& recorded_from(end.0, image, addresses)
            &&& forall|j: int|
                0 <= j < addresses.len() ==> after[addresses[j] as int] == TRAP_OPCODE
            &&& forall|a: u64|
                end.0.breakpoints.contains_key(a) <==> addresses.contains(a)
            &&& forall|j: int|
                0 <= j < addresses.len() ==> (#[trigger] end.0.breakpoints[addresses[j]]).orig_byte
                    == image[addresses[j] as int]
            &&& forall|j: int|
                0 <= j < addresses.len() ==> #[trigger] patch(
                    after,
                    addresses[j],
                    end.0.breakpoints[addresses[j]].orig_byte,
                )[addresses[j] as int] == image[addresses[j] as int]
        }),
{
    let born = InferiorView::launched(pid, addresses);
    let first = Progress::Request(Request::Wait);
    let end = run(born, first, turns);
    assert(turns.len() > 0);
    lemma_unfailed(born, first, world, turns);
    let stopped = born.advance(turns[0].reply);
    let r1 = turns.drop_first();
    assert(r1.len() > 0);
    lemma_unfailed(stopped.0, stopped.1, turns[0].world, r1);
    assert(r1[0] == turns[1]);
    let read = stopped.0.advance(r1[0].reply);
    let tail = turns.skip(2);
    assert(r1.drop_first() =~= tail);
    let ready = stopped.0.at(Phase::Idle).observe(read.0.pending_signal);
    assert(read == ready.install_from(0));
    let image = turns[0].world.memory;
    assert(whole(image));
    assert(turns[1].world == turns[0].world);
    assert(image =~= instrumented(image, addresses.take(0)));
    lemma_install_rest(ready, 0, image, turns[1].world, tail);
    assert(end_world(turns[1].world, tail) == end_world(world, turns)) by {
        if tail.len() > 0 {
            assert(tail.last() == turns.last());
        }
    }
    let after = end_world(world, turns).memory;
    assert forall|j: int| 0 <= j < addresses.len() implies after[addresses[j] as int]
        == TRAP_OPCODE && (#[trigger] end.0.breakpoints[addresses[j]]).orig_byte
        == image[addresses[j] as int] && patch(
        after,
        addresses[j],
        end.0.breakpoints[addresses[j]].orig_byte,
    )[addresses[j] as int] == image[addresses[j] as int] by {
        assert(listed(addresses, addresses[j] as int));
        assert(end.0.breakpoints.contains_key(addresses[j]));
        assert(whole(after));
        lemma_patch_changes_one_byte(after, addresses[j], image[addresses[j] as int]);
    }
    assert forall|a: u64| end.0.breakpoints.contains_key(a) <==> addresses.contains(a) by {
        if addresses.contains(a) {
            let j = choose|j: int| 0 <= j < addresses.len() && addresses[j] == a;
            assert(listed(addresses, a as int));
        }
        if end.0.breakpoints.contains_key(a) {
            let j = choose|j: int| 0 <= j < addresses.len() && #[trigger] addresses[j] == a as int;
            assert(addresses[j] == a);
        }
    }
}

/// The address of the breakpoint that the controller is stepping over, if
/// it is stepping over one.
pub open spec fn stepping_over(phase: Phase) -> Option<u64> {
    match phase {
        Phase::Peeking(patch) => match patch.purpose {
            Purpose::Restore(_) => Some(patch.addr),
            Purpose::Rearm(_) => Some(patch.addr),
            _ => None,
        },
        Phase::Poking(patch, _) => match patch.purpose {
            Purpose::Restore(_) => Some(patch.addr),
            Purpose::Rearm(_) => Some(patch.addr),
            _ => None,
        },
        Phase::Rewinding(_, addr) => Some(addr),
        Phase::SteppingOver(_, addr) => Some(addr),
        Phase::Waiting(Waiter::StepOver(_, addr)) => Some(addr),
        Phase::Reading(Waiter::StepOver(_, addr), _) => Some(addr),
        _ => None,
    }
}

/// Whether the controller is launching a tracee or installing a breakpoint.
pub open spec fn installing(phase: Phase) -> bool {
    match phase {
        Phase::Peeking(patch) => patch.purpose is Install || patch.purpose is Launch,
        Phase::Poking(patch, _) => patch.purpose is Install || patch.purpose is Launch,
        Phase::Waiting(Waiter::Launch) => true,
        Phase::Reading(Waiter::Launch, _) => true,
        _ => false,
    }
}

/// Whether the controller is doing anything but installing, and holds the
/// breakpoint that it is stepping over, if it is stepping over one.
pub open spec fn steady(inferior: InferiorView) -> bool {
    &&& !installing(inferior.phase)
    &&& stepping_over(inferior.phase) matches Some(addr) ==> inferior.breakpoints.contains_key(
        addr,
    )
}

/// Only a launch and an installation change the breakpoints: through every
/// run of any other operation the controller holds exactly the breakpoints
/// it held at the start, each with the original byte it had.
pub proof fn lemma_only_installs_record(
    inferior: InferiorView,
    progress: Progress,
    turns: Seq<Turn>,
)
    requires
        steady(inferior),
    ensures
        run(inferior, progress, turns).0.breakpoints == inferior.breakpoints,
        steady(run(inferior, progress, turns).0),
    decreases turns.len(),
{
    if turns.len() > 0 && progress is Request {
        let step = inferior.advance(turns[0].reply);
        assert(step.0.breakpoints == inferior.breakpoints);
        lemma_only_installs_record(step.0, step.1, turns.drop_first());
    }
}

/// A resume leaves the breakpoints as they are: however far a continue, a
/// single step or a step by lines has come, and however it ends, the
/// controller holds exactly the breakpoints it held before, each with the
/// original byte it had. So does a wait, a backtrace and a kill.
pub proof fn lemma_resume_keeps_breakpoints(
    inferior: InferiorView,
    resume: Resume,
    count: u64,
    turns: Seq<Turn>,
)
    ensures
        run(inferior.start_resume(resume).0, inferior.start_resume(resume).1, turns).0.breakpoints
            == inferior.breakpoints,
        run(inferior.start_lines(count).0, inferior.start_lines(count).1, turns).0.breakpoints
            == inferior.breakpoints,
        run(
            inferior.start_wait(Waiter::Plain).0,
            inferior.start_wait(Waiter::Plain).1,
            turns,
        ).0.breakpoints == inferior.breakpoints,
        run(inferior.start_backtrace().0, inferior.start_backtrace().1, turns).0.breakpoints
            == inferior.breakpoints,
        run(inferior.start_kill().0, inferior.start_kill().1, turns).0.breakpoints
            == inferior.breakpoints,
{
    lemma_only_installs_record(
        inferior.start_resume(resume).0,
        inferior.start_resume(resume).1,
        turns,
    );
    lemma_only_installs_record(inferior.start_lines(count).0, inferior.start_lines(count).1, turns);
    lemma_only_installs_record(
        inferior.start_wait(Waiter::Plain).0,
        inferior.start_wait(Waiter::Plain).1,
        turns,
    );
    lemma_only_installs_record(inferior.start_backtrace().0, inferior.start_backtrace().1, turns);
    lemma_only_installs_record(inferior.start_kill().0, inferior.start_kill().1, turns);
}

/// The lines that a resume still has to leave, if it belongs to a line step.
pub open spec fn lines_of(resume: Resume) -> Option<u64> {
    match resume {
        Resume::Lines { remaining, .. } => Some(remaining),
        _ => None,
    }
}

/// The lines that the line step under way still has to leave, if one is
/// under way.
pub open spec fn lines_left(phase: Phase) -> Option<u64> {
    match phase {
        Phase::LineRegs { remaining } => Some(remaining),
        Phase::LineStart { remaining } => Some(remaining),
        Phase::LineCheck { remaining, .. } => Some(remaining),
        Phase::Locating(resume) => lines_of(resume),
        Phase::Rewinding(resume, _) => lines_of(resume),
        Phase::SteppingOver(resume, _) => lines_of(resume),
        Phase::Departing(resume) => lines_of(resume),
        Phase::Waiting(Waiter::StepOver(resume, _)) => lines_of(resume),
        Phase::Waiting(Waiter::Arrival(resume)) => lines_of(resume),
        Phase::Reading(Waiter::StepOver(resume, _), _) => lines_of(resume),
        Phase::Reading(Waiter::Arrival(resume), _) => lines_of(resume),
        Phase::Peeking(patch) => match patch.purpose {
            Purpose::Restore(resume) => lines_of(resume),
            Purpose::Rearm(resume) => lines_of(resume),
            _ => None,
        },
        Phase::Poking(patch, _) => match patch.purpose {
            Purpose::Restore(resume) => lines_of(resume),
            Purpose::Rearm(resume) => lines_of(resume),
            _ => None,
        },
        _ => None,
    }
}

/// The line on which the current line of a line step began, as far as it is
/// known, once the step has captured it.
pub open spec fn line_begun(phase: Phase) -> Option<Option<Line>> {
    match phase {
        Phase::LineCheck { start, .. } => Some(start),
        Phase::Locating(resume) => begun_of(resume),
        Phase::Rewinding(resume, _) => begun_of(resume),
        Phase::SteppingOver(resume, _) => begun_of(resume),
        Phase::Departing(resume) => begun_of(resume),
        Phase::Waiting(Waiter::StepOver(resume, _)) => begun_of(resume),
        Phase::Waiting(Waiter::Arrival(resume)) => begun_of(resume),
        Phase::Reading(Waiter::StepOver(resume, _), _) => begun_of(resume),
        Phase::Reading(Waiter::Arrival(resume), _) => begun_of(resume),
        Phase::Peeking(patch) => match patch.purpose {
            Purpose::Restore(resume) => begun_of(resume),
            Purpose::Rearm(resume) => begun_of(resume),
            _ => None,
        },
        Phase::Poking(patch, _) => match patch.purpose {
            Purpose::Restore(resume) => begun_of(resume),
            Purpose::Rearm(resume) => begun_of(resume),
            _ => None,
        },
        _ => None,
    }
}

/// The line on which a resume of a line step began.
pub open spec fn begun_of(resume: Resume) -> Option<Option<Line>> {
    match resume {
        Resume::Lines { start, .. } => Some(start),
        _ => None,
    }
}

/// Whether a turn crosses a line boundary: the controller awaits the line of
/// a stop, and the line that comes differs from the one the step began on.
pub open spec fn crosses(phase: Phase, reply: Reply) -> bool {
    phase matches Phase::LineCheck { start, .. } && reply matches Reply::Source(current)
        && crossed(start, current)
}

/// The number of line boundaries crossed in a run.
pub open spec fn crossings(inferior: InferiorView, progress: Progress, turns: Seq<Turn>) -> nat
    decreases turns.len(),
{
    if turns.len() > 0 && progress is Request {
        let step = inferior.advance(turns[0].reply);
        let here: nat = if crosses(inferior.phase, turns[0].reply) {
            1
        } else {
            0
        };
        here + crossings(step.0, step.1, turns.drop_first())
    } else {
        0
    }
}

/// The last turn that a run takes: the controller as it stood before it,
/// and the reply that came.
pub open spec fn last_turn(inferior: InferiorView, progress: Progress, turns: Seq<Turn>) -> (
    InferiorView,
    Reply,
)
    decreases turns.len(),
{
    if turns.len() > 1 && progress is Request && inferior.advance(turns[0].reply).1 is Request {
        let step = inferior.advance(turns[0].reply);
        last_turn(step.0, step.1, turns.drop_first())
    } else if turns.len() > 0 {
        (inferior, turns[0].reply)
    } else {
        (inferior, Reply::Done)
    }
}

/// Whether a run ended by crossing the last line boundary asked for: its
/// last turn brought the line of the stop `status`, as the symbols have it,
/// and that line is known and differs from the known line on which the last
/// line began.
pub open spec fn ended_on_new_line(
    inferior: InferiorView,
    progress: Progress,
    world: World,
    turns: Seq<Turn>,
    status: Status,
) -> bool {
    let last = last_turn(inferior, progress, turns);
    &&& last.0.phase matches Phase::LineCheck { remaining, start: Some(begun), status: stop }
    &&& last.1 matches Reply::Source(Some(current))
    &&& status matches Status::Stopped(_, rip)
    &&& remaining == 1
    &&& stop == status
    &&& !begun.same(current)
    &&& end_world(world, turns).line_at(rip) == Some(current)
}

/// Whether a controller that awaits the line of a stop does so for a stop on
/// the trap, with the request for the line at its instruction pointer.
pub open spec fn checks_a_trap(phase: Phase, progress: Progress) -> bool {
    phase matches Phase::LineCheck { status, .. } ==> (status matches Status::Stopped(signal, rip)
        && signal.trap() && progress == Progress::Request(Request::LineAt(rip)))
}

/// The rest of a line step, from any point of it on.
proof fn lemma_lines_rest(
    inferior: InferiorView,
    progress: Progress,
    world: World,
    turns: Seq<Turn>,
    left: u64,
)
    requires
        honest(inferior, progress, world, turns),
        lines_left(inferior.phase) == Some(left),
        left >= 1,
        progress is Request,
        checks_a_trap(inferior.phase, progress),
        run(inferior, progress, turns).1 is Status,
    ensures
        ({
            let status = run(inferior, progress, turns).1->Status_0;
            &&& status.trapped() ==> crossings(inferior, progress, turns) == left
                && ended_on_new_line(inferior, progress, world, turns, status)
            &&& status.trapped() && left == 1 && line_begun(inferior.phase) is Some ==> line_begun(
                last_turn(inferior, progress, turns).0.phase,
            ) == line_begun(inferior.phase)
            &&& !status.trapped() ==> crossings(inferior, progress, turns) < left
        }),
    decreases turns.len(),
{
    assert(turns.len() > 0);
    let step = inferior.advance(turns[0].reply);
    let rest = turns.drop_first();
    assert(run(inferior, progress, turns) == run(step.0, step.1, rest));
    if step.1 is Request {
        assert(rest.len() > 0);
        let next_left: u64 = if crosses(inferior.phase, turns[0].reply) {
            (left - 1) as u64
        } else {
            left
        };
        assert(lines_left(step.0.phase) == Some(next_left));
        lemma_lines_rest(step.0, step.1, turns[0].world, rest, next_left);
        assert(end_world(turns[0].world, rest) == end_world(world, turns)) by {
            assert(rest.last() == turns.last());
        }
    } else {
        assert(honest(step.0, step.1, turns[0].world, rest));
        assert(rest.len() == 0);
        assert(turns.last() == turns[0]);
    }
}

/// A step by source lines ends on a new line after exactly as many line
/// boundaries as were asked for, or earlier on a stop that is not the trap
/// or on the end of the tracee.
///
/// Of a line step by `count` lines that ended with a status: if the status
/// is a stop on the trap, the step crossed exactly `count` line boundaries,
/// the last of them in its last turn, where the line of the stop came, is
/// known, and differs from the known line on which that last line began. If
/// the status is anything else, fewer than `count` boundaries were crossed.
/// In a step by one line, the line on which the last line began is the line
/// of the instruction pointer at which the step was issued. A step by no
/// lines never ends with a status.
pub proof fn lemma_line_step_ends_on_new_line(
    inferior: InferiorView,
    count: u64,
    world: World,
    turns: Seq<Turn>,
)
    requires
        honest(inferior.start_lines(count).0, inferior.start_lines(count).1, world, turns),
        run(inferior.start_lines(count).0, inferior.start_lines(count).1, turns).1 is Status,
    ensures
        ({
            let start = inferior.start_lines(count);
            let status = run(start.0, start.1, turns).1->Status_0;
            &&& count > 0
            &&& status.trapped() ==> crossings(start.0, start.1, turns) == count
                && ended_on_new_line(start.0, start.1, world, turns, status)
            &&& count == 1 && status.trapped() ==> (turns[0].reply matches Reply::Regs(regs)
                && line_begun(last_turn(start.0, start.1, turns).0.phase) == Some(
                world.line_at(regs.rip),
            ))
            &&& !status.trapped() ==> crossings(start.0, start.1, turns) < count
        }),
{
    let start = inferior.start_lines(count);
    if count > 0 {
        lemma_lines_rest(start.0, start.1, world, turns, count);
        let status = run(start.0, start.1, turns).1->Status_0;
        if count == 1 && status.trapped() {
            // The registers, then the line on which the step begins.
            lemma_unfailed(start.0, start.1, world, turns);
            let s1 = start.0.advance(turns[0].reply);
            let r1 = turns.drop_first();
            assert(r1.len() > 0);
            lemma_unfailed(s1.0, s1.1, turns[0].world, r1);
            let s2 = s1.0.advance(r1[0].reply);
            let r2 = r1.drop_first();
            assert(r2.len() > 0);
            assert(last_turn(start.0, start.1, turns) == last_turn(s1.0, s1.1, r1));
            assert(last_turn(s1.0, s1.1, r1) == last_turn(s2.0, s2.1, r2));
            lemma_lines_rest(s2.0, s2.1, r1[0].world, r2, 1);
        }
    }
}

/// How a call chain ends.
pub enum ChainEnd {
    /// In the frame of the entry function.
    Entry,
    /// In a frame whose address has no line or no function.
    Unmapped,
    /// In a frame outside the entry function whose frame pointer leaves no
    /// room for a return address above it.
    NoRoom,
    /// In a frame outside the entry function whose saved frame pointer does
    /// not lie above its own, as where the chain turns back on itself.
    Turned,
}

/// Whether the symbols know both line and function of `ip`.
pub open spec fn resolves(world: World, ip: u64) -> bool {
    world.lines.contains_key(ip) && world.functions.contains_key(ip)
}

/// Whether `ip` lies in the entry function.
pub open spec fn in_entry(world: World, ip: u64) -> bool {
    world.functions.contains_key(ip) && world.functions[ip]@ == entry_function()
}

/// The frame that a backtrace shows for `ip`.
pub open spec fn frame_at(world: World, ip: u64) -> Report {
    Report::Frame(Frame { function: world.functions[ip], line: world.lines[ip] })
}

/// The instruction pointer of the caller of the frame at `bp`: the return
/// address, one word above the frame pointer.
pub open spec fn caller_ip(world: World, bp: u64) -> u64 {
    load(world.memory, (bp + 8) as u64)
}

/// The frame pointer of the caller of the frame at `bp`: the word at the
/// frame pointer.
pub open spec fn caller_bp(world: World, bp: u64) -> u64 {
    load(world.memory, bp)
}

/// Whether the frame at `ip` and `bp` has `depth` callers above it that the
/// frame pointers lead to, with the chain ending as `end` says: this frame
/// and `depth - 1` callers resolve outside the entry function, each with its
/// caller's frame above its own, and the last frame is as `end` says.
pub open spec fn chain(world: World, ip: u64, bp: u64, depth: nat, end: ChainEnd) -> bool
    decreases depth,
{
    if depth == 0 {
        match end {
            ChainEnd::Entry => resolves(world, ip) && in_entry(world, ip),
            ChainEnd::Unmapped => !resolves(world, ip),
            ChainEnd::NoRoom => resolves(world, ip) && !in_entry(world, ip) && bp + 8 > u64::MAX,
            ChainEnd::Turned => resolves(world, ip) && !in_entry(world, ip) && bp + 8 <= u64::MAX
                && caller_bp(world, bp) <= bp,
        }
    } else {
        &&& resolves(world, ip)
        &&& !in_entry(world, ip)
        &&& bp + 8 <= u64::MAX
        &&& caller_bp(world, bp) > bp
        &&& chain(world, caller_ip(world, bp), caller_bp(world, bp), (depth - 1) as nat, end)
    }
}

/// The frames of a chain that resolve, innermost first.
pub open spec fn chain_frames(world: World, ip: u64, bp: u64, depth: nat, end: ChainEnd) -> Seq<
    Report,
>
    decreases depth,
{
    if depth == 0 {
        match end {
            ChainEnd::Unmapped => Seq::empty(),
            _ => seq![frame_at(world, ip)],
        }
    } else {
        seq![frame_at(world, ip)] + chain_frames(
            world,
            caller_ip(world, bp),
            caller_bp(world, bp),
            (depth - 1) as nat,
            end,
        )
    }
}

/// The number of exchanges that the walk up a chain takes: three to resolve
/// and show a frame, two to find its caller.
pub open spec fn chain_turns(depth: nat, end: ChainEnd) -> nat {
    match end {
        ChainEnd::Entry => 5 * depth + 3,
        ChainEnd::Unmapped => 5 * depth + 2,
        ChainEnd::NoRoom => 5 * depth + 3,
        ChainEnd::Turned => 5 * depth + 5,
    }
}

/// What a backtrace yields at the end of a chain: it finishes in the entry
/// function, and fails as unresolved at every other end.
pub open spec fn chain_outcome(end: ChainEnd) -> Progress {
    match end {
        ChainEnd::Entry => Progress::Finished,
        _ => Progress::Failed(Failure::Unresolved),
    }
}

/// The number of frames of a chain that resolve.
pub open spec fn chain_length(depth: nat, end: ChainEnd) -> nat {
    match end {
        ChainEnd::Unmapped => depth,
        _ => depth + 1,
    }
}

/// Every stack is a chain: from any frame the frame pointers lead, over a
/// number of callers that the room above the frame pointer bounds, to one of
/// the four ends.
pub proof fn lemma_every_stack_is_a_chain(world: World, ip: u64, bp: u64)
    ensures
        exists|depth: nat, end: ChainEnd|
            #[trigger] chain(world, ip, bp, depth, end) && depth <= u64::MAX - bp,
    decreases u64::MAX - bp,
{
    if !resolves(world, ip) {
        assert(chain(world, ip, bp, 0, ChainEnd::Unmapped));
    } else if in_entry(world, ip) {
        assert(chain(world, ip, bp, 0, ChainEnd::Entry));
    } else if bp + 8 > u64::MAX {
        assert(chain(world, ip, bp, 0, ChainEnd::NoRoom));
    } else if caller_bp(world, bp) <= bp {
        assert(chain(world, ip, bp, 0, ChainEnd::Turned));
    } else {
        let ip2 = caller_ip(world, bp);
        let bp2 = caller_bp(world, bp);
        lemma_every_stack_is_a_chain(world, ip2, bp2);
        let (above, end) = choose|depth: nat, end: ChainEnd|
            #[trigger] chain(world, ip2, bp2, depth, end) && depth <= u64::MAX - bp2;
        assert(chain(world, ip, bp, above + 1, end));
    }
}

/// A chain has as many resolved frames as its depth says.
proof fn lemma_chain_frames_counted(world: World, ip: u64, bp: u64, depth: nat, end: ChainEnd)
    ensures
        chain_frames(world, ip, bp, depth, end).len() == chain_length(depth, end),
    decreases depth,
{
    if depth > 0 {
        lemma_chain_frames_counted(
            world,
            caller_ip(world, bp),
            caller_bp(world, bp),
            (depth - 1) as nat,
            end,
        );
    }
}

/// A chain is a matter of memory and symbols, not of what was shown.
proof fn lemma_chain_ignores_shown(
    world: World,
    other: World,
    ip: u64,
    bp: u64,
    depth: nat,
    end: ChainEnd,
)
    requires
        other.memory == world.memory,
        other.lines == world.lines,
        other.functions == world.functions,
    ensures
        chain(other, ip, bp, depth, end) == chain(world, ip, bp, depth, end),
        chain_frames(other, ip, bp, depth, end) == chain_frames(world, ip, bp, depth, end),
    decreases depth,
{
    if depth > 0 {
        lemma_chain_ignores_shown(
            world,
            other,
            caller_ip(world, bp),
            caller_bp(world, bp),
            (depth - 1) as nat,
            end,
        );
    }
}

/// A run that was carried to its end took its first turn from a request, if
/// it began with one.
proof fn lemma_carried_on(
    inferior: InferiorView,
    progress: Progress,
    world: World,
    turns: Seq<Turn>,
)
    requires
        honest(inferior, progress, world, turns),
        progress is Request,
        !(run(inferior, progress, turns).1 is Request),
    ensures
        turns.len() > 0,
        run(inferior, progress, turns) == run(
            inferior.advance(turns[0].reply).0,
            inferior.advance(turns[0].reply).1,
            turns.drop_first(),
        ),
        honest(
            inferior.advance(turns[0].reply).0,
            inferior.advance(turns[0].reply).1,
            turns[0].world,
            turns.drop_first(),
        ),
        world.obeys(progress->Request_0, turns[0].reply, turns[0].world),
        !(inferior.advance(turns[0].reply).1 is Request) ==> turns.len() == 1,
{
    let step = inferior.advance(turns[0].reply);
    assert(honest(step.0, step.1, turns[0].world, turns.drop_first()));
}

/// Whether a backtrace awaits the line of the frame at `ip` and `bp`.
pub open spec fn at_frame(phase: Phase, ip: u64, bp: u64) -> bool {
    phase == (Phase::FrameLine { ip, bp })
}

/// The walk of a backtrace from one frame on.
proof fn lemma_walk(
    inferior: InferiorView,
    ip: u64,
    bp: u64,
    world: World,
    turns: Seq<Turn>,
    depth: nat,
    end: ChainEnd,
)
    requires
        at_frame(inferior.phase, ip, bp),
        honest(inferior, Progress::Request(Request::LineAt(ip)), world, turns),
        !(run(inferior, Progress::Request(Request::LineAt(ip)), turns).1 is Request),
        forall|i: int| 0 <= i < turns.len() ==> !((#[trigger] turns[i]).reply is Failed),
        chain(world, ip, bp, depth, end),
    ensures
        run(inferior, Progress::Request(Request::LineAt(ip)), turns).1 == chain_outcome(end),
        turns.len() == chain_turns(depth, end),
        end_world(world, turns) == world.showing_all(chain_frames(world, ip, bp, depth, end)),
    decreases depth,
{
    let first = Progress::Request(Request::LineAt(ip));
    // The line of the frame.
    lemma_carried_on(inferior, first, world, turns);
    let s1 = inferior.advance(turns[0].reply);
    let r1 = turns.drop_first();
    assert(turns[0].world == world);
    // The function of the frame.
    lemma_carried_on(s1.0, s1.1, world, r1);
    let s2 = s1.0.advance(r1[0].reply);
    let r2 = r1.drop_first();
    assert(r1[0] == turns[1]);
    assert(turns[1].world == world);
    if !resolves(world, ip) {
        assert(r2.len() == 0);
        assert(world.shown + Seq::<Report>::empty() =~= world.shown);
        assert(turns.last() == turns[1]);
    } else {
        // The frame is shown.
        let shown = world.showing(frame_at(world, ip));
        lemma_carried_on(s2.0, s2.1, world, r2);
        let s3 = s2.0.advance(r2[0].reply);
        let r3 = r2.drop_first();
        assert(r2[0] == turns[2]);
        assert(turns[2].world == shown);
        assert(world.shown + seq![frame_at(world, ip)] =~= world.shown.push(frame_at(world, ip)));
        if in_entry(world, ip) || bp + 8 > u64::MAX {
            assert(r3.len() == 0);
            assert(turns.last() == turns[2]);
        } else {
            // The caller's instruction pointer and frame pointer.
            lemma_carried_on(s3.0, s3.1, shown, r3);
            let s4 = s3.0.advance(r3[0].reply);
            let r4 = r3.drop_first();
            assert(r3[0] == turns[3]);
            assert(turns[3].world == shown);
            lemma_carried_on(s4.0, s4.1, shown, r4);
            let s5 = s4.0.advance(r4[0].reply);
            let r5 = r4.drop_first();
            assert(r4[0] == turns[4]);
            assert(turns[4].world == shown);
            let ip2 = caller_ip(world, bp);
            let bp2 = caller_bp(world, bp);
            if bp2 <= bp {
                assert(r5.len() == 0);
                assert(turns.last() == turns[4]);
            } else {
                let above = (depth - 1) as nat;
                assert(s5.0.phase == (Phase::FrameLine { ip: ip2, bp: bp2 }));
                assert(s5.1 == Progress::Request(Request::LineAt(ip2)));
                lemma_chain_ignores_shown(world, shown, ip2, bp2, above, end);
                assert forall|i: int| 0 <= i < r5.len() implies !((#[trigger] r5[i]).reply
                    is Failed) by {
                    assert(r5[i] == turns[i + 5]);
                }
                lemma_walk(s5.0, ip2, bp2, shown, r5, above, end);
                assert(r5.len() > 0);
                assert(r5.last() == turns.last());
                assert(end_world(shown, r5) == end_world(world, turns));
                assert(world.shown.push(frame_at(world, ip)) + chain_frames(
                    world,
                    ip2,
                    bp2,
                    above,
                    end,
                ) =~= world.shown + chain_frames(world, ip, bp, depth, end));
            }
        }
    }
}

/// A backtrace walks the call chain to its end and no further.
///
/// Of a backtrace that was carried to its end without a failed access,
/// against a world in which the frame pointers lead from the current frame
/// over `depth` callers to a last frame: if that last frame is the entry
/// function's, the backtrace finishes, having shown all `depth + 1` frames,
/// innermost first. If it is unmapped, the backtrace fails as unresolved,
/// having shown the `depth` frames before it. If it is a frame outside the
/// entry function whose saved frame pointer does not lie above its own, or
/// that has no room for a return address, the backtrace fails as unresolved
/// too, having shown that frame as the last. Either way it shows nothing
/// else and takes a number of exchanges that the depth fixes. Every stack is
/// such a chain, by `lemma_every_stack_is_a_chain`.
pub proof fn lemma_backtrace_follows_chain(
    inferior: InferiorView,
    world: World,
    turns: Seq<Turn>,
    depth: nat,
    end: ChainEnd,
)
    requires
        honest(inferior.start_backtrace().0, inferior.start_backtrace().1, world, turns),
        !(run(inferior.start_backtrace().0, inferior.start_backtrace().1, turns).1 is Request),
        forall|i: int| 0 <= i < turns.len() ==> !((#[trigger] turns[i]).reply is Failed),
        turns.len() > 0 ==> (turns[0].reply matches Reply::Regs(regs) && chain(
            world,
            regs.rip,
            regs.rbp,
            depth,
            end,
        )),
    ensures
        ({
            let start = inferior.start_backtrace();
            let regs = turns[0].reply->Regs_0;
            &&& run(start.0, start.1, turns).1 == chain_outcome(end)
            &&& turns.len() == 1 + chain_turns(depth, end)
            &&& end_world(world, turns) == world.showing_all(
                chain_frames(world, regs.rip, regs.rbp, depth, end),
            )
            &&& chain_frames(world, regs.rip, regs.rbp, depth, end).len() == chain_length(
                depth,
                end,
            )
        }),
{
    let start = inferior.start_backtrace();
    lemma_chain_frames_counted(
        world,
        turns[0].reply->Regs_0.rip,
        turns[0].reply->Regs_0.rbp,
        depth,
        end,
    );
    lemma_carried_on(start.0, start.1, world, turns);
    let regs = turns[0].reply->Regs_0;
    let s1 = start.0.advance(turns[0].reply);
    let r1 = turns.drop_first();
    assert(turns[0].world == world);
    assert forall|i: int| 0 <= i < r1.len() implies !((#[trigger] r1[i]).reply is Failed) by {
        assert(r1[i] == turns[i + 1]);
    }
    lemma_walk(s1.0, regs.rip, regs.rbp, world, r1, depth, end);
    assert(r1.last() == turns.last());
}

/// The walk from one frame on takes five exchanges for each frame at most,
/// and each frame lies above the one before it.
proof fn lemma_walk_bounded(
    inferior: InferiorView,
    progress: Progress,
    turns: Seq<Turn>,
    ip: u64,
    bp: u64,
)
    requires
        at_frame(inferior.phase, ip, bp),
    ensures
        exchanges(inferior, progress, turns) <= 5 * (u64::MAX - bp) + 5,
    decreases u64::MAX - bp,
{
    if turns.len() > 0 && progress is Request {
        let s1 = inferior.advance(turns[0].reply);
        let r1 = turns.drop_first();
        assert(exchanges(inferior, progress, turns) == 1 + exchanges(s1.0, s1.1, r1));
        if r1.len() > 0 && s1.1 is Request {
            let s2 = s1.0.advance(r1[0].reply);
            let r2 = r1.drop_first();
            assert(exchanges(s1.0, s1.1, r1) == 1 + exchanges(s2.0, s2.1, r2));
            if r2.len() > 0 && s2.1 is Request {
                let s3 = s2.0.advance(r2[0].reply);
                let r3 = r2.drop_first();
                assert(exchanges(s2.0, s2.1, r2) == 1 + exchanges(s3.0, s3.1, r3));
                if r3.len() > 0 && s3.1 is Request {
                    let s4 = s3.0.advance(r3[0].reply);
                    let r4 = r3.drop_first();
                    assert(exchanges(s3.0, s3.1, r3) == 1 + exchanges(s4.0, s4.1, r4));
                    if r4.len() > 0 && s4.1 is Request {
                        let s5 = s4.0.advance(r4[0].reply);
                        let r5 = r4.drop_first();
                        assert(exchanges(s4.0, s4.1, r4) == 1 + exchanges(s5.0, s5.1, r5));
                        if r5.len() > 0 && s5.1 is Request {
                            assert(s4.0.phase matches Phase::CallerFrame { bp: below, .. }
                                && below == bp);
                            let above = s5.0.phase->FrameLine_bp;
                            assert(s5.0.phase is FrameLine && above > bp);
                            lemma_walk_bounded(s5.0, s5.1, r5, s5.0.phase->FrameLine_ip, above);
                        }
                    }
                }
            }
        }
    }
}

/// A backtrace ends. Whatever the replies, a backtrace takes no more than a
/// fixed number of exchanges: one to read the registers, and five for each
/// frame at most, of which there are no more than there are addresses above
/// the frame pointer, since every frame must lie above the one before it. So
/// no run is longer, on a chain that turns back on itself either.
pub proof fn lemma_backtrace_ends(inferior: InferiorView, world: World, turns: Seq<Turn>)
    ensures
        exchanges(inferior.start_backtrace().0, inferior.start_backtrace().1, turns) <= 6 + 5
            * u64::MAX,
        turns.len() > 0 ==> (turns[0].reply matches Reply::Regs(regs) ==> exchanges(
            inferior.start_backtrace().0,
            inferior.start_backtrace().1,
            turns,
        ) <= 6 + 5 * (u64::MAX - regs.rbp)),
        honest(inferior.start_backtrace().0, inferior.start_backtrace().1, world, turns)
            ==> turns.len() <= 6 + 5 * u64::MAX,
{
    let start = inferior.start_backtrace();
    if turns.len() > 0 {
        let s1 = start.0.advance(turns[0].reply);
        let r1 = turns.drop_first();
        assert(exchanges(start.0, start.1, turns) == 1 + exchanges(s1.0, s1.1, r1));
        if r1.len() > 0 && s1.1 is Request {
            let regs = turns[0].reply->Regs_0;
            lemma_walk_bounded(s1.0, s1.1, r1, regs.rip, regs.rbp);
        }
    }
    if honest(start.0, start.1, world, turns) {
        lemma_honest_takes_every_turn(start.0, start.1, world, turns);
    }
}

/// The rest of a launch takes two exchanges for each address still to
/// instrument at most.
proof fn lemma_install_bounded(inferior: InferiorView, index: usize, turns: Seq<Turn>)
    requires
        index <= inferior.to_install.len() <= usize::MAX,
    ensures
        exchanges(inferior.install_from(index).0, inferior.install_from(index).1, turns) <= 2 * (
        inferior.to_install.len() - index),
    decreases inferior.to_install.len() - index,
{
    let start = inferior.install_from(index);
    if turns.len() > 0 && start.1 is Request {
        let s1 = start.0.advance(turns[0].reply);
        let r1 = turns.drop_first();
        assert(exchanges(start.0, start.1, turns) == 1 + exchanges(s1.0, s1.1, r1));
        if r1.len() > 0 && s1.1 is Request {
            let s2 = s1.0.advance(r1[0].reply);
            let r2 = r1.drop_first();
            assert(exchanges(s1.0, s1.1, r1) == 1 + exchanges(s2.0, s2.1, r2));
            if r2.len() > 0 && s2.1 is Request {
                let next = (index + 1) as usize;
                let read = s1.0.phase->Poking_1;
                let recorded = inferior.at(Phase::Idle).record(
                    inferior.to_install[index as int],
                    read,
                );
                assert(s2 == recorded.install_from(next));
                lemma_install_bounded(recorded, next, r2);
            }
        }
    }
}

/// A launch ends. Whatever the replies, a launch takes no more than two
/// exchanges for the first stop and two for each address of its list.
pub proof fn lemma_launch_ends(pid: i32, addresses: Seq<u64>, world: World, turns: Seq<Turn>)
    requires
        addresses.len() <= usize::MAX,
    ensures
        exchanges(
            InferiorView::launched(pid, addresses),
            Progress::Request(Request::Wait),
            turns,
        ) <= 2 + 2 * addresses.len(),
        honest(
            InferiorView::launched(pid, addresses),
            Progress::Request(Request::Wait),
            world,
            turns,
        ) ==> turns.len() <= 2 + 2 * addresses.len(),
{
    let born = InferiorView::launched(pid, addresses);
    let first = Progress::Request(Request::Wait);
    if turns.len() > 0 {
        let s1 = born.advance(turns[0].reply);
        let r1 = turns.drop_first();
        assert(exchanges(born, first, turns) == 1 + exchanges(s1.0, s1.1, r1));
        if r1.len() > 0 && s1.1 is Request {
            let s2 = s1.0.advance(r1[0].reply);
            let r2 = r1.drop_first();
            assert(exchanges(s1.0, s1.1, r1) == 1 + exchanges(s2.0, s2.1, r2));
            if r2.len() > 0 && s2.1 is Request {
                let ready = s1.0.at(Phase::Idle).observe(s2.0.pending_signal);
                assert(s2 == ready.install_from(0));
                lemma_install_bounded(ready, 0, r2);
            }
        }
    }
    if honest(born, first, world, turns) {
        lemma_honest_takes_every_turn(born, first, world, turns);
    }
}

/// The number of exchanges that the operation under way has before it at
/// most, for the operations of fixed length: a wait, a kill, an
/// installation, and a continue or a single step with its step over a
/// breakpoint. A launch, a backtrace and a step by lines have no such
/// number, nor has an idle controller.
pub open spec fn exchanges_left(phase: Phase) -> Option<nat> {
    match phase {
        Phase::Killing => Some(3),
        Phase::Waiting(Waiter::Plain) => Some(2),
        Phase::Waiting(Waiter::Reaped) => Some(2),
        Phase::Reading(Waiter::Plain, _) => Some(1),
        Phase::Reading(Waiter::Reaped, _) => Some(1),
        Phase::Locating(resume) => fixed(resume, 12),
        Phase::Rewinding(resume, _) => fixed(resume, 9),
        Phase::SteppingOver(resume, _) => fixed(resume, 8),
        Phase::Waiting(Waiter::StepOver(resume, _)) => fixed(resume, 7),
        Phase::Reading(Waiter::StepOver(resume, _), _) => fixed(resume, 6),
        Phase::Departing(resume) => fixed(resume, 3),
        Phase::Waiting(Waiter::Arrival(resume)) => fixed(resume, 2),
        Phase::Reading(Waiter::Arrival(resume), _) => fixed(resume, 1),
        Phase::Peeking(patch) => match patch.purpose {
            Purpose::Install => Some(2),
            Purpose::Restore(resume) => fixed(resume, 11),
            Purpose::Rearm(resume) => fixed(resume, 5),
            _ => None,
        },
        Phase::Poking(patch, _) => match patch.purpose {
            Purpose::Install => Some(1),
            Purpose::Restore(resume) => fixed(resume, 10),
            Purpose::Rearm(resume) => fixed(resume, 4),
            _ => None,
        },
        _ => None,
    }
}

/// `left` exchanges for a continue or a single step, none fixed for a step
/// by lines.
pub open spec fn fixed(resume: Resume, left: nat) -> Option<nat> {
    if resume is Lines {
        None
    } else {
        Some(left)
    }
}

/// An operation of fixed length takes no more exchanges than it has before
/// it.
proof fn lemma_fixed_bounded(inferior: InferiorView, progress: Progress, turns: Seq<Turn>)
    requires
        exchanges_left(inferior.phase) is Some,
    ensures
        exchanges(inferior, progress, turns) <= exchanges_left(inferior.phase)->0,
    decreases turns.len(),
{
    if turns.len() > 0 && progress is Request {
        let step = inferior.advance(turns[0].reply);
        let rest = turns.drop_first();
        if rest.len() > 0 && step.1 is Request {
            assert(exchanges_left(step.0.phase) is Some);
            assert(exchanges_left(step.0.phase)->0 < exchanges_left(inferior.phase)->0);
            lemma_fixed_bounded(step.0, step.1, rest);
        } else {
            assert(exchanges(step.0, step.1, rest) == 0);
        }
    }
}

/// Every operation but a step by lines ends. Whatever the replies, a wait
/// takes two exchanges at most, an installation two, a kill three, and a
/// continue or a single step twelve: nine to step over a breakpoint, and
/// three to set the tracee going and see it stop. A launch and a backtrace
/// end by `lemma_launch_ends` and `lemma_backtrace_ends`. A step by lines
/// goes on for as long as the tracee neither leaves its line nor ends.
pub proof fn lemma_operations_end(
    inferior: InferiorView,
    resume: Resume,
    addr: u64,
    turns: Seq<Turn>,
)
    ensures
        exchanges(
            inferior.start_wait(Waiter::Plain).0,
            inferior.start_wait(Waiter::Plain).1,
            turns,
        ) <= 2,
        exchanges(inferior.start_install(addr).0, inferior.start_install(addr).1, turns) <= 2,
        exchanges(inferior.start_kill().0, inferior.start_kill().1, turns) <= 3,
        !(resume is Lines) ==> exchanges(
            inferior.start_resume(resume).0,
            inferior.start_resume(resume).1,
            turns,
        ) <= 12,
{
    lemma_fixed_bounded(
        inferior.start_wait(Waiter::Plain).0,
        inferior.start_wait(Waiter::Plain).1,
        turns,
    );
    lemma_fixed_bounded(inferior.start_install(addr).0, inferior.start_install(addr).1, turns);
    lemma_fixed_bounded(inferior.start_kill().0, inferior.start_kill().1, turns);
    if !(resume is Lines) {
        lemma_fixed_bounded(
            inferior.start_resume(resume).0,
            inferior.start_resume(resume).1,
            turns,
        );
    }
}

/// Whether session and controller agree on what is under way: while the
/// session is tracing, a tracee exists and its controller awaits a reply;
/// at any other time the controller, if there is one, is idle.
pub open spec fn in_step(session: DebuggerView) -> bool {
    match session.inferior {
        Some(inferior) => (session.stage is Tracing) != (inferior.phase is Idle),
        None => !(session.stage is Tracing),
    }
}

/// Session and controller stay in step: they are at the start, and every
/// turn of the session keeps them so.
pub proof fn lemma_session_in_step(session: DebuggerView, reply: Reply)
    requires
        in_step(session),
    ensures
        in_step(DebuggerView::fresh()),
        in_step(session.run(reply).0),
{
    match session.inferior {
        Some(inferior) => {
            lemma_idle_when_done(inferior, reply);
        },
        None => {},
    }
}

/// The session never forgets a breakpoint: whatever reply comes in whatever
/// stage, the addresses registered so far stay registered, in their order.
pub proof fn lemma_breakpoints_persist(session: DebuggerView, reply: Reply)
    ensures
        session.breakpoints.is_prefix_of(session.run(reply).0.breakpoints),
{
    let after = session.run(reply).0.breakpoints;
    assert(after == session.breakpoints || (exists|addr: u64|
        after == session.breakpoints.push(addr)));
}

/// Every tracee is launched with every breakpoint registered so far, whether
/// it was registered while an earlier tracee existed or while none did.
pub proof fn lemma_spawn_launches_with_all(session: DebuggerView, pid: i32)
    requires
        session.stage is Spawning,
    ensures
        session.run(Reply::Spawned(pid)).0.inferior == Some(
            InferiorView::launched(pid, session.breakpoints),
        ),
        session.run(Reply::Spawned(pid)).0.breakpoints == session.breakpoints,
        session.run(Reply::Spawned(pid)).1 == Some(Request::Wait),
{
}

/// While the tracee is being launched, the session passes the controller's
/// requests on and feeds it the replies; when the launch finishes, the
/// session has the tracee continue.
proof fn lemma_session_follows_launch(
    session: DebuggerView,
    inferior: InferiorView,
    request: Request,
    world: World,
    turns: Seq<Turn>,
)
    requires
        session.stage == Stage::Tracing(Errand::Launch),
        session.inferior == Some(inferior),
        honest(inferior, Progress::Request(request), world, turns),
        run(inferior, Progress::Request(request), turns).1 == Progress::Finished,
    ensures
        ({
            let launched = run(inferior, Progress::Request(request), turns).0;
            let end = session_run(session, Some(request), turns);
            &&& end.0 == session.holding(launched.start_resume(Resume::Cont).0).at(
                Stage::Tracing(Errand::Continue),
            )
            &&& end.1 == Some(Request::GetRegs)
        }),
    decreases turns.len(),
{
    assert(turns.len() > 0);
    let step = inferior.advance(turns[0].reply);
    let rest = turns.drop_first();
    let moved = session.run(turns[0].reply);
    assert(run(inferior, Progress::Request(request), turns) == run(step.0, step.1, rest));
    assert(session_run(session, Some(request), turns) == session_run(moved.0, moved.1, rest));
    assert(honest(step.0, step.1, turns[0].world, rest));
    match step.1 {
        Progress::Request(next) => {
            assert(moved.0 == session.holding(step.0));
            lemma_session_follows_launch(moved.0, step.0, next, turns[0].world, rest);
        },
        _ => {
            assert(rest.len() == 0);
            assert(run(step.0, step.1, rest) == step);
            assert(session_run(moved.0, moved.1, rest) == moved);
        },
    }
}

/// Every start of the target puts every registered breakpoint in place.
///
/// When the target has been spawned, the session launches a controller with
/// all the addresses registered so far, whether they were registered while an
/// earlier tracee existed or while none did. If that launch finishes against
/// an honest world, the memory of the new tracee is the image it had at its
/// first stop with the trap opcode at every registered address and no other
/// byte changed, the controller holds a breakpoint for exactly those
/// addresses, each with the byte of the image as its original, and the
/// session has the tracee continue.
pub proof fn lemma_run_installs_all_registered(
    session: DebuggerView,
    pid: i32,
    world: World,
    turns: Seq<Turn>,
)
    requires
        session.stage is Spawning,
        session.breakpoints.len() <= usize::MAX,
        honest(
            InferiorView::launched(pid, session.breakpoints),
            Progress::Request(Request::Wait),
            world,
            turns,
        ),
        run(
            InferiorView::launched(pid, session.breakpoints),
            Progress::Request(Request::Wait),
            turns,
        ).1 == Progress::Finished,
    ensures
        ({
            let spawned = session.run(Reply::Spawned(pid));
            let end = session_run(spawned.0, spawned.1, turns);
            let after = end_world(world, turns).memory;
            &&& spawned.1 == Some(Request::Wait)
            &&& end.1 == Some(Request::GetRegs)
            &&& end.0.stage == Stage::Tracing(Errand::Continue)
            &&& end.0.breakpoints == session.breakpoints
            &&& end.0.inferior matches Some(inferior) && (forall|a: u64|
                inferior.breakpoints.contains_key(a) <==> session.breakpoints.contains(a))
            &&& end.0.inferior matches Some(inferior) && recorded_from(
                inferior,
                turns[0].world.memory,
                session.breakpoints,
            )
            &&& after == instrumented(turns[0].world.memory, session.breakpoints)
            &&& forall|j: int|
                0 <= j < session.breakpoints.len() ==> after[session.breakpoints[j] as int]
                    == TRAP_OPCODE
        }),
{
    let born = InferiorView::launched(pid, session.breakpoints);
    let spawned = session.run(Reply::Spawned(pid));
    lemma_launch_installs_all(pid, session.breakpoints, world, turns);
    lemma_session_follows_launch(spawned.0, born, Request::Wait, world, turns);
}

/// A run command while a tracee exists kills that tracee first, and whatever
/// comes of the kill, the target is then started.
pub proof fn lemma_run_replaces_tracee(
    session: DebuggerView,
    args: Vec<String>,
    outcome: Progress,
    reply: Reply,
)
    requires
        session.stage is Prompting,
        session.inferior is Some,
        in_step(session),
        !(outcome is Request),
    ensures
        ({
            let killing = session.run(Reply::Command(DebuggerCommand::Run(args)));
            let killed = killing.0.finished(crate::debugger::Errand::Replace(args), outcome);
            let spawning = killed.0.run(reply);
            &&& killing.1 == Some(Request::Kill)
            &&& killing.0.stage == Stage::Tracing(crate::debugger::Errand::Replace(args))
            &&& killed.0.inferior is None
            &&& killed.1 is Some && killed.1->0 is Report
            &&& spawning.1 == Some(Request::Spawn(args))
            &&& spawning.0.stage is Spawning
            &&& spawning.0.breakpoints == session.breakpoints
        }),
{
}

/// A status after which the tracee no longer exists ends the session's hold
/// on it, and a stop keeps it.
pub proof fn lemma_terminal_status_releases(session: DebuggerView, status: Status)
    requires
        session.inferior is Some,
    ensures
        status.terminal() <==> session.show_status(status).0.inferior is None,
        session.show_status(status).0.breakpoints == session.breakpoints,
{
}

/// A step by no lines does nothing: the controller asks for nothing and is
/// done at once, and the session returns to the prompt as it was, with the
/// tracee it had, alive and stopped where it was, and with nothing reported.
pub proof fn lemma_step_by_no_lines_does_nothing(session: DebuggerView, inferior: InferiorView)
    requires
        session.stage is Prompting,
        session.inferior == Some(inferior),
        in_step(session),
    ensures
        inferior.step_lines(0) == (inferior, Progress::Finished),
        session.run(Reply::Command(DebuggerCommand::Step(0))) == (session, Some(Request::Prompt)),
{
    assert(inferior.at(Phase::Idle) == inferior);
}

/// A command that needs a tracee is turned away when there is none: the
/// operator is told so, nothing else changes, and the prompt returns.
pub proof fn lemma_no_tracee_no_resume(
    session: DebuggerView,
    command: DebuggerCommand,
    reply: Reply,
)
    requires
        session.stage is Prompting,
        session.inferior is None,
        command is Continue || command is Step || command is Backtrace,
    ensures
        session.run(Reply::Command(command)) == (
            session.at(Stage::Reporting),
            Some(Request::Report(Report::NoActiveTracee)),
        ),
        session.at(Stage::Reporting).run(reply) == (session, Some(Request::Prompt)),
{
}

} // verus!
