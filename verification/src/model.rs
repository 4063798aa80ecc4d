//! An ideal tracee, and what it means to run the controller against it.
//!
//! The world around the controller is modelled by its memory, byte by byte,
//! by the symbols of the target, and by what the operator has been shown. A
//! run is a sequence of turns: each turn gives the reply that came to the
//! controller's outstanding request and the world as it was afterwards. A run
//! is honest when every reply is what the world of that moment holds, and the
//! world changes only as the request allows.

use crate::debugger::DebuggerView;
use crate::event::{Line, Progress, Reply, Report, Request};
use crate::inferior::InferiorView;
use crate::word::{byte_at, with_byte, word_base, word_bytes};
use vstd::prelude::*;

verus! {

/// The tracee's memory: the byte at each address.
pub type Memory = Map<int, u8>;

/// A memory that holds a byte at every address.
pub open spec fn whole(memory: Memory) -> bool {
    forall|a: int| memory.dom().contains(a)
}

/// The word with these eight bytes, least significant first.
pub open spec fn join(b0: u8, b1: u8, b2: u8, b3: u8, b4: u8, b5: u8, b6: u8, b7: u8) -> u64 {
    (b0 as u64) | ((b1 as u64) << 8) | ((b2 as u64) << 16) | ((b3 as u64) << 24) | ((b4 as u64)
        << 32) | ((b5 as u64) << 40) | ((b6 as u64) << 48) | ((b7 as u64) << 56)
}

/// The word at `addr`: the eight bytes from `addr` on.
pub open spec fn load(memory: Memory, addr: u64) -> u64 {
    join(
        memory[addr + 0],
        memory[addr + 1],
        memory[addr + 2],
        memory[addr + 3],
        memory[addr + 4],
        memory[addr + 5],
        memory[addr + 6],
        memory[addr + 7],
    )
}

/// The memory after `word` was written at `addr`.
pub open spec fn store(memory: Memory, addr: u64, word: u64) -> Memory {
    Map::new(
        |a: int| memory.dom().contains(a) || addr <= a < addr + 8,
        |a: int|
            if addr <= a < addr + 8 {
                byte_at(word, (a - addr) as u64)
            } else {
                memory[a]
            },
    )
}

/// The memory after the byte at `addr` was patched to `val` the way the
/// controller does it: the word around the byte is read, the byte is
/// replaced in it, and the word is written back.
pub open spec fn patch(memory: Memory, addr: u64, val: u8) -> Memory {
    let base = word_base(addr);
    store(memory, base, with_byte(load(memory, base), (addr - base) as u64, val))
}

proof fn lemma_join_bytes(b0: u8, b1: u8, b2: u8, b3: u8, b4: u8, b5: u8, b6: u8, b7: u8)
    by (bit_vector)
    ensures
        byte_at(join(b0, b1, b2, b3, b4, b5, b6, b7), 0) == b0,
        byte_at(join(b0, b1, b2, b3, b4, b5, b6, b7), 1) == b1,
        byte_at(join(b0, b1, b2, b3, b4, b5, b6, b7), 2) == b2,
        byte_at(join(b0, b1, b2, b3, b4, b5, b6, b7), 3) == b3,
        byte_at(join(b0, b1, b2, b3, b4, b5, b6, b7), 4) == b4,
        byte_at(join(b0, b1, b2, b3, b4, b5, b6, b7), 5) == b5,
        byte_at(join(b0, b1, b2, b3, b4, b5, b6, b7), 6) == b6,
        byte_at(join(b0, b1, b2, b3, b4, b5, b6, b7), 7) == b7,
{
}

/// Byte `k` of the word at `addr` is the byte at `addr + k`.
pub proof fn lemma_load_bytes(memory: Memory, addr: u64, k: u64)
    requires
        k < 8,
    ensures
        byte_at(load(memory, addr), k) == memory[addr + k],
{
    lemma_join_bytes(
        memory[addr + 0],
        memory[addr + 1],
        memory[addr + 2],
        memory[addr + 3],
        memory[addr + 4],
        memory[addr + 5],
        memory[addr + 6],
        memory[addr + 7],
    );
}

/// Patching a byte through its word changes that byte and nothing else.
pub proof fn lemma_patch_changes_one_byte(memory: Memory, addr: u64, val: u8)
    requires
        whole(memory),
    ensures
        patch(memory, addr, val) == memory.insert(addr as int, val),
        whole(patch(memory, addr, val)),
{
    let base = word_base(addr);
    let k = (addr - base) as u64;
    let word = load(memory, base);
    let patched = with_byte(word, k, val);
    crate::word::lemma_with_byte_replaces_one(word, k, val);
    assert forall|a: int| base <= a < base + 8 implies byte_at(patched, (a - base) as u64) == (if a
        == addr {
        val
    } else {
        memory[a]
    }) by {
        let j = (a - base) as u64;
        lemma_load_bytes(memory, base, j);
        assert(word_bytes(patched)[j as int] == byte_at(patched, j));
        assert(word_bytes(word)[j as int] == byte_at(word, j));
    }
    assert(patch(memory, addr, val) =~= memory.insert(addr as int, val));
}

/// The world around the controller.
pub struct World {
    /// The tracee's memory.
    pub memory: Memory,
    /// The source line of each address that has one.
    pub lines: Map<u64, Line>,
    /// The function around each address that has one.
    pub functions: Map<u64, String>,
    /// What the operator has been shown, in order.
    pub shown: Seq<Report>,
}

impl World {
    /// The source line of `addr`, if it has one.
    pub open spec fn line_at(self, addr: u64) -> Option<Line> {
        if self.lines.contains_key(addr) {
            Some(self.lines[addr])
        } else {
            None
        }
    }

    /// The function around `addr`, if it has one.
    pub open spec fn function_at(self, addr: u64) -> Option<String> {
        if self.functions.contains_key(addr) {
            Some(self.functions[addr])
        } else {
            None
        }
    }

    /// The world with another memory.
    pub open spec fn with_memory(self, memory: Memory) -> World {
        World { memory, ..self }
    }

    /// The world after the operator was shown `report`.
    pub open spec fn showing(self, report: Report) -> World {
        World { shown: self.shown.push(report), ..self }
    }

    /// The world after the operator was shown `reports`, in order.
    pub open spec fn showing_all(self, reports: Seq<Report>) -> World {
        World { shown: self.shown + reports, ..self }
    }

    /// Whether `reply` is an honest answer of this world to `request`, and
    /// `after` the world that the request leaves behind.
    ///
    /// A word is read from memory as it stands and is stored as given, unless
    /// the access fails. Symbols are looked up as they stand. A report is
    /// shown. While the tracee starts, runs or ends, its memory may change in
    /// any way; nothing else changes the world.
    pub open spec fn obeys(self, request: Request, reply: Reply, after: World) -> bool {
        match request {
            Request::Peek(addr) => after == self && (reply is Failed || reply == Reply::Word(
                load(self.memory, addr),
            )),
            Request::Poke(addr, word) => (reply is Failed && after == self) || (reply
                == Reply::Done && after == self.with_memory(store(self.memory, addr, word))),
            Request::LineAt(addr) => after == self && reply == Reply::Source(self.line_at(addr)),
            Request::FunctionAt(addr) => after == self && reply == Reply::Function(
                self.function_at(addr),
            ),
            Request::Report(report) => reply == Reply::Done && after == self.showing(report),
            Request::Spawn(_) | Request::Step(_) | Request::Cont(_) | Request::Wait
            | Request::Kill => after == self.with_memory(after.memory) && whole(after.memory),
            _ => after == self,
        }
    }
}

/// One exchange of a run: the reply that came, and the world afterwards.
pub struct Turn {
    pub reply: Reply,
    pub world: World,
}

/// Where the controller stands after these turns, starting from `inferior`
/// with `progress` just yielded. Turns after the end of the operation change
/// nothing.
pub open spec fn run(inferior: InferiorView, progress: Progress, turns: Seq<Turn>) -> (
    InferiorView,
    Progress,
)
    decreases turns.len(),
{
    if turns.len() > 0 && progress is Request {
        let step = inferior.advance(turns[0].reply);
        run(step.0, step.1, turns.drop_first())
    } else {
        (inferior, progress)
    }
}

/// Whether every turn answers the request that was outstanding honestly,
/// starting in `world`, and no turn comes after the end of the operation.
pub open spec fn honest(
    inferior: InferiorView,
    progress: Progress,
    world: World,
    turns: Seq<Turn>,
) -> bool
    decreases turns.len(),
{
    if turns.len() == 0 {
        true
    } else {
        match progress {
            Progress::Request(request) => {
                let step = inferior.advance(turns[0].reply);
                world.obeys(request, turns[0].reply, turns[0].world) && honest(
                    step.0,
                    step.1,
                    turns[0].world,
                    turns.drop_first(),
                )
            },
            _ => false,
        }
    }
}

/// Where the session stands after these turns, starting from `session` with
/// `next` just handed out. Turns after the end of the session change nothing.
pub open spec fn session_run(session: DebuggerView, next: Option<Request>, turns: Seq<Turn>) -> (
    DebuggerView,
    Option<Request>,
)
    decreases turns.len(),
{
    if turns.len() > 0 && next is Some {
        let step = session.run(turns[0].reply);
        session_run(step.0, step.1, turns.drop_first())
    } else {
        (session, next)
    }
}

/// The number of exchanges that a run takes of these turns: every turn up to
/// the end of the operation, and none after it.
pub open spec fn exchanges(inferior: InferiorView, progress: Progress, turns: Seq<Turn>) -> nat
    decreases turns.len(),
{
    if turns.len() > 0 && progress is Request {
        let step = inferior.advance(turns[0].reply);
        1 + exchanges(step.0, step.1, turns.drop_first())
    } else {
        0
    }
}

/// An honest run takes every one of its turns.
pub proof fn lemma_honest_takes_every_turn(
    inferior: InferiorView,
    progress: Progress,
    world: World,
    turns: Seq<Turn>,
)
    requires
        honest(inferior, progress, world, turns),
    ensures
        exchanges(inferior, progress, turns) == turns.len(),
    decreases turns.len(),
{
    if turns.len() > 0 {
        let step = inferior.advance(turns[0].reply);
        lemma_honest_takes_every_turn(step.0, step.1, turns[0].world, turns.drop_first());
    }
}

/// The world after these turns.
pub open spec fn end_world(world: World, turns: Seq<Turn>) -> World {
    if turns.len() == 0 {
        world
    } else {
        turns.last().world
    }
}

} // verus!
