//! Grouping instructions into chunks for a device with a small input buffer.
//!
//! A chunk is made of whole instructions. An instruction joins the chunk in
//! progress while the two together stay below the buffer size less a reserve
//! of three bytes, the length of the instruction that is sent behind each
//! chunk to ask the device whether it is ready for more. Otherwise the chunk
//! in progress is closed, empty or not, and the instruction starts the next.

use vstd::prelude::*;

verus! {

/// The bytes kept free in the buffer for the instruction sent behind a chunk.
pub const RESERVE: usize = 3;

/// What is written to the device in one go.
#[derive(Debug, PartialEq, Eq, Clone)]
pub struct Chunk {
    /// The instructions of the chunk, one behind the other.
    pub bytes: Vec<u8>,
    /// How many instructions these are.
    pub commands: usize,
}

/// The mathematical value of a [`Chunk`].
pub struct ChunkView {
    pub bytes: Seq<u8>,
    pub commands: nat,
}

impl View for Chunk {
    type V = ChunkView;

    open spec fn view(&self) -> ChunkView {
        ChunkView { bytes: self.bytes@, commands: self.commands as nat }
    }
}

/// The chunks of a sequence of chunks, as values.
pub open spec fn view_chunks(chunks: Seq<Chunk>) -> Seq<ChunkView> {
    Seq::new(chunks.len(), |i: int| chunks[i]@)
}

/// The byte sequences of a sequence of instructions.
pub open spec fn view_instructions(cmds: Seq<Vec<u8>>) -> Seq<Seq<u8>> {
    Seq::new(cmds.len(), |i: int| cmds[i]@)
}

/// Whether an instruction of `cmd` bytes may join a chunk of `pending` bytes.
pub open spec fn fits(pending: nat, cmd: nat, buffer_size: int) -> bool {
    pending + cmd < buffer_size - RESERVE
}

/// The chunks closed so far and the chunk in progress.
pub struct Plan {
    pub closed: Seq<ChunkView>,
    pub pending: ChunkView,
}

/// The plan after one more instruction.
pub open spec fn plan_step(plan: Plan, cmd: Seq<u8>, buffer_size: int) -> Plan {
    if fits(plan.pending.bytes.len(), cmd.len(), buffer_size) {
        Plan {
            closed: plan.closed,
            pending: ChunkView {
                bytes: plan.pending.bytes + cmd,
                commands: plan.pending.commands + 1,
            },
        }
    } else {
        Plan {
            closed: plan.closed.push(plan.pending),
            pending: ChunkView { bytes: cmd, commands: 1 },
        }
    }
}

/// The plan after each of `cmds` in turn, from an empty chunk in progress.
pub open spec fn plan(cmds: Seq<Seq<u8>>, buffer_size: int) -> Plan
    decreases cmds.len(),
{
    if cmds.len() == 0 {
        Plan { closed: Seq::empty(), pending: ChunkView { bytes: Seq::empty(), commands: 0 } }
    } else {
        plan_step(plan(cmds.drop_last(), buffer_size), cmds.last(), buffer_size)
    }
}

/// The chunks that `cmds` are sent in: those closed along the way, then the
/// one in progress at the end.
pub open spec fn chunks(cmds: Seq<Seq<u8>>, buffer_size: int) -> Seq<ChunkView> {
    plan(cmds, buffer_size).closed.push(plan(cmds, buffer_size).pending)
}

/// All the bytes of `parts`, in order.
pub open spec fn joined(parts: Seq<Seq<u8>>) -> Seq<u8>
    decreases parts.len(),
{
    if parts.len() == 0 {
        Seq::empty()
    } else {
        joined(parts.drop_last()) + parts.last()
    }
}

/// The bytes of each chunk.
pub open spec fn chunk_bytes(chunks: Seq<ChunkView>) -> Seq<Seq<u8>> {
    Seq::new(chunks.len(), |i: int| chunks[i].bytes)
}

/// How many instructions `chunks` hold together.
pub open spec fn total_commands(chunks: Seq<ChunkView>) -> nat
    decreases chunks.len(),
{
    if chunks.len() == 0 {
        0
    } else {
        total_commands(chunks.drop_last()) + chunks.last().commands
    }
}

/// Chunking loses nothing and keeps the order: the chunks joined are the
/// instructions joined, and they hold as many instructions as were given.
pub proof fn lemma_chunks_keep_everything(cmds: Seq<Seq<u8>>, buffer_size: int)
    ensures
        joined(chunk_bytes(chunks(cmds, buffer_size))) == joined(cmds),
        total_commands(chunks(cmds, buffer_size)) == cmds.len(),
    decreases cmds.len(),
{
    let now = plan(cmds, buffer_size);
    let all = chunks(cmds, buffer_size);
    assert(chunk_bytes(all).drop_last() =~= chunk_bytes(now.closed));
    assert(all.drop_last() =~= now.closed);
    if cmds.len() == 0 {
        assert(joined(chunk_bytes(now.closed)) =~= Seq::empty());
        assert(joined(chunk_bytes(all)) =~= joined(cmds));
        assert(total_commands(now.closed) == 0);
    } else {
        let before = plan(cmds.drop_last(), buffer_size);
        let earlier = chunks(cmds.drop_last(), buffer_size);
        lemma_chunks_keep_everything(cmds.drop_last(), buffer_size);
        assert(chunk_bytes(earlier).drop_last() =~= chunk_bytes(before.closed));
        assert(earlier.drop_last() =~= before.closed);
        if fits(before.pending.bytes.len(), cmds.last().len(), buffer_size) {
            assert(joined(chunk_bytes(all)) =~= joined(cmds));
        } else {
            assert(now.closed == earlier);
            assert(joined(chunk_bytes(all)) =~= joined(cmds));
        }
    }
}

/// A chunk of several instructions stays below the buffer size less the
/// reserve. A chunk holds a single instruction, however long, or none, only
/// where nothing could join it.
pub proof fn lemma_chunks_within_budget(cmds: Seq<Seq<u8>>, buffer_size: int, i: int)
    requires
        0 <= i < chunks(cmds, buffer_size).len(),
    ensures
        chunks(cmds, buffer_size)[i].commands > 1 ==> chunks(cmds, buffer_size)[i].bytes.len()
            < buffer_size - RESERVE,
        chunks(cmds, buffer_size)[i].commands == 0 ==> chunks(cmds, buffer_size)[i].bytes.len()
            == 0,
    decreases cmds.len(),
{
    if cmds.len() > 0 {
        let before = plan(cmds.drop_last(), buffer_size);
        let earlier = chunks(cmds.drop_last(), buffer_size);
        let now = plan(cmds, buffer_size);
        if fits(before.pending.bytes.len(), cmds.last().len(), buffer_size) {
            if i < now.closed.len() {
                lemma_chunks_within_budget(cmds.drop_last(), buffer_size, i);
                assert(earlier[i] == chunks(cmds, buffer_size)[i]);
            } else {
                lemma_chunks_within_budget(cmds.drop_last(), buffer_size, i);
            }
        } else {
            if i < now.closed.len() {
                lemma_chunks_within_budget(cmds.drop_last(), buffer_size, i);
                assert(earlier[i] == chunks(cmds, buffer_size)[i]);
            }
        }
    }
}

/// Groups `cmds` into the chunks they are sent in. There is always at least
/// one chunk; the first may be empty, where the first instruction alone does
/// not fit. The buffer must at least hold the reserve.
pub fn chunk_commands(cmds: &Vec<Vec<u8>>, buffer_size: usize) -> (out: Vec<Chunk>)
    requires
        buffer_size >= RESERVE,
    ensures
        view_chunks(out@) == chunks(view_instructions(cmds@), buffer_size as int),
        out.len() >= 1,
        joined(chunk_bytes(view_chunks(out@))) == joined(view_instructions(cmds@)),
        total_commands(view_chunks(out@)) == cmds.len(),
{
    proof {
        lemma_chunks_keep_everything(view_instructions(cmds@), buffer_size as int);
    }
    let budget: usize = buffer_size - RESERVE;
    let ghost all = view_instructions(cmds@);
    let mut out: Vec<Chunk> = Vec::new();
    let mut bytes: Vec<u8> = Vec::new();
    let mut commands: usize = 0;
    let mut i: usize = 0;
    assert(all.take(0) =~= Seq::empty());
    assert(view_chunks(out@) =~= Seq::empty());
    while i < cmds.len()
        invariant
            i <= cmds.len(),
            commands <= i,
            budget == buffer_size - RESERVE,
            all == view_instructions(cmds@),
            view_chunks(out@) == plan(all.take(i as int), buffer_size as int).closed,
            (ChunkView { bytes: bytes@, commands: commands as nat }) == plan(
                all.take(i as int),
                buffer_size as int,
            ).pending,
        decreases cmds.len() - i,
    {
        let cmd = &cmds[i];
        proof {
            assert(all.take(i + 1).drop_last() =~= all.take(i as int));
            assert(all.take(i + 1).last() == cmd@);
        }
        if cmd.len() < budget && bytes.len() < budget - cmd.len() {
            let ghost before = bytes@;
            let mut j: usize = 0;
            while j < cmd.len()
                invariant
                    j <= cmd.len(),
                    bytes@ == before + cmd@.take(j as int),
                decreases cmd.len() - j,
            {
                bytes.push(cmd[j]);
                j += 1;
                assert(bytes@ =~= before + cmd@.take(j as int));
            }
            assert(cmd@.take(j as int) =~= cmd@);
            commands += 1;
        } else {
            let ghost closed = view_chunks(out@);
            let ghost pending = ChunkView { bytes: bytes@, commands: commands as nat };
            out.push(Chunk { bytes, commands });
            assert(view_chunks(out@) =~= closed.push(pending));
            bytes = Vec::new();
            let mut j: usize = 0;
            while j < cmd.len()
                invariant
                    j <= cmd.len(),
                    bytes@ == cmd@.take(j as int),
                decreases cmd.len() - j,
            {
                bytes.push(cmd[j]);
                j += 1;
                assert(bytes@ =~= cmd@.take(j as int));
            }
            assert(cmd@.take(j as int) =~= cmd@);
            commands = 1;
        }
        i += 1;
    }
    assert(all.take(i as int) =~= all);
    let ghost closed = view_chunks(out@);
    let ghost pending = ChunkView { bytes: bytes@, commands: commands as nat };
    out.push(Chunk { bytes, commands });
    assert(view_chunks(out@) =~= closed.push(pending));
    out
}

} // verus!
