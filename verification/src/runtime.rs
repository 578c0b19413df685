use vstd::prelude::*;
use vstd::string::*;

use crate::constants::{CKPT_MSG, INIT_MSG, RESTORE_MSG, MAX_FILE_NUM, SHM_SIZE, STAGING_BUF_SIZE};
use crate::cuda::AllocationSnapshot;
use crate::layout::{empty_file, SharedMemFile, SharedMemFs};
use crate::text::{append_decimal, append_signed_decimal, decimal, signed_decimal};
use crate::Error;

verus! {

/// The message with which `checkpoint_storage_len` refuses a total size that no
/// `usize` can hold.
pub open spec fn total_too_large_text(tot_size: u64) -> Seq<char> {
    "checkpoint metadata total size is too large: "@ + decimal(tot_size as nat) + " bytes"@
}

/// The message with which `checkpoint_storage_len` refuses a total size beyond the
/// checkpoint storage.
pub open spec fn total_exceeds_text(len: nat) -> Seq<char> {
    "checkpoint metadata total size exceeds storage: "@ + decimal(len) + " > "@ + decimal(
        SHM_SIZE as nat,
    )
}

/// Checks the total size recorded in checkpoint metadata against the storage
/// mapping and returns it as a length.
pub fn checkpoint_storage_len(tot_size: u64) -> (r: Result<usize, Error>)
    ensures
        match r {
            Ok(len) => len == tot_size && tot_size <= SHM_SIZE,
            Err(e) => e is Protocol && (if tot_size > usize::MAX {
                e->Protocol_0@ == total_too_large_text(tot_size)
            } else {
                tot_size > SHM_SIZE && e->Protocol_0@ == total_exceeds_text(tot_size as nat)
            }),
        },
{
    if tot_size as u128 > usize::MAX as u128 {
        let mut m = String::from_str("checkpoint metadata total size is too large: ");
        append_decimal(&mut m, tot_size);
        m.append(" bytes");
        return Err(Error::Protocol(m));
    }
    let len = tot_size as usize;
    if len > SHM_SIZE {
        let mut m = String::from_str("checkpoint metadata total size exceeds storage: ");
        append_decimal(&mut m, len as u64);
        m.append(" > ");
        append_decimal(&mut m, SHM_SIZE as u64);
        return Err(Error::Protocol(m));
    }
    Ok(len)
}

/// The message for a file whose offset no `usize` can hold.
pub open spec fn offset_too_large_text(idx: nat, offset: u64) -> Seq<char> {
    "checkpoint metadata offset is too large for file "@ + decimal(idx) + ": "@ + decimal(
        offset as nat,
    )
}

/// The message for a file whose size no `usize` can hold.
pub open spec fn size_too_large_text(idx: nat, size: u64) -> Seq<char> {
    "checkpoint metadata size is too large for file "@ + decimal(idx) + ": "@ + decimal(
        size as nat,
    )
}

/// The message for a file whose bytes do not lie inside the checkpoint storage.
pub open spec fn range_out_of_bounds_text(
    idx: nat,
    offset: nat,
    size: nat,
    storage_len: nat,
) -> Seq<char> {
    "checkpoint metadata range is out of bounds for file "@ + decimal(idx) + ": offset "@
        + decimal(offset) + ", size "@ + decimal(size) + ", storage "@ + decimal(storage_len)
}

/// Checks the byte range `[offset, offset + size)` recorded for file `idx` against
/// the length of checkpoint storage.
pub fn checkpoint_file_range(idx: usize, offset: u64, size: u64, storage_len: usize) -> (r:
    Result<(usize, usize), Error>)
    ensures
        match r {
            Ok((o, s)) => o == offset && s == size && offset + size <= storage_len,
            Err(e) => e is Protocol && (if offset > usize::MAX {
                e->Protocol_0@ == offset_too_large_text(idx as nat, offset)
            } else if size > usize::MAX {
                e->Protocol_0@ == size_too_large_text(idx as nat, size)
            } else {
                offset + size > storage_len && e->Protocol_0@ == range_out_of_bounds_text(
                    idx as nat,
                    offset as nat,
                    size as nat,
                    storage_len as nat,
                )
            }),
        },
{
    if offset as u128 > usize::MAX as u128 {
        let mut m = String::from_str("checkpoint metadata offset is too large for file ");
        append_decimal(&mut m, idx as u64);
        m.append(": ");
        append_decimal(&mut m, offset);
        return Err(Error::Protocol(m));
    }
    let offset = offset as usize;
    if size as u128 > usize::MAX as u128 {
        let mut m = String::from_str("checkpoint metadata size is too large for file ");
        append_decimal(&mut m, idx as u64);
        m.append(": ");
        append_decimal(&mut m, size);
        return Err(Error::Protocol(m));
    }
    let size = size as usize;
    let fits = match offset.checked_add(size) {
        Some(end) => end <= storage_len,
        None => false,
    };
    if !fits {
        let mut m = String::from_str("checkpoint metadata range is out of bounds for file ");
        append_decimal(&mut m, idx as u64);
        m.append(": offset ");
        append_decimal(&mut m, offset as u64);
        m.append(", size ");
        append_decimal(&mut m, size as u64);
        m.append(", storage ");
        append_decimal(&mut m, storage_len as u64);
        return Err(Error::Protocol(m));
    }
    Ok((offset, size))
}

/// How many bytes the next trip through the staging buffer carries when `done`
/// of `size` bytes have been moved: the rest, but at most one staging buffer.
pub open spec fn chunk_len(size: nat, done: nat) -> nat {
    if size - done < STAGING_BUF_SIZE {
        (size - done) as nat
    } else {
        STAGING_BUF_SIZE as nat
    }
}

fn staging_chunk(size: usize, done: usize) -> (r: usize)
    requires
        done < size,
    ensures
        r == chunk_len(size as nat, done as nat),
        0 < r <= size - done,
{
    let rest = size - done;
    if rest < STAGING_BUF_SIZE {
        rest
    } else {
        STAGING_BUF_SIZE
    }
}

// ---------------------------------------------------------------------------
// Checkpoint: save every tracked allocation into checkpoint storage.
// ---------------------------------------------------------------------------

/// One step of a checkpoint, as plain values.
#[derive(Clone, Copy, Debug, PartialEq, Eq, Structural)]
pub enum CheckpointStep {
    /// Copy `len` bytes from device address `device_ptr + device_offset`, through
    /// the staging buffer, to checkpoint storage at `storage_offset`.
    Copy { device_ptr: usize, device_offset: usize, storage_offset: usize, len: usize },
    /// The metadata entry of allocation `idx` was written.
    Recorded { idx: usize },
    /// The metadata header (file count and total size) was written.
    Committed,
    /// Release the physical memory behind the allocation at `ptr`.
    Release { ptr: usize },
    /// The checkpoint is complete.
    Done,
    /// Allocation `idx` does not fit in checkpoint storage; the checkpoint stops.
    Fail { idx: usize },
}

/// What a checkpoint asks its driver to do next.
#[derive(Debug)]
pub enum CheckpointAction {
    CopyToStorage { device_ptr: usize, device_offset: usize, storage_offset: usize, len: usize },
    Recorded { idx: usize },
    Committed,
    Release { ptr: usize },
    Done,
    Fail { idx: usize, error: Error },
}

impl CheckpointAction {
    /// The action as a plain step.
    pub open spec fn step(self) -> CheckpointStep {
        match self {
            CheckpointAction::CopyToStorage { device_ptr, device_offset, storage_offset, len } =>
                CheckpointStep::Copy { device_ptr, device_offset, storage_offset, len },
            CheckpointAction::Recorded { idx } => CheckpointStep::Recorded { idx },
            CheckpointAction::Committed => CheckpointStep::Committed,
            CheckpointAction::Release { ptr } => CheckpointStep::Release { ptr },
            CheckpointAction::Done => CheckpointStep::Done,
            CheckpointAction::Fail { idx, .. } => CheckpointStep::Fail { idx },
        }
    }
}

/// Where allocation `i` of `s` starts in checkpoint storage: the allocations are
/// laid out one after the other in snapshot order.
pub open spec fn layout_offset(s: Seq<AllocationSnapshot>, i: int) -> int
    decreases i,
{
    if i <= 0 {
        0
    } else {
        layout_offset(s, i - 1) + s[i - 1].size
    }
}

/// Whether allocation `i` of `s` would end beyond checkpoint storage.
pub open spec fn exceeds_storage(s: Seq<AllocationSnapshot>, i: int) -> bool {
    layout_offset(s, i) + s[i].size > SHM_SIZE
}

/// Whether a checkpoint of `s` stops for want of storage.
pub open spec fn checkpoint_fails(s: Seq<AllocationSnapshot>) -> bool {
    exists|i: int| 0 <= i < s.len() && #[trigger] exceeds_storage(s, i)
}

/// The bytes that a checkpoint of `s` stores.
pub open spec fn checkpoint_total(s: Seq<AllocationSnapshot>) -> int {
    layout_offset(s, s.len() as int)
}

/// The metadata entry that a checkpoint of `s` records for allocation `i`.
pub open spec fn checkpoint_entry(s: Seq<AllocationSnapshot>, i: int) -> SharedMemFile {
    SharedMemFile { size: s[i].size as u64, ptr: s[i].ptr, offset: layout_offset(s, i) as u64 }
}

/// The metadata entries that a checkpoint of `s` records.
pub open spec fn checkpoint_entries(s: Seq<AllocationSnapshot>) -> Seq<SharedMemFile> {
    Seq::new(s.len(), |i: int| checkpoint_entry(s, i))
}

/// The copies that save bytes `[done, size)` of the allocation at `ptr` to storage
/// starting at `base`, one staging buffer at a time.
pub open spec fn save_chunks(ptr: usize, size: nat, base: int, done: nat) -> Seq<CheckpointStep>
    decreases size - done,
{
    if done >= size {
        Seq::empty()
    } else {
        seq![
            CheckpointStep::Copy {
                device_ptr: ptr,
                device_offset: done as usize,
                storage_offset: (base + done) as usize,
                len: chunk_len(size, done) as usize,
            },
        ] + save_chunks(ptr, size, base, done + chunk_len(size, done))
    }
}

/// The saving steps of a checkpoint of `s` from allocation `idx` on, `done` bytes
/// of which are already saved.
pub open spec fn save_steps(s: Seq<AllocationSnapshot>, idx: int, done: nat) -> Seq<
    CheckpointStep,
>
    decreases s.len() - idx,
{
    if idx < 0 || idx >= s.len() {
        Seq::empty()
    } else if done == 0 && exceeds_storage(s, idx) {
        seq![CheckpointStep::Fail { idx: idx as usize }]
    } else {
        save_chunks(s[idx].ptr, s[idx].size as nat, layout_offset(s, idx), done) + seq![
            CheckpointStep::Recorded { idx: idx as usize },
        ] + save_steps(s, idx + 1, 0)
    }
}

/// The releases of allocations `j..` of `s`.
pub open spec fn release_steps(s: Seq<AllocationSnapshot>, j: int) -> Seq<CheckpointStep>
    decreases s.len() - j,
{
    if j < 0 || j >= s.len() {
        Seq::empty()
    } else {
        seq![CheckpointStep::Release { ptr: s[j].ptr }] + release_steps(s, j + 1)
    }
}

/// What follows the saving of all allocations: the header, the releases, the end.
pub open spec fn checkpoint_tail(s: Seq<AllocationSnapshot>) -> Seq<CheckpointStep> {
    seq![CheckpointStep::Committed] + release_steps(s, 0) + seq![CheckpointStep::Done]
}

/// Every step of a checkpoint of the allocations `s`, in order.
pub open spec fn checkpoint_trace(s: Seq<AllocationSnapshot>) -> Seq<CheckpointStep> {
    if checkpoint_fails(s) {
        save_steps(s, 0, 0)
    } else {
        save_steps(s, 0, 0) + checkpoint_tail(s)
    }
}

/// The message with which a checkpoint refuses more allocations than the metadata
/// table holds.
pub open spec fn too_many_allocations_text(n: nat) -> Seq<char> {
    "too many GPU allocations: "@ + decimal(n) + " > "@ + decimal(MAX_FILE_NUM as nat)
}

/// The message with which a checkpoint stops at an allocation that does not fit.
pub open spec fn storage_too_small_text(idx: nat) -> Seq<char> {
    "checkpoint storage too small: allocation "@ + decimal(idx) + " exceeds "@ + decimal(
        SHM_SIZE as nat,
    ) + " bytes"@
}

enum Stage {
    Saving,
    Releasing,
    Stopped,
}

/// A checkpoint in progress: it decides each step, and its driver performs the
/// copies and releases that it asks for.
pub struct CheckpointRun {
    snapshot: Vec<AllocationSnapshot>,
    stage: Stage,
    idx: usize,
    offset: usize,
    copied: usize,
    released: usize,
}

impl CheckpointRun {
    /// The allocations being checkpointed.
    pub closed spec fn snapshot(self) -> Seq<AllocationSnapshot> {
        self.snapshot@
    }

    /// The steps still to come.
    pub closed spec fn remaining(self) -> Seq<CheckpointStep> {
        let s = self.snapshot@;
        match self.stage {
            Stage::Saving => save_steps(s, self.idx as int, self.copied as nat) + if checkpoint_fails(
                s,
            ) {
                Seq::empty()
            } else {
                checkpoint_tail(s)
            },
            Stage::Releasing => release_steps(s, self.released as int) + seq![CheckpointStep::Done],
            Stage::Stopped => Seq::empty(),
        }
    }

    /// The run's internal bookkeeping is consistent.
    pub closed spec fn wf(self) -> bool {
        let s = self.snapshot@;
        &&& s.len() <= MAX_FILE_NUM
        &&& match self.stage {
            Stage::Saving => {
                &&& self.idx <= s.len()
                &&& self.offset == layout_offset(s, self.idx as int)
                &&& self.offset <= SHM_SIZE
                &&& forall|i: int| 0 <= i < self.idx ==> !#[trigger] exceeds_storage(s, i)
                &&& self.idx < s.len() ==> self.copied <= s[self.idx as int].size
                &&& self.idx < s.len() && self.copied > 0 ==> !exceeds_storage(
                    s,
                    self.idx as int,
                )
                &&& self.idx == s.len() ==> self.copied == 0
            },
            Stage::Releasing => {
                &&& self.released <= s.len()
                &&& !checkpoint_fails(s)
            },
            Stage::Stopped => true,
        }
    }

    /// Whether the metadata table `fs` holds what this run has written so far: the
    /// entry of every allocation already recorded and, once the header is written,
    /// the file count and the total.
    pub closed spec fn records(self, fs: SharedMemFs) -> bool {
        let s = self.snapshot@;
        match self.stage {
            Stage::Saving => forall|i: int|
                0 <= i < self.idx ==> #[trigger] fs.files@[i] == checkpoint_entry(s, i),
            Stage::Releasing => checkpoint_committed(s, fs),
            Stage::Stopped => checkpoint_fails(s) || checkpoint_committed(s, fs),
        }
    }

    /// Starts a checkpoint of `snapshot`: forgets what the metadata table held and
    /// refuses more allocations than the table has entries for.
    pub fn start(fs: &mut SharedMemFs, snapshot: Vec<AllocationSnapshot>) -> (r: Result<
        CheckpointRun,
        Error,
    >)
        ensures
            final(fs).tot_size == 0,
            final(fs).file_num == 0,
            forall|i: int|
                0 <= i < MAX_FILE_NUM ==> #[trigger] final(fs).files@[i] == empty_file(),
            r is Ok <==> snapshot@.len() <= MAX_FILE_NUM,
            r matches Ok(run) ==> run.wf() && run.snapshot() == snapshot@ && run.remaining()
                == checkpoint_trace(snapshot@) && run.records(*final(fs)),
            r matches Err(e) ==> e is Protocol && e->Protocol_0@ == too_many_allocations_text(
                snapshot@.len(),
            ),
    {
        fs.clear();
        if snapshot.len() > MAX_FILE_NUM {
            let mut m = String::from_str("too many GPU allocations: ");
            append_decimal(&mut m, snapshot.len() as u64);
            m.append(" > ");
            append_decimal(&mut m, MAX_FILE_NUM as u64);
            return Err(Error::Protocol(m));
        }
        let run = CheckpointRun {
            snapshot,
            stage: Stage::Saving,
            idx: 0,
            offset: 0,
            copied: 0,
            released: 0,
        };
        assert(run.remaining() =~= checkpoint_trace(run.snapshot@));
        Ok(run)
    }

    /// A checkpoint run that took all its steps, each on the table that the one
    /// before left, and that did not stop for want of storage, leaves the complete
    /// record of its allocations in the table; a restore started from that table
    /// accepts it and remaps and refills every allocation exactly as it was saved.
    pub proof fn lemma_complete_run_restores(self, fs: SharedMemFs)
        requires
            self.wf(),
            self.records(fs),
            self.remaining().len() == 0,
            !checkpoint_fails(self.snapshot()),
        ensures
            checkpoint_committed(self.snapshot(), fs),
            fs.files@.take(fs.file_num as usize as int) == checkpoint_entries(self.snapshot()),
            (fs.file_num as usize) <= MAX_FILE_NUM,
            fs.tot_size <= SHM_SIZE,
            restore_trace(fs.files@.take(fs.file_num as usize as int), fs.tot_size as nat)
                == restored_allocations(self.snapshot(), 0),
    {
        let s = self.snapshot@;
        if !(self.stage is Stopped) {
            self.lemma_remaining_nonempty();
        }
        assert(checkpoint_committed(s, fs));
        lemma_checkpoint_then_restore(s);
        assert(fs.files@.take(fs.file_num as usize as int) =~= checkpoint_entries(s));
    }

    /// Whether the run has no step left.
    pub fn is_finished(&self) -> (b: bool)
        requires
            self.wf(),
        ensures
            b == (self.remaining().len() == 0),
    {
        proof {
            if !(self.stage is Stopped) {
                self.lemma_remaining_nonempty();
            }
        }
        match self.stage {
            Stage::Stopped => true,
            _ => false,
        }
    }

    proof fn lemma_remaining_nonempty(self)
        requires
            self.wf(),
            !(self.stage is Stopped),
        ensures
            self.remaining().len() > 0,
    {
        let s = self.snapshot@;
        match self.stage {
            Stage::Saving => {
                if self.idx < s.len() {
                    let i = self.idx as int;
                    if !(self.copied == 0 && exceeds_storage(s, i)) {
                        assert(save_steps(s, i, self.copied as nat).len() > 0);
                    }
                } else {
                    assert(!checkpoint_fails(s));
                }
            },
            _ => {},
        }
    }

    /// Takes the next step: decides it, records what the metadata table must hold
    /// after it, and says what the driver must do.
    pub fn next(&mut self, fs: &mut SharedMemFs) -> (r: CheckpointAction)
        requires
            old(self).wf(),
            old(self).remaining().len() > 0,
        ensures
            final(self).wf(),
            final(self).snapshot() == old(self).snapshot(),
            r.step() == old(self).remaining()[0],
            final(self).remaining() == old(self).remaining().drop_first(),
            r matches CheckpointAction::Fail { idx, error } ==> error is Protocol
                && error->Protocol_0@ == storage_too_small_text(idx as nat),
            checkpoint_fs_effect(r.step(), old(self).snapshot(), *old(fs), *final(fs)),
            old(self).records(*old(fs)) ==> final(self).records(*final(fs)),
    {
        match self.stage {
            Stage::Saving => self.save_next(fs),
            Stage::Releasing => self.release_next(),
            Stage::Stopped => CheckpointAction::Done,
        }
    }

    fn release_next(&mut self) -> (r: CheckpointAction)
        requires
            old(self).wf(),
            old(self).stage is Releasing,
        ensures
            final(self).wf(),
            final(self).snapshot() == old(self).snapshot(),
            r.step() == old(self).remaining()[0],
            final(self).remaining() == old(self).remaining().drop_first(),
            r is Release || r is Done,
            forall|fs: SharedMemFs| old(self).records(fs) ==> final(self).records(fs),
    {
        let ghost before = self.remaining();
        if self.released < self.snapshot.len() {
            let ptr = self.snapshot[self.released].ptr;
            self.released = self.released + 1;
            proof {
                assert(self.remaining() =~= before.drop_first());
            }
            CheckpointAction::Release { ptr }
        } else {
            self.stage = Stage::Stopped;
            proof {
                assert(before =~= seq![CheckpointStep::Done]);
            }
            CheckpointAction::Done
        }
    }

    #[verifier::rlimit(40)]
    fn save_next(&mut self, fs: &mut SharedMemFs) -> (r: CheckpointAction)
        requires
            old(self).wf(),
            old(self).stage is Saving,
        ensures
            final(self).wf(),
            final(self).snapshot() == old(self).snapshot(),
            r.step() == old(self).remaining()[0],
            final(self).remaining() == old(self).remaining().drop_first(),
            r matches CheckpointAction::Fail { idx, error } ==> error is Protocol
                && error->Protocol_0@ == storage_too_small_text(idx as nat),
            checkpoint_fs_effect(r.step(), old(self).snapshot(), *old(fs), *final(fs)),
            old(self).records(*old(fs)) ==> final(self).records(*final(fs)),
    {
        let ghost s = self.snapshot@;
        let ghost before = self.remaining();
        if self.idx < self.snapshot.len() {
            let a = self.snapshot[self.idx];
            let ghost i = self.idx as int;
            if self.copied == 0 {
                let fits = match self.offset.checked_add(a.size) {
                    Some(end) => end <= SHM_SIZE,
                    None => false,
                };
                if !fits {
                    let idx = self.idx;
                    self.stage = Stage::Stopped;
                    proof {
                        assert(exceeds_storage(s, i));
                        assert(checkpoint_fails(s));
                        assert(before =~= seq![CheckpointStep::Fail { idx }]);
                    }
                    let mut m = String::from_str("checkpoint storage too small: allocation ");
                    append_decimal(&mut m, idx as u64);
                    m.append(" exceeds ");
                    append_decimal(&mut m, SHM_SIZE as u64);
                    m.append(" bytes");
                    return CheckpointAction::Fail { idx, error: Error::Protocol(m) };
                }
            }
            proof {
                lemma_save_steps_unfold(s, i, self.copied as nat);
            }
            if self.copied < a.size {
                return self.save_chunk(a);
            }
            return self.record_file(fs, a);
        }
        proof {
            assert(!checkpoint_fails(s));
            assert(save_steps(s, self.idx as int, 0) =~= Seq::<CheckpointStep>::empty());
        }
        fs.file_num = self.snapshot.len() as u64;
        fs.tot_size = self.offset as u64;
        self.stage = Stage::Releasing;
        self.released = 0;
        proof {
            assert(before =~= seq![CheckpointStep::Committed] + self.remaining());
        }
        CheckpointAction::Committed
    }

    fn save_chunk(&mut self, a: AllocationSnapshot) -> (r: CheckpointAction)
        requires
            old(self).wf(),
            old(self).stage is Saving,
            old(self).idx < old(self).snapshot@.len(),
            a == old(self).snapshot@[old(self).idx as int],
            old(self).copied < a.size,
            !exceeds_storage(old(self).snapshot@, old(self).idx as int),
            old(self).remaining() == save_chunks(
                a.ptr,
                a.size as nat,
                layout_offset(old(self).snapshot@, old(self).idx as int),
                old(self).copied as nat,
            ) + seq![CheckpointStep::Recorded { idx: old(self).idx }] + save_steps(
                old(self).snapshot@,
                old(self).idx + 1,
                0,
            ) + if checkpoint_fails(old(self).snapshot@) {
                Seq::empty()
            } else {
                checkpoint_tail(old(self).snapshot@)
            },
        ensures
            final(self).wf(),
            final(self).snapshot() == old(self).snapshot(),
            r.step() == old(self).remaining()[0],
            final(self).remaining() == old(self).remaining().drop_first(),
            r is CopyToStorage,
            forall|fs: SharedMemFs| old(self).records(fs) ==> final(self).records(fs),
    {
        let ghost s = self.snapshot@;
        let ghost i = self.idx as int;
        let ghost before = self.remaining();
        let ghost rest = seq![CheckpointStep::Recorded { idx: self.idx }] + save_steps(s, i + 1, 0)
            + if checkpoint_fails(s) {
            Seq::empty()
        } else {
            checkpoint_tail(s)
        };
        let len = staging_chunk(a.size, self.copied);
        let act = CheckpointAction::CopyToStorage {
            device_ptr: a.ptr,
            device_offset: self.copied,
            storage_offset: self.offset + self.copied,
            len,
        };
        let ghost done = self.copied as nat;
        self.copied = self.copied + len;
        proof {
            let chunks = save_chunks(a.ptr, a.size as nat, layout_offset(s, i), done);
            let later = save_chunks(a.ptr, a.size as nat, layout_offset(s, i), self.copied as nat);
            assert(chunks =~= seq![act.step()] + later);
            assert(before =~= seq![act.step()] + (later + rest));
            assert(self.remaining() =~= later + rest);
        }
        act
    }

    fn record_file(&mut self, fs: &mut SharedMemFs, a: AllocationSnapshot) -> (r: CheckpointAction)
        requires
            old(self).wf(),
            old(self).stage is Saving,
            old(self).idx < old(self).snapshot@.len(),
            a == old(self).snapshot@[old(self).idx as int],
            old(self).copied == a.size,
            !exceeds_storage(old(self).snapshot@, old(self).idx as int),
            old(self).remaining() == seq![CheckpointStep::Recorded { idx: old(self).idx }]
                + save_steps(old(self).snapshot@, old(self).idx + 1, 0) + if checkpoint_fails(
                old(self).snapshot@,
            ) {
                Seq::empty()
            } else {
                checkpoint_tail(old(self).snapshot@)
            },
        ensures
            final(self).wf(),
            final(self).snapshot() == old(self).snapshot(),
            r.step() == old(self).remaining()[0],
            final(self).remaining() == old(self).remaining().drop_first(),
            checkpoint_fs_effect(r.step(), old(self).snapshot(), *old(fs), *final(fs)),
            old(self).records(*old(fs)) ==> final(self).records(*final(fs)),
    {
        let ghost s = self.snapshot@;
        let ghost i = self.idx as int;
        let ghost before = self.remaining();
        let idx = self.idx;
        fs.files[idx] = SharedMemFile { size: a.size as u64, ptr: a.ptr, offset: self.offset as u64 };
        self.offset = self.offset + a.size;
        self.idx = self.idx + 1;
        self.copied = 0;
        proof {
            assert(self.remaining() =~= before.drop_first());
            assert forall|j: int| 0 <= j < self.idx implies !#[trigger] exceeds_storage(s, j) by {
                if j == i {
                }
            }
        }
        CheckpointAction::Recorded { idx }
    }
}

/// What step `step` of a checkpoint of `s` does to the metadata table: a recorded
/// allocation gets its entry, the header gets the count and the total, and no other
/// step touches the table.
pub open spec fn checkpoint_fs_effect(
    step: CheckpointStep,
    s: Seq<AllocationSnapshot>,
    before: SharedMemFs,
    after: SharedMemFs,
) -> bool {
    match step {
        CheckpointStep::Recorded { idx } => {
            &&& after.files@ == before.files@.update(idx as int, checkpoint_entry(s, idx as int))
            &&& after.file_num == before.file_num
            &&& after.tot_size == before.tot_size
        },
        CheckpointStep::Committed => {
            &&& after.files == before.files
            &&& after.file_num == s.len()
            &&& after.tot_size == checkpoint_total(s)
        },
        _ => after == before,
    }
}

/// Whether the metadata table `fs` holds the complete record of a checkpoint of
/// `s`: the count, the total, and the entry of every allocation.
pub open spec fn checkpoint_committed(s: Seq<AllocationSnapshot>, fs: SharedMemFs) -> bool {
    &&& fs.file_num == s.len()
    &&& fs.tot_size == checkpoint_total(s)
    &&& forall|i: int| 0 <= i < s.len() ==> #[trigger] fs.files@[i] == checkpoint_entry(s, i)
}

proof fn lemma_save_steps_unfold(s: Seq<AllocationSnapshot>, i: int, done: nat)
    requires
        0 <= i < s.len(),
        !(done == 0 && exceeds_storage(s, i)),
    ensures
        save_steps(s, i, done) == save_chunks(s[i].ptr, s[i].size as nat, layout_offset(s, i), done)
            + seq![CheckpointStep::Recorded { idx: i as usize }] + save_steps(s, i + 1, 0),
{
}

// ---------------------------------------------------------------------------
// Restore: bring every recorded file back to the device.
// ---------------------------------------------------------------------------

/// One step of a restore, as plain values.
#[derive(Clone, Copy, Debug, PartialEq, Eq, Structural)]
pub enum RestoreStep {
    /// Map fresh physical memory behind the device allocation at `ptr`.
    Remap { ptr: usize },
    /// Copy `len` bytes from checkpoint storage at `storage_offset`, through the
    /// staging buffer, to device address `device_ptr + device_offset`.
    Copy { storage_offset: usize, device_ptr: usize, device_offset: usize, len: usize },
    /// The restore is complete.
    Done,
    /// The metadata of file `idx` does not describe bytes inside checkpoint
    /// storage; the restore stops.
    Fail { idx: usize },
}

/// What a restore asks its driver to do next.
#[derive(Debug)]
pub enum RestoreAction {
    Remap { ptr: usize },
    CopyToDevice { storage_offset: usize, device_ptr: usize, device_offset: usize, len: usize },
    Done,
    Fail { idx: usize, error: Error },
}

impl RestoreAction {
    /// The action as a plain step.
    pub open spec fn step(self) -> RestoreStep {
        match self {
            RestoreAction::Remap { ptr } => RestoreStep::Remap { ptr },
            RestoreAction::CopyToDevice { storage_offset, device_ptr, device_offset, len } =>
                RestoreStep::Copy { storage_offset, device_ptr, device_offset, len },
            RestoreAction::Done => RestoreStep::Done,
            RestoreAction::Fail { idx, .. } => RestoreStep::Fail { idx },
        }
    }
}

/// Whether the bytes that entry `e` describes lie inside storage of `storage_len`
/// bytes.
pub open spec fn in_storage(e: SharedMemFile, storage_len: nat) -> bool {
    e.offset + e.size <= storage_len
}

/// The copies that bring bytes `[done, size)` from storage at `base` back to the
/// allocation at `ptr`, one staging buffer at a time.
pub open spec fn restore_chunks(ptr: usize, size: nat, base: int, done: nat) -> Seq<RestoreStep>
    decreases size - done,
{
    if done >= size {
        Seq::empty()
    } else {
        seq![
            RestoreStep::Copy {
                storage_offset: (base + done) as usize,
                device_ptr: ptr,
                device_offset: done as usize,
                len: chunk_len(size, done) as usize,
            },
        ] + restore_chunks(ptr, size, base, done + chunk_len(size, done))
    }
}

/// The steps that restore files `idx..` of the entries `e` from storage of
/// `storage_len` bytes.
pub open spec fn restore_steps(e: Seq<SharedMemFile>, storage_len: nat, idx: int) -> Seq<
    RestoreStep,
>
    decreases e.len() - idx,
{
    if idx < 0 || idx >= e.len() {
        seq![RestoreStep::Done]
    } else if !in_storage(e[idx], storage_len) {
        seq![RestoreStep::Fail { idx: idx as usize }]
    } else {
        seq![RestoreStep::Remap { ptr: e[idx].ptr }] + restore_chunks(
            e[idx].ptr,
            e[idx].size as nat,
            e[idx].offset as int,
            0,
        ) + restore_steps(e, storage_len, idx + 1)
    }
}

/// Every step of a restore of the entries `e` from storage of `storage_len` bytes.
pub open spec fn restore_trace(e: Seq<SharedMemFile>, storage_len: nat) -> Seq<RestoreStep> {
    restore_steps(e, storage_len, 0)
}

/// The message with which a restore refuses metadata that counts more files than
/// the table holds.
pub open spec fn too_many_files_text(n: nat) -> Seq<char> {
    "checkpoint metadata contains too many files: "@ + decimal(n)
}

/// The message with which `checkpoint_storage_len` refuses `tot_size`.
pub open spec fn storage_len_error_text(tot_size: u64) -> Seq<char> {
    if tot_size > usize::MAX {
        total_too_large_text(tot_size)
    } else {
        total_exceeds_text(tot_size as nat)
    }
}

/// The message with which `checkpoint_file_range` refuses file `idx`.
pub open spec fn file_range_error_text(idx: nat, offset: u64, size: u64, storage_len: nat) -> Seq<
    char,
> {
    if offset > usize::MAX {
        offset_too_large_text(idx, offset)
    } else if size > usize::MAX {
        size_too_large_text(idx, size)
    } else {
        range_out_of_bounds_text(idx, offset as nat, size as nat, storage_len)
    }
}

/// A restore in progress: it checks each recorded file and decides each step, and
/// its driver performs the remaps and copies that it asks for.
pub struct RestoreRun {
    files: Vec<SharedMemFile>,
    storage_len: usize,
    idx: usize,
    remapped: bool,
    offset: usize,
    size: usize,
    copied: usize,
    stopped: bool,
}

impl RestoreRun {
    /// The recorded entries being restored.
    pub closed spec fn files(self) -> Seq<SharedMemFile> {
        self.files@
    }

    /// The length of checkpoint storage that the entries are checked against.
    pub closed spec fn storage_len(self) -> nat {
        self.storage_len as nat
    }

    /// The steps still to come.
    pub closed spec fn remaining(self) -> Seq<RestoreStep> {
        let e = self.files@;
        if self.stopped {
            Seq::empty()
        } else if !self.remapped {
            restore_steps(e, self.storage_len as nat, self.idx as int)
        } else {
            restore_chunks(
                e[self.idx as int].ptr,
                e[self.idx as int].size as nat,
                e[self.idx as int].offset as int,
                self.copied as nat,
            ) + restore_steps(e, self.storage_len as nat, self.idx + 1)
        }
    }

    /// The run's internal bookkeeping is consistent.
    pub closed spec fn wf(self) -> bool {
        let e = self.files@;
        &&& e.len() <= MAX_FILE_NUM
        &&& self.idx <= e.len()
        &&& self.remapped ==> {
            &&& self.idx < e.len()
            &&& in_storage(e[self.idx as int], self.storage_len as nat)
            &&& self.offset == e[self.idx as int].offset
            &&& self.size == e[self.idx as int].size
            &&& self.copied <= self.size
        }
        &&& !self.remapped ==> self.copied == 0
    }

    /// Starts a restore from the metadata table `fs`, after checking its header.
    pub fn start(fs: &SharedMemFs) -> (r: Result<RestoreRun, Error>)
        ensures
            r is Ok <==> (fs.file_num as usize) <= MAX_FILE_NUM && fs.tot_size <= SHM_SIZE,
            r matches Ok(run) ==> {
                &&& run.wf()
                &&& run.files() == fs.files@.take(fs.file_num as usize as int)
                &&& run.storage_len() == fs.tot_size
                &&& run.remaining() == restore_trace(
                    fs.files@.take(fs.file_num as usize as int),
                    fs.tot_size as nat,
                )
            },
            r matches Err(e) ==> e is Protocol && e->Protocol_0@ == if (fs.file_num as usize)
                > MAX_FILE_NUM {
                too_many_files_text(fs.file_num as usize as nat)
            } else {
                storage_len_error_text(fs.tot_size)
            },
    {
        let file_num = fs.file_num as usize;
        if file_num > MAX_FILE_NUM {
            let mut m = String::from_str("checkpoint metadata contains too many files: ");
            append_decimal(&mut m, file_num as u64);
            return Err(Error::Protocol(m));
        }
        let storage_len = match checkpoint_storage_len(fs.tot_size) {
            Ok(len) => len,
            Err(e) => {
                return Err(e);
            },
        };
        let mut files: Vec<SharedMemFile> = Vec::new();
        let mut i: usize = 0;
        while i < file_num
            invariant
                0 <= i <= file_num <= MAX_FILE_NUM,
                files@ == fs.files@.take(i as int),
            decreases file_num - i,
        {
            files.push(fs.files[i]);
            i = i + 1;
            assert(files@ =~= fs.files@.take(i as int));
        }
        Ok(
            RestoreRun {
                files,
                storage_len,
                idx: 0,
                remapped: false,
                offset: 0,
                size: 0,
                copied: 0,
                stopped: false,
            },
        )
    }

    /// Whether the run has no step left.
    pub fn is_finished(&self) -> (b: bool)
        requires
            self.wf(),
        ensures
            b == (self.remaining().len() == 0),
    {
        proof {
            if !self.stopped && !self.remapped {
                assert(restore_steps(self.files@, self.storage_len as nat, self.idx as int).len()
                    > 0);
            }
            if !self.stopped && self.remapped {
                assert(restore_steps(self.files@, self.storage_len as nat, self.idx + 1).len() > 0);
            }
        }
        self.stopped
    }

    /// Takes the next step: checks and decides it, and says what the driver must do.
    pub fn next(&mut self) -> (r: RestoreAction)
        requires
            old(self).wf(),
            old(self).remaining().len() > 0,
        ensures
            final(self).wf(),
            final(self).files() == old(self).files(),
            final(self).storage_len() == old(self).storage_len(),
            r.step() == old(self).remaining()[0],
            final(self).remaining() == old(self).remaining().drop_first(),
            r matches RestoreAction::Fail { idx, error } ==> error is Protocol
                && error->Protocol_0@ == file_range_error_text(
                idx as nat,
                old(self).files()[idx as int].offset,
                old(self).files()[idx as int].size,
                old(self).storage_len(),
            ),
    {
        if self.stopped {
            return RestoreAction::Done;
        }
        if self.remapped {
            if self.copied < self.size {
                return self.restore_chunk();
            }
            let ghost before = self.remaining();
            self.idx = self.idx + 1;
            self.remapped = false;
            self.copied = 0;
            assert(self.remaining() =~= before);
        }
        self.begin_file()
    }

    fn restore_chunk(&mut self) -> (r: RestoreAction)
        requires
            old(self).wf(),
            !old(self).stopped,
            old(self).remapped,
            old(self).copied < old(self).size,
        ensures
            final(self).wf(),
            final(self).files() == old(self).files(),
            final(self).storage_len() == old(self).storage_len(),
            r.step() == old(self).remaining()[0],
            final(self).remaining() == old(self).remaining().drop_first(),
            r is CopyToDevice,
    {
        let ghost e = self.files@;
        let ghost i = self.idx as int;
        let ghost before = self.remaining();
        let ghost rest = restore_steps(e, self.storage_len as nat, i + 1);
        let ptr = self.files[self.idx].ptr;
        let len = staging_chunk(self.size, self.copied);
        let act = RestoreAction::CopyToDevice {
            storage_offset: self.offset + self.copied,
            device_ptr: ptr,
            device_offset: self.copied,
            len,
        };
        let ghost done = self.copied as nat;
        self.copied = self.copied + len;
        proof {
            let chunks = restore_chunks(ptr, self.size as nat, self.offset as int, done);
            let later = restore_chunks(ptr, self.size as nat, self.offset as int, self.copied as nat);
            assert(chunks =~= seq![act.step()] + later);
            assert(before =~= seq![act.step()] + (later + rest));
            assert(self.remaining() =~= later + rest);
        }
        act
    }

    fn begin_file(&mut self) -> (r: RestoreAction)
        requires
            old(self).wf(),
            !old(self).stopped,
            !old(self).remapped,
        ensures
            final(self).wf(),
            final(self).files() == old(self).files(),
            final(self).storage_len() == old(self).storage_len(),
            r.step() == old(self).remaining()[0],
            final(self).remaining() == old(self).remaining().drop_first(),
            r matches RestoreAction::Fail { idx, error } ==> error is Protocol
                && error->Protocol_0@ == file_range_error_text(
                idx as nat,
                old(self).files()[idx as int].offset,
                old(self).files()[idx as int].size,
                old(self).storage_len(),
            ),
    {
        let ghost e = self.files@;
        let ghost before = self.remaining();
        if self.idx >= self.files.len() {
            self.stopped = true;
            assert(before =~= seq![RestoreStep::Done]);
            return RestoreAction::Done;
        }
        let file = self.files[self.idx];
        match checkpoint_file_range(self.idx, file.offset, file.size, self.storage_len) {
            Err(error) => {
                let idx = self.idx;
                self.stopped = true;
                assert(before =~= seq![RestoreStep::Fail { idx }]);
                RestoreAction::Fail { idx, error }
            },
            Ok((offset, size)) => {
                self.remapped = true;
                self.offset = offset;
                self.size = size;
                self.copied = 0;
                proof {
                    assert(before =~= seq![RestoreStep::Remap { ptr: file.ptr }]
                        + self.remaining());
                }
                RestoreAction::Remap { ptr: file.ptr }
            },
        }
    }
}

// ---------------------------------------------------------------------------
// A checkpoint is restored as it was saved.
// ---------------------------------------------------------------------------

/// The restore counterpart of a checkpoint copy: the same bytes, moved back.
pub open spec fn mirror(step: CheckpointStep) -> RestoreStep {
    match step {
        CheckpointStep::Copy { device_ptr, device_offset, storage_offset, len } =>
            RestoreStep::Copy { storage_offset, device_ptr, device_offset, len },
        _ => RestoreStep::Done,
    }
}

/// What restoring allocations `i..` of a checkpoint of `s` should do: remap each
/// one, then move back every chunk that the checkpoint saved from it, in order.
pub open spec fn restored_allocations(s: Seq<AllocationSnapshot>, i: int) -> Seq<RestoreStep>
    decreases s.len() - i,
{
    if i < 0 || i >= s.len() {
        seq![RestoreStep::Done]
    } else {
        seq![RestoreStep::Remap { ptr: s[i].ptr }] + save_chunks(
            s[i].ptr,
            s[i].size as nat,
            layout_offset(s, i),
            0,
        ).map_values(|step: CheckpointStep| mirror(step)) + restored_allocations(s, i + 1)
    }
}

proof fn lemma_layout_monotone(s: Seq<AllocationSnapshot>, i: int, j: int)
    requires
        0 <= i <= j <= s.len(),
    ensures
        0 <= layout_offset(s, i) <= layout_offset(s, j),
    decreases j,
{
    if i < j {
        lemma_layout_monotone(s, i, j - 1);
    } else if i > 0 {
        lemma_layout_monotone(s, i - 1, i - 1);
    }
}

proof fn lemma_chunks_mirror(ptr: usize, size: nat, base: int, done: nat)
    ensures
        restore_chunks(ptr, size, base, done) == save_chunks(ptr, size, base, done).map_values(
            |step: CheckpointStep| mirror(step),
        ),
    decreases size - done,
{
    if done < size {
        lemma_chunks_mirror(ptr, size, base, done + chunk_len(size, done));
        let saved = save_chunks(ptr, size, base, done);
        let later = save_chunks(ptr, size, base, done + chunk_len(size, done));
        assert(saved.map_values(|step: CheckpointStep| mirror(step)) =~= seq![
            mirror(saved[0]),
        ] + later.map_values(|step: CheckpointStep| mirror(step)));
    } else {
        assert(save_chunks(ptr, size, base, done).map_values(|step: CheckpointStep| mirror(step))
            =~= Seq::<RestoreStep>::empty());
    }
}

proof fn lemma_restore_steps_of_checkpoint(s: Seq<AllocationSnapshot>, i: int)
    requires
        0 <= i <= s.len(),
        !checkpoint_fails(s),
        checkpoint_total(s) <= SHM_SIZE,
    ensures
        restore_steps(checkpoint_entries(s), checkpoint_total(s) as nat, i)
            == restored_allocations(s, i),
    decreases s.len() - i,
{
    if i < s.len() {
        lemma_restore_steps_of_checkpoint(s, i + 1);
        lemma_layout_monotone(s, i, i + 1);
        lemma_layout_monotone(s, i + 1, s.len() as int);
        let e = checkpoint_entries(s);
        assert(e[i].offset as int == layout_offset(s, i));
        assert(in_storage(e[i], checkpoint_total(s) as nat));
        lemma_chunks_mirror(s[i].ptr, s[i].size as nat, layout_offset(s, i), 0);
    }
}

/// A checkpoint that does not stop for want of storage records metadata that a
/// restore accepts in full: the total fits the storage, and the restore remaps every
/// allocation and moves back exactly the chunks the checkpoint saved from it, in
/// the same order, before it is done.
pub proof fn lemma_checkpoint_then_restore(s: Seq<AllocationSnapshot>)
    requires
        !checkpoint_fails(s),
    ensures
        0 <= checkpoint_total(s) <= SHM_SIZE,
        checkpoint_entries(s).len() == s.len(),
        restore_trace(checkpoint_entries(s), checkpoint_total(s) as nat) == restored_allocations(
            s,
            0,
        ),
{
    if s.len() > 0 {
        let last = s.len() - 1;
        assert(!exceeds_storage(s, last));
        lemma_layout_monotone(s, 0, s.len() as int);
    }
    lemma_restore_steps_of_checkpoint(s, 0);
}

// ---------------------------------------------------------------------------
// Control messages from the client.
// ---------------------------------------------------------------------------

/// The operations that a client can request of the checkpointed process.
#[derive(Clone, Copy, Debug, PartialEq, Eq, Structural)]
pub enum ControlRequest {
    Init,
    Checkpoint,
    Restore,
}

/// The message with which the process refuses a message it does not know.
pub open spec fn unexpected_message_text(msg: i32) -> Seq<char> {
    "unexpected control message "@ + signed_decimal(msg as int)
}

/// The message with which the process refuses to checkpoint or restore before it
/// was initialised.
pub open spec fn not_initialized_text() -> Seq<char> {
    "checkpoint backend is not initialized"@
}

/// What the control message `msg` asks for, given whether checkpoint storage is
/// set up: initialisation always, a checkpoint or a restore only once storage is
/// set up, and nothing for an unknown message.
pub fn control_request(msg: i32, backend_ready: bool) -> (r: Result<ControlRequest, Error>)
    ensures
        msg == INIT_MSG ==> r == Ok::<ControlRequest, Error>(ControlRequest::Init),
        (msg == CKPT_MSG || msg == RESTORE_MSG) && backend_ready ==> r == Ok::<
            ControlRequest,
            Error,
        >(if msg == CKPT_MSG {
            ControlRequest::Checkpoint
        } else {
            ControlRequest::Restore
        }),
        (msg == CKPT_MSG || msg == RESTORE_MSG) && !backend_ready ==> (r matches Err(e)
            && e is Protocol && e->Protocol_0@ == not_initialized_text()),
        msg != INIT_MSG && msg != CKPT_MSG && msg != RESTORE_MSG ==> (r matches Err(e)
            && e is Protocol && e->Protocol_0@ == unexpected_message_text(msg)),
{
    if msg == INIT_MSG {
        Ok(ControlRequest::Init)
    } else if msg == CKPT_MSG || msg == RESTORE_MSG {
        if !backend_ready {
            return Err(Error::Protocol(String::from_str("checkpoint backend is not initialized")));
        }
        if msg == CKPT_MSG {
            Ok(ControlRequest::Checkpoint)
        } else {
            Ok(ControlRequest::Restore)
        }
    } else {
        let mut m = String::from_str("unexpected control message ");
        append_signed_decimal(&mut m, msg as i64);
        Err(Error::Protocol(m))
    }
}

/// The metadata that a checkpoint of `s` records lays the allocations out one after
/// the other from offset 0, each entry starting where the previous one ends and the
/// last one ending at the total.
pub proof fn lemma_checkpoint_layout_contiguous(s: Seq<AllocationSnapshot>)
    requires
        !checkpoint_fails(s),
    ensures
        s.len() > 0 ==> checkpoint_entry(s, 0).offset == 0,
        forall|i: int|
            0 <= i < s.len() - 1 ==> #[trigger] checkpoint_entry(s, i + 1).offset
                == checkpoint_entry(s, i).offset + checkpoint_entry(s, i).size,
        s.len() > 0 ==> checkpoint_entry(s, s.len() - 1).offset + checkpoint_entry(
            s,
            s.len() - 1,
        ).size == checkpoint_total(s),
{
    lemma_checkpoint_then_restore(s);
    assert forall|i: int| 0 <= i < s.len() - 1 implies #[trigger] checkpoint_entry(s, i + 1).offset
        == checkpoint_entry(s, i).offset + checkpoint_entry(s, i).size by {
        lemma_layout_monotone(s, i, i + 1);
        lemma_layout_monotone(s, i + 1, s.len() as int);
    }
    if s.len() > 0 {
        lemma_layout_monotone(s, s.len() - 1, s.len() as int);
    }
}

proof fn lemma_release_steps_contain(s: Seq<AllocationSnapshot>, j: int, i: int)
    requires
        0 <= j <= i < s.len(),
    ensures
        release_steps(s, j).contains(CheckpointStep::Release { ptr: s[i].ptr }),
    decreases i - j,
{
    let steps = release_steps(s, j);
    if j == i {
        assert(steps[0] == CheckpointStep::Release { ptr: s[i].ptr });
    } else {
        lemma_release_steps_contain(s, j + 1, i);
        let later = release_steps(s, j + 1);
        let k = choose|k: int| 0 <= k < later.len() && later[k] == CheckpointStep::Release {
            ptr: s[i].ptr,
        };
        assert(steps[k + 1] == later[k]);
    }
}

/// A checkpoint that does not stop for want of storage releases the physical
/// memory of every allocation it saved, and then it is done.
pub proof fn lemma_checkpoint_releases_every_allocation(s: Seq<AllocationSnapshot>)
    requires
        !checkpoint_fails(s),
    ensures
        forall|i: int|
            0 <= i < s.len() ==> checkpoint_trace(s).contains(
                CheckpointStep::Release { ptr: #[trigger] s[i].ptr },
            ),
        checkpoint_trace(s).last() == CheckpointStep::Done,
{
    let trace = checkpoint_trace(s);
    let head = save_steps(s, 0, 0) + seq![CheckpointStep::Committed];
    assert(trace =~= head + release_steps(s, 0) + seq![CheckpointStep::Done]);
    assert forall|i: int| 0 <= i < s.len() implies trace.contains(
        CheckpointStep::Release { ptr: #[trigger] s[i].ptr },
    ) by {
        lemma_release_steps_contain(s, 0, i);
        let rel = release_steps(s, 0);
        let k = choose|k: int| 0 <= k < rel.len() && rel[k] == CheckpointStep::Release {
            ptr: s[i].ptr,
        };
        assert(trace[head.len() + k] == rel[k]);
    }
}

} // verus!
