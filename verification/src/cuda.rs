use vstd::prelude::*;
use vstd::string::*;

use crate::text::{append_hex_alternate, hex_alternate};
use crate::Error;

verus! {

/// Direction of a copy between host and device memory.
#[derive(Clone, Copy, Debug, PartialEq, Eq, Structural)]
pub enum CudaMemcpyKind {
    HostToDevice,
    DeviceToHost,
}

impl CudaMemcpyKind {
    /// The value of `cudaMemcpyKind` that the runtime API expects.
    pub fn code(&self) -> (r: i32)
        ensures
            r == match self {
                CudaMemcpyKind::HostToDevice => 1i32,
                CudaMemcpyKind::DeviceToHost => 2i32,
            },
    {
        match self {
            CudaMemcpyKind::HostToDevice => 1,
            CudaMemcpyKind::DeviceToHost => 2,
        }
    }
}

/// A tracked device allocation as the checkpoint sees it: its address and the size
/// that the application asked for.
#[derive(Clone, Copy, Debug, PartialEq, Eq, Structural)]
pub struct AllocationSnapshot {
    pub ptr: usize,
    pub size: usize,
}


/// What the library remembers of one device allocation: the size asked for, the
/// size that was reserved (rounded up to 2 MiB), and the handle of the physical
/// memory behind it while it is mapped.
#[derive(Clone, Copy, Debug, PartialEq, Eq, Structural)]
pub struct Allocation {
    pub size: usize,
    pub aligned_size: usize,
    pub handle: Option<u64>,
}

#[derive(Clone, Copy)]
struct Entry {
    ptr: usize,
    allocation: Allocation,
}

/// The device allocations that the library tracks, keyed by device address and
/// kept in address order.
pub struct AllocationTable {
    entries: Vec<Entry>,
}

spec fn sorted(e: Seq<Entry>) -> bool {
    forall|i: int, j: int| 0 <= i < j < e.len() ==> #[trigger] e[i].ptr < #[trigger] e[j].ptr
}

spec fn has_key(e: Seq<Entry>, p: usize) -> bool {
    exists|k: int| 0 <= k < e.len() && #[trigger] e[k].ptr == p
}

spec fn find(e: Seq<Entry>, p: usize) -> int {
    choose|k: int| 0 <= k < e.len() && #[trigger] e[k].ptr == p
}

spec fn entries_view(e: Seq<Entry>) -> Map<usize, Allocation> {
    Map::new(|p: usize| has_key(e, p), |p: usize| e[find(e, p)].allocation)
}

proof fn lemma_entry_in_view(e: Seq<Entry>, k: int)
    requires
        sorted(e),
        0 <= k < e.len(),
    ensures
        entries_view(e).contains_key(e[k].ptr),
        entries_view(e)[e[k].ptr] == e[k].allocation,
{
    let p = e[k].ptr;
    assert(has_key(e, p));
    let j = find(e, p);
    assert(0 <= j < e.len() && e[j].ptr == p);
    if j < k {
        assert(e[j].ptr < e[k].ptr);
    } else if j > k {
        assert(e[k].ptr < e[j].ptr);
    }
}

proof fn lemma_view_insert(e: Seq<Entry>, idx: int, x: Entry)
    requires
        sorted(e),
        0 <= idx <= e.len(),
        forall|k: int| 0 <= k < idx ==> #[trigger] e[k].ptr < x.ptr,
        forall|k: int| idx <= k < e.len() ==> x.ptr < #[trigger] e[k].ptr,
    ensures
        sorted(e.insert(idx, x)),
        entries_view(e.insert(idx, x)) == entries_view(e).insert(x.ptr, x.allocation),
{
    let n = e.insert(idx, x);
    assert(sorted(n)) by {
        assert forall|i: int, j: int| 0 <= i < j < n.len() implies #[trigger] n[i].ptr
            < #[trigger] n[j].ptr by {
            if j < idx {
            } else if i < idx && j == idx {
            } else if i < idx {
                assert(n[j] == e[j - 1]);
            } else if i == idx {
                assert(n[j] == e[j - 1]);
            } else {
                assert(n[i] == e[i - 1]);
                assert(n[j] == e[j - 1]);
            }
        }
    }
    let lhs = entries_view(n);
    let rhs = entries_view(e).insert(x.ptr, x.allocation);
    assert forall|p: usize| lhs.contains_key(p) == rhs.contains_key(p) by {
        if has_key(n, p) {
            let k = choose|k: int| 0 <= k < n.len() && #[trigger] n[k].ptr == p;
            if k < idx {
                assert(e[k].ptr == p);
            } else if k > idx {
                assert(e[k - 1].ptr == p);
            }
        }
        if has_key(e, p) {
            let k = choose|k: int| 0 <= k < e.len() && #[trigger] e[k].ptr == p;
            if k < idx {
                assert(n[k].ptr == p);
            } else {
                assert(n[k + 1].ptr == p);
            }
        }
        if p == x.ptr {
            assert(n[idx].ptr == p);
        }
    }
    assert forall|p: usize| #[trigger] lhs.contains_key(p) implies lhs[p] == rhs[p] by {
        let k = choose|k: int| 0 <= k < n.len() && #[trigger] n[k].ptr == p;
        lemma_entry_in_view(n, k);
        if k < idx {
            lemma_entry_in_view(e, k);
        } else if k > idx {
            assert(n[k] == e[k - 1]);
            lemma_entry_in_view(e, k - 1);
        }
    }
    assert(lhs =~= rhs);
}

proof fn lemma_view_remove(e: Seq<Entry>, idx: int)
    requires
        sorted(e),
        0 <= idx < e.len(),
    ensures
        sorted(e.remove(idx)),
        entries_view(e.remove(idx)) == entries_view(e).remove(e[idx].ptr),
{
    let n = e.remove(idx);
    let x = e[idx];
    assert(sorted(n)) by {
        assert forall|i: int, j: int| 0 <= i < j < n.len() implies #[trigger] n[i].ptr
            < #[trigger] n[j].ptr by {
            if j < idx {
            } else if i < idx {
                assert(n[j] == e[j + 1]);
            } else {
                assert(n[i] == e[i + 1]);
                assert(n[j] == e[j + 1]);
            }
        }
    }
    let lhs = entries_view(n);
    let rhs = entries_view(e).remove(x.ptr);
    assert forall|p: usize| lhs.contains_key(p) == rhs.contains_key(p) by {
        if has_key(n, p) {
            let k = choose|k: int| 0 <= k < n.len() && #[trigger] n[k].ptr == p;
            if k < idx {
                assert(e[k].ptr == p);
                assert(e[k].ptr < x.ptr);
            } else {
                assert(e[k + 1].ptr == p);
                assert(x.ptr < e[k + 1].ptr);
            }
        }
        if has_key(e, p) && p != x.ptr {
            let k = choose|k: int| 0 <= k < e.len() && #[trigger] e[k].ptr == p;
            if k < idx {
                assert(n[k].ptr == p);
            } else {
                assert(k != idx);
                assert(n[k - 1].ptr == p);
            }
        }
    }
    assert forall|p: usize| #[trigger] lhs.contains_key(p) implies lhs[p] == rhs[p] by {
        let k = choose|k: int| 0 <= k < n.len() && #[trigger] n[k].ptr == p;
        lemma_entry_in_view(n, k);
        if k < idx {
            lemma_entry_in_view(e, k);
        } else {
            assert(n[k] == e[k + 1]);
            lemma_entry_in_view(e, k + 1);
        }
    }
    assert(lhs =~= rhs);
}

proof fn lemma_view_update(e: Seq<Entry>, idx: int, a: Allocation)
    requires
        sorted(e),
        0 <= idx < e.len(),
    ensures
        sorted(e.update(idx, Entry { ptr: e[idx].ptr, allocation: a })),
        entries_view(e.update(idx, Entry { ptr: e[idx].ptr, allocation: a })) == entries_view(
            e,
        ).insert(e[idx].ptr, a),
{
    let x = Entry { ptr: e[idx].ptr, allocation: a };
    let n = e.update(idx, x);
    assert(sorted(n)) by {
        assert forall|i: int, j: int| 0 <= i < j < n.len() implies #[trigger] n[i].ptr
            < #[trigger] n[j].ptr by {
            assert(n[i].ptr == e[i].ptr);
            assert(n[j].ptr == e[j].ptr);
        }
    }
    let lhs = entries_view(n);
    let rhs = entries_view(e).insert(x.ptr, a);
    assert forall|p: usize| lhs.contains_key(p) == rhs.contains_key(p) by {
        if has_key(n, p) {
            let k = choose|k: int| 0 <= k < n.len() && #[trigger] n[k].ptr == p;
            assert(e[k].ptr == p);
        }
        if has_key(e, p) {
            let k = choose|k: int| 0 <= k < e.len() && #[trigger] e[k].ptr == p;
            assert(n[k].ptr == p);
        }
        if p == x.ptr {
            assert(n[idx].ptr == p);
        }
    }
    assert forall|p: usize| #[trigger] lhs.contains_key(p) implies lhs[p] == rhs[p] by {
        let k = choose|k: int| 0 <= k < n.len() && #[trigger] n[k].ptr == p;
        lemma_entry_in_view(n, k);
        if k != idx {
            lemma_entry_in_view(e, k);
            assert(e[k].ptr != e[idx].ptr) by {
                if k < idx {
                    assert(e[k].ptr < e[idx].ptr);
                } else {
                    assert(e[idx].ptr < e[k].ptr);
                }
            }
        }
    }
    assert(lhs =~= rhs);
}

impl AllocationTable {
    /// The tracked allocations by device address.
    pub closed spec fn view(&self) -> Map<usize, Allocation> {
        entries_view(self.entries@)
    }

    /// The entries are kept strictly in address order.
    pub closed spec fn wf(&self) -> bool {
        sorted(self.entries@)
    }

    /// A table that tracks nothing.
    pub fn new() -> (r: Self)
        ensures
            r.wf(),
            r@ == Map::<usize, Allocation>::empty(),
    {
        let r = AllocationTable { entries: Vec::new() };
        assert(r@ =~= Map::<usize, Allocation>::empty());
        r
    }

    /// The first position whose address is not below `ptr`.
    fn lower_bound(&self, ptr: usize) -> (r: usize)
        requires
            self.wf(),
        ensures
            r <= self.entries@.len(),
            forall|k: int| 0 <= k < r ==> #[trigger] self.entries@[k].ptr < ptr,
            forall|k: int| r <= k < self.entries@.len() ==> ptr <= #[trigger] self.entries@[k].ptr,
    {
        let mut lo: usize = 0;
        let mut hi: usize = self.entries.len();
        while lo < hi
            invariant
                self.wf(),
                0 <= lo <= hi <= self.entries@.len(),
                forall|k: int| 0 <= k < lo ==> #[trigger] self.entries@[k].ptr < ptr,
                forall|k: int| hi <= k < self.entries@.len() ==> ptr <= #[trigger] self.entries@[k].ptr,
            decreases hi - lo,
        {
            let mid = lo + (hi - lo) / 2;
            if self.entries[mid].ptr < ptr {
                lo = mid + 1;
            } else {
                hi = mid;
            }
        }
        lo
    }

    /// Where `ptr` is kept, if it is tracked.
    fn position(&self, ptr: usize) -> (r: Option<usize>)
        requires
            self.wf(),
        ensures
            r is Some <==> self@.contains_key(ptr),
            r matches Some(k) ==> k < self.entries@.len() && self.entries@[k as int].ptr == ptr,
    {
        let k = self.lower_bound(ptr);
        if k < self.entries.len() && self.entries[k].ptr == ptr {
            proof {
                lemma_entry_in_view(self.entries@, k as int);
            }
            Some(k)
        } else {
            proof {
                if has_key(self.entries@, ptr) {
                    let j = choose|j: int| 0 <= j < self.entries@.len() && #[trigger] self.entries@[j].ptr == ptr;
                    if j < k {
                    } else {
                        assert(j != k);
                        assert(self.entries@[k as int].ptr < self.entries@[j].ptr);
                    }
                }
            }
            None
        }
    }

    /// Whether `ptr` is tracked.
    pub fn contains(&self, ptr: usize) -> (r: bool)
        requires
            self.wf(),
        ensures
            r == self@.contains_key(ptr),
    {
        self.position(ptr).is_some()
    }

    /// What is remembered of the allocation at `ptr`, if it is tracked.
    pub fn get(&self, ptr: usize) -> (r: Option<Allocation>)
        requires
            self.wf(),
        ensures
            r is Some <==> self@.contains_key(ptr),
            r matches Some(a) ==> a == self@[ptr],
    {
        match self.position(ptr) {
            Some(k) => {
                proof {
                    lemma_entry_in_view(self.entries@, k as int);
                }
                Some(self.entries[k].allocation)
            },
            None => None,
        }
    }

    /// Tracks `allocation` at `ptr`, replacing what was tracked there.
    pub fn insert(&mut self, ptr: usize, allocation: Allocation)
        requires
            old(self).wf(),
        ensures
            final(self).wf(),
            final(self)@ == old(self)@.insert(ptr, allocation),
    {
        let k = self.lower_bound(ptr);
        if k < self.entries.len() && self.entries[k].ptr == ptr {
            proof {
                lemma_view_update(self.entries@, k as int, allocation);
            }
            self.entries.set(k, Entry { ptr, allocation });
        } else {
            let x = Entry { ptr, allocation };
            proof {
                assert forall|j: int| k <= j < self.entries@.len() implies ptr
                    < #[trigger] self.entries@[j].ptr by {
                    if j > k {
                        assert(self.entries@[k as int].ptr < self.entries@[j].ptr);
                    }
                }
                lemma_view_insert(self.entries@, k as int, x);
            }
            self.entries.insert(k, x);
        }
    }

    /// Stops tracking `ptr` and hands back what was remembered of it.
    pub fn remove(&mut self, ptr: usize) -> (r: Option<Allocation>)
        requires
            old(self).wf(),
        ensures
            final(self).wf(),
            r is Some <==> old(self)@.contains_key(ptr),
            r matches Some(a) ==> a == old(self)@[ptr],
            final(self)@ == old(self)@.remove(ptr),
    {
        match self.position(ptr) {
            Some(k) => {
                proof {
                    lemma_entry_in_view(self.entries@, k as int);
                    lemma_view_remove(self.entries@, k as int);
                }
                let e = self.entries.remove(k);
                Some(e.allocation)
            },
            None => {
                assert(old(self)@.remove(ptr) =~= old(self)@);
                None
            },
        }
    }

    /// The tracked allocations as (address, requested size), in address order.
    pub fn snapshot(&self) -> (r: Vec<AllocationSnapshot>)
        requires
            self.wf(),
        ensures
            forall|i: int, j: int| 0 <= i < j < r@.len() ==> #[trigger] r@[i].ptr < #[trigger] r@[j].ptr,
            forall|k: int| 0 <= k < r@.len() ==> #[trigger] self@.contains_key(r@[k].ptr)
                && self@[r@[k].ptr].size == r@[k].size,
            forall|p: usize| #[trigger] self@.contains_key(p) ==> exists|k: int| 0 <= k < r@.len() && #[trigger] r@[k].ptr == p,
    {
        let mut r: Vec<AllocationSnapshot> = Vec::new();
        let mut i: usize = 0;
        while i < self.entries.len()
            invariant
                self.wf(),
                0 <= i <= self.entries@.len(),
                r@.len() == i,
                forall|k: int|
                    0 <= k < i ==> #[trigger] r@[k].ptr == self.entries@[k].ptr && r@[k].size
                        == self.entries@[k].allocation.size,
            decreases self.entries@.len() - i,
        {
            let e = self.entries[i];
            r.push(AllocationSnapshot { ptr: e.ptr, size: e.allocation.size });
            i = i + 1;
        }
        proof {
            assert forall|k: int| 0 <= k < r@.len() implies #[trigger] self@.contains_key(r@[k].ptr)
                && self@[r@[k].ptr].size == r@[k].size by {
                lemma_entry_in_view(self.entries@, k);
            }
            assert forall|p: usize| #[trigger] self@.contains_key(p) implies exists|k: int| 0 <= k < r@.len() && #[trigger] r@[k].ptr == p by {
                let k = find(self.entries@, p);
                assert(r@[k].ptr == p);
            }
        }
        r
    }
}


impl AllocationTable {
    /// Replaces the physical-memory handle of the tracked allocation at `ptr`.
    pub fn set_handle(&mut self, ptr: usize, handle: Option<u64>)
        requires
            old(self).wf(),
            old(self)@.contains_key(ptr),
        ensures
            final(self).wf(),
            final(self)@ == old(self)@.insert(
                ptr,
                Allocation { handle, ..old(self)@[ptr] },
            ),
    {
        let a = self.get(ptr).unwrap();
        self.insert(ptr, Allocation { size: a.size, aligned_size: a.aligned_size, handle });
    }
}

/// The library's CUDA state: whether a context is set up, which one and on which
/// device, and the tracked allocations.
pub struct CudaState {
    pub initialized: bool,
    pub context: usize,
    pub device: i32,
    pub allocations: AllocationTable,
}

impl CudaState {
    /// The allocation table is well formed.
    pub open spec fn wf(&self) -> bool {
        self.allocations.wf()
    }
}

impl Default for CudaState {
    fn default() -> (r: Self)
        ensures
            r.wf(),
            !r.initialized,
            r.context == 0,
            r.device == 0,
            r.allocations@ == Map::<usize, Allocation>::empty(),
    {
        CudaState { initialized: false, context: 0, device: 0, allocations: AllocationTable::new() }
    }
}

/// The tracked allocations as (address, requested size), in address order.
pub fn memory_snapshot(state: &CudaState) -> (r: Vec<AllocationSnapshot>)
    requires
        state.wf(),
    ensures
        forall|i: int, j: int| 0 <= i < j < r@.len() ==> #[trigger] r@[i].ptr < #[trigger] r@[j].ptr,
        forall|k: int|
            0 <= k < r@.len() ==> #[trigger] state.allocations@.contains_key(r@[k].ptr)
                && state.allocations@[r@[k].ptr].size == r@[k].size,
        forall|p: usize| #[trigger]
            state.allocations@.contains_key(p) ==> exists|k: int|
                0 <= k < r@.len() && #[trigger] r@[k].ptr == p,
{
    state.allocations.snapshot()
}

/// The message for an address that the library does not track, with the verb of
/// the operation that was refused.
pub open spec fn unknown_allocation_text(prefix: Seq<char>, ptr: usize) -> Seq<char> {
    prefix + hex_alternate(ptr as nat)
}

fn unknown_allocation(prefix: &str, ptr: usize) -> (r: Error)
    ensures
        r is Protocol,
        r->Protocol_0@ == unknown_allocation_text(prefix@, ptr),
{
    let mut m = String::from_str(prefix);
    append_hex_alternate(&mut m, ptr as u64);
    Error::Protocol(m)
}

/// Stops tracking the allocation at `ptr` so that it can be freed, and hands back
/// what was remembered of it.
pub fn untrack_allocation(state: &mut CudaState, ptr: usize) -> (r: Result<Allocation, Error>)
    requires
        old(state).wf(),
    ensures
        final(state).wf(),
        final(state).initialized == old(state).initialized,
        final(state).context == old(state).context,
        final(state).device == old(state).device,
        final(state).allocations@ == old(state).allocations@.remove(ptr),
        r is Ok <==> old(state).allocations@.contains_key(ptr),
        r matches Ok(a) ==> a == old(state).allocations@[ptr],
        r matches Err(e) ==> e is Protocol && e->Protocol_0@ == unknown_allocation_text(
            "cannot free untracked allocation "@,
            ptr,
        ),
{
    match state.allocations.remove(ptr) {
        Some(a) => Ok(a),
        None => Err(unknown_allocation("cannot free untracked allocation ", ptr)),
    }
}

/// Detaches the physical memory from the allocation at `ptr` ahead of releasing
/// it: hands back its handle and reserved size, or nothing when it has none.
pub fn take_physical(state: &mut CudaState, ptr: usize) -> (r: Result<Option<(u64, usize)>, Error>)
    requires
        old(state).wf(),
    ensures
        final(state).wf(),
        final(state).initialized == old(state).initialized,
        final(state).context == old(state).context,
        final(state).device == old(state).device,
        r is Ok <==> old(state).allocations@.contains_key(ptr),
        r matches Err(e) ==> e is Protocol && e->Protocol_0@ == unknown_allocation_text(
            "cannot release unknown allocation "@,
            ptr,
        ) && final(state).allocations@ == old(state).allocations@,
        r matches Ok(None) ==> old(state).allocations@[ptr].handle is None
            && final(state).allocations@ == old(state).allocations@,
        r matches Ok(Some((h, aligned))) ==> old(state).allocations@[ptr].handle == Some(h)
            && aligned == old(state).allocations@[ptr].aligned_size
            && final(state).allocations@ == old(state).allocations@.insert(
            ptr,
            Allocation { handle: None, ..old(state).allocations@[ptr] },
        ),
{
    match state.allocations.get(ptr) {
        None => Err(unknown_allocation("cannot release unknown allocation ", ptr)),
        Some(a) => match a.handle {
            None => Ok(None),
            Some(h) => {
                state.allocations.set_handle(ptr, None);
                Ok(Some((h, a.aligned_size)))
            },
        },
    }
}

/// Whether the allocation at `ptr` needs fresh physical memory, and how much: its
/// reserved size when it has none, nothing when it is still mapped.
pub fn remap_size(state: &CudaState, ptr: usize) -> (r: Result<Option<usize>, Error>)
    requires
        state.wf(),
    ensures
        r is Ok <==> state.allocations@.contains_key(ptr),
        r matches Err(e) ==> e is Protocol && e->Protocol_0@ == unknown_allocation_text(
            "cannot remap unknown allocation "@,
            ptr,
        ),
        r matches Ok(None) ==> state.allocations@[ptr].handle is Some,
        r matches Ok(Some(aligned)) ==> state.allocations@[ptr].handle is None && aligned
            == state.allocations@[ptr].aligned_size,
{
    match state.allocations.get(ptr) {
        None => Err(unknown_allocation("cannot remap unknown allocation ", ptr)),
        Some(a) => if a.handle.is_some() {
            Ok(None)
        } else {
            Ok(Some(a.aligned_size))
        },
    }
}

/// `CUDA_SUCCESS` of the runtime API.
pub const CUDA_SUCCESS_RT: i32 = 0;
/// `cudaErrorInvalidValue`.
pub const CUDA_ERROR_INVALID_VALUE: i32 = 1;
/// `cudaErrorMemoryAllocation`.
pub const CUDA_ERROR_MEMORY_ALLOCATION: i32 = 2;
/// `cudaErrorInitializationError`.
pub const CUDA_ERROR_INITIALIZATION_ERROR: i32 = 3;

/// The runtime status that the `cudaFree` hook reports for the outcome of a free:
/// success, an invalid value for an address that is not tracked, an allocation
/// error for a driver failure.
pub fn free_status(result: &Result<(), Error>) -> (r: i32)
    ensures
        r == match result {
            Ok(()) => CUDA_SUCCESS_RT,
            Err(Error::Protocol(_)) => CUDA_ERROR_INVALID_VALUE,
            Err(_) => CUDA_ERROR_MEMORY_ALLOCATION,
        },
{
    match result {
        Ok(()) => CUDA_SUCCESS_RT,
        Err(Error::Protocol(_)) => CUDA_ERROR_INVALID_VALUE,
        Err(_) => CUDA_ERROR_MEMORY_ALLOCATION,
    }
}

// ---------------------------------------------------------------------------
// Setting up a CUDA context, one driver call at a time.
// ---------------------------------------------------------------------------

/// Where the setup of a CUDA context stands: the driver call to make next, or
/// the outcome.
#[derive(Clone, Copy, Debug, PartialEq, Eq, Structural)]
pub enum ContextStage {
    /// A context is set up; no call is needed.
    Ready,
    /// Call `cuInit(0)`.
    CallInit,
    /// Call `cuCtxGetCurrent`.
    CallGetCurrent,
    /// Call `cuDeviceGet` for device ordinal 0.
    CallDeviceGet,
    /// Call `cuCtxCreate` on `device`.
    CallCreate { device: i32 },
    /// Call `cuCtxGetDevice` for the current context `context`.
    CallGetDevice { context: usize },
    /// A driver call failed with `code`.
    Failed { code: i32 },
}

/// What a driver call answered: its status code and, where it hands one back, the
/// context or the device.
#[derive(Clone, Copy, Debug, PartialEq, Eq, Structural)]
pub enum DriverReply {
    Status { code: i32 },
    Context { code: i32, context: usize },
    Device { code: i32, device: i32 },
}

/// Whether `reply` is the kind of answer that the call of `stage` gives.
pub open spec fn answers(stage: ContextStage, reply: DriverReply) -> bool {
    match stage {
        ContextStage::CallInit => reply is Status,
        ContextStage::CallGetCurrent => reply is Context,
        ContextStage::CallDeviceGet => reply is Device,
        ContextStage::CallCreate { .. } => reply is Context,
        ContextStage::CallGetDevice { .. } => reply is Device,
        _ => false,
    }
}

/// The status code of a driver reply.
pub open spec fn reply_code(reply: DriverReply) -> i32 {
    match reply {
        DriverReply::Status { code } => code,
        DriverReply::Context { code, .. } => code,
        DriverReply::Device { code, .. } => code,
    }
}

/// The stage that follows `stage` once its call answered `reply`.
pub open spec fn next_context_stage(stage: ContextStage, reply: DriverReply) -> ContextStage {
    if reply_code(reply) != 0 {
        ContextStage::Failed { code: reply_code(reply) }
    } else {
        match (stage, reply) {
            (ContextStage::CallInit, _) => ContextStage::CallGetCurrent,
            (ContextStage::CallGetCurrent, DriverReply::Context { context, .. }) => if context
                == 0 {
                ContextStage::CallDeviceGet
            } else {
                ContextStage::CallGetDevice { context }
            },
            (ContextStage::CallDeviceGet, DriverReply::Device { device, .. }) =>
                ContextStage::CallCreate { device },
            _ => ContextStage::Ready,
        }
    }
}

/// The setup of a context, answer by answer: any failed call stops it with that
/// call's code; `cuInit` leads to asking for the current context; a current context
/// `c` is adopted once `cuCtxGetDevice` names its device, for every device; without
/// one, device 0 is looked up and a context is created on the device found, and the
/// setup completes when that succeeds, for every context and device.
pub proof fn lemma_context_setup(
    stage: ContextStage,
    reply: DriverReply,
    c: usize,
    d: i32,
    code: i32,
)
    ensures
        answers(stage, reply) && reply_code(reply) != 0 ==> (next_context_stage(stage, reply)
            == (ContextStage::Failed { code: reply_code(reply) })),
        next_context_stage(ContextStage::CallInit, (DriverReply::Status { code: 0 }))
            == ContextStage::CallGetCurrent,
        c != 0 ==> (next_context_stage(
            ContextStage::CallGetCurrent,
            (DriverReply::Context { code: 0, context: c }),
        ) == (ContextStage::CallGetDevice { context: c })),
        next_context_stage(
            ContextStage::CallGetCurrent,
            (DriverReply::Context { code: 0, context: 0 }),
        ) == ContextStage::CallDeviceGet,
        next_context_stage(
            (ContextStage::CallGetDevice { context: c }),
            (DriverReply::Device { code: 0, device: d }),
        ) == ContextStage::Ready,
        next_context_stage(ContextStage::CallDeviceGet, (DriverReply::Device { code: 0, device: d }))
            == (ContextStage::CallCreate { device: d }),
        next_context_stage(
            (ContextStage::CallCreate { device: d }),
            (DriverReply::Context { code: 0, context: c }),
        ) == ContextStage::Ready,
        code != 0 ==> (next_context_stage(
            (ContextStage::CallGetDevice { context: c }),
            (DriverReply::Device { code, device: d }),
        ) == (ContextStage::Failed { code })),
{
}

/// Where the setup of a context starts: nothing to do once a context is set up,
/// `cuInit` otherwise.
pub fn ensure_context(state: &CudaState) -> (r: ContextStage)
    ensures
        r == if state.initialized {
            ContextStage::Ready
        } else {
            ContextStage::CallInit
        },
{
    if state.initialized {
        ContextStage::Ready
    } else {
        ContextStage::CallInit
    }
}

/// Takes the answer of the call of `stage` and says what comes next. When the
/// setup completes, the state remembers the context and the device; until then,
/// and when a call fails, the state is left as it was.
pub fn advance_context(state: &mut CudaState, stage: ContextStage, reply: DriverReply) -> (r:
    ContextStage)
    requires
        answers(stage, reply),
    ensures
        r == next_context_stage(stage, reply),
        final(state).allocations == old(state).allocations,
        r is Ready ==> final(state).initialized && match (stage, reply) {
            (ContextStage::CallCreate { device }, DriverReply::Context { context, .. }) =>
                final(state).context == context && final(state).device == device,
            (ContextStage::CallGetDevice { context }, DriverReply::Device { device, .. }) =>
                final(state).context == context && final(state).device == device,
            _ => false,
        },
        !(r is Ready) ==> {
            &&& final(state).initialized == old(state).initialized
            &&& final(state).context == old(state).context
            &&& final(state).device == old(state).device
        },
{
    let code = match reply {
        DriverReply::Status { code } => code,
        DriverReply::Context { code, .. } => code,
        DriverReply::Device { code, .. } => code,
    };
    if code != 0 {
        return ContextStage::Failed { code };
    }
    match (stage, reply) {
        (ContextStage::CallInit, _) => ContextStage::CallGetCurrent,
        (ContextStage::CallGetCurrent, DriverReply::Context { context, .. }) => {
            if context == 0 {
                ContextStage::CallDeviceGet
            } else {
                ContextStage::CallGetDevice { context }
            }
        },
        (ContextStage::CallDeviceGet, DriverReply::Device { device, .. }) => {
            ContextStage::CallCreate { device }
        },
        (ContextStage::CallCreate { device }, DriverReply::Context { context, .. }) => {
            state.context = context;
            state.device = device;
            state.initialized = true;
            ContextStage::Ready
        },
        (ContextStage::CallGetDevice { context }, DriverReply::Device { device, .. }) => {
            state.context = context;
            state.device = device;
            state.initialized = true;
            ContextStage::Ready
        },
        _ => ContextStage::Ready,
    }
}

/// Changing the physical-memory handle of a tracked allocation, as a release or a
/// remap does, keeps every tracked address and every size: a memory snapshot taken
/// afterwards is the same as one taken before.
pub proof fn lemma_handle_change_keeps_snapshot(
    m: Map<usize, Allocation>,
    ptr: usize,
    handle: Option<u64>,
)
    requires
        m.contains_key(ptr),
    ensures
        ({
            let after = m.insert(ptr, Allocation { handle, ..m[ptr] });
            &&& after.dom() == m.dom()
            &&& forall|p: usize| #[trigger]
                after.contains_key(p) ==> after[p].size == m[p].size && after[p].aligned_size
                    == m[p].aligned_size
        }),
{
    let after = m.insert(ptr, Allocation { handle, ..m[ptr] });
    assert(after.dom() =~= m.dom());
}

/// Once the physical memory of an allocation is released, a remap of it asks for
/// fresh memory of exactly the size that was reserved for it.
pub proof fn lemma_release_then_remap(m: Map<usize, Allocation>, ptr: usize)
    requires
        m.contains_key(ptr),
    ensures
        ({
            let after = m.insert(ptr, Allocation { handle: None, ..m[ptr] });
            &&& after.contains_key(ptr)
            &&& after[ptr].handle is None
            &&& after[ptr].aligned_size == m[ptr].aligned_size
        }),
{
}

/// Freeing an allocation right after it was tracked hands back exactly what was
/// tracked and leaves every other allocation as it was; freeing it a second time
/// is refused, since it is no longer tracked.
pub proof fn lemma_track_then_untrack(m: Map<usize, Allocation>, ptr: usize, a: Allocation)
    ensures
        m.insert(ptr, a).contains_key(ptr),
        m.insert(ptr, a)[ptr] == a,
        m.insert(ptr, a).remove(ptr) == m.remove(ptr),
        !m.insert(ptr, a).remove(ptr).contains_key(ptr),
{
    assert(m.insert(ptr, a).remove(ptr) =~= m.remove(ptr));
}

// ---------------------------------------------------------------------------
// Undoing a partial setup of device memory.
// ---------------------------------------------------------------------------

/// How far the setup of device memory got before a driver call failed: an address
/// range was reserved, physical memory was created for it, or that memory was
/// mapped into the range.
#[derive(Clone, Copy, Debug, PartialEq, Eq, Structural)]
pub enum MappingStage {
    Reserved,
    Created,
    Mapped,
}

/// A driver call that undoes part of a setup of device memory.
#[derive(Clone, Copy, Debug, PartialEq, Eq, Structural)]
pub enum CleanupCall {
    /// `cuMemUnmap` of the range.
    Unmap,
    /// `cuMemRelease` of the physical memory.
    Release,
    /// `cuMemAddressFree` of the reserved range.
    AddressFree,
}

/// What undoes a setup that reached `stage`: each step that was taken is undone,
/// the latest first; the address range is freed only when this setup reserved it.
pub open spec fn rollback_spec(stage: MappingStage, owns_address: bool) -> Seq<CleanupCall> {
    (match stage {
        MappingStage::Reserved => Seq::empty(),
        MappingStage::Created => seq![CleanupCall::Release],
        MappingStage::Mapped => seq![CleanupCall::Unmap, CleanupCall::Release],
    }) + if owns_address {
        seq![CleanupCall::AddressFree]
    } else {
        Seq::empty()
    }
}

/// The driver calls that undo a setup of device memory that failed after reaching
/// `stage`, in the order to make them.
pub fn rollback_calls(stage: MappingStage, owns_address: bool) -> (r: Vec<CleanupCall>)
    ensures
        r@ == rollback_spec(stage, owns_address),
{
    let mut calls: Vec<CleanupCall> = Vec::new();
    match stage {
        MappingStage::Reserved => {},
        MappingStage::Created => {
            calls.push(CleanupCall::Release);
        },
        MappingStage::Mapped => {
            calls.push(CleanupCall::Unmap);
            calls.push(CleanupCall::Release);
        },
    }
    if owns_address {
        calls.push(CleanupCall::AddressFree);
    }
    assert(calls@ =~= rollback_spec(stage, owns_address));
    calls
}

} // verus!
