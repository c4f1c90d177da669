//! Memory stress test: memory is allocated chunk by chunk at a given rate,
//! every page touched so that the kernel must back it, held for a while and
//! released. The library decides each step; the caller allocates, sleeps,
//! watches the cancel flag and reports the events. Durations are counted in
//! milliseconds.
use vstd::prelude::*;
use crate::text::owned;

verus! {

/// Bytes allocated per step: small enough for smooth progress, large enough
/// that the overhead does not matter.
pub const CHUNK_SIZE: u64 = 16777216;

/// Size of a memory page: every page of a chunk gets a distinct byte.
pub const PAGE_SIZE: usize = 4096;

/// Final outcome of a stress test run.
#[derive(Debug, Clone)]
pub struct StressTestResult {
    pub target_bytes: u64,
    pub peak_allocated_bytes: u64,
    pub duration_ms: u64,
    pub cancelled: bool,
    pub error: Option<String>,
}

/// What the test reports to the interface.
#[derive(Debug, Clone)]
pub enum StressEvent {
    Progress { allocated_bytes: u64, target_bytes: u64, elapsed_ms: u64 },
    Result(StressTestResult),
}

pub struct StressTestResultView {
    pub target_bytes: u64,
    pub peak_allocated_bytes: u64,
    pub duration_ms: u64,
    pub cancelled: bool,
    pub error: Option<Seq<char>>,
}

pub enum StressEventView {
    Progress { allocated_bytes: u64, target_bytes: u64, elapsed_ms: u64 },
    Result(StressTestResultView),
}

impl View for StressTestResult {
    type V = StressTestResultView;

    open spec fn view(&self) -> StressTestResultView {
        StressTestResultView {
            target_bytes: self.target_bytes,
            peak_allocated_bytes: self.peak_allocated_bytes,
            duration_ms: self.duration_ms,
            cancelled: self.cancelled,
            error: match self.error {
                Some(e) => Some(e@),
                None => None,
            },
        }
    }
}

impl View for StressEvent {
    type V = StressEventView;

    open spec fn view(&self) -> StressEventView {
        match self {
            StressEvent::Progress { allocated_bytes, target_bytes, elapsed_ms } => {
                StressEventView::Progress {
                    allocated_bytes: *allocated_bytes,
                    target_bytes: *target_bytes,
                    elapsed_ms: *elapsed_ms,
                }
            },
            StressEvent::Result(r) => StressEventView::Result(r@),
        }
    }
}

/// The run refused before anything is allocated, if its parameters are void.
pub open spec fn params_error(target_bytes: u64, growth_rate: u64) -> Option<StressTestResultView> {
    if target_bytes == 0 {
        Some(
            StressTestResultView {
                target_bytes: 0,
                peak_allocated_bytes: 0,
                duration_ms: 0,
                cancelled: false,
                error: Some("Target size is zero"@),
            },
        )
    } else if growth_rate == 0 {
        Some(
            StressTestResultView {
                target_bytes,
                peak_allocated_bytes: 0,
                duration_ms: 0,
                cancelled: false,
                error: Some("Growth rate is zero"@),
            },
        )
    } else {
        None
    }
}

/// The result of a run that ended, cancelled or not, holding `peak` bytes.
pub open spec fn ended(target_bytes: u64, peak: u64, elapsed_ms: u64, cancelled: bool) -> StressTestResultView {
    StressTestResultView {
        target_bytes,
        peak_allocated_bytes: peak,
        duration_ms: elapsed_ms,
        cancelled,
        error: None,
    }
}

/// The size of the next chunk when `total` of `target` bytes are held.
pub open spec fn chunk_size(total: nat, target: nat) -> nat {
    if target - total < CHUNK_SIZE {
        (target - total) as nat
    } else {
        CHUNK_SIZE as nat
    }
}

/// The sizes of the chunks that the test allocates from `total` on.
pub open spec fn chunk_sizes(total: nat, target: nat) -> Seq<nat>
    decreases target - total,
{
    if total >= target {
        Seq::empty()
    } else {
        seq![chunk_size(total, target)] + chunk_sizes(total + chunk_size(total, target), target)
    }
}

pub open spec fn sum(s: Seq<nat>) -> nat
    decreases s.len(),
{
    if s.len() == 0 {
        0
    } else {
        s[0] + sum(s.drop_first())
    }
}

/// The byte at position `i` of a chunk that starts at byte `base` of the
/// test: the first byte of each page is the low byte of its position, the
/// rest are zero.
pub open spec fn chunk_byte(base: nat, i: int) -> u8 {
    if i % (PAGE_SIZE as int) == 0 {
        ((base + i) % 256) as u8
    } else {
        0
    }
}

/// What the allocation loop does next.
#[derive(Debug)]
pub enum AllocStep {
    /// The test was cancelled: report this result.
    Stop(StressTestResult),
    /// Allocate a chunk of this many bytes.
    Chunk(u64),
}

/// Whether the parameters of a run are void, and then its result.
pub fn check_params(target_bytes: u64, growth_rate: u64) -> (r: Option<StressTestResult>)
    ensures
        match r {
            Some(x) => params_error(target_bytes, growth_rate) == Some(x@),
            None => params_error(target_bytes, growth_rate) is None,
        },
{
    if target_bytes == 0 {
        Some(
            StressTestResult {
                target_bytes: 0,
                peak_allocated_bytes: 0,
                duration_ms: 0,
                cancelled: false,
                error: Some(owned("Target size is zero")),
            },
        )
    } else if growth_rate == 0 {
        Some(
            StressTestResult {
                target_bytes,
                peak_allocated_bytes: 0,
                duration_ms: 0,
                cancelled: false,
                error: Some(owned("Growth rate is zero")),
            },
        )
    } else {
        None
    }
}

/// The size of the next chunk: 16 MiB, or what is left below the target.
pub fn next_chunk_size(total: u64, target_bytes: u64) -> (n: u64)
    requires
        total < target_bytes,
    ensures
        n == chunk_size(total as nat, target_bytes as nat),
        0 < n <= CHUNK_SIZE,
        total + n <= target_bytes,
{
    if target_bytes - total < CHUNK_SIZE {
        target_bytes - total
    } else {
        CHUNK_SIZE
    }
}

/// The next step of the allocation loop, `total` of `target` bytes held,
/// `elapsed_ms` after the start: a cancelled test stops with what it held.
pub fn alloc_step(target_bytes: u64, total: u64, cancelled: bool, elapsed_ms: u64) -> (s:
    AllocStep)
    requires
        total < target_bytes,
    ensures
        cancelled ==> (s matches AllocStep::Stop(r) && r@ == ended(
            target_bytes,
            total,
            elapsed_ms,
            true,
        )),
        !cancelled ==> s == AllocStep::Chunk(chunk_size(total as nat, target_bytes as nat) as u64),
{
    if cancelled {
        AllocStep::Stop(
            StressTestResult {
                target_bytes,
                peak_allocated_bytes: total,
                duration_ms: elapsed_ms,
                cancelled: true,
                error: None,
            },
        )
    } else {
        AllocStep::Chunk(next_chunk_size(total, target_bytes))
    }
}

/// After a chunk of `size` bytes: the new total, the progress to report and
/// whether to pause before the next chunk (not after the last).
pub fn chunk_done(target_bytes: u64, total: u64, size: u64, elapsed_ms: u64) -> (r: (
    u64,
    StressEvent,
    bool,
))
    requires
        total + size <= target_bytes,
    ensures
        r.0 == total + size,
        r.1@ == (StressEventView::Progress {
            allocated_bytes: (total + size) as u64,
            target_bytes,
            elapsed_ms,
        }),
        r.2 == (total + size < target_bytes),
{
    let t = total + size;
    (t, StressEvent::Progress { allocated_bytes: t, target_bytes, elapsed_ms }, t < target_bytes)
}

/// While the peak is held: a cancelled test stops with its peak.
pub fn hold_step(target_bytes: u64, peak: u64, cancelled: bool, elapsed_ms: u64) -> (r: Option<
    StressTestResult,
>)
    ensures
        cancelled ==> (r matches Some(x) && x@ == ended(target_bytes, peak, elapsed_ms, true)),
        !cancelled ==> r is None,
{
    if cancelled {
        Some(
            StressTestResult {
                target_bytes,
                peak_allocated_bytes: peak,
                duration_ms: elapsed_ms,
                cancelled: true,
                error: None,
            },
        )
    } else {
        None
    }
}

/// The result of a run that held its peak to the end and released it.
pub fn finished(target_bytes: u64, peak: u64, elapsed_ms: u64) -> (r: StressTestResult)
    ensures
        r@ == ended(target_bytes, peak, elapsed_ms, false),
{
    StressTestResult {
        target_bytes,
        peak_allocated_bytes: peak,
        duration_ms: elapsed_ms,
        cancelled: false,
        error: None,
    }
}

/// A chunk of `size` bytes starting at byte `base` of the test, with the
/// first byte of every page set apart so that no two pages are alike.
pub fn fill_chunk(size: usize, base: u64) -> (chunk: Vec<u8>)
    requires
        size <= CHUNK_SIZE,
        base + size <= u64::MAX,
    ensures
        chunk.len() == size,
        forall|i: int| 0 <= i < size ==> #[trigger] chunk@[i] == chunk_byte(base as nat, i),
{
    let mut chunk: Vec<u8> = vec![0u8; size];
    assert forall|i: int| 0 <= i < size implies chunk@[i] == 0u8 by {
        assert(cloned(0u8, chunk@[i]));
    }
    let mut offset: usize = 0;
    while offset < size
        invariant
            size <= CHUNK_SIZE,
            base + size <= u64::MAX,
            chunk.len() == size,
            offset % PAGE_SIZE == 0,
            offset <= size + PAGE_SIZE,
            forall|i: int|
                0 <= i < size ==> #[trigger] chunk@[i] == (if i < offset {
                    chunk_byte(base as nat, i)
                } else {
                    0u8
                }),
        decreases size + PAGE_SIZE - offset,
    {
        let b: u8 = ((base + offset as u64) % 256) as u8;
        chunk.set(offset, b);
        proof {
            assert forall|i: int| 0 <= i < size implies #[trigger] chunk@[i] == (if i < offset
                + PAGE_SIZE {
                chunk_byte(base as nat, i)
            } else {
                0u8
            }) by {
                if offset < i < offset + PAGE_SIZE {
                    assert(i % (PAGE_SIZE as int) != 0);
                }
            }
        }
        offset += PAGE_SIZE;
    }
    chunk
}

/// The chunks that the test allocates from `total` on fill the rest of the
/// target exactly: they are each of 1 byte to 16 MiB, sum to what was left,
/// and there are as many as 16 MiB pieces, rounded up, fit in it.
pub proof fn lemma_chunks_fill_target(total: nat, target: nat)
    ensures
        sum(chunk_sizes(total, target)) == if total <= target {
            target - total
        } else {
            0
        },
        forall|i: int|
            0 <= i < chunk_sizes(total, target).len() ==> 0 < #[trigger] chunk_sizes(
                total,
                target,
            )[i] <= CHUNK_SIZE,
        chunk_sizes(total, target).len() == if total < target {
            ((target - total) + CHUNK_SIZE - 1) / (CHUNK_SIZE as int)
        } else {
            0
        },
    decreases target - total,
{
    if total < target {
        let c = chunk_size(total, target);
        lemma_chunks_fill_target(total + c, target);
        let rest = chunk_sizes(total + c, target);
        let all = chunk_sizes(total, target);
        assert(all.drop_first() =~= rest);
        assert forall|i: int| 0 <= i < all.len() implies 0 < #[trigger] all[i] <= CHUNK_SIZE by {
            if i > 0 {
                assert(all[i] == rest[i - 1]);
            }
        }
        let n: int = (target - total) as int;
        if n < CHUNK_SIZE {
            assert((n + CHUNK_SIZE - 1) / (CHUNK_SIZE as int) == 1);
        } else {
            assert((n + CHUNK_SIZE - 1) / (CHUNK_SIZE as int) == 1 + ((n - CHUNK_SIZE) + CHUNK_SIZE
                - 1) / (CHUNK_SIZE as int));
        }
    }
}

} // verus!
