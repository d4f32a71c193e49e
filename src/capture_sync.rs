//! Warm-up of the audio capture: reads are timed until their latency drops
//! sharply, which shows that the device buffer has filled.
use vstd::prelude::*;

verus! {

/// Factor by which a read's latency must fall below the previous one.
pub const READ_TIME_THRESHOLD: u128 = 100;

/// Reads to try before giving up, unless configured otherwise.
pub const DEFAULT_MAX_SYNC_READS: usize = 100;

/// Whether a read of latency `current` after one of latency `previous`
/// is the sharp drop that ends the warm-up.
pub open spec fn is_latency_drop(previous: nat, current: nat) -> bool {
    current * READ_TIME_THRESHOLD < previous
}

/// Latency of the read before read `i` of `lat` (zero before the first).
pub open spec fn previous_latency(lat: Seq<u128>, i: int) -> nat {
    if i == 0 {
        0
    } else {
        lat[i - 1] as nat
    }
}

/// Read `i` of `lat` is a sharp drop.
pub open spec fn drops_at(lat: Seq<u128>, i: int) -> bool {
    is_latency_drop(previous_latency(lat, i), lat[i] as nat)
}

/// The warm-up on latencies `lat` ends with success at read `k` (counted
/// from one): that read is a drop, no earlier one is, and it is allowed.
pub open spec fn synced_after(lat: Seq<u128>, max_reads: nat, k: nat) -> bool {
    &&& 1 <= k <= max_reads
    &&& k <= lat.len()
    &&& drops_at(lat, k - 1)
    &&& forall|j: int| 0 <= j < k - 1 ==> !drops_at(lat, j)
}

/// What to do after a timed read.
#[derive(Clone, Copy, Debug, PartialEq, Eq, Structural)]
pub enum SyncStep {
    /// Read again.
    Continue,
    /// The drop was seen: capture is in steady state.
    Synchronized,
    /// Every allowed read was made without a drop.
    Failed,
}

/// Why synchronization did not succeed.
#[derive(Clone, Copy, Debug, PartialEq, Eq, Structural)]
pub enum SyncFailure {
    /// No drop within the reads made; carries their number.
    NoLatencyDrop { reads: usize },
}

/// State of the warm-up between two reads.
pub struct CaptureSync {
    previous: u128,
    reads: usize,
    max_reads: usize,
}

/// The warm-up's state: latency of the last read, reads made, reads allowed.
pub ghost struct CaptureSyncView {
    pub previous: nat,
    pub reads: nat,
    pub max_reads: nat,
}

impl View for CaptureSync {
    type V = CaptureSyncView;

    closed spec fn view(&self) -> CaptureSyncView {
        CaptureSyncView {
            previous: self.previous as nat,
            reads: self.reads as nat,
            max_reads: self.max_reads as nat,
        }
    }
}

fn latency_drops(previous: u128, current: u128) -> (r: bool)
    ensures
        r == is_latency_drop(previous as nat, current as nat),
{
    if current > u128::MAX / READ_TIME_THRESHOLD {
        assert(current * READ_TIME_THRESHOLD > u128::MAX) by (nonlinear_arith)
            requires
                current > u128::MAX / READ_TIME_THRESHOLD,
        ;
        false
    } else {
        assert(current * READ_TIME_THRESHOLD <= u128::MAX) by (nonlinear_arith)
            requires
                current <= u128::MAX / READ_TIME_THRESHOLD,
        ;
        current * READ_TIME_THRESHOLD < previous
    }
}

impl CaptureSync {
    /// A warm-up allowed `max_reads` reads, none made yet.
    pub fn new(max_reads: usize) -> (r: CaptureSync)
        ensures
            r@ == (CaptureSyncView { previous: 0, reads: 0, max_reads: max_reads as nat }),
    {
        CaptureSync { previous: 0, reads: 0, max_reads }
    }

    /// Whether another read is allowed.
    pub fn can_read(&self) -> (r: bool)
        ensures
            r == (self@.reads < self@.max_reads),
    {
        self.reads < self.max_reads
    }

    /// Takes the latency of one more read.
    pub fn record_read(&mut self, latency: u128) -> (r: SyncStep)
        requires
            old(self)@.reads < old(self)@.max_reads,
        ensures
            final(self)@ == (CaptureSyncView {
                previous: latency as nat,
                reads: old(self)@.reads + 1,
                max_reads: old(self)@.max_reads,
            }),
            is_latency_drop(old(self)@.previous, latency as nat) ==> r == SyncStep::Synchronized,
            !is_latency_drop(old(self)@.previous, latency as nat) && old(self)@.reads + 1
                == old(self)@.max_reads ==> r == SyncStep::Failed,
            !is_latency_drop(old(self)@.previous, latency as nat) && old(self)@.reads + 1
                < old(self)@.max_reads ==> r == SyncStep::Continue,
    {
        let dropped = latency_drops(self.previous, latency);
        self.previous = latency;
        self.reads = self.reads + 1;
        if dropped {
            SyncStep::Synchronized
        } else if self.reads == self.max_reads {
            SyncStep::Failed
        } else {
            SyncStep::Continue
        }
    }
}

/// Runs the warm-up on a given sequence of read latencies: stops at the
/// first sharp drop and returns the number of reads made, or fails once
/// `max_reads` reads (or all of `latencies`) brought none.
pub fn synchronize(latencies: &Vec<u128>, max_reads: usize) -> (r: Result<usize, SyncFailure>)
    ensures
        r is Ok ==> synced_after(latencies@, max_reads as nat, r->Ok_0 as nat),
        r is Err ==> r == Err::<usize, SyncFailure>(
            SyncFailure::NoLatencyDrop {
                reads: if max_reads <= latencies@.len() {
                    max_reads
                } else {
                    latencies@.len() as usize
                },
            },
        ),
        r is Err <==> forall|j: int| 0 <= j < max_reads && j < latencies@.len() ==> !drops_at(latencies@, j),
{
    let mut sync = CaptureSync::new(max_reads);
    let mut i: usize = 0;
    while i < latencies.len() && sync.can_read()
        invariant
            sync@.reads == i,
            sync@.max_reads == max_reads,
            i <= latencies@.len(),
            i <= max_reads,
            sync@.previous == previous_latency(latencies@, i as int),
            forall|j: int| 0 <= j < i ==> !drops_at(latencies@, j),
        decreases latencies@.len() - i,
    {
        let step = sync.record_read(latencies[i]);
        if step == SyncStep::Synchronized {
            assert(drops_at(latencies@, i as int));
            return Ok(i + 1);
        }
        i = i + 1;
    }
    Err(SyncFailure::NoLatencyDrop { reads: i })
}

} // verus!
