use vstd::prelude::*;

verus! {

/// The collector is idle.
pub const GC_STATE_SLEEPING: u8 = 0;
/// The collector is tracing.
pub const GC_STATE_TRACING: u8 = 1;
/// The collector is freeing unmarked memory.
pub const GC_STATE_SWEEPING: u8 = 2;
/// The trace is done and the collector waits for mutators to yield.
pub const GC_STATE_WAITING_ON_MUTATORS: u8 = 3;

/// The distance between `a` and `b`.
pub open spec fn abs_diff_spec(a: u64, b: u64) -> int {
    if a >= b {
        a - b
    } else {
        b - a
    }
}

/// A running average `avg` moved by one sample `new_value` out of
/// `sample_size`: towards the sample, by the distance between them divided
/// by the sample size.
pub open spec fn updated_avg(avg: u64, new_value: u64, sample_size: u64) -> int {
    if new_value >= avg {
        avg + abs_diff_spec(new_value, avg) / sample_size as int
    } else {
        avg - abs_diff_spec(new_value, avg) / sample_size as int
    }
}

/// A snapshot of the metrics relevant to the collector's triggers.
#[derive(Debug)]
pub struct Metrics {
    /// Number of major collections that have occurred.
    pub major_collections: u64,
    /// Number of minor collections that have occurred.
    pub minor_collections: u64,
    /// Average time a major collection takes to complete.
    pub major_collect_avg_time: u64,
    /// Average time a minor collection takes to complete.
    pub minor_collect_avg_time: u64,
    /// Once the old objects count exceeds this number, a major collection
    /// is triggered.
    pub max_old_objects: u64,
    /// Objects traced since the last major collection and all succeeding
    /// minor collections.
    pub old_objects_count: u64,
    /// Total memory allocated by the arena.
    pub arena_size: u64,
    /// The arena size after the last collection, against which the growth
    /// of the arena is measured.
    pub prev_arena_size: u64,
    /// The current state of the collector.
    pub state: u8,
    pub max_yield_time: u64,
    pub avg_yield_time: u64,
    pub max_arena_size: u64,
    pub monitor_is_on: bool,
}

impl Metrics {
    /// Metrics of a collector that has done nothing yet: every count zero,
    /// sleeping, the monitor on.
    pub fn new() -> (m: Metrics)
        ensures
            m.major_collections == 0,
            m.minor_collections == 0,
            m.major_collect_avg_time == 0,
            m.minor_collect_avg_time == 0,
            m.max_yield_time == 0,
            m.avg_yield_time == 0,
            m.max_old_objects == 0,
            m.old_objects_count == 0,
            m.arena_size == 0,
            m.max_arena_size == 0,
            m.prev_arena_size == 0,
            m.state == GC_STATE_SLEEPING,
            m.monitor_is_on,
    {
        Metrics {
            major_collections: 0,
            minor_collections: 0,
            major_collect_avg_time: 0,
            minor_collect_avg_time: 0,
            max_yield_time: 0,
            avg_yield_time: 0,
            max_old_objects: 0,
            old_objects_count: 0,
            arena_size: 0,
            max_arena_size: 0,
            prev_arena_size: 0,
            state: GC_STATE_SLEEPING,
            monitor_is_on: true,
        }
    }

    pub fn get_major_collections(&self) -> (n: u64)
        ensures
            n == self.major_collections,
    {
        self.major_collections
    }

    pub fn get_minor_collections(&self) -> (n: u64)
        ensures
            n == self.minor_collections,
    {
        self.minor_collections
    }

    /// Fold the duration of a minor collection into its running average,
    /// the sample size being the number of minor collections.
    pub fn update_minor_collection_avg_time(&mut self, new_value: u64)
        requires
            old(self).minor_collections > 0,
        ensures
            final(self).minor_collect_avg_time == updated_avg(
                old(self).minor_collect_avg_time,
                new_value,
                old(self).minor_collections,
            ),
            *final(self) == (Metrics {
                minor_collect_avg_time: final(self).minor_collect_avg_time,
                ..*old(self)
            }),
    {
        let sample_size = self.minor_collections;
        update_avg_u64(&mut self.minor_collect_avg_time, new_value, sample_size);
    }

    /// Fold the duration of a major collection into its running average,
    /// the sample size being the number of major collections.
    pub fn update_major_collection_avg_time(&mut self, new_value: u64)
        requires
            old(self).major_collections > 0,
        ensures
            final(self).major_collect_avg_time == updated_avg(
                old(self).major_collect_avg_time,
                new_value,
                old(self).major_collections,
            ),
            *final(self) == (Metrics {
                major_collect_avg_time: final(self).major_collect_avg_time,
                ..*old(self)
            }),
    {
        let sample_size = self.major_collections;
        update_avg_u64(&mut self.major_collect_avg_time, new_value, sample_size);
    }

    pub fn get_major_collect_avg_time(&self) -> (n: u64)
        ensures
            n == self.major_collect_avg_time,
    {
        self.major_collect_avg_time
    }

    pub fn get_minor_collect_avg_time(&self) -> (n: u64)
        ensures
            n == self.minor_collect_avg_time,
    {
        self.minor_collect_avg_time
    }

    pub fn get_max_old_objects(&self) -> (n: u64)
        ensures
            n == self.max_old_objects,
    {
        self.max_old_objects
    }

    pub fn get_old_objects_count(&self) -> (n: u64)
        ensures
            n == self.old_objects_count,
    {
        self.old_objects_count
    }

    pub fn get_arena_size(&self) -> (n: u64)
        ensures
            n == self.arena_size,
    {
        self.arena_size
    }

    pub fn get_prev_arena_size(&self) -> (n: u64)
        ensures
            n == self.prev_arena_size,
    {
        self.prev_arena_size
    }

    pub fn get_state(&self) -> (s: u8)
        ensures
            s == self.state,
    {
        self.state
    }

    pub fn get_max_yield_time(&self) -> (n: u64)
        ensures
            n == self.max_yield_time,
    {
        self.max_yield_time
    }

    pub fn get_avg_yield_time(&self) -> (n: u64)
        ensures
            n == self.avg_yield_time,
    {
        self.avg_yield_time
    }

    pub fn get_max_arena_size(&self) -> (n: u64)
        ensures
            n == self.max_arena_size,
    {
        self.max_arena_size
    }

    /// Start of a collection: a major one counts the old objects from zero
    /// again; the collector starts tracing.
    pub fn begin_collection(&mut self, major: bool)
        ensures
            *final(self) == collection_begun(*old(self), major),
    {
        if major {
            self.old_objects_count = 0;
        }
        self.state = GC_STATE_TRACING;
    }

    /// End of the trace: the objects it marked count as old objects, the
    /// collector starts sweeping, and `arena_size`, the size of the heap
    /// before the sweep, raises the largest size seen if it exceeds it.
    pub fn end_trace(&mut self, marked_objects: u64, arena_size: u64)
        ensures
            *final(self) == trace_ended(*old(self), marked_objects, arena_size),
    {
        self.old_objects_count = self.old_objects_count.wrapping_add(marked_objects);
        self.state = GC_STATE_SWEEPING;
        if self.max_arena_size < arena_size {
            self.max_arena_size = arena_size;
        }
    }

    /// End of a collection: it is counted as major or minor, `arena_size`,
    /// the size of the heap after the sweep, becomes the current and the
    /// previous arena size, a major collection sets the limit of old objects
    /// to `max_old_objects`, and the collector sleeps.
    pub fn end_collection(&mut self, major: bool, arena_size: u64, max_old_objects: u64)
        ensures
            *final(self) == collection_ended(*old(self), major, arena_size, max_old_objects),
            major ==> final(self).major_collections as int == (old(self).major_collections + 1)
                % 0x1_0000_0000_0000_0000,
            major ==> final(self).minor_collections == old(self).minor_collections,
            !major ==> final(self).minor_collections as int == (old(self).minor_collections + 1)
                % 0x1_0000_0000_0000_0000,
            !major ==> final(self).major_collections == old(self).major_collections,
            final(self).prev_arena_size == arena_size,
            final(self).state == GC_STATE_SLEEPING,
    {
        if major {
            self.major_collections = self.major_collections.wrapping_add(1);
        } else {
            self.minor_collections = self.minor_collections.wrapping_add(1);
        }
        self.arena_size = arena_size;
        self.prev_arena_size = arena_size;
        if major {
            self.max_old_objects = max_old_objects;
        }
        self.state = GC_STATE_SLEEPING;
    }

    /// Whether more objects survived than the limit allows, which calls for
    /// a major collection.
    pub fn major_trigger(&self) -> (b: bool)
        ensures
            b == (self.old_objects_count > self.max_old_objects),
    {
        self.old_objects_count > self.max_old_objects
    }
}

/// `a + b` in the arithmetic of `u64`, wrapping above the maximum, as an
/// atomic addition does.
pub open spec fn wrapping_add_u64(a: u64, b: u64) -> u64 {
    if a + b <= u64::MAX {
        (a + b) as u64
    } else {
        (a + b - u64::MAX - 1) as u64
    }
}

/// The running average `avg` of collection times moved towards the sample
/// `elapsed`, by their distance divided by the number of collections.
pub open spec fn moved_avg(avg: usize, elapsed: usize, num_collections: usize) -> int {
    if avg > elapsed {
        avg - (avg - elapsed) / num_collections as int
    } else {
        avg + (elapsed - avg) / num_collections as int
    }
}

/// Fold the time `elapsed` of the latest of `num_collections` collections
/// into the running average `average`. The average moves towards the
/// sample and never past it.
pub fn update_collection_time(average: &mut usize, elapsed: usize, num_collections: usize)
    requires
        num_collections > 0,
    ensures
        *final(average) == moved_avg(*old(average), elapsed, num_collections),
        *old(average) <= elapsed ==> *old(average) <= *final(average) <= elapsed,
        elapsed <= *old(average) ==> elapsed <= *final(average) <= *old(average),
{
    let avg = *average;
    let diff = if elapsed >= avg { elapsed - avg } else { avg - elapsed };
    let update = diff / num_collections;
    proof {
        vstd::arithmetic::div_mod::lemma_div_is_ordered_by_denominator(diff as int, 1, num_collections as int);
    }
    if avg > elapsed {
        *average = avg - update;
    } else {
        *average = avg + update;
    }
}

/// The metrics at the start of a collection (see `Metrics::begin_collection`).
pub open spec fn collection_begun(m: Metrics, major: bool) -> Metrics {
    Metrics {
        old_objects_count: if major { 0 } else { m.old_objects_count },
        state: GC_STATE_TRACING,
        ..m
    }
}

/// The metrics at the end of a trace (see `Metrics::end_trace`).
pub open spec fn trace_ended(m: Metrics, marked_objects: u64, arena_size: u64) -> Metrics {
    Metrics {
        old_objects_count: wrapping_add_u64(m.old_objects_count, marked_objects),
        state: GC_STATE_SWEEPING,
        max_arena_size: if m.max_arena_size < arena_size {
            arena_size
        } else {
            m.max_arena_size
        },
        ..m
    }
}

/// The metrics at the end of a collection (see `Metrics::end_collection`).
pub open spec fn collection_ended(m: Metrics, major: bool, arena_size: u64, max_old_objects: u64) -> Metrics {
    Metrics {
        major_collections: if major {
            wrapping_add_u64(m.major_collections, 1)
        } else {
            m.major_collections
        },
        minor_collections: if major {
            m.minor_collections
        } else {
            wrapping_add_u64(m.minor_collections, 1)
        },
        max_old_objects: if major { max_old_objects } else { m.max_old_objects },
        arena_size: arena_size,
        prev_arena_size: arena_size,
        state: GC_STATE_SLEEPING,
        ..m
    }
}

/// The metrics after a whole collection: begun, traced marking
/// `marked_objects` objects with the heap at `size_before_sweep` bytes, and
/// ended with the heap at `size_after_sweep` bytes.
pub open spec fn collected(
    m: Metrics,
    major: bool,
    marked_objects: u64,
    size_before_sweep: u64,
    size_after_sweep: u64,
    max_old_objects: u64,
) -> Metrics {
    collection_ended(
        trace_ended(collection_begun(m, major), marked_objects, size_before_sweep),
        major,
        size_after_sweep,
        max_old_objects,
    )
}

/// The old objects are those traced since the last major collection: a
/// major collection counts exactly the objects it marked, a minor one adds
/// the objects it marked to the count (wrapping as the counter does). A
/// collection of either kind leaves the collector sleeping, counts itself
/// as major or as minor and leaves the count of the other kind alone,
/// and records the heap size after the sweep as the previous arena size;
/// the largest arena size seen never decreases.
pub proof fn lemma_collection_counts_old_objects(
    m: Metrics,
    major: bool,
    marked_objects: u64,
    size_before_sweep: u64,
    size_after_sweep: u64,
    max_old_objects: u64,
)
    ensures
        ({
            let r = collected(m, major, marked_objects, size_before_sweep, size_after_sweep, max_old_objects);
            &&& major ==> r.old_objects_count == marked_objects
            &&& !major ==> r.old_objects_count == wrapping_add_u64(m.old_objects_count, marked_objects)
            &&& r.state == GC_STATE_SLEEPING
            &&& major ==> r.major_collections as int == (m.major_collections + 1) % 0x1_0000_0000_0000_0000
            &&& major ==> r.minor_collections == m.minor_collections
            &&& !major ==> r.minor_collections as int == (m.minor_collections + 1) % 0x1_0000_0000_0000_0000
            &&& !major ==> r.major_collections == m.major_collections
            &&& r.prev_arena_size == size_after_sweep
            &&& m.max_arena_size <= r.max_arena_size
            &&& size_before_sweep <= r.max_arena_size
        }),
{
}

/// Move the running average `running_avg` towards the sample `new_value`
/// out of `sample_size` samples (see `updated_avg`). The average never
/// passes the sample.
pub fn update_avg_u64(running_avg: &mut u64, new_value: u64, sample_size: u64)
    requires
        sample_size > 0,
    ensures
        *final(running_avg) == updated_avg(*old(running_avg), new_value, sample_size),
        *old(running_avg) <= new_value ==> *old(running_avg) <= *final(running_avg) <= new_value,
        new_value <= *old(running_avg) ==> new_value <= *final(running_avg) <= *old(running_avg),
{
    let avg = *running_avg;
    let diff = if new_value >= avg { new_value - avg } else { avg - new_value };
    let update = diff / sample_size;
    proof {
        vstd::arithmetic::div_mod::lemma_div_is_ordered_by_denominator(diff as int, 1, sample_size as int);
    }
    if new_value >= avg {
        *running_avg = avg + update;
    } else {
        *running_avg = avg - update;
    }
}

} // verus!
