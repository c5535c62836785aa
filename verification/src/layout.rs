//! How a file is cut: into one region per producer, and each region into chunks.
//!
//! ```text
//! |||..........|.....||..........|.....||...>> ||...|.|||
//!    <---1----><--2->                            <3><4>
//!    <-------5------>                            <--6->
//!    <-------------------------7---------------------->
//! ```
//! 1. `task_chunk_size`
//! 2. `last_task_chunk_size`
//! 3. `last_prod_task_chunk_size`
//! 4. `last_last_prod_task_chunk_size`
//! 5. `producer_chunk_size`
//! 6. `last_producer_chunk_size`
//! 7. `total_size`
use crate::arith::{ceil_div, lemma_ceil_div, lemma_ceil_div_monotone, max};
use vstd::prelude::*;

verus! {

/// The number of bytes in the region of every producer but the last.
pub open spec fn producer_chunk_size(total_size: int, num_producers: int) -> int {
    ceil_div(total_size, num_producers)
}

/// What is left for the last producer.
pub open spec fn last_producer_chunk_size(total_size: int, num_producers: int) -> int {
    total_size - (num_producers - 1) * producer_chunk_size(total_size, num_producers)
}

/// The number of bytes in the region of producer `i`.
pub open spec fn region_size(total_size: int, num_producers: int, i: int) -> int {
    if i != num_producers - 1 {
        producer_chunk_size(total_size, num_producers)
    } else {
        last_producer_chunk_size(total_size, num_producers)
    }
}

/// Where the region of producer `i` starts.
pub open spec fn region_start(total_size: int, num_producers: int, i: int) -> int {
    producer_chunk_size(total_size, num_producers) * i
}

/// The size of every chunk but the last of a region of `size` bytes.
pub open spec fn task_size(size: int, chunks_per_producer: int) -> int {
    ceil_div(size, chunks_per_producer)
}

/// What `chunks_per_producer - 1` full chunks leave of a region of `size` bytes.
pub open spec fn last_task_size(size: int, chunks_per_producer: int) -> int {
    size - (chunks_per_producer - 1) * task_size(size, chunks_per_producer)
}

/// The sizes of the regions and of their full chunks can be computed in 64 bits: there is at
/// least one producer and one chunk per producer, rounding up does not overflow, and the
/// regions before the last one do not reach past the end of the file.
pub open spec fn can_divide(total_size: int, num_producers: int, chunks_per_producer: int) -> bool {
    &&& num_producers > 0
    &&& chunks_per_producer > 0
    &&& total_size + num_producers <= u64::MAX
    &&& last_producer_chunk_size(total_size, num_producers) >= 0
    &&& producer_chunk_size(total_size, num_producers) + chunks_per_producer <= u64::MAX
}

/// The sizes of the regions of a file of `total_size` bytes, one region per producer, and of
/// the chunks of a region.
#[derive(Clone, Copy, Debug)]
pub struct Layout {
    pub total_size: u64,
    pub num_producers: u64,
    pub chunks_per_producer: u64,
    pub producer_chunk_size: u64,
    pub last_producer_chunk_size: u64,
    pub task_chunk_size: u64,
    pub last_prod_task_chunk_size: u64,
}

impl Layout {
    /// The sizes are those that the file size and the two counts determine.
    pub open spec fn wf(self) -> bool {
        let total = self.total_size as int;
        let n = self.num_producers as int;
        let m = self.chunks_per_producer as int;
        &&& can_divide(total, n, m)
        &&& self.producer_chunk_size == producer_chunk_size(total, n)
        &&& self.last_producer_chunk_size == last_producer_chunk_size(total, n)
        &&& self.task_chunk_size == task_size(self.producer_chunk_size as int, m)
        &&& self.last_prod_task_chunk_size == task_size(self.last_producer_chunk_size as int, m)
    }

    /// The full chunks of a region leave a last chunk that is not negative, in the last
    /// region and in the others.
    pub open spec fn last_tasks_fit(self) -> bool {
        let m = self.chunks_per_producer as int;
        &&& last_task_size(self.producer_chunk_size as int, m) >= 0
        &&& last_task_size(self.last_producer_chunk_size as int, m) >= 0
    }

    /// Tells whether a layout exists.
    pub fn can_divide(total_size: u64, num_producers: u64, chunks_per_producer: u64) -> (r: bool)
        ensures
            r == can_divide(total_size as int, num_producers as int, chunks_per_producer as int),
    {
        if num_producers == 0 || chunks_per_producer == 0 {
            return false;
        }
        if total_size > u64::MAX - num_producers {
            return false;
        }
        proof {
            lemma_ceil_div(total_size as int, num_producers as int);
        }
        let producer_chunk_size: u64 = (total_size + num_producers - 1) / num_producers;
        match (num_producers - 1).checked_mul(producer_chunk_size) {
            None => false,
            Some(before_last) => before_last <= total_size && producer_chunk_size <= u64::MAX
                - chunks_per_producer,
        }
    }

    /// Cuts a file of `total_size` bytes.
    pub fn new(total_size: u64, num_producers: u64, chunks_per_producer: u64) -> (r: Layout)
        requires
            can_divide(total_size as int, num_producers as int, chunks_per_producer as int),
        ensures
            r.wf(),
            r.total_size == total_size,
            r.num_producers == num_producers,
            r.chunks_per_producer == chunks_per_producer,
    {
        let producer_chunk_size: u64 = (total_size + num_producers - 1) / num_producers;
        proof {
            lemma_regions(total_size as int, num_producers as int);
            assert(0 <= (num_producers - 1) * producer_chunk_size) by (nonlinear_arith)
                requires
                    num_producers > 0,
            ;
        }
        let last_producer_chunk_size: u64 = total_size - (num_producers - 1) * producer_chunk_size;
        let task_chunk_size: u64 = (producer_chunk_size + chunks_per_producer - 1)
            / chunks_per_producer;
        let last_prod_task_chunk_size: u64 = (last_producer_chunk_size + chunks_per_producer - 1)
            / chunks_per_producer;
        Layout {
            total_size,
            num_producers,
            chunks_per_producer,
            producer_chunk_size,
            last_producer_chunk_size,
            task_chunk_size,
            last_prod_task_chunk_size,
        }
    }

    /// Tells whether every region has a last chunk.
    pub fn has_last_tasks(&self) -> (r: bool)
        requires
            self.wf(),
        ensures
            r == self.last_tasks_fit(),
    {
        let full: u64 = self.chunks_per_producer - 1;
        match (
            full.checked_mul(self.task_chunk_size),
            full.checked_mul(self.last_prod_task_chunk_size),
        ) {
            (Some(a), Some(b)) => a <= self.producer_chunk_size && b
                <= self.last_producer_chunk_size,
            _ => false,
        }
    }

    /// The size of the last chunk of every region but the last.
    pub fn last_task_chunk_size(&self) -> (r: u64)
        requires
            self.wf(),
            last_task_size(self.producer_chunk_size as int, self.chunks_per_producer as int) >= 0,
        ensures
            r == last_task_size(self.producer_chunk_size as int, self.chunks_per_producer as int),
            r <= self.task_chunk_size,
    {
        proof {
            lemma_last_task(self.producer_chunk_size as int, self.chunks_per_producer as int);
        }
        self.producer_chunk_size - (self.chunks_per_producer - 1) * self.task_chunk_size
    }

    /// The size of the last chunk of the last region.
    pub fn last_last_prod_task_chunk_size(&self) -> (r: u64)
        requires
            self.wf(),
            last_task_size(self.last_producer_chunk_size as int, self.chunks_per_producer as int)
                >= 0,
        ensures
            r == last_task_size(
                self.last_producer_chunk_size as int,
                self.chunks_per_producer as int,
            ),
            r <= self.last_prod_task_chunk_size,
    {
        proof {
            lemma_last_task(self.last_producer_chunk_size as int, self.chunks_per_producer as int);
        }
        self.last_producer_chunk_size - (self.chunks_per_producer - 1)
            * self.last_prod_task_chunk_size
    }

    /// The capacity that a buffer needs: the largest of the sizes of the last chunks and of the
    /// full chunks. No chunk is larger than a full chunk of the first region, so this is that
    /// size.
    pub fn reserved_size(&self) -> (r: u64)
        requires
            self.wf(),
            self.last_tasks_fit(),
        ensures
            r == max(
                max(
                    last_task_size(
                        self.producer_chunk_size as int,
                        self.chunks_per_producer as int,
                    ),
                    last_task_size(
                        self.last_producer_chunk_size as int,
                        self.chunks_per_producer as int,
                    ),
                ),
                self.task_chunk_size as int,
            ),
            r == self.task_chunk_size,
    {
        proof {
            lemma_regions(self.total_size as int, self.num_producers as int);
            lemma_ceil_div_monotone(
                self.last_producer_chunk_size as int,
                self.producer_chunk_size as int,
                self.chunks_per_producer as int,
            );
        }
        let mut reserved: u64 = self.last_task_chunk_size();
        let last_last: u64 = self.last_last_prod_task_chunk_size();
        if last_last > reserved {
            reserved = last_last;
        }
        if self.task_chunk_size > reserved {
            reserved = self.task_chunk_size;
        }
        reserved
    }
}

/// The last chunk of a region is no larger than the full chunks before it.
pub proof fn lemma_last_task(size: int, chunks_per_producer: int)
    requires
        size >= 0,
        chunks_per_producer > 0,
    ensures
        last_task_size(size, chunks_per_producer) <= task_size(size, chunks_per_producer) <= size,
        0 <= (chunks_per_producer - 1) * task_size(size, chunks_per_producer),
{
    lemma_ceil_div(size, chunks_per_producer);
    let q = task_size(size, chunks_per_producer);
    assert((chunks_per_producer - 1) * q == q * chunks_per_producer - q) by (nonlinear_arith);
    assert(0 <= (chunks_per_producer - 1) * q) by (nonlinear_arith)
        requires
            chunks_per_producer > 0,
            q >= 0,
    ;
}

/// The regions do not shrink the file: the last one is no larger than the others.
pub proof fn lemma_regions(total_size: int, num_producers: int)
    requires
        total_size >= 0,
        num_producers > 0,
    ensures
        0 <= producer_chunk_size(total_size, num_producers) <= total_size,
        last_producer_chunk_size(total_size, num_producers) <= producer_chunk_size(
            total_size,
            num_producers,
        ),
{
    lemma_ceil_div(total_size, num_producers);
    let q = producer_chunk_size(total_size, num_producers);
    assert((num_producers - 1) * q == q * num_producers - q) by (nonlinear_arith);
}

} // verus!
