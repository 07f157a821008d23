//! One translation job: the batches, the shared output buffer, and the
//! proof that ties them together — every line index belongs to exactly one
//! batch slot, so merging a batch writes exactly the indices the
//! partitioner assigned to it and the buffer's length never changes.

use crate::buffer::OutputBuffer;
use crate::partition::{initial_entry, initial_output, lemma_batches_partition,
    lemma_batch_indices_unique, make_batches, spec_has_header, spec_start, work_items, WorkItem};
use vstd::math::min;
use vstd::prelude::*;

verus! {

/// The indices one batch writes at, in batch order.
pub open spec fn batch_index_seq(batch: Seq<WorkItem>) -> Seq<usize> {
    Seq::new(batch.len(), |j: int| batch[j].index)
}

/// Created once per invocation of the translation operation; owned by the
/// dispatcher for its duration.
pub struct TranslationJob {
    pub batches: Vec<Vec<WorkItem>>,
    pub buffer: OutputBuffer,
    pub total_batches: usize,
    pub items: Ghost<Seq<WorkItem>>,
    pub eff_batch_size: Ghost<int>,
    pub start: Ghost<int>,
}

impl TranslationJob {
    /// The job's structural invariant: the batches are the partitioner's
    /// disjoint, contiguous cover of the work items, whose indices run
    /// consecutively from `start` and all lie inside the buffer.
    pub open spec fn wf(&self) -> bool {
        let items = self.items@;
        let bs = self.eff_batch_size@;
        let start = self.start@;
        &&& bs >= 1
        &&& 0 <= start
        &&& self.total_batches == self.batches@.len()
        &&& (items.len() == 0 ==> self.batches@.len() == 0)
        &&& (items.len() > 0 ==> (self.batches@.len() - 1) * bs < items.len()
            <= self.batches@.len() * bs)
        &&& forall|b: int|
            0 <= b < self.batches@.len() ==> #[trigger] self.batches@[b]@.len() == min(
                bs,
                items.len() - b * bs,
            )
        &&& forall|b: int, j: int|
            0 <= b < self.batches@.len() && 0 <= j < self.batches@[b]@.len()
                ==> #[trigger] self.batches@[b]@[j] == items[b * bs + j]
        &&& forall|k: int|
            0 <= k < items.len() ==> #[trigger] items[k].index == start + k
        &&& start + items.len() <= self.buffer.lines@.len()
    }

    /// Plans a job from the raw input lines: seeds the buffer (one entry
    /// per input line) and slices the work items into batches.
    pub fn plan(raw_lines: &Vec<String>, batch_size: usize) -> (r: TranslationJob)
        ensures
            r.wf(),
            r.buffer.lines@.len() == raw_lines@.len(),
            spec_has_header(raw_lines@) ==> r.buffer.lines@[0]@ == raw_lines@[0]@,
            forall|i: int|
                spec_start(raw_lines@) <= i < raw_lines@.len() ==> #[trigger] r.buffer.lines@[i]@
                    == initial_entry(raw_lines@[i]@),
            r.start@ == spec_start(raw_lines@),
            r.eff_batch_size@ == if batch_size == 0 {
                1int
            } else {
                batch_size as int
            },
            r.items@.len() == raw_lines@.len() - spec_start(raw_lines@),
            forall|k: int|
                0 <= k < r.items@.len() ==> #[trigger] r.items@[k].line@ == raw_lines@[
                    spec_start(raw_lines@) + k]@,
            r.total_batches == r.batches@.len(),
    {
        let seeded = initial_output(raw_lines);
        let items = work_items(raw_lines);
        let batches = make_batches(&items, batch_size);
        let total_batches = batches.len();
        let ghost eff: int = if batch_size == 0 {
            1
        } else {
            batch_size as int
        };
        TranslationJob {
            batches,
            buffer: OutputBuffer::new(seeded),
            total_batches,
            items: Ghost(items@),
            eff_batch_size: Ghost(eff),
            start: Ghost(spec_start(raw_lines@)),
        }
    }

    /// Merges one batch's result lines: writes `texts[j]` at the original
    /// index of the batch's `j`-th work item — exactly the indices the
    /// partitioner assigned to batch `b`, each at most once — and touches
    /// no other entry. The buffer keeps its length.
    pub fn merge_batch(&mut self, b: usize, texts: &Vec<String>)
        requires
            old(self).wf(),
            b < old(self).batches@.len(),
            texts@.len() == old(self).batches@[b as int]@.len(),
        ensures
            final(self).wf(),
            final(self).batches == old(self).batches,
            final(self).total_batches == old(self).total_batches,
            final(self).items == old(self).items,
            final(self).eff_batch_size == old(self).eff_batch_size,
            final(self).start == old(self).start,
            final(self).buffer.lines@.len() == old(self).buffer.lines@.len(),
            forall|j: int|
                0 <= j < texts@.len() ==> #[trigger] final(self).buffer.lines@[old(
                    self,
                ).batches@[b as int]@[j].index as int] == texts@[j],
            forall|i: int|
                0 <= i < old(self).buffer.lines@.len() && !batch_index_seq(
                    old(self).batches@[b as int]@,
                ).contains(i as usize) ==> #[trigger] final(self).buffer.lines@[i] == old(
                    self,
                ).buffer.lines@[i],
    {
        let batch: &Vec<WorkItem> = &self.batches[b];
        let indices = crate::partition::batch_indices(batch);
        proof {
            let items = self.items@;
            let bs = self.eff_batch_size@;
            let start = self.start@;
            lemma_batches_partition(
                self.batches@.map_values(|v: Vec<WorkItem>| v@),
                items,
                bs,
            );
            lemma_batch_indices_unique(
                self.batches@.map_values(|v: Vec<WorkItem>| v@),
                items,
                bs,
                start,
            );
            let bv = self.batches@.map_values(|v: Vec<WorkItem>| v@);
            assert(bv[b as int] == self.batches@[b as int]@);
            assert forall|j: int| 0 <= j < indices@.len() implies #[trigger] indices@[j]
                < self.buffer.lines@.len() by {
                assert(bv[b as int][j] == items[b * bs + j]);
                assert(self.batches@[b as int]@.len() == min(bs, items.len() - b * bs));
                assert(b * bs + j < items.len());
                assert(items[b * bs + j].index == start + (b * bs + j));
                assert(indices@[j] == self.batches@[b as int]@[j].index);
            }
            assert forall|j1: int, j2: int| 0 <= j1 < j2 < indices@.len() implies indices@[j1]
                != indices@[j2] by {
                assert(bv[b as int][j1].index == indices@[j1]);
                assert(bv[b as int][j2].index == indices@[j2]);
            }
            assert(batch_index_seq(self.batches@[b as int]@) =~= indices@);
        }
        self.buffer.merge(&indices, texts);
        proof {
            assert forall|j: int| 0 <= j < texts@.len() implies #[trigger] self.buffer.lines@[old(
                self,
            ).batches@[b as int]@[j].index as int] == texts@[j] by {
                assert(indices@[j] == old(self).batches@[b as int]@[j].index);
                assert(self.buffer.lines@[indices@[j] as int] == texts@[j]);
            }
        }
    }
}

} // verus!
