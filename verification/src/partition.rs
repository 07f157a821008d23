//! Line model and partitioner: raw input lines become identified work items,
//! the initial output buffer is seeded (placeholders for translatable lines,
//! raw pass-through for the rest), and the work items are sliced into
//! contiguous, fixed-size, order-preserving batches.

use crate::lines::{has_sep, line_id, sep_at, sep_seq, format_line, trim_str, split_line};
use vstd::arithmetic::div_mod::{lemma_fundamental_div_mod, lemma_mod_bound};
use vstd::math::min;
use vstd::prelude::*;

verus! {

/// One input line together with its stable position in the original file.
pub struct WorkItem {
    pub index: usize,
    pub line: String,
}

/// A first line carrying ID `0` is a header row: preserved verbatim and
/// excluded from translation.
pub open spec fn header_line(first: Seq<char>) -> bool {
    first.len() >= 4 && first[0] == '0' && sep_at(first, 1)
}

/// Whether the input starts with a header row.
pub open spec fn spec_has_header(raw: Seq<String>) -> bool {
    raw.len() > 0 && header_line(raw[0]@)
}

/// Position of the first translatable line: `1` past a header row, else `0`.
pub open spec fn spec_start(raw: Seq<String>) -> int {
    if spec_has_header(raw) {
        1
    } else {
        0
    }
}

/// The seed the output buffer gets for one work-item line: translatable
/// lines are reset to their trimmed ID followed by the bare separator (so a
/// snapshot taken before their batch completes reads "not yet translated");
/// lines without a separator pass through unchanged.
pub open spec fn initial_entry(line: Seq<char>) -> Seq<char> {
    if has_sep(line) {
        line_id(line) + sep_seq()
    } else {
        line
    }
}

/// True when the input starts with a header row (first line `0:::...`).
pub fn has_header(raw: &Vec<String>) -> (r: bool)
    ensures
        r == spec_has_header(raw@),
{
    if raw.len() == 0 {
        return false;
    }
    let first: &String = &raw[0];
    let s = first.as_str();
    let n = s.unicode_len();
    if n < 4 {
        return false;
    }
    s.get_char(0) == '0' && s.get_char(1) == ':' && s.get_char(2) == ':' && s.get_char(3) == ':'
}

/// Seeds the output buffer from the raw input lines: one entry per input
/// line, in order — the header row (if any) verbatim, every other line its
/// `initial_entry`. The buffer therefore always has exactly as many entries
/// as the input has lines.
pub fn initial_output(raw: &Vec<String>) -> (r: Vec<String>)
    ensures
        r@.len() == raw@.len(),
        spec_has_header(raw@) ==> r@[0]@ == raw@[0]@,
        forall|i: int|
            spec_start(raw@) <= i < raw@.len() ==> #[trigger] r@[i]@ == initial_entry(raw@[i]@),
{
    let mut out: Vec<String> = Vec::new();
    let mut i: usize = 0;
    if has_header(raw) {
        out.push(raw[0].clone());
        i = 1;
    }
    while i < raw.len()
        invariant
            out@.len() == i,
            i <= raw@.len(),
            i >= spec_start(raw@),
            spec_has_header(raw@) && i > 0 ==> out@[0]@ == raw@[0]@,
            forall|j: int|
                spec_start(raw@) <= j < i ==> #[trigger] out@[j]@ == initial_entry(raw@[j]@),
        decreases raw@.len() - i,
    {
        let line: &String = &raw[i];
        match split_line(line.as_str()) {
            Some(parts) => {
                let id = trim_str(parts.0.as_str());
                let entry = format_line(id.as_str(), "");
                proof {
                    reveal_strlit("");
                    assert(entry@ =~= line_id(line@) + sep_seq());
                }
                out.push(entry);
            },
            None => {
                out.push(line.clone());
            },
        }
        i = i + 1;
    }
    out
}

/// Pairs every translatable input line (everything past the header row)
/// with its stable index in the original file.
pub fn work_items(raw: &Vec<String>) -> (r: Vec<WorkItem>)
    ensures
        r@.len() == raw@.len() - spec_start(raw@),
        forall|k: int|
            #![trigger r@[k]]
            0 <= k < r@.len() ==> r@[k].index == spec_start(raw@) + k && r@[k].line@ == raw@[
                spec_start(raw@) + k]@,
{
    let mut out: Vec<WorkItem> = Vec::new();
    let mut i: usize = if has_header(raw) {
        1
    } else {
        0
    };
    while i < raw.len()
        invariant
            spec_start(raw@) <= i,
            i <= raw@.len() || i == spec_start(raw@),
            out@.len() == i - spec_start(raw@),
            forall|k: int|
                #![trigger out@[k]]
                0 <= k < out@.len() ==> out@[k].index == spec_start(raw@) + k && out@[k].line@
                    == raw@[spec_start(raw@) + k]@,
        decreases raw@.len() - i,
    {
        let line = raw[i].clone();
        proof {
            assert(line@ == raw@[i as int]@);
        }
        out.push(WorkItem { index: i, line });
        proof {
            let k = out@.len() - 1;
            assert(out@[k].index == i);
            assert(out@[k].line@ == raw@[i as int]@);
            assert(spec_start(raw@) + k == i);
        }
        i = i + 1;
    }
    out
}

/// Slices the work items into batches: contiguous, order-preserving chunks
/// of `batch_size` items (minimum 1), the last possibly shorter. Batch `b`
/// holds exactly the items at positions `b * size .. b * size + len(b)`, so
/// the batches are a disjoint cover of the work-item sequence.
pub fn make_batches(items: &Vec<WorkItem>, batch_size: usize) -> (r: Vec<Vec<WorkItem>>)
    ensures
        ({
            let bs = if batch_size == 0 {
                1int
            } else {
                batch_size as int
            };
            let n = items@.len() as int;
            &&& (n == 0 ==> r@.len() == 0)
            &&& (n > 0 ==> (r@.len() - 1) * bs < n <= r@.len() * bs)
            &&& forall|b: int|
                0 <= b < r@.len() ==> #[trigger] r@[b]@.len() == min(bs, n - b * bs)
            &&& forall|b: int, j: int|
                0 <= b < r@.len() && 0 <= j < r@[b]@.len() ==> #[trigger] r@[b]@[j] == items@[b
                    * bs + j]
        }),
{
    let bs: usize = if batch_size == 0 {
        1
    } else {
        batch_size
    };
    let n = items.len();
    let mut out: Vec<Vec<WorkItem>> = Vec::new();
    let mut pos: usize = 0;
    proof {
        assert(out@.len() * (bs as int) == 0) by (nonlinear_arith)
            requires
                out@.len() == 0,
        ;
    }
    while pos < n
        invariant
            bs >= 1,
            n == items@.len(),
            pos <= n,
            pos == min(out@.len() * (bs as int), n as int),
            out@.len() * (bs as int) < n as int + bs as int,
            forall|b: int|
                0 <= b < out@.len() ==> #[trigger] out@[b]@.len() == min(
                    bs as int,
                    n as int - b * bs,
                ),
            forall|b: int, j: int|
                0 <= b < out@.len() && 0 <= j < out@[b]@.len() ==> #[trigger] out@[b]@[j]
                    == items@[b * bs + j],
        decreases n - pos,
    {
        let end: usize = if n - pos > bs {
            pos + bs
        } else {
            n
        };
        let mut chunk: Vec<WorkItem> = Vec::new();
        let mut k: usize = pos;
        while k < end
            invariant
                pos <= k <= end <= n,
                n == items@.len(),
                chunk@.len() == k - pos,
                forall|t: int|
                    0 <= t < chunk@.len() ==> #[trigger] chunk@[t] == items@[pos + t],
            decreases end - k,
        {
            let item: &WorkItem = &items[k];
            chunk.push(WorkItem { index: item.index, line: item.line.clone() });
            k = k + 1;
        }
        proof {
            let b = out@.len() as int;
            let bs_i = bs as int;
            assert(pos == b * bs_i) by {
                assert(pos == min(b * bs_i, n as int));
                assert(pos < n);
            }
            assert((b + 1) * bs_i == b * bs_i + bs_i) by (nonlinear_arith);
        }
        out.push(chunk);
        pos = end;
    }
    proof {
        let bs_i = bs as int;
        let m = out@.len() as int;
        if n == 0 {
            assert(m == 0) by (nonlinear_arith)
                requires
                    m * bs_i < bs_i,
                    bs_i >= 1,
                    m >= 0,
            ;
        } else {
            assert(pos == min(m * bs_i, n as int));
            assert(n as int <= m * bs_i);
            assert((m - 1) * bs_i == m * bs_i - bs_i) by (nonlinear_arith);
        }
    }
    out
}

/// Partition law: every work-item position `k` lies in exactly one batch
/// slot — batch `k / size`, offset `k % size` — so the items a batch
/// carries are exactly the items the partitioner assigned to it.
pub proof fn lemma_batches_partition(batches: Seq<Seq<WorkItem>>, items: Seq<WorkItem>, bs: int)
    requires
        bs >= 1,
        items.len() == 0 ==> batches.len() == 0,
        items.len() > 0 ==> (batches.len() - 1) * bs < items.len() <= batches.len() * bs,
        forall|b: int|
            0 <= b < batches.len() ==> #[trigger] batches[b].len() == min(
                bs,
                items.len() - b * bs,
            ),
        forall|b: int, j: int|
            0 <= b < batches.len() && 0 <= j < batches[b].len() ==> #[trigger] batches[b][j]
                == items[b * bs + j],
    ensures
        forall|k: int|
            #![trigger k / bs]
            0 <= k < items.len() ==> 0 <= k / bs < batches.len() && 0 <= k % bs < batches[k
                / bs].len() && batches[k / bs][k % bs] == items[k],
{
    assert forall|k: int|
        #![trigger k / bs]
        0 <= k < items.len() implies 0 <= k / bs < batches.len() && 0 <= k % bs < batches[k
        / bs].len() && batches[k / bs][k % bs] == items[k] by {
        let b = k / bs;
        let j = k % bs;
        lemma_fundamental_div_mod(k, bs);
        lemma_mod_bound(k, bs);
        assert(k == bs * b + j);
        assert(bs * b == b * bs) by (nonlinear_arith);
        assert(b >= 0) by (nonlinear_arith)
            requires
                k >= 0,
                bs >= 1,
                j < bs,
                k == b * bs + j,
        ;
        assert(b < batches.len()) by (nonlinear_arith)
            requires
                k < items.len(),
                items.len() <= batches.len() * bs,
                bs >= 1,
                j >= 0,
                k == b * bs + j,
        ;
        assert(batches[b].len() == min(bs, items.len() - b * bs));
        assert(j < batches[b].len());
        assert(batches[b][j] == items[b * bs + j]);
        assert(batches[b][j] == items[k]);
    }
}

/// No line index is handed to two different batch slots: with work items
/// indexed consecutively from `start`, distinct slots carry distinct line
/// indices, so no index can be merged twice within one job.
pub proof fn lemma_batch_indices_unique(
    batches: Seq<Seq<WorkItem>>,
    items: Seq<WorkItem>,
    bs: int,
    start: int,
)
    requires
        bs >= 1,
        items.len() == 0 ==> batches.len() == 0,
        items.len() > 0 ==> (batches.len() - 1) * bs < items.len() <= batches.len() * bs,
        forall|b: int|
            0 <= b < batches.len() ==> #[trigger] batches[b].len() == min(
                bs,
                items.len() - b * bs,
            ),
        forall|b: int, j: int|
            0 <= b < batches.len() && 0 <= j < batches[b].len() ==> #[trigger] batches[b][j]
                == items[b * bs + j],
        forall|k: int| 0 <= k < items.len() ==> #[trigger] items[k].index == start + k,
    ensures
        forall|b1: int, j1: int, b2: int, j2: int|
            #![trigger batches[b1][j1].index, batches[b2][j2].index]
            0 <= b1 < batches.len() && 0 <= j1 < batches[b1].len() && 0 <= b2 < batches.len()
                && 0 <= j2 < batches[b2].len() && (b1 != b2 || j1 != j2)
                ==> batches[b1][j1].index != batches[b2][j2].index,
{
    assert forall|b1: int, j1: int, b2: int, j2: int|
        #![trigger batches[b1][j1].index, batches[b2][j2].index]
        0 <= b1 < batches.len() && 0 <= j1 < batches[b1].len() && 0 <= b2 < batches.len() && 0
            <= j2 < batches[b2].len() && (b1 != b2 || j1 != j2) implies batches[b1][j1].index
        != batches[b2][j2].index by {
        let k1 = b1 * bs + j1;
        let k2 = b2 * bs + j2;
        assert(j1 < bs && j2 < bs);
        assert(0 <= k1 < items.len()) by (nonlinear_arith)
            requires
                0 <= b1,
                0 <= j1,
                bs >= 1,
                j1 < items.len() - b1 * bs,
                k1 == b1 * bs + j1,
        ;
        assert(0 <= k2 < items.len()) by (nonlinear_arith)
            requires
                0 <= b2,
                0 <= j2,
                bs >= 1,
                j2 < items.len() - b2 * bs,
                k2 == b2 * bs + j2,
        ;
        assert(k1 != k2) by (nonlinear_arith)
            requires
                b1 != b2 || j1 != j2,
                0 <= j1 < bs,
                0 <= j2 < bs,
                k1 == b1 * bs + j1,
                k2 == b2 * bs + j2,
        ;
        assert(batches[b1][j1] == items[k1]);
        assert(batches[b2][j2] == items[k2]);
        assert(items[k1].index == start + k1);
        assert(items[k2].index == start + k2);
    }
}


/// The original-file indices of one batch, in batch order: what the merge
/// writes at.
pub fn batch_indices(batch: &Vec<WorkItem>) -> (r: Vec<usize>)
    ensures
        r@.len() == batch@.len(),
        forall|k: int| 0 <= k < r@.len() ==> #[trigger] r@[k] == batch@[k].index,
{
    let mut out: Vec<usize> = Vec::new();
    let mut k: usize = 0;
    while k < batch.len()
        invariant
            k <= batch@.len(),
            out@.len() == k,
            forall|t: int| 0 <= t < k ==> #[trigger] out@[t] == batch@[t].index,
        decreases batch@.len() - k,
    {
        out.push(batch[k].index);
        k = k + 1;
    }
    out
}

/// The raw lines of one batch, in batch order: what one API request
/// carries.
pub fn batch_lines(batch: &Vec<WorkItem>) -> (r: Vec<String>)
    ensures
        r@.len() == batch@.len(),
        forall|k: int| 0 <= k < r@.len() ==> #[trigger] r@[k]@ == batch@[k].line@,
{
    let mut out: Vec<String> = Vec::new();
    let mut k: usize = 0;
    while k < batch.len()
        invariant
            k <= batch@.len(),
            out@.len() == k,
            forall|t: int| 0 <= t < k ==> #[trigger] out@[t]@ == batch@[t].line@,
        decreases batch@.len() - k,
    {
        out.push(batch[k].line.clone());
        k = k + 1;
    }
    out
}

} // verus!
