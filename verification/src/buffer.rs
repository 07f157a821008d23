//! Result aggregator: the shared, index-addressable output buffer. Workers
//! merge the lines of their own batch at their original indices; the buffer
//! can be serialized at any time as a snapshot, and is flushed to the final
//! output text only when the job was never cancelled.

use vstd::prelude::*;

verus! {

/// The buffer's lines joined with a newline between consecutive entries:
/// the snapshot serialization.
pub open spec fn join_nl(lines: Seq<String>) -> Seq<char>
    decreases lines.len(),
{
    if lines.len() == 0 {
        Seq::empty()
    } else if lines.len() == 1 {
        lines[0]@
    } else {
        lines[0]@ + seq!['\n'] + join_nl(lines.drop_first())
    }
}

/// The buffer's lines each followed by a newline: the final output file's
/// serialization (one line written per entry).
pub open spec fn join_term(lines: Seq<String>) -> Seq<char>
    decreases lines.len(),
{
    if lines.len() == 0 {
        Seq::empty()
    } else {
        lines[0]@ + seq!['\n'] + join_term(lines.drop_first())
    }
}

pub proof fn lemma_join_nl_snoc(lines: Seq<String>, x: String)
    ensures
        join_nl(lines.push(x)) == if lines.len() == 0 {
            x@
        } else {
            join_nl(lines) + seq!['\n'] + x@
        },
    decreases lines.len(),
{
    let p = lines.push(x);
    if lines.len() == 0 {
        assert(p.len() == 1);
        assert(p[0] == x);
    } else {
        lemma_join_nl_snoc(lines.drop_first(), x);
        assert(p.drop_first() =~= lines.drop_first().push(x));
        assert(p[0] == lines[0]);
        if lines.len() == 1 {
            assert(join_nl(lines) == lines[0]@);
        }
    }
}

proof fn lemma_join_term_snoc(lines: Seq<String>, x: String)
    ensures
        join_term(lines.push(x)) == join_term(lines) + x@ + seq!['\n'],
    decreases lines.len(),
{
    let p = lines.push(x);
    if lines.len() == 0 {
        assert(p.len() == 1);
        assert(p[0] == x);
        assert(p.drop_first() =~= Seq::<String>::empty());
        assert(join_term(Seq::<String>::empty()) =~= Seq::<char>::empty());
        assert(join_term(p) =~= x@ + seq!['\n']);
        assert(join_term(lines) + x@ + seq!['\n'] =~= x@ + seq!['\n']);
    } else {
        lemma_join_term_snoc(lines.drop_first(), x);
        assert(p.drop_first() =~= lines.drop_first().push(x));
        assert(p[0] == lines[0]);
        assert(join_term(p) == p[0]@ + seq!['\n'] + (join_term(lines.drop_first()) + x@
            + seq!['\n']));
        assert(join_term(p) =~= (lines[0]@ + seq!['\n'] + join_term(lines.drop_first())) + x@
            + seq!['\n']);
    }
}

/// Shared ordered output buffer: one entry per original input line, at its
/// original index, for the whole life of a job.
pub struct OutputBuffer {
    pub lines: Vec<String>,
}

impl OutputBuffer {
    /// Takes ownership of the seeded initial entries (see the partitioner).
    pub fn new(initial: Vec<String>) -> (r: Self)
        ensures
            r.lines@ == initial@,
    {
        OutputBuffer { lines: initial }
    }

    /// Number of entries; always the original input line count.
    pub fn len(&self) -> (r: usize)
        ensures
            r == self.lines@.len(),
    {
        self.lines.len()
    }

    /// Merges one batch's results: writes `texts[k]` at index `indices[k]`
    /// for every position of the batch, and touches nothing else. The
    /// buffer's length never changes, so it always equals the input line
    /// count.
    pub fn merge(&mut self, indices: &Vec<usize>, texts: &Vec<String>)
        requires
            indices@.len() == texts@.len(),
            forall|k: int| 0 <= k < indices@.len() ==> #[trigger] indices@[k]
                < old(self).lines@.len(),
            forall|k1: int, k2: int|
                0 <= k1 < k2 < indices@.len() ==> indices@[k1] != indices@[k2],
        ensures
            final(self).lines@.len() == old(self).lines@.len(),
            forall|k: int|
                0 <= k < indices@.len() ==> #[trigger] final(self).lines@[indices@[k] as int]
                    == texts@[k],
            forall|i: int|
                0 <= i < old(self).lines@.len() && !indices@.contains(i as usize)
                    ==> #[trigger] final(self).lines@[i] == old(self).lines@[i],
    {
        let n = indices.len();
        let mut k: usize = 0;
        while k < n
            invariant
                n == indices@.len(),
                indices@.len() == texts@.len(),
                k <= n,
                self.lines@.len() == old(self).lines@.len(),
                forall|t: int| 0 <= t < n ==> #[trigger] indices@[t] < self.lines@.len(),
                forall|t1: int, t2: int|
                    0 <= t1 < t2 < n ==> indices@[t1] != indices@[t2],
                forall|t: int|
                    0 <= t < k ==> #[trigger] self.lines@[indices@[t] as int] == texts@[t],
                forall|i: int|
                    0 <= i < old(self).lines@.len() && !indices@.subrange(0, k as int).contains(
                        i as usize,
                    ) ==> #[trigger] self.lines@[i] == old(self).lines@[i],
            decreases n - k,
        {
            let idx = indices[k];
            self.lines.set(idx, texts[k].clone());
            proof {
                assert forall|i: int|
                    0 <= i < old(self).lines@.len() && !indices@.subrange(
                        0,
                        k as int + 1,
                    ).contains(i as usize) implies #[trigger] self.lines@[i] == old(
                    self,
                ).lines@[i] by {
                    assert(indices@.subrange(0, k as int + 1)[k as int] == indices@[k as int]);
                    if i != idx {
                        assert(!indices@.subrange(0, k as int).contains(i as usize)) by {
                            if indices@.subrange(0, k as int).contains(i as usize) {
                                let t = choose|t: int|
                                    0 <= t < k && indices@.subrange(0, k as int)[t] == i as usize;
                                assert(indices@.subrange(0, k as int + 1)[t] == i as usize);
                            }
                        }
                    }
                }
            }
            k = k + 1;
        }
        proof {
            assert(indices@.subrange(0, n as int) =~= indices@);
        }
    }

    /// Serializes the whole current buffer, newline-separated: the snapshot
    /// written after every successful merge.
    pub fn snapshot_text(&self) -> (r: String)
        ensures
            r@ == join_nl(self.lines@),
    {
        let mut out = String::new();
        let mut i: usize = 0;
        proof {
            reveal_strlit("\n");
            assert(self.lines@.take(0) =~= Seq::<String>::empty());
        }
        while i < self.lines.len()
            invariant
                i <= self.lines@.len(),
                out@ == join_nl(self.lines@.take(i as int)),
            decreases self.lines@.len() - i,
        {
            if i > 0 {
                out.append("\n");
            }
            out.append(self.lines[i].as_str());
            proof {
                reveal_strlit("\n");
                let t = self.lines@.take(i as int);
                lemma_join_nl_snoc(t, self.lines@[i as int]);
                assert(self.lines@.take(i as int + 1) =~= t.push(self.lines@[i as int]));
                if i > 0 {
                    assert(out@ =~= join_nl(t) + seq!['\n'] + self.lines@[i as int]@);
                }
            }
            i = i + 1;
        }
        proof {
            assert(self.lines@.take(self.lines@.len() as int) =~= self.lines@);
        }
        out
    }

    /// The final output file's content — or nothing at all if the job was
    /// cancelled: once the stop flag was observed set, no permanent output
    /// is ever produced for that job.
    pub fn finalize(&self, stopped: bool) -> (r: Option<String>)
        ensures
            stopped ==> r is None,
            !stopped ==> (r matches Some(s) && s@ == join_term(self.lines@)),
    {
        if stopped {
            return None;
        }
        let mut out = String::new();
        let mut i: usize = 0;
        proof {
            reveal_strlit("\n");
            assert(self.lines@.take(0) =~= Seq::<String>::empty());
        }
        while i < self.lines.len()
            invariant
                i <= self.lines@.len(),
                out@ == join_term(self.lines@.take(i as int)),
            decreases self.lines@.len() - i,
        {
            out.append(self.lines[i].as_str());
            out.append("\n");
            proof {
                reveal_strlit("\n");
                let t = self.lines@.take(i as int);
                lemma_join_term_snoc(t, self.lines@[i as int]);
                assert(self.lines@.take(i as int + 1) =~= t.push(self.lines@[i as int]));
                assert(out@ =~= join_term(t) + self.lines@[i as int]@ + seq!['\n']);
            }
            i = i + 1;
        }
        proof {
            assert(self.lines@.take(self.lines@.len() as int) =~= self.lines@);
        }
        Some(out)
    }
}


impl OutputBuffer {
    /// Checked merge for callers outside the verified core: verifies at run
    /// time that the batch is well-formed (one text per index, all indices
    /// in range and distinct) and merges only then; reports whether it did.
    pub fn try_merge(&mut self, indices: &Vec<usize>, texts: &Vec<String>) -> (merged: bool)
        ensures
            merged == (indices@.len() == texts@.len() && (forall|k: int|
                0 <= k < indices@.len() ==> #[trigger] indices@[k] < old(self).lines@.len())
                && (forall|k1: int, k2: int|
                0 <= k1 < k2 < indices@.len() ==> indices@[k1] != indices@[k2])),
            final(self).lines@.len() == old(self).lines@.len(),
            !merged ==> final(self).lines@ == old(self).lines@,
            merged ==> forall|k: int|
                0 <= k < indices@.len() ==> #[trigger] final(self).lines@[indices@[k] as int]
                    == texts@[k],
            merged ==> forall|i: int|
                0 <= i < old(self).lines@.len() && !indices@.contains(i as usize)
                    ==> #[trigger] final(self).lines@[i] == old(self).lines@[i],
    {
        if indices.len() != texts.len() {
            return false;
        }
        let n = indices.len();
        let mut k: usize = 0;
        while k < n
            invariant
                k <= n,
                n == indices@.len(),
                self.lines@ == old(self).lines@,
                forall|t: int| 0 <= t < k ==> #[trigger] indices@[t] < self.lines@.len(),
                forall|t1: int, t2: int|
                    0 <= t1 < t2 < n && t1 < k ==> indices@[t1] != indices@[t2],
            decreases n - k,
        {
            if indices[k] >= self.lines.len() {
                return false;
            }
            let mut k2: usize = k + 1;
            while k2 < n
                invariant
                    k < k2 <= n,
                    n == indices@.len(),
                    self.lines@ == old(self).lines@,
                    forall|t: int| k < t < k2 ==> indices@[k as int] != #[trigger] indices@[t],
                decreases n - k2,
            {
                if indices[k] == indices[k2] {
                    return false;
                }
                k2 = k2 + 1;
            }
            k = k + 1;
        }
        self.merge(indices, texts);
        true
    }
}

} // verus!
