use vstd::prelude::*;
use crate::poll::{Poll, WakeHandle};
use crate::task::Task;

verus! {

/// Fan-in of several tasks: each poll advances every part that has not
/// finished, in listed order, and the whole is `Ready` once all parts are,
/// with their outputs in the order the parts were listed.
#[derive(Clone, Debug)]
pub struct JoinAll {
    pub parts: Vec<Task>,
}

pub open spec fn parts_wf(parts: Seq<Task>) -> bool {
    forall|i: int| 0 <= i < parts.len() ==> #[trigger] parts[i].wf()
}

pub open spec fn parts_finished(parts: Seq<Task>) -> bool {
    forall|i: int| 0 <= i < parts.len() ==> #[trigger] parts[i].finished()
}

/// Every part after one poll at `now`.
pub open spec fn parts_polled(parts: Seq<Task>, now: u64) -> Seq<Task> {
    parts.map_values(|t: Task| t.polled(now))
}

/// The lines that polling each part once at `now`, in order, prints.
pub open spec fn parts_printed(parts: Seq<Task>, now: u64) -> Seq<String>
    decreases parts.len(),
{
    if parts.len() == 0 {
        Seq::empty()
    } else {
        parts_printed(parts.drop_last(), now) + parts.last().printed(now)
    }
}

pub proof fn lemma_parts_polled_wf(parts: Seq<Task>, now: u64)
    requires
        parts_wf(parts),
    ensures
        parts_wf(parts_polled(parts, now)),
        parts_polled(parts, now).len() == parts.len(),
{
    assert forall|j: int| 0 <= j < parts.len() implies #[trigger] parts_polled(parts, now)[j].wf() by {
        parts[j].lemma_polled_wf(now);
    }
}

/// Finished parts stay as they are when polled again, and print nothing.
pub proof fn lemma_finished_parts_final(parts: Seq<Task>, now: u64)
    requires
        parts_finished(parts),
    ensures
        parts_polled(parts, now) == parts,
        parts_printed(parts, now) == Seq::<String>::empty(),
    decreases parts.len(),
{
    assert forall|j: int| 0 <= j < parts.len() implies #[trigger] parts_polled(parts, now)[j]
        == parts[j] by {
        parts[j].lemma_finished_is_final(now);
    }
    assert(parts_polled(parts, now) =~= parts);
    if parts.len() > 0 {
        let d = parts.drop_last();
        assert forall|j: int| 0 <= j < d.len() implies #[trigger] d[j].finished() by {
            assert(d[j] == parts[j]);
        }
        lemma_finished_parts_final(d, now);
        parts.last().lemma_finished_is_final(now);
        assert(parts_printed(parts, now) =~= Seq::<String>::empty());
    }
}

pub open spec fn parts_outputs(parts: Seq<Task>) -> Seq<u64> {
    parts.map_values(|t: Task| t.output)
}

/// Joins `parts`, which must not be empty.
pub fn join_all(parts: Vec<Task>) -> (r: JoinAll)
    requires
        parts@.len() >= 1,
    ensures
        r.parts == parts,
{
    JoinAll { parts }
}

impl JoinAll {
    pub open spec fn wf(&self) -> bool {
        self.parts@.len() >= 1 && parts_wf(self.parts@)
    }

    pub open spec fn finished(&self) -> bool {
        parts_finished(self.parts@)
    }

    pub fn is_finished(&self) -> (r: bool)
        ensures
            r == self.finished(),
    {
        let mut i: usize = 0;
        while i < self.parts.len()
            invariant
                i <= self.parts@.len(),
                forall|j: int| 0 <= j < i ==> #[trigger] self.parts@[j].finished(),
            decreases self.parts@.len() - i,
        {
            if !self.parts[i].is_finished() {
                return false;
            }
            i = i + 1;
        }
        true
    }

    /// Polls every unfinished part once at `now`, in listed order. A part that
    /// has finished is left alone, which is the same as polling it again.
    pub fn poll(&mut self, w: &WakeHandle, now: u64, log: &mut Vec<String>) -> (r: Poll<Vec<u64>>)
        requires
            old(self).wf(),
        ensures
            final(self).wf(),
            final(self).parts@ == parts_polled(old(self).parts@, now),
            final(log)@ == old(log)@ + parts_printed(old(self).parts@, now),
            match r {
                Poll::Ready(v) => final(self).finished() && v@ == parts_outputs(old(self).parts@),
                Poll::Pending => !final(self).finished(),
            },
            old(self).finished() ==> final(self).parts@ == old(self).parts@ && final(log)@ == old(
                log,
            )@,
    {
        proof {
            if self.finished() {
                lemma_finished_parts_final(self.parts@, now);
                assert(log@ =~= log@ + Seq::<String>::empty());
            }
        }
        let ghost orig = self.parts@;
        let ghost log0 = log@;
        let mut rest: Vec<Task> = Vec::new();
        std::mem::swap(&mut rest, &mut self.parts);
        let n = rest.len();
        let mut i: usize = 0;
        let mut all_done = true;
        while i < n
            invariant
                n == orig.len(),
                i <= n,
                parts_wf(orig),
                rest@ == orig.subrange(i as int, n as int),
                self.parts@ == parts_polled(orig.subrange(0, i as int), now),
                log@ == log0 + parts_printed(orig.subrange(0, i as int), now),
                all_done == parts_finished(self.parts@),
            decreases n - i,
        {
            let ghost before = log@;
            let mut t = rest.remove(0);
            assert(t == orig[i as int]);
            proof {
                t.lemma_polled_wf(now);
                if t.finished() {
                    t.lemma_finished_is_final(now);
                }
            }
            if !t.is_finished() {
                let _ = t.poll(w, now, log);
            } else {
                assert(log@ =~= before + t.printed(now));
            }
            all_done = all_done && t.is_finished();
            let ghost prev = self.parts@;
            self.parts.push(t);
            proof {
                assert(self.parts@ =~= prev.push(t));
                if !parts_finished(prev) {
                    let j = choose|j: int| 0 <= j < prev.len() && !#[trigger] prev[j].finished();
                    assert(!self.parts@[j].finished());
                }
                if !t.finished() {
                    assert(!self.parts@[prev.len() as int].finished());
                }
                let f = |t: Task| t.polled(now);
                assert(orig.subrange(0, i + 1).map_values(f) =~= orig.subrange(0, i as int).map_values(
                    f,
                ).push(f(orig[i as int])));
                assert(orig.subrange(0, i + 1).drop_last() =~= orig.subrange(0, i as int));
                assert(log@ =~= log0 + parts_printed(orig.subrange(0, i + 1), now));
                assert(rest@ =~= orig.subrange(i + 1, n as int));
            }
            i = i + 1;
        }
        proof {
            assert(orig.subrange(0, n as int) =~= orig);
            assert forall|j: int| 0 <= j < self.parts@.len() implies #[trigger] self.parts@[j].wf() by {
                orig[j].lemma_polled_wf(now);
            }
        }
        if !all_done {
            return Poll::Pending;
        }
        let mut out: Vec<u64> = Vec::new();
        let mut k: usize = 0;
        while k < self.parts.len()
            invariant
                k <= self.parts@.len(),
                self.parts@ == parts_polled(orig, now),
                parts_wf(orig),
                out@ == parts_outputs(self.parts@.subrange(0, k as int)),
            decreases self.parts@.len() - k,
        {
            out.push(self.parts[k].output);
            proof {
                let g = |t: Task| t.output;
                assert(self.parts@.subrange(0, k + 1).map_values(g) =~= self.parts@.subrange(
                    0,
                    k as int,
                ).map_values(g).push(g(self.parts@[k as int])));
            }
            k = k + 1;
        }
        proof {
            assert(self.parts@.subrange(0, k as int) =~= self.parts@);
            assert forall|j: int| 0 <= j < orig.len() implies parts_outputs(self.parts@)[j]
                == #[trigger] parts_outputs(orig)[j] by {
                orig[j].lemma_polled_wf(now);
            }
            assert(parts_outputs(self.parts@) =~= parts_outputs(orig));
        }
        Poll::Ready(out)
    }
}

} // verus!
