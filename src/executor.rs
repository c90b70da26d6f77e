use vstd::prelude::*;
use std::collections::VecDeque;
use crate::job::{Job, JobView};
use crate::poll::WakeHandle;

verus! {

/// One scheduler turn on the queue `q` at the clock reading `now`: the front
/// job is polled once, dropped if it finished and put at the back otherwise.
/// Gives the new queue and the lines printed; an empty queue stays as it is.
pub open spec fn tick(q: Seq<JobView>, now: u64) -> (Seq<JobView>, Seq<String>) {
    if q.len() == 0 {
        (q, Seq::empty())
    } else {
        let j = q[0].polled(now);
        let rest = q.drop_first();
        (if j.finished() { rest } else { rest.push(j) }, q[0].printed(now))
    }
}

/// Turns taken one after another, at the readings `nows`.
pub open spec fn ticks(q: Seq<JobView>, nows: Seq<u64>) -> (Seq<JobView>, Seq<String>)
    decreases nows.len(),
{
    if nows.len() == 0 {
        (q, Seq::empty())
    } else {
        let a = ticks(q, nows.drop_last());
        let b = tick(a.0, nows.last());
        (b.0, a.1 + b.1)
    }
}

pub open spec fn queue_wf(q: Seq<JobView>) -> bool {
    forall|i: int| 0 <= i < q.len() ==> #[trigger] q[i].wf()
}

/// A run of `nows.len()` turns from `q0` that ends in `q1` having printed
/// `printed`, where the queue was not empty before any of those turns.
pub open spec fn ran(q0: Seq<JobView>, nows: Seq<u64>, q1: Seq<JobView>, printed: Seq<String>) -> bool {
    &&& ticks(q0, nows) == (q1, printed)
    &&& forall|k: int| 0 <= k < nows.len() ==> (#[trigger] ticks(q0, nows.take(k))).0.len() > 0
}

proof fn lemma_tick_wf(q: Seq<JobView>, now: u64)
    requires
        queue_wf(q),
    ensures
        queue_wf(tick(q, now).0),
{
    if q.len() > 0 {
        q[0].lemma_polled_wf(now);
    }
}

/// The executor: a FIFO queue of top-level jobs, polled round-robin.
pub struct MiniRuntime {
    queue: VecDeque<Job>,
}

impl View for MiniRuntime {
    type V = Seq<JobView>;

    closed spec fn view(&self) -> Seq<JobView> {
        self.queue@.map_values(|j: Job| j@)
    }
}

impl MiniRuntime {
    pub open spec fn wf(&self) -> bool {
        queue_wf(self@)
    }

    pub fn new() -> (r: MiniRuntime)
        ensures
            r@ == Seq::<JobView>::empty(),
            r.wf(),
    {
        let r = MiniRuntime { queue: VecDeque::new() };
        assert(r@ =~= Seq::<JobView>::empty());
        r
    }

    /// Puts `job` at the back of the queue.
    pub fn spawn(&mut self, job: Job)
        requires
            job@.wf(),
        ensures
            final(self)@ == old(self)@.push(job@),
            final(self).wf() == old(self).wf(),
    {
        self.queue.push_back(job);
        assert(self@ =~= old(self)@.push(job@));
        assert(forall|i: int| 0 <= i < old(self)@.len() ==> self@[i] == old(self)@[i]);
    }

    pub fn len(&self) -> (r: usize)
        ensures
            r == self@.len(),
    {
        self.queue.len()
    }

    pub fn is_idle(&self) -> (r: bool)
        ensures
            r == (self@.len() == 0),
    {
        self.queue.len() == 0
    }

    /// One scheduler turn at the clock reading `now`; true when a job was
    /// polled, false when the queue was empty.
    pub fn tick(&mut self, now: u64, log: &mut Vec<String>) -> (r: bool)
        requires
            old(self).wf(),
        ensures
            final(self).wf(),
            final(self)@ == tick(old(self)@, now).0,
            final(log)@ == old(log)@ + tick(old(self)@, now).1,
            r == (old(self)@.len() > 0),
    {
        proof {
            lemma_tick_wf(self@, now);
        }
        let ghost q = self@;
        match self.queue.pop_front() {
            None => {
                assert(log@ =~= log@ + Seq::<String>::empty());
                false
            },
            Some(job) => {
                let mut job = job;
                assert(self@ =~= q.drop_first());
                let w = WakeHandle::new();
                let done = job.poll(&w, now, log);
                if !done {
                    self.queue.push_back(job);
                    assert(self@ =~= q.drop_first().push(job@));
                }
                true
            },
        }
    }

    /// Takes turns until the queue is empty or `budget` polls have been made,
    /// reading `clock` before each poll. Gives the number of polls made: each
    /// was a turn on a non-empty queue, at a reading the clock gave.
    pub fn run<F: Fn() -> u64>(&mut self, clock: F, budget: u64, log: &mut Vec<String>) -> (polls: u64)
        requires
            old(self).wf(),
            call_requires(clock, ()),
        ensures
            final(self).wf(),
            polls <= budget,
            polls == budget || final(self)@.len() == 0,
            exists|nows: Seq<u64>|
                nows.len() == polls && (forall|k: int|
                    0 <= k < nows.len() ==> call_ensures(clock, (), #[trigger] nows[k])) && #[trigger] ran(
                    old(self)@,
                    nows,
                    final(self)@,
                    final(log)@.subrange(old(log)@.len() as int, final(log)@.len() as int),
                ),
            final(log)@.len() >= old(log)@.len(),
            final(log)@.subrange(0, old(log)@.len() as int) == old(log)@,
    {
        let ghost q0 = self@;
        let ghost log0 = log@;
        let ghost mut nows: Seq<u64> = Seq::empty();
        let mut polls: u64 = 0;
        while polls < budget && self.queue.len() > 0
            invariant
                self.wf(),
                call_requires(clock, ()),
                polls <= budget,
                nows.len() == polls,
                forall|k: int| 0 <= k < nows.len() ==> call_ensures(clock, (), #[trigger] nows[k]),
                ticks(q0, nows).0 == self@,
                log@ == log0 + ticks(q0, nows).1,
                forall|k: int| 0 <= k < nows.len() ==> (#[trigger] ticks(q0, nows.take(k))).0.len() > 0,
            decreases budget - polls,
        {
            let now = clock();
            let ghost before = self@;
            self.tick(now, log);
            proof {
                let next = nows.push(now);
                assert(next.drop_last() =~= nows);
                assert(next.take(nows.len() as int) =~= nows);
                assert forall|k: int| 0 <= k < next.len() implies (#[trigger] ticks(
                    q0,
                    next.take(k),
                )).0.len() > 0 by {
                    if k < nows.len() {
                        assert(next.take(k) =~= nows.take(k));
                    }
                }
                assert(log@ =~= log0 + ticks(q0, next).1);
                assert(forall|k: int| 0 <= k < nows.len() ==> next[k] == nows[k]);
                nows = next;
            }
            polls = polls + 1;
        }
        proof {
            assert(log@.subrange(0, log0.len() as int) =~= log0);
            assert(log@.subrange(log0.len() as int, log@.len() as int) =~= ticks(q0, nows).1);
            assert(ran(q0, nows, self@, log@.subrange(log0.len() as int, log@.len() as int)));
        }
        polls
    }
}

} // verus!
