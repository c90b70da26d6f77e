use vstd::prelude::*;
use crate::poll::{Poll, WakeHandle};
use crate::primitives::{sleep, yield_now, Sleep, YieldNow};

verus! {

/// One instruction of a task body: a line of output, or a suspension point.
#[derive(Clone, Debug, PartialEq, Eq)]
pub enum Step {
    Print(String),
    Yield,
    Sleep(u64),
}

/// The suspension point a task is stopped at, if any.
#[derive(Clone, Copy, Debug, PartialEq, Eq)]
pub enum Suspension {
    Idle,
    Yielding(YieldNow),
    Sleeping(Sleep),
}

/// A suspendable computation: a body of steps, the index of the step it has
/// reached, the suspension point it waits on there, and the value it finishes
/// with.
#[derive(Clone, Debug)]
pub struct Task {
    pub steps: Vec<Step>,
    pub pc: usize,
    pub waiting: Suspension,
    pub output: u64,
}

/// Runs the body from step `q` at the clock reading `now` up to the next
/// suspension point that does not clear at once: the step reached, what it
/// waits on there, and the lines printed on the way.
pub open spec fn resume(steps: Seq<Step>, q: int, now: u64) -> (int, Suspension, Seq<String>)
    decreases steps.len() - q,
{
    if q < 0 || q >= steps.len() {
        (steps.len() as int, Suspension::Idle, Seq::empty())
    } else {
        match steps[q] {
            Step::Print(s) => {
                let r = resume(steps, q + 1, now);
                (r.0, r.1, seq![s] + r.2)
            },
            Step::Yield => (q, Suspension::Yielding(YieldNow { polled: true }), Seq::empty()),
            Step::Sleep(d) => {
                let s = Sleep { start: now, duration: d };
                if s.deadline_passed(now) {
                    resume(steps, q + 1, now)
                } else {
                    (q, Suspension::Sleeping(s), Seq::empty())
                }
            },
        }
    }
}

proof fn lemma_resume_bounds(steps: Seq<Step>, q: int, now: u64)
    requires
        0 <= q <= steps.len(),
    ensures
        q <= resume(steps, q, now).0 <= steps.len(),
        (resume(steps, q, now).0 == steps.len()) == (resume(steps, q, now).1 is Idle),
    decreases steps.len() - q,
{
    if q < steps.len() {
        lemma_resume_bounds(steps, q + 1, now);
    }
}

impl Task {
    pub open spec fn wf(&self) -> bool {
        &&& self.pc <= self.steps@.len()
        &&& !(self.waiting is Idle) ==> self.pc < self.steps@.len()
    }

    pub open spec fn finished(&self) -> bool {
        self.pc == self.steps@.len() && self.waiting is Idle
    }

    /// Where one poll at `now` leaves the body: step, suspension, lines printed.
    pub open spec fn advance(&self, now: u64) -> (int, Suspension, Seq<String>) {
        match self.waiting {
            Suspension::Idle => resume(self.steps@, self.pc as int, now),
            Suspension::Yielding(y) => if y.polled {
                resume(self.steps@, self.pc + 1, now)
            } else {
                (self.pc as int, Suspension::Yielding(YieldNow { polled: true }), Seq::empty())
            },
            Suspension::Sleeping(s) => if s.deadline_passed(now) {
                resume(self.steps@, self.pc + 1, now)
            } else {
                (self.pc as int, self.waiting, Seq::empty())
            },
        }
    }

    /// The task after one poll at `now`.
    pub open spec fn polled(&self, now: u64) -> Task {
        Task {
            steps: self.steps,
            pc: self.advance(now).0 as usize,
            waiting: self.advance(now).1,
            output: self.output,
        }
    }

    /// The lines one poll at `now` prints.
    pub open spec fn printed(&self, now: u64) -> Seq<String> {
        self.advance(now).2
    }

    pub proof fn lemma_polled_wf(&self, now: u64)
        requires
            self.wf(),
        ensures
            self.polled(now).wf(),
            self.polled(now).steps == self.steps,
            self.polled(now).output == self.output,
    {
        match self.waiting {
            Suspension::Idle => lemma_resume_bounds(self.steps@, self.pc as int, now),
            _ => lemma_resume_bounds(self.steps@, self.pc + 1, now),
        }
    }

    /// A finished task stays as it is when polled again, and prints nothing.
    pub proof fn lemma_finished_is_final(&self, now: u64)
        requires
            self.finished(),
        ensures
            self.polled(now) == *self,
            self.printed(now) == Seq::<String>::empty(),
    {
    }

    pub fn new(steps: Vec<Step>, output: u64) -> (r: Task)
        ensures
            r.steps == steps,
            r.pc == 0,
            r.waiting == Suspension::Idle,
            r.output == output,
            r.wf(),
    {
        Task { steps, pc: 0, waiting: Suspension::Idle, output }
    }

    pub fn is_finished(&self) -> (r: bool)
        ensures
            r == self.finished(),
    {
        match self.waiting {
            Suspension::Idle => self.pc == self.steps.len(),
            _ => false,
        }
    }

    /// Runs the body up to its next suspension point, pushing the lines it
    /// prints onto `log`. `Ready` carries the output once the body is done; a
    /// finished task polled again gives the same output and prints nothing.
    pub fn poll(&mut self, w: &WakeHandle, now: u64, log: &mut Vec<String>) -> (r: Poll<u64>)
        requires
            old(self).wf(),
        ensures
            *final(self) == old(self).polled(now),
            final(self).wf(),
            final(log)@ == old(log)@ + old(self).printed(now),
            r == (if final(self).finished() {
                Poll::Ready(old(self).output)
            } else {
                Poll::<u64>::Pending
            }),
            old(self).finished() ==> *final(self) == *old(self) && final(log)@ == old(log)@,
    {
        proof {
            self.lemma_polled_wf(now);
            if self.finished() {
                self.lemma_finished_is_final(now);
            }
        }
        let ghost start = *self;
        let ghost log0 = log@;
        let n = self.steps.len();
        let mut q: usize;
        match self.waiting {
            Suspension::Idle => {
                q = self.pc;
            },
            Suspension::Yielding(y) => {
                let mut y = y;
                if y.poll(w).is_pending() {
                    self.waiting = Suspension::Yielding(y);
                    return Poll::Pending;
                }
                q = self.pc + 1;
            },
            Suspension::Sleeping(s) => {
                if s.poll(w, now).is_pending() {
                    return Poll::Pending;
                }
                q = self.pc + 1;
            },
        }
        while q < n
            invariant
                *self == start,
                start == *old(self),
                log0 == old(log)@,
                n == self.steps@.len(),
                q <= n,
                start.wf(),
                resume(self.steps@, q as int, now).0 == start.advance(now).0,
                resume(self.steps@, q as int, now).1 == start.advance(now).1,
                log@ + resume(self.steps@, q as int, now).2 == log0 + start.advance(now).2,
            decreases n - q,
        {
            match &self.steps[q] {
                Step::Print(s) => {
                    let line = s.clone();
                    proof {
                        let rest = resume(self.steps@, q + 1, now).2;
                        assert(log@.push(line) + rest =~= log@ + (seq![line] + rest));
                    }
                    log.push(line);
                    q = q + 1;
                },
                Step::Yield => {
                    let mut y = yield_now();
                    let _ = y.poll(w);
                    self.pc = q;
                    self.waiting = Suspension::Yielding(y);
                    proof {
                        assert(log@ =~= log@ + Seq::<String>::empty());
                    }
                    return Poll::Pending;
                },
                Step::Sleep(d) => {
                    let s = sleep(*d, now);
                    if s.poll(w, now).is_pending() {
                        self.pc = q;
                        self.waiting = Suspension::Sleeping(s);
                        proof {
                            assert(log@ =~= log@ + Seq::<String>::empty());
                        }
                        return Poll::Pending;
                    }
                    q = q + 1;
                },
            }
        }
        proof {
            assert(log@ =~= log@ + Seq::<String>::empty());
        }
        self.pc = n;
        self.waiting = Suspension::Idle;
        Poll::Ready(self.output)
    }
}

} // verus!
