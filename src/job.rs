use vstd::prelude::*;
use crate::join::{lemma_parts_polled_wf, parts_finished, parts_polled, parts_printed, parts_wf, JoinAll};
use crate::poll::{Poll, WakeHandle};
use crate::task::Task;

verus! {

/// A top-level computation handed to the executor: a single task, or a
/// fan-in of several.
#[derive(Clone, Debug)]
pub enum Job {
    Single(Task),
    Join(JoinAll),
}

/// What a job is, as a value: its task, or the list of its parts.
pub enum JobView {
    Single(Task),
    Join(Seq<Task>),
}

impl JobView {
    pub open spec fn wf(self) -> bool {
        match self {
            JobView::Single(t) => t.wf(),
            JobView::Join(ps) => ps.len() >= 1 && parts_wf(ps),
        }
    }

    pub open spec fn finished(self) -> bool {
        match self {
            JobView::Single(t) => t.finished(),
            JobView::Join(ps) => parts_finished(ps),
        }
    }

    /// The job after one poll at `now`.
    pub open spec fn polled(self, now: u64) -> JobView {
        match self {
            JobView::Single(t) => JobView::Single(t.polled(now)),
            JobView::Join(ps) => JobView::Join(parts_polled(ps, now)),
        }
    }

    pub proof fn lemma_polled_wf(self, now: u64)
        requires
            self.wf(),
        ensures
            self.polled(now).wf(),
    {
        match self {
            JobView::Single(t) => t.lemma_polled_wf(now),
            JobView::Join(ps) => lemma_parts_polled_wf(ps, now),
        }
    }

    /// The lines one poll at `now` prints.
    pub open spec fn printed(self, now: u64) -> Seq<String> {
        match self {
            JobView::Single(t) => t.printed(now),
            JobView::Join(ps) => parts_printed(ps, now),
        }
    }
}

impl View for Job {
    type V = JobView;

    open spec fn view(&self) -> JobView {
        match self {
            Job::Single(t) => JobView::Single(*t),
            Job::Join(j) => JobView::Join(j.parts@),
        }
    }
}

impl Job {
    /// Polls the job once at `now`; true when it has finished.
    pub fn poll(&mut self, w: &WakeHandle, now: u64, log: &mut Vec<String>) -> (r: bool)
        requires
            old(self)@.wf(),
        ensures
            final(self)@ == old(self)@.polled(now),
            final(self)@.wf(),
            final(log)@ == old(log)@ + old(self)@.printed(now),
            r == final(self)@.finished(),
    {
        match self {
            Job::Single(t) => {
                let p = t.poll(w, now, log);
                p.is_ready()
            },
            Job::Join(j) => {
                let p = j.poll(w, now, log);
                p.is_ready()
            },
        }
    }
}

} // verus!
