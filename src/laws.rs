use vstd::prelude::*;
use crate::executor::ticks;
use crate::job::JobView;
use crate::join::{lemma_finished_parts_final, parts_finished, parts_outputs, parts_polled, parts_wf};
use crate::task::Task;

verus! {

/// A job that is still pending after its first poll, whatever the clock
/// reads, and finished after its second.
pub open spec fn pending_once(j: JobView) -> bool {
    &&& j.wf()
    &&& forall|a: u64| !(#[trigger] j.polled(a)).finished()
    &&& forall|a: u64, b: u64| (#[trigger] j.polled(a).polled(b)).finished()
}

/// Once the queue is empty, further turns change nothing.
proof fn lemma_ticks_split(q: Seq<JobView>, nows: Seq<u64>, k: int)
    requires
        0 <= k <= nows.len(),
        ticks(q, nows.take(k)).0.len() == 0,
    ensures
        ticks(q, nows) == ticks(q, nows.take(k)),
    decreases nows.len(),
{
    if nows.len() > k {
        assert(nows.drop_last().take(k) =~= nows.take(k));
        lemma_ticks_split(q, nows.drop_last(), k);
    } else {
        assert(nows.take(k) =~= nows);
    }
}

/// A queue holding a single job that is pending exactly once becomes empty
/// after two turns and not before: a run makes exactly two polls.
pub proof fn lemma_pending_once_runs_in_two_polls(j: JobView, nows: Seq<u64>)
    requires
        pending_once(j),
    ensures
        (ticks(seq![j], nows).0.len() == 0) == (nows.len() >= 2),
        nows.len() >= 2 ==> ticks(seq![j], nows).1 == j.printed(nows[0]) + j.polled(nows[0]).printed(
            nows[1],
        ),
{
    let q = seq![j];
    if nows.len() >= 1 {
        let n1 = nows[0];
        let t1 = nows.take(1);
        assert(t1.drop_last() =~= Seq::<u64>::empty());
        assert(q.drop_first() =~= Seq::<JobView>::empty());
        assert(ticks(q, t1.drop_last()) == (q, Seq::<String>::empty()));
        assert(Seq::<String>::empty() + j.printed(n1) =~= j.printed(n1));
        assert(ticks(q, t1).0 =~= seq![j.polled(n1)]);
        assert(ticks(q, t1).1 =~= j.printed(n1));
        if nows.len() == 1 {
            assert(nows =~= t1);
        } else {
            let n2 = nows[1];
            let t2 = nows.take(2);
            assert(t2.drop_last() =~= t1);
            assert(seq![j.polled(n1)].drop_first() =~= Seq::<JobView>::empty());
            assert(ticks(q, t2).0.len() == 0);
            assert(ticks(q, t2).1 =~= j.printed(n1) + j.polled(n1).printed(n2));
            lemma_ticks_split(q, nows, 2);
        }
    }
}

/// Two jobs spawned in the order `a`, `b`, each pending exactly once, are
/// polled round-robin: `a`'s first part, `b`'s first part, then `a`'s end and
/// `b`'s end, and the queue is empty after four turns and not before.
pub proof fn lemma_round_robin_two(a: JobView, b: JobView, n1: u64, n2: u64, n3: u64, n4: u64)
    requires
        pending_once(a),
        pending_once(b),
    ensures
        ticks(seq![a, b], seq![n1, n2, n3, n4]).1 == a.printed(n1) + b.printed(n2) + a.polled(
            n1,
        ).printed(n3) + b.polled(n2).printed(n4),
        ticks(seq![a, b], seq![n1, n2, n3, n4]).0.len() == 0,
        ticks(seq![a, b], seq![n1, n2, n3]).0.len() > 0,
{
    let q = seq![a, b];
    let a1 = a.polled(n1);
    let b1 = b.polled(n2);
    assert(!a1.finished());
    assert(!b1.finished());
    assert(a1.polled(n3).finished());
    assert(b1.polled(n4).finished());
    let s1 = seq![n1];
    let s2 = seq![n1, n2];
    let s3 = seq![n1, n2, n3];
    let s4 = seq![n1, n2, n3, n4];
    assert(s1.drop_last() =~= Seq::<u64>::empty());
    assert(s2.drop_last() =~= s1);
    assert(s3.drop_last() =~= s2);
    assert(s4.drop_last() =~= s3);
    assert(q.drop_first().push(a1) =~= seq![b, a1]);
    assert(ticks(q, s1.drop_last()) == (q, Seq::<String>::empty()));
    assert(Seq::<String>::empty() + a.printed(n1) =~= a.printed(n1));
    assert(ticks(q, s1).0 =~= seq![b, a1]);
    assert(seq![b, a1].drop_first().push(b1) =~= seq![a1, b1]);
    assert(ticks(q, s2).0 =~= seq![a1, b1]);
    assert(seq![a1, b1].drop_first() =~= seq![b1]);
    assert(ticks(q, s3).0 =~= seq![b1]);
    assert(seq![b1].drop_first() =~= Seq::<JobView>::empty());
    assert(ticks(q, s4).0 =~= Seq::<JobView>::empty());
    assert(ticks(q, s1).1 =~= a.printed(n1));
    assert(ticks(q, s4).1 =~= a.printed(n1) + b.printed(n2) + a1.printed(n3) + b1.printed(n4));
}

/// A job that has finished stays as it is when polled again and prints
/// nothing: its work is never done twice.
pub proof fn lemma_finished_job_is_final(j: JobView, now: u64)
    requires
        j.finished(),
    ensures
        j.polled(now) == j,
        j.printed(now) == Seq::<String>::empty(),
        j.polled(now).finished(),
{
    match j {
        JobView::Single(t) => t.lemma_finished_is_final(now),
        JobView::Join(ps) => lemma_finished_parts_final(ps, now),
    }
}

/// A task after one poll at each reading of `nows`, in order.
pub open spec fn task_after(t: Task, nows: Seq<u64>) -> Task
    decreases nows.len(),
{
    if nows.len() == 0 {
        t
    } else {
        task_after(t, nows.drop_last()).polled(nows.last())
    }
}

/// The parts of a join after one join poll at each reading of `nows`.
pub open spec fn join_after(parts: Seq<Task>, nows: Seq<u64>) -> Seq<Task>
    decreases nows.len(),
{
    if nows.len() == 0 {
        parts
    } else {
        parts_polled(join_after(parts, nows.drop_last()), nows.last())
    }
}

pub open spec fn seq_max(p: Seq<nat>) -> nat
    decreases p.len(),
{
    if p.len() == 0 {
        0
    } else if p.last() > seq_max(p.drop_last()) {
        p.last()
    } else {
        seq_max(p.drop_last())
    }
}

proof fn lemma_join_after_parts(parts: Seq<Task>, nows: Seq<u64>)
    ensures
        join_after(parts, nows).len() == parts.len(),
        forall|i: int|
            0 <= i < parts.len() ==> #[trigger] join_after(parts, nows)[i] == task_after(parts[i], nows),
    decreases nows.len(),
{
    if nows.len() > 0 {
        lemma_join_after_parts(parts, nows.drop_last());
    }
}

proof fn lemma_task_after_output(t: Task, nows: Seq<u64>)
    ensures
        task_after(t, nows).output == t.output,
    decreases nows.len(),
{
    if nows.len() > 0 {
        lemma_task_after_output(t, nows.drop_last());
    }
}

proof fn lemma_seq_max_bound(p: Seq<nat>, k: int)
    ensures
        (forall|i: int| 0 <= i < p.len() ==> #[trigger] p[i] <= k) == (seq_max(p) <= k || p.len() == 0),
    decreases p.len(),
{
    if p.len() > 0 {
        let d = p.drop_last();
        lemma_seq_max_bound(d, k);
        if forall|i: int| 0 <= i < p.len() ==> #[trigger] p[i] <= k {
            assert forall|i: int| 0 <= i < d.len() implies #[trigger] d[i] <= k by {
                assert(d[i] == p[i]);
            }
            assert(p[p.len() - 1] <= k);
        }
        if seq_max(p) <= k {
            assert forall|i: int| 0 <= i < p.len() implies #[trigger] p[i] <= k by {
                if i < d.len() {
                    assert(d[i] == p[i]);
                }
            }
        }
    }
}

/// A join of parts where part `i`, polled on its own at the readings `nows`,
/// first finishes at its `p[i]`-th poll, finishes after exactly `max p` join
/// polls at those readings, and its outputs stay in the order of the parts.
pub proof fn lemma_join_completes_at_max(parts: Seq<Task>, p: Seq<nat>, nows: Seq<u64>)
    requires
        parts.len() >= 1,
        parts_wf(parts),
        p.len() == parts.len(),
        forall|i: int, k: int|
            0 <= i < parts.len() && 0 <= k <= nows.len() ==> #[trigger] task_after(
                parts[i],
                nows.take(k),
            ).finished() == (k >= p[i]),
    ensures
        forall|k: int|
            0 <= k <= nows.len() ==> #[trigger] parts_finished(join_after(parts, nows.take(k))) == (k
                >= seq_max(p)),
        parts_outputs(join_after(parts, nows)) == parts_outputs(parts),
{
    assert forall|k: int| 0 <= k <= nows.len() implies #[trigger] parts_finished(
        join_after(parts, nows.take(k)),
    ) == (k >= seq_max(p)) by {
        let js = join_after(parts, nows.take(k));
        lemma_join_after_parts(parts, nows.take(k));
        lemma_seq_max_bound(p, k);
        if parts_finished(js) {
            assert forall|i: int| 0 <= i < p.len() implies #[trigger] p[i] <= k by {
                assert(js[i].finished());
                assert(task_after(parts[i], nows.take(k)).finished());
            }
        }
        if k >= seq_max(p) {
            assert forall|i: int| 0 <= i < js.len() implies #[trigger] js[i].finished() by {
                assert(p[i] <= k);
                assert(task_after(parts[i], nows.take(k)).finished());
            }
        }
    }
    lemma_join_after_parts(parts, nows);
    assert forall|i: int| 0 <= i < parts.len() implies #[trigger] parts_outputs(
        join_after(parts, nows),
    )[i] == parts_outputs(parts)[i] by {
        lemma_task_after_output(parts[i], nows);
    }
    assert(parts_outputs(join_after(parts, nows)) =~= parts_outputs(parts));
}

} // verus!
