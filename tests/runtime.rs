use mini_runtime::executor::MiniRuntime;
use mini_runtime::job::Job;
use mini_runtime::join::join_all;
use mini_runtime::poll::{Poll, WakeHandle};
use mini_runtime::primitives::{sleep, yield_now};
use mini_runtime::task::{Step, Suspension, Task};
use std::cell::Cell;
use std::time::Instant;

fn print(s: &str) -> Step {
    Step::Print(s.to_string())
}

fn lines(log: &[String]) -> Vec<&str> {
    log.iter().map(|s| s.as_str()).collect()
}

#[test]
fn yield_now_suspends_exactly_once() {
    let w = WakeHandle::new();
    let mut y = yield_now();
    assert_eq!(y.poll(&w), Poll::Pending);
    assert_eq!(y.poll(&w), Poll::Ready(()));
    assert_eq!(y.poll(&w), Poll::Ready(()));
}

#[test]
fn wake_handle_clones() {
    let w = WakeHandle::new();
    let c = w.clone();
    let mut y = yield_now();
    assert_eq!(y.poll(&c), Poll::Pending);
    assert_eq!(y.poll(&w), Poll::Ready(()));
}

#[test]
fn sleep_is_never_ready_early() {
    let w = WakeHandle::new();
    let s = sleep(10, 100);
    assert_eq!(s.start, 100);
    assert_eq!(s.poll(&w, 100), Poll::Pending);
    assert_eq!(s.poll(&w, 109), Poll::Pending);
    assert_eq!(s.poll(&w, 110), Poll::Ready(()));
    assert_eq!(s.poll(&w, 5000), Poll::Ready(()));
}

#[test]
fn sleep_with_clock_behind_start_waits() {
    let w = WakeHandle::new();
    assert_eq!(sleep(1, 100).poll(&w, 50), Poll::Pending);
    assert_eq!(sleep(0, 100).poll(&w, 50), Poll::Ready(()));
}

#[test]
fn sleep_of_zero_is_ready_at_once() {
    let w = WakeHandle::new();
    assert_eq!(sleep(0, 7).poll(&w, 7), Poll::Ready(()));
}

#[test]
fn task_runs_to_each_suspension_point() {
    let w = WakeHandle::new();
    let mut t = Task::new(vec![print("a"), Step::Yield, print("b"), Step::Sleep(5), print("c")], 42);
    let mut log = Vec::new();
    assert_eq!(t.poll(&w, 0, &mut log), Poll::Pending);
    assert_eq!(lines(&log), vec!["a"]);
    assert_eq!(t.pc, 1);
    assert_eq!(t.poll(&w, 1, &mut log), Poll::Pending);
    assert_eq!(lines(&log), vec!["a", "b"]);
    assert_eq!(t.pc, 3);
    assert!(matches!(t.waiting, Suspension::Sleeping(s) if s.start == 1 && s.duration == 5));
    assert_eq!(t.poll(&w, 5, &mut log), Poll::Pending);
    assert_eq!(lines(&log), vec!["a", "b"]);
    assert_eq!(t.poll(&w, 6, &mut log), Poll::Ready(42));
    assert_eq!(lines(&log), vec!["a", "b", "c"]);
    assert!(t.is_finished());
}

#[test]
fn task_without_suspension_finishes_on_first_poll() {
    let w = WakeHandle::new();
    let mut t = Task::new(vec![print("x"), Step::Sleep(0), print("y")], 3);
    let mut log = Vec::new();
    assert_eq!(t.poll(&w, 0, &mut log), Poll::Ready(3));
    assert_eq!(lines(&log), vec!["x", "y"]);
}

#[test]
fn empty_task_is_ready_at_once() {
    let w = WakeHandle::new();
    let mut t = Task::new(vec![], 9);
    let mut log = Vec::new();
    assert_eq!(t.poll(&w, 0, &mut log), Poll::Ready(9));
    assert!(log.is_empty());
}

#[test]
fn finished_task_polled_again_does_nothing() {
    let w = WakeHandle::new();
    let mut t = Task::new(vec![print("once"), Step::Yield, print("end")], 1);
    let mut log = Vec::new();
    assert_eq!(t.poll(&w, 0, &mut log), Poll::Pending);
    assert_eq!(t.poll(&w, 0, &mut log), Poll::Ready(1));
    assert_eq!(t.poll(&w, 0, &mut log), Poll::Ready(1));
    assert_eq!(t.poll(&w, 9, &mut log), Poll::Ready(1));
    assert_eq!(lines(&log), vec!["once", "end"]);
}

#[test]
fn finished_join_polled_again_does_nothing() {
    let w = WakeHandle::new();
    let mut j = join_all(vec![Task::new(vec![print("p")], 1), Task::new(vec![print("q")], 2)]);
    let mut log = Vec::new();
    assert_eq!(j.poll(&w, 0, &mut log), Poll::Ready(vec![1, 2]));
    assert_eq!(j.poll(&w, 0, &mut log), Poll::Ready(vec![1, 2]));
    assert_eq!(lines(&log), vec!["p", "q"]);
}

fn yields(n: usize, output: u64) -> Task {
    let mut steps = Vec::new();
    for _ in 0..n {
        steps.push(Step::Yield);
    }
    Task::new(steps, output)
}

#[test]
fn join_ready_after_slowest_part_in_input_order() {
    let w = WakeHandle::new();
    // Parts needing 2, 4 and 3 polls.
    let mut j = join_all(vec![yields(1, 10), yields(3, 20), yields(2, 30)]);
    let mut log = Vec::new();
    for round in 0..3 {
        assert_eq!(j.poll(&w, round, &mut log), Poll::Pending);
    }
    assert!(j.parts[0].is_finished());
    assert!(j.parts[2].is_finished());
    assert!(!j.parts[1].is_finished());
    assert_eq!(j.poll(&w, 3, &mut log), Poll::Ready(vec![10, 20, 30]));
}

#[test]
fn join_does_not_repoll_finished_parts() {
    let w = WakeHandle::new();
    let mut j = join_all(vec![
        Task::new(vec![print("a0"), Step::Yield, print("a1")], 1),
        Task::new(vec![print("b0"), Step::Yield, Step::Yield, print("b1")], 2),
    ]);
    let mut log = Vec::new();
    assert_eq!(j.poll(&w, 0, &mut log), Poll::Pending);
    assert_eq!(j.poll(&w, 0, &mut log), Poll::Pending);
    assert_eq!(j.poll(&w, 0, &mut log), Poll::Ready(vec![1, 2]));
    assert_eq!(lines(&log), vec!["a0", "b0", "a1", "b1"]);
}

#[test]
fn runtime_starts_empty() {
    let mut rt = MiniRuntime::new();
    assert!(rt.is_idle());
    let mut log = Vec::new();
    assert!(!rt.tick(0, &mut log));
    assert_eq!(rt.run(|| 0, 10, &mut log), 0);
}

#[test]
fn pending_once_task_takes_two_polls() {
    let mut rt = MiniRuntime::new();
    rt.spawn(Job::Single(Task::new(vec![print("before"), Step::Yield, print("after")], 0)));
    assert_eq!(rt.len(), 1);
    let mut log = Vec::new();
    assert_eq!(rt.run(|| 0, 100, &mut log), 2);
    assert!(rt.is_idle());
    assert_eq!(lines(&log), vec!["before", "after"]);
}

#[test]
fn two_tasks_interleave_round_robin() {
    let mut rt = MiniRuntime::new();
    rt.spawn(Job::Single(Task::new(vec![print("A start"), Step::Yield, print("A done")], 0)));
    rt.spawn(Job::Single(Task::new(vec![print("B start"), Step::Yield, print("B done")], 0)));
    let mut log = Vec::new();
    assert_eq!(rt.run(|| 0, 100, &mut log), 4);
    assert_eq!(lines(&log), vec!["A start", "B start", "A done", "B done"]);
}

#[test]
fn tick_requeues_pending_task_at_back() {
    let mut rt = MiniRuntime::new();
    rt.spawn(Job::Single(Task::new(vec![print("A"), Step::Yield], 0)));
    rt.spawn(Job::Single(Task::new(vec![print("B")], 0)));
    let mut log = Vec::new();
    assert!(rt.tick(0, &mut log));
    assert_eq!(rt.len(), 2);
    assert!(rt.tick(0, &mut log));
    assert_eq!(rt.len(), 1);
    assert!(rt.tick(0, &mut log));
    assert!(rt.is_idle());
    assert_eq!(lines(&log), vec!["A", "B"]);
}

#[test]
fn run_stops_at_budget() {
    let mut rt = MiniRuntime::new();
    rt.spawn(Job::Single(Task::new(vec![Step::Sleep(10), print("late")], 0)));
    let mut log = Vec::new();
    assert_eq!(rt.run(|| 0, 5, &mut log), 5);
    assert_eq!(rt.len(), 1);
    assert!(log.is_empty());
}

#[test]
fn sleeping_task_waits_for_the_clock() {
    let clock = Cell::new(0u64);
    let mut rt = MiniRuntime::new();
    rt.spawn(Job::Single(Task::new(vec![Step::Sleep(3), print("woke")], 0)));
    let mut log = Vec::new();
    let polls = rt.run(
        || {
            let t = clock.get();
            clock.set(t + 1);
            t
        },
        100,
        &mut log,
    );
    // Readings 0, 1, 2, 3: the deadline passes at the fourth poll.
    assert_eq!(polls, 4);
    assert_eq!(lines(&log), vec!["woke"]);
}

fn demo_task(name: &str, delay: u64) -> Task {
    Task::new(
        vec![
            Step::Print(format!("{} start", name)),
            Step::Yield,
            Step::Sleep(delay),
            Step::Print(format!("{} done", name)),
        ],
        0,
    )
}

#[test]
fn end_to_end_shorter_sleep_finishes_first() {
    let mut rt = MiniRuntime::new();
    rt.spawn(Job::Single(demo_task("one", 1)));
    rt.spawn(Job::Single(demo_task("two", 2)));
    let start = Instant::now();
    let mut log = Vec::new();
    let polls = rt.run(|| start.elapsed().as_millis() as u64, u64::MAX, &mut log);
    assert!(polls >= 6);
    assert!(rt.is_idle());
    assert!(start.elapsed().as_millis() >= 2);
    assert_eq!(lines(&log), vec!["one start", "two start", "one done", "two done"]);
}

#[test]
fn end_to_end_joined_tasks_with_fake_clock() {
    let clock = Cell::new(0u64);
    let mut rt = MiniRuntime::new();
    rt.spawn(Job::Join(join_all(vec![demo_task("task one", 1000), demo_task("task two", 2000)])));
    let mut log = Vec::new();
    let polls = rt.run(
        || {
            let t = clock.get();
            clock.set(t + 250);
            t
        },
        1000,
        &mut log,
    );
    assert!(rt.is_idle());
    // Readings 0, 250, ...: the second sleep starts at 250 and ends at 2250.
    assert_eq!(polls, 10);
    assert_eq!(
        lines(&log),
        vec!["task one start", "task two start", "task one done", "task two done"]
    );
}
