use fast_staged::{
    dispatch, execute_commands, sort_by_keys, sorted_summaries, CommandStat, AppError, CommandOutcome, CommandStatus, ExecutionOrder,
    FileCommand, TaskPool,
};

fn item(file: &str, command: &str, group: &str, order: ExecutionOrder) -> FileCommand {
    FileCommand {
        filename: file.to_string(),
        command: command.to_string(),
        group_name: group.to_string(),
        timeout: None,
        execution_order: order,
    }
}

fn success() -> CommandOutcome {
    CommandOutcome::Exited { success: true, detail: "exit status: 0".to_string() }
}

fn planned(items: Vec<FileCommand>) -> TaskPool {
    let n = items.len();
    dispatch(items, &vec![true; n]).unwrap()
}

#[test]
fn scenario_a_stats_after_completion() {
    let mut pool = planned(vec![item("a.js", "eslint $FILE", "lint", ExecutionOrder::Parallel)]);
    assert_eq!(pool.tasks().len(), 1);
    assert!(pool.start_task(0, 10));
    assert!(pool.complete_task(0, success(), 35));
    assert!(pool.pull_completed(0, 35));
    assert!(pool.is_complete());
    let stats = pool.aggregate_stats();
    assert_eq!(stats.len(), 1);
    assert_eq!(stats[0].command, "eslint $FILE");
    assert_eq!((stats[0].count, stats[0].total_ms), (1, 25));
}

#[test]
fn scenario_b_sequential_group_waits() {
    let mut pool = planned(vec![
        item("x.go", "gofmt", "ci", ExecutionOrder::Sequential),
        item("x.go", "go vet", "ci", ExecutionOrder::Sequential),
    ]);
    assert_eq!(pool.tasks().len(), 2);
    assert!(pool.tasks().iter().all(|t| *t.status() == CommandStatus::Waiting));
    assert_eq!(pool.units().len(), 1);
    assert_eq!(pool.units()[0].tasks, vec![0, 1]);
    assert_eq!(pool.outstanding(), 1);
    assert!(!pool.start_task(1, 5));
    assert!(pool.start_task(0, 5));
    assert!(!pool.start_task(1, 6));
    assert!(pool.complete_task(0, success(), 20));
    assert!(!pool.start_task(1, 19));
    assert!(pool.start_task(1, 20));
    assert_eq!(*pool.tasks()[1].status(), CommandStatus::Running);
}

#[test]
fn sequential_starts_strictly_increase() {
    let mut pool = planned(vec![
        item("a", "one", "g", ExecutionOrder::Sequential),
        item("a", "two", "g", ExecutionOrder::Sequential),
        item("a", "three", "g", ExecutionOrder::Sequential),
    ]);
    assert!(pool.start_task(0, 100));
    assert!(pool.complete_task(0, success(), 100));
    assert!(!pool.start_task(1, 100));
    assert!(pool.start_task(1, 101));
    assert!(pool.complete_task(1, CommandOutcome::TimedOut, 150));
    assert!(pool.start_task(2, 151));
    let starts: Vec<Option<u64>> = pool.tasks().iter().map(|t| t.launched_at).collect();
    assert_eq!(starts, vec![Some(100), Some(101), Some(151)]);
}

#[test]
fn sequential_chain_continues_after_failure() {
    let mut pool = planned(vec![
        item("a", "bad", "g", ExecutionOrder::Sequential),
        item("a", "good", "g", ExecutionOrder::Sequential),
    ]);
    assert!(pool.start_task(0, 0));
    let failed = CommandOutcome::Exited { success: false, detail: "exit status: 1".to_string() };
    assert!(pool.complete_task(0, failed, 3));
    assert_eq!(*pool.tasks()[0].status(), CommandStatus::Failed("exit status: 1".to_string()));
    assert!(pool.start_task(1, 4));
    assert!(pool.complete_task(1, success(), 9));
    assert_eq!(*pool.tasks()[1].status(), CommandStatus::Done);
}

#[test]
fn group_policy_comes_from_first_item() {
    let pool = planned(vec![
        item("a", "one", "g", ExecutionOrder::Sequential),
        item("b", "solo", "h", ExecutionOrder::Parallel),
        item("c", "two", "g", ExecutionOrder::Parallel),
    ]);
    assert_eq!(pool.units().len(), 2);
    assert_eq!(pool.units()[0].order, ExecutionOrder::Sequential);
    assert_eq!(pool.units()[0].tasks, vec![0, 2]);
    assert_eq!(pool.units()[1].order, ExecutionOrder::Parallel);
    assert_eq!(pool.units()[1].tasks, vec![1]);
}

#[test]
fn parallel_units_join_in_any_order() {
    let mut pool = planned(vec![
        item("a", "x", "p", ExecutionOrder::Parallel),
        item("b", "x", "p", ExecutionOrder::Parallel),
        item("c", "x", "p", ExecutionOrder::Parallel),
    ]);
    assert_eq!(pool.outstanding(), 3);
    for i in 0..3 {
        assert!(pool.start_task(i, 0));
    }
    assert!(pool.complete_task(2, success(), 5));
    assert!(pool.pull_completed(2, 5));
    assert!(!pool.is_complete());
    assert!(pool.complete_task(0, success(), 6));
    assert!(pool.pull_completed(0, 6));
    assert!(!pool.pull_completed(0, 6));
    assert!(!pool.is_complete());
    assert!(pool.complete_task(1, success(), 7));
    assert!(pool.pull_completed(1, 7));
    assert!(pool.is_complete());
    assert!(pool.tasks().iter().all(|t| t.done()));
}

#[test]
fn joining_a_stopped_unit_fails_its_unfinished_tasks() {
    let mut pool = planned(vec![
        item("a", "one", "g", ExecutionOrder::Sequential),
        item("a", "two", "g", ExecutionOrder::Sequential),
    ]);
    assert!(pool.start_task(0, 10));
    assert!(pool.pull_completed(0, 40));
    assert!(pool.is_complete());
    let reason = "execution unit ended before the command finished".to_string();
    assert_eq!(*pool.tasks()[0].status(), CommandStatus::Failed(reason.clone()));
    assert_eq!(pool.tasks()[0].duration(), Some(30));
    assert_eq!(*pool.tasks()[1].status(), CommandStatus::Failed(reason));
    assert_eq!(pool.tasks()[1].duration(), Some(0));
}

#[test]
fn scenario_c_timeout_excluded_from_total() {
    let mut pool = planned(vec![
        item("a", "sleep 5", "g", ExecutionOrder::Parallel),
        item("b", "true", "g", ExecutionOrder::Parallel),
    ]);
    assert!(pool.start_task(0, 0));
    assert!(pool.start_task(1, 0));
    assert!(pool.complete_task(0, CommandOutcome::TimedOut, 100));
    assert!(pool.complete_task(1, success(), 7));
    assert_eq!(*pool.tasks()[0].status(), CommandStatus::Timeout);
    assert!(pool.tasks()[0].done());
    assert_eq!(pool.tasks()[0].duration(), Some(100));
    assert_eq!(pool.total_execution_time(), 7);
}

#[test]
fn stats_count_ended_tasks_only() {
    let mut pool = planned(vec![
        item("a", "lint", "g", ExecutionOrder::Parallel),
        item("b", "lint", "g", ExecutionOrder::Parallel),
        item("c", "fmt", "g", ExecutionOrder::Parallel),
        item("d", "lint", "g", ExecutionOrder::Parallel),
    ]);
    for i in 0..4 {
        assert!(pool.start_task(i, 0));
    }
    assert!(pool.complete_task(0, success(), 10));
    assert!(pool.complete_task(1, CommandOutcome::TimedOut, 50));
    let stats = pool.aggregate_stats();
    let got: Vec<(&str, usize, u128)> =
        stats.iter().map(|s| (s.command.as_str(), s.count, s.total_ms)).collect();
    assert_eq!(got, vec![("lint", 3, 60), ("fmt", 1, 0)]);
    assert_eq!(pool.total_execution_time(), 10);
}

#[test]
fn reads_are_idempotent() {
    let mut pool = planned(vec![
        item("a", "lint", "g", ExecutionOrder::Parallel),
        item("b", "fmt", "g", ExecutionOrder::Parallel),
    ]);
    assert!(pool.start_task(0, 1));
    assert!(pool.complete_task(0, success(), 4));
    assert_eq!(pool.display_lines(), pool.display_lines());
    let a = pool.aggregate_stats();
    let b = pool.aggregate_stats();
    assert_eq!(a.len(), b.len());
    for (x, y) in a.iter().zip(b.iter()) {
        assert_eq!((&x.command, x.count, x.total_ms), (&y.command, y.count, y.total_ms));
    }
    assert_eq!(pool.total_execution_time(), pool.total_execution_time());
    assert_eq!(pool.tasks()[0].status(), pool.tasks()[0].status());
    assert_eq!(pool.tasks()[0].duration(), pool.tasks()[0].duration());
}

#[test]
fn display_lines_show_state() {
    let mut pool = planned(vec![
        item("a.js", "eslint", "g", ExecutionOrder::Parallel),
        item("b.js", "prettier", "g", ExecutionOrder::Parallel),
        item("c.js", "tsc", "g", ExecutionOrder::Parallel),
    ]);
    assert!(pool.start_task(0, 0));
    assert!(pool.complete_task(0, success(), 1234));
    assert!(pool.start_task(1, 0));
    let lines = pool.display_lines();
    assert_eq!(lines[0], "\u{2713} a.js: eslint - 1234ms");
    assert_eq!(lines[1], "\u{27f3} b.js: prettier");
    assert_eq!(lines[2], "\u{23f3} c.js: tsc");
}

#[test]
fn scenario_e_missing_command_refuses_dispatch() {
    let items = vec![
        item("a", "sh -c 'true'", "g", ExecutionOrder::Parallel),
        item("b", "no-such-program-anywhere-xyz --flag", "h", ExecutionOrder::Parallel),
    ];
    match dispatch(items.clone(), &vec![true, false]) {
        Err(AppError::CommandNotFound { command, reason }) => {
            assert_eq!(command, "no-such-program-anywhere-xyz --flag");
            assert_eq!(reason, "Command not found in PATH");
        }
        other => panic!("unexpected: {:?}", other.map(|p| p.tasks().len())),
    }
    match execute_commands(items) {
        Err(AppError::CommandNotFound { command, .. }) => {
            assert_eq!(command, "no-such-program-anywhere-xyz --flag");
        }
        other => panic!("unexpected: {:?}", other.map(|p| p.tasks().len())),
    }
}

#[test]
fn empty_pool_is_complete() {
    let pool = TaskPool::new();
    assert!(pool.is_complete());
    assert!(pool.is_empty());
    assert_eq!(pool.total_execution_time(), 0);
    assert!(pool.aggregate_stats().is_empty());
    let planned_empty = planned(Vec::new());
    assert!(planned_empty.is_complete());
}

#[test]
fn summaries_sort_by_lowercase() {
    let stat = |c: &str, n: usize, t: u128| CommandStat { command: c.to_string(), count: n, total_ms: t };
    assert_eq!(stat("lint", 3, 100).summary_line(), "lint: 3 execution(s), total 100ms, avg 33ms");
    assert_eq!(stat("idle", 0, 0).average_ms(), 0);
    let lines = sorted_summaries(&vec![stat("Zeta", 1, 5), stat("alpha", 2, 4), stat("Beta", 1, 1)]);
    assert_eq!(
        lines,
        vec![
            "alpha: 2 execution(s), total 4ms, avg 2ms",
            "Beta: 1 execution(s), total 1ms, avg 1ms",
            "Zeta: 1 execution(s), total 5ms, avg 5ms",
        ]
    );
}

#[test]
fn view_texts() {
    let mut app = fast_staged::App::new();
    app.start(vec!["a".to_string(), "b".to_string()], 0);
    app.task_pool = planned(vec![item("a", "x", "g", ExecutionOrder::Parallel)]);
    assert!(app.task_pool.start_task(0, 0));
    app.refresh(42);
    assert_eq!(app.model.title_text(), "Running 1 tasks for 2 file(s)...");
    assert_eq!(app.model.times_text(), "Total execution time: 0ms | Elapsed: 42ms");
    assert_eq!(app.model.command_lines.len(), 1);
    assert_eq!(app.model.command_lines[0].0, "\u{27f3} a: x");
    assert_eq!(app.model.command_lines[0].1, fast_staged::StatusColor::Yellow);
}

#[test]
fn sort_by_keys_is_stable() {
    let e = |k: &str, l: &str| (k.to_string(), l.to_string());
    let lines = sort_by_keys(&vec![e("b", "first b"), e("a", "an a"), e("b", "second b"), e("ab", "ab")]);
    assert_eq!(lines, vec!["an a", "ab", "first b", "second b"]);
    assert!(sort_by_keys(&Vec::new()).is_empty());
}
