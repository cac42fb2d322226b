use fast_staged::{
    decimal_text, has_bounded_exponents, is_space_char, program_name, App, CommandOutcome,
    CommandStatus, ExecutionOrder, FileCommand, KeyCode, KeyPress, StatusColor, TaskState,
    TimeLimit,
};

fn task_with_timeout(timeout: Option<&str>) -> TaskState {
    TaskState::from_file_command(FileCommand {
        filename: "f".to_string(),
        command: "c".to_string(),
        group_name: "g".to_string(),
        timeout: timeout.map(|t| t.to_string()),
        execution_order: ExecutionOrder::Parallel,
    })
}

#[test]
fn scenario_c_timeout_text_parses() {
    let t = task_with_timeout(Some("100ms"));
    assert_eq!(t.time_limit(), Some(TimeLimit { secs: 0, nanos: 100_000_000 }));
    assert_eq!(task_with_timeout(Some("2m")).time_limit(), Some(TimeLimit { secs: 120, nanos: 0 }));
    assert_eq!(task_with_timeout(None).time_limit(), None);
    assert_eq!(task_with_timeout(Some("soon")).time_limit(), None);
}

#[test]
fn long_exponents_are_not_parsed() {
    assert!(!has_bounded_exponents("1e99999s"));
    assert!(!has_bounded_exponents("1E+123456 s"));
    assert!(has_bounded_exponents("5 seconds"));
    assert!(has_bounded_exponents("1e3ms"));
    assert_eq!(task_with_timeout(Some("1e99999s")).time_limit(), None);
    assert_eq!(task_with_timeout(Some("1e3ms")).time_limit(), Some(TimeLimit { secs: 1, nanos: 0 }));
}

#[test]
fn task_lifecycle() {
    let mut t = task_with_timeout(None);
    assert_eq!(*t.status(), CommandStatus::Waiting);
    assert!(!t.done());
    assert!(!t.complete(CommandOutcome::TimedOut, 5));
    assert!(t.start(10));
    assert!(!t.start(11));
    assert_eq!(t.started_at, Some(10));
    assert!(t.complete(CommandOutcome::SpawnFailed("No such file or directory".to_string()), 25));
    assert_eq!(*t.status(), CommandStatus::Failed("No such file or directory".to_string()));
    assert_eq!(t.duration(), Some(15));
    assert_eq!(t.started_at, None);
    assert_eq!(t.launched_at, Some(10));
    assert!(t.done());
    assert!(!t.complete(CommandOutcome::TimedOut, 30));
    assert!(!t.abandon("gone".to_string(), 40));
    assert_eq!(t.duration(), Some(15));
}

#[test]
fn status_labels_and_colors() {
    assert_eq!(CommandStatus::Done.label(), "Done");
    assert_eq!(CommandStatus::Failed("x".to_string()).label(), "Failed");
    assert_eq!(CommandStatus::Timeout.colored(), ("\u{23f1}", StatusColor::Magenta));
    assert_eq!(CommandStatus::Waiting.colored(), ("\u{23f3}", StatusColor::Gray));
    assert!(CommandStatus::Timeout.is_terminal());
    assert!(!CommandStatus::Timeout.counts_as_work());
    assert!(!CommandStatus::Running.is_terminal());
}

#[test]
fn program_names() {
    assert_eq!(program_name("sh -c 'npm test'"), "sh");
    assert_eq!(program_name("  eslint --fix $FILE"), "eslint");
    assert_eq!(program_name("cargo\tfmt"), "cargo");
    assert_eq!(program_name(""), "");
    assert_eq!(program_name("   "), "   ");
    assert!(is_space_char('\u{3000}'));
    assert!(!is_space_char('x'));
}

#[test]
fn decimals() {
    assert_eq!(decimal_text(0), "0");
    assert_eq!(decimal_text(1234), "1234");
    assert_eq!(decimal_text(u128::MAX), u128::MAX.to_string());
}

#[test]
fn keys_and_refresh() {
    let mut app = App::new();
    app.start(vec!["a.js".to_string()], 100);
    assert!(app.running);
    assert!(!app.handle_key_events(KeyPress { code: KeyCode::Char('c'), control: false }));
    assert!(app.running);
    app.refresh(150);
    assert_eq!(app.model.total_files, 1);
    assert!(app.model.is_empty);
    assert_eq!(app.model.elapsed_time, 0);
    assert!(app.handle_key_events(KeyPress { code: KeyCode::Char('C'), control: true }));
    assert!(!app.running);
    assert!(!app.model.running);
}
