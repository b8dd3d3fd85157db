use catdesk::task_queue::{
    add_to_text, max_task_number, next_task_id, next_task_number_from_marker,
    output_from_text, parse_checkbox_line, parse_task_payload, parse_tasks, set_next_task_marker,
    set_status_in_text, valid_task_id, TaskItem, DEFAULT_TODO_TEXT,
};

const PATH: &str = ".catdesk/todo.md";

fn output(text: String) -> catdesk::task_queue::TaskQueueOutput {
    output_from_text(PATH.to_string(), text).expect("parse tasks")
}

#[test]
fn read_does_not_initialize_todo_file() {
    let out = output(DEFAULT_TODO_TEXT.to_string());
    assert_eq!(out.total, 0);
    assert_eq!(out.path, PATH);
}

#[test]
fn add_and_complete_tasks_by_stable_id() {
    let text = add_to_text(
        DEFAULT_TODO_TEXT,
        &[
            "Write task queue tests".to_string(),
            "Wire MCP tools".to_string(),
        ],
    )
    .expect("add tasks");
    let added = output(text.clone());
    assert_eq!(added.open, 2);
    assert!(added.text.contains("- [ ] T-0001 Write task queue tests"));

    let next = set_status_in_text(&text, "T-0001", true).expect("complete task");
    let completed = output(next);
    assert_eq!(completed.done, 1);
    assert!(completed.text.contains("- [x] T-0001 Write task queue tests"));
}

#[test]
fn add_uses_monotonic_task_marker_after_manual_deletion() {
    let existing = "# Todo\n\n<!-- catdesk-next-task-id: 3 -->\n\n- [ ] T-0001 Remaining\n";
    let text = add_to_text(existing, &["Next task".to_string()]).expect("add task");
    assert!(text.contains("- [ ] T-0003 Next task"));
    assert!(text.contains("catdesk-next-task-id: 4"));
}

#[test]
fn duplicate_task_ids_are_rejected() {
    let text = "# Todo\n\n- [ ] T-0001 First\n- [ ] T-0001 Second\n".to_string();
    let error = output_from_text(PATH.to_string(), text)
        .err()
        .expect("duplicate ID should fail");
    assert!(error.contains("Duplicate task ID"));
}

#[test]
fn checkbox_lines_are_recognised() {
    assert_eq!(
        parse_checkbox_line("  - [ ] T-0001 a"),
        Some((false, "T-0001 a".to_string()))
    );
    assert_eq!(parse_checkbox_line("* [X] x"), Some((true, "x".to_string())));
    assert_eq!(parse_checkbox_line("- [y] x"), None);
    assert_eq!(parse_checkbox_line("-[ ] x"), None);
}

#[test]
fn payload_needs_valid_id_and_text() {
    assert_eq!(
        parse_task_payload("  T-0042   Do it  "),
        Some(("T-0042".to_string(), "Do it".to_string()))
    );
    assert_eq!(parse_task_payload("T-0042"), None);
    assert_eq!(parse_task_payload("T-42 text"), None);
    assert!(valid_task_id("T-0000"));
    assert!(!valid_task_id("T-00a0"));
    assert!(!valid_task_id("t-0001"));
}

#[test]
fn parse_keeps_order_and_status() {
    let tasks = parse_tasks("- [x] T-0002 b\nnote\n* [ ] T-0001 a\n").expect("tasks");
    assert_eq!(tasks.len(), 2);
    assert_eq!(tasks[0].id, "T-0002");
    assert!(tasks[0].done);
    assert_eq!(tasks[1].id, "T-0001");
    assert!(!tasks[1].done);
}

#[test]
fn next_id_exceeds_marker_and_every_task() {
    let tasks = vec![TaskItem {
        id: "T-0009".to_string(),
        done: false,
        text: "x".to_string(),
    }];
    assert_eq!(max_task_number(&tasks), 9);
    assert_eq!(next_task_id(&tasks, "<!-- catdesk-next-task-id: 3 -->"), "T-0010");
    assert_eq!(next_task_id(&[], "<!-- catdesk-next-task-id: 12345 -->"), "T-12345");
    assert_eq!(next_task_id(&[], "no marker"), "T-0001");
}

#[test]
fn marker_is_read_from_first_marker_line() {
    assert_eq!(
        next_task_number_from_marker("a\n  <!-- catdesk-next-task-id:  7  -->  \n"),
        Some(7)
    );
    assert_eq!(next_task_number_from_marker("<!-- catdesk-next-task-id: x -->"), None);
}

#[test]
fn marker_is_replaced_or_appended() {
    assert_eq!(
        set_next_task_marker("# T\n<!-- catdesk-next-task-id: 1 -->\n", 5),
        "# T\n<!-- catdesk-next-task-id: 5 -->\n"
    );
    assert_eq!(
        set_next_task_marker("# T", 2),
        "# T\n\n<!-- catdesk-next-task-id: 2 -->\n\n"
    );
}

#[test]
fn blank_tasks_are_skipped() {
    let text = add_to_text(DEFAULT_TODO_TEXT, &["   ".to_string(), " a ".to_string()])
        .expect("add");
    let out = output(text);
    assert_eq!(out.total, 1);
    assert_eq!(out.tasks[0].id, "T-0001");
    assert_eq!(out.tasks[0].text, "a");
}

#[test]
fn status_errors() {
    let text = "- [ ] T-0001 a\n";
    assert_eq!(
        set_status_in_text(text, "bad", true).unwrap_err(),
        "task id must use the form T-0001"
    );
    assert_eq!(
        set_status_in_text(text, "T-0002", true).unwrap_err(),
        "No task found with id T-0002"
    );
    assert_eq!(
        set_status_in_text("- [ ] T-0001 a\n- [x] T-0001 b\n", "T-0001", true).unwrap_err(),
        "Duplicate task ID found in .catdesk/todo.md: T-0001"
    );
}

#[test]
fn status_keeps_indentation_and_other_lines() {
    let next = set_status_in_text("# T\n  * [x] T-0003   b  \nz", " T-0003 ", false)
        .expect("reopen");
    assert_eq!(next, "# T\n  - [ ] T-0003 b\nz\n");
}

#[test]
fn render_lists_counts_and_tasks() {
    let out = output("- [x] T-0001 a\n- [ ] T-0002 b\n".to_string());
    assert_eq!(
        out.render_text(),
        "path: .catdesk/todo.md\ntotal: 2\nopen: 1\ndone: 1\n\n## Tasks\n- [x] T-0001 a\n- [ ] T-0002 b\n"
    );
    assert_eq!(
        output(String::new()).render_text(),
        "path: .catdesk/todo.md\ntotal: 0\nopen: 0\ndone: 0\n\n_No tasks recorded._\n"
    );
    assert_eq!(out.total, 2);
    assert_eq!(out.done, 1);
    assert_eq!(out.open, 1);
}

#[test]
fn adding_then_reading_keeps_old_tasks_and_appends_new() {
    let existing = "# Todo\r\n\r\n- [x] T-0002 Done already\r\n  * [ ] T-0007 Indented\r\n";
    let before = parse_tasks(existing).expect("parse before");
    let text = add_to_text(existing, &[" First ".to_string(), "".to_string(), "Second".to_string()])
        .expect("add tasks");
    let after = parse_tasks(&text).expect("parse after");
    assert_eq!(after.len(), before.len() + 2);
    for (old, new) in before.iter().zip(after.iter()) {
        assert_eq!((old.id.as_str(), old.done, old.text.as_str()), (new.id.as_str(), new.done, new.text.as_str()));
    }
    assert_eq!(after[2].id, "T-0008");
    assert_eq!(after[2].text, "First");
    assert!(!after[2].done);
    assert_eq!(after[3].id, "T-0009");
    assert_eq!(after[3].text, "Second");
    assert!(!text.contains('\r'));
}

#[test]
fn added_tasks_read_back_after_crlf_text_and_padded_tasks() {
    let existing = "# Todo\r\n\r\n- [x] T-0001 Done one\r\n";
    let text = add_to_text(
        existing,
        &["  Trailing break \n".to_string(), "   ".to_string(), "\tSecond".to_string()],
    )
    .expect("add tasks");
    let tasks = parse_tasks(&text).expect("read back");
    let seen: Vec<(String, bool, String)> = tasks
        .iter()
        .map(|t| (t.id.clone(), t.done, t.text.clone()))
        .collect();
    assert_eq!(
        seen,
        vec![
            ("T-0001".to_string(), true, "Done one".to_string()),
            ("T-0002".to_string(), false, "Trailing break".to_string()),
            ("T-0003".to_string(), false, "Second".to_string()),
        ]
    );
}
