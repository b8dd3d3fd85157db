use catdesk::project_memory::{
    append_markdown, default_document_text, document_def, markdown_block, memory_documents,
    next_document_text, resolve_document, session_resume_next_text, session_resume_output,
    session_resume_text, update_mode, update_output, MemoryDocument,
};

#[test]
fn memory_documents_start_with_a_heading() {
    let docs = memory_documents();
    assert_eq!(docs.len(), 4);
    let names: Vec<&str> = docs.iter().map(|d| d.name).collect();
    assert_eq!(names, vec!["project", "decisions", "todo", "session"]);
    for def in docs {
        assert!(default_document_text(def).starts_with("# "));
        assert_eq!(def.file_name, format!("{}.md", def.name));
    }
    assert_eq!(
        default_document_text(document_def("todo").expect("todo")),
        "# Todo\n\n- [ ] Capture project follow-up work here.\n"
    );
}

#[test]
fn update_appends_markdown_section_text() {
    let existing = default_document_text(document_def("decisions").expect("decisions"));
    let text = append_markdown(
        &existing,
        "- Use markdown files for project memory.",
        Some("Architecture"),
    );
    assert!(text.contains("## Architecture"));
    assert!(text.contains("- Use markdown files for project memory."));
    assert_eq!(
        text,
        "# Decisions\n\nDurable architectural and product decisions.\n\n## Architecture\n\n- Use markdown files for project memory.\n"
    );
}

#[test]
fn append_without_section_and_line_endings() {
    assert_eq!(append_markdown("a\r\n", "b", None), "a\n\nb\n");
    assert_eq!(append_markdown("a\n\n", "b\r", Some("_default")), "a\n\nb\n");
    assert_eq!(append_markdown("", "b", Some("  ")), "\n\nb\n");
}

#[test]
fn documents_resolve_by_name_or_file_ignoring_case() {
    assert_eq!(resolve_document(" Session.MD ").expect("session").name, "session");
    assert_eq!(document_def("PROJECT").expect("project").name, "project");
    assert_eq!(
        resolve_document("notes").err().expect("unknown"),
        "Unknown memory document: notes. Use one of: project, decisions, todo, session"
    );
}

#[test]
fn update_modes() {
    assert_eq!(update_mode(None), Ok(("append".to_string(), true)));
    assert_eq!(update_mode(Some(" overwrite ")), Ok(("overwrite".to_string(), false)));
    assert_eq!(
        update_mode(Some("replace")),
        Err("mode must be either append or overwrite".to_string())
    );
    assert_eq!(next_document_text(false, "old", "new\r\n", None), "new\n");
    let out = update_output(
        MemoryDocument {
            name: "todo".to_string(),
            path: ".catdesk/todo.md".to_string(),
            text: String::new(),
        },
        "append".to_string(),
        "héllo",
    );
    assert_eq!(out.bytes, 6);
}

#[test]
fn update_session_resume_writes_required_sections() {
    let def = resolve_document("session").expect("session");
    let existing = default_document_text(def);
    let files = vec![
        "src/project_memory.rs".to_string(),
        "src/mcp.rs".to_string(),
    ];
    let text = session_resume_next_text(
        &existing,
        "Improve CatDesk",
        &files,
        "cargo test project_memory passed",
        "Implement repository map",
        "Continue with Task 7",
    );
    let output = session_resume_output(
        MemoryDocument {
            name: def.name.to_string(),
            path: ".catdesk/session.md".to_string(),
            text: text.clone(),
        },
        "Improve CatDesk",
        files,
        "cargo test project_memory passed",
        "Implement repository map",
        "Continue with Task 7",
    );
    assert_eq!(output.document.name, "session");
    for heading in [
        "## Session goal",
        "## Files changed",
        "## Verification results",
        "## Remaining work",
        "## Resume prompt",
    ] {
        assert!(text.contains(heading), "missing heading {heading}");
    }
    assert!(text.contains("- src/project_memory.rs"));
    assert!(text.contains("Continue with Task 7"));
}

#[test]
fn session_resume_text_has_every_section() {
    let text = session_resume_text(
        "Improve CatDesk",
        &["src/mcp.rs".to_string()],
        "passed",
        "more",
        "Continue",
    );
    assert_eq!(
        text,
        "# Session\n\n## Session goal\n\nImprove CatDesk\n\n## Files changed\n\n- src/mcp.rs\n\n## Verification results\n\npassed\n\n## Remaining work\n\nmore\n\n## Resume prompt\n\nContinue\n"
    );
}

#[test]
fn empty_blocks_say_none_recorded() {
    assert_eq!(markdown_block("   "), "_None recorded._\n");
    assert_eq!(markdown_block("  x  "), "x\n");
}

#[test]
fn session_resume_keeps_user_sections() {
    let existing = "# Session\n\nCurrent session state and handoff notes.\n\n## Session goal\n\nOld goal\n\n## My notes\n\nRemember the flaky test.\n\n## Resume prompt\n\nOld prompt\n";
    let files = vec!["src/lib.rs".to_string()];
    let next = session_resume_next_text(existing, "New goal", &files, "ok", "none", "go on");
    let fresh = session_resume_text("New goal", &files, "ok", "none", "go on");
    let body = fresh.strip_prefix("# Session\n\n").expect("title");
    assert_eq!(
        next,
        format!("# Session\n\n## My notes\nRemember the flaky test.\n\n{body}")
    );
    assert!(!next.contains("Old goal"));
    assert!(!next.contains("Old prompt"));
}

#[test]
fn session_resume_keeps_notes_under_the_title() {
    let files = vec!["src/lib.rs".to_string()];
    let fresh = session_resume_text("g", &files, "r", "w", "p");
    let body = fresh.strip_prefix("# Session\n\n").expect("title");
    let next = session_resume_next_text("# Session\n\nbody\n", "g", &files, "r", "w", "p");
    assert_eq!(next, format!("# Session\n\nbody\n\n{body}"));
    let again = session_resume_next_text(&next, "g2", &files, "r", "w", "p");
    assert!(again.starts_with("# Session\n\nbody\n\n## Session goal\n\ng2\n"));
    let default_only = session_resume_next_text(
        "# Session\n\nCurrent session state and handoff notes.\n",
        "g",
        &files,
        "r",
        "w",
        "p",
    );
    assert_eq!(default_only, fresh);
}

#[test]
fn session_resume_keeps_a_top_heading_after_a_resume_section() {
    let files: Vec<String> = Vec::new();
    let existing = "# Session\n\n## Remaining work\n\nold\n# Later\nkept line\n";
    let next = session_resume_next_text(existing, "g", &files, "r", "w", "p");
    assert!(next.starts_with("# Session\n\n# Later\nkept line\n\n## Session goal\n"));
    assert!(!next.contains("old"));
}
