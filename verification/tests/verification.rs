use catdesk::verification::{
    command_status, finished_result, missing_tool_result, node_package_manager,
    package_script_exists, project_output, python_project_detected, summary_lines_from,
    verification_plan, VerificationCommand, WorkspaceFiles,
};

fn files(entries: &[(&str, bool)], package: Option<&str>, pyproject: Option<&str>) -> WorkspaceFiles {
    WorkspaceFiles {
        entries: entries.iter().map(|(n, f)| (n.to_string(), *f)).collect(),
        package_json_text: package.map(|s| s.to_string()),
        pyproject_text: pyproject.map(|s| s.to_string()),
    }
}

fn command(name: &str) -> VerificationCommand {
    VerificationCommand {
        ecosystem: "Rust".to_string(),
        command: name.to_string(),
        executable: "cargo".to_string(),
        args: vec!["test".to_string()],
    }
}

#[test]
fn verification_plan_detects_rust_node_and_configured_python_commands() {
    let workspace = files(
        &[
            ("Cargo.toml", true),
            ("pnpm-lock.yaml", true),
            ("package.json", true),
            ("pyproject.toml", true),
        ],
        Some(r#"{"scripts":{"test":"echo test","build":"echo build"}}"#),
        Some("[project]\nname = \"demo\"\n[tool.pytest.ini_options]\n[tool.ruff]\n"),
    );

    let (commands, skipped) = verification_plan(&workspace);
    let command_names = commands
        .iter()
        .map(|command| command.command.as_str())
        .collect::<Vec<_>>();
    assert!(command_names.contains(&"cargo fmt --check"));
    assert!(command_names.contains(&"cargo test"));
    assert!(command_names.contains(&"cargo build"));
    assert!(command_names.contains(&"pnpm run test"));
    assert!(command_names.contains(&"pnpm run build"));
    assert!(command_names.contains(&"pytest"));
    assert!(command_names.contains(&"ruff check ."));
    assert!(!command_names.contains(&"mypy ."));
    assert!(skipped.iter().any(|item| item.contains("lint")));
    assert!(skipped.iter().any(|item| item.contains("mypy")));
}

#[test]
fn empty_workspace_plans_nothing_and_is_not_configured() {
    let (commands, skipped) = verification_plan(&files(&[], None, None));
    assert!(commands.is_empty());
    assert_eq!(
        skipped,
        vec![
            "Rust: Cargo.toml not found".to_string(),
            "Node: package.json not found".to_string(),
            "Python: no Python project files found".to_string(),
        ]
    );
    let output = project_output(Vec::new(), skipped);
    assert_eq!(output.status, "NOT_CONFIGURED");
    assert!(!output.success);
    assert!(output.commands.is_empty());
}

#[test]
fn package_scripts_come_from_json() {
    let ws = files(&[("package.json", true)], Some(r#"{"scripts":{"lint":"x"}}"#), None);
    assert!(package_script_exists(&ws, "lint"));
    assert!(!package_script_exists(&ws, "test"));
    let broken = files(&[("package.json", true)], Some("{not json"), None);
    assert!(!package_script_exists(&broken, "lint"));
}

#[test]
fn node_manager_prefers_lockfiles() {
    let ws = |name: &str| files(&[("package.json", true), (name, true)], Some("{}"), None);
    assert_eq!(node_package_manager(&ws("yarn.lock")), Some(("yarn.lock", "yarn")));
    assert_eq!(node_package_manager(&ws("bun.lockb")), Some(("bun.lockb", "bun")));
    assert_eq!(node_package_manager(&ws("other")), Some(("package.json", "npm")));
    assert_eq!(node_package_manager(&files(&[], None, None)), None);
}

#[test]
fn python_project_is_detected_from_files() {
    assert!(python_project_detected(&files(&[("app.py", true)], None, None)));
    assert!(python_project_detected(&files(&[("requirements.txt", true)], None, None)));
    assert!(!python_project_detected(&files(&[(".py", true)], None, None)));
    assert!(python_project_detected(&files(&[("pkg.py", false)], None, None)));
    assert!(!python_project_detected(&files(&[("setup.txt", true), ("py", true)], None, None)));
}

#[test]
fn command_status_reports_timeouts() {
    assert_eq!(command_status(true, Some(0), ""), "PASSED");
    assert_eq!(command_status(false, None, "Command timed out after 5ms"), "TIMED_OUT");
    assert_eq!(command_status(false, Some(1), "Command timed out"), "FAILED");
}

#[test]
fn results_decide_overall_status() {
    let passed = finished_result(command("cargo test"), true, Some(0), 3, "", vec![]);
    let missing = missing_tool_result(command("cargo build"));
    assert_eq!(missing.status, "SKIPPED_MISSING_TOOL");
    assert_eq!(missing.summary, vec!["missing executable: cargo".to_string()]);
    let partial = project_output(vec![passed, missing], vec![]);
    assert_eq!(partial.status, "PARTIAL");
    assert!(!partial.success);

    let failed = finished_result(command("cargo test"), false, Some(101), 3, "", vec![]);
    let out = project_output(vec![failed], vec![]);
    assert_eq!(out.status, "FAILED");

    let ok = finished_result(command("cargo test"), true, Some(0), 3, "", vec![]);
    let out = project_output(vec![ok], vec![]);
    assert_eq!(out.status, "PASSED");
    assert!(out.success);
}

#[test]
fn summary_merges_errors_and_key_output() {
    let lines = summary_lines_from(
        vec!["error: a".to_string()],
        vec!["error: a".to_string(), "test result: FAILED near end".to_string()],
    );
    assert_eq!(
        lines,
        vec!["error: a".to_string(), "test result: FAILED near end".to_string()]
    );
    assert_eq!(summary_lines_from(vec![], vec![]), vec!["(no output)".to_string()]);
    let many: Vec<String> = (0..30).map(|i| format!("l{i}")).collect();
    assert_eq!(summary_lines_from(many, vec![]).len(), 18);
}

#[test]
fn render_lists_skipped_and_results() {
    let ok = finished_result(command("cargo test"), true, Some(0), 7, "", vec!["fine".to_string()]);
    let out = project_output(vec![ok], vec!["Node: package.json not found".to_string()]);
    assert_eq!(
        out.render_text(),
        "status: PASSED\nsuccess: true\ncommands: 1\n\nskipped:\n- Node: package.json not found\n\n## Rust - cargo test\nstatus: PASSED\nexit_code: 0\nelapsed_ms: 7\n- fine\n"
    );
}

#[test]
fn member_names_keep_order() {
    let members = vec![
        ("test".to_string(), Some("vitest".to_string())),
        ("lint".to_string(), None),
    ];
    assert_eq!(catdesk::verification::member_names(&members), vec!["test".to_string(), "lint".to_string()]);
}
