use catdesk::repo_map::{
    detect_build_test_commands, detect_entry_points, detect_frameworks,
    detect_important_folders, detect_languages, file_language, is_ignored_dir, markdown_list,
    repo_map_output,
};
use catdesk::verification::WorkspaceFiles;

fn strings(items: &[&str]) -> Vec<String> {
    items.iter().map(|s| s.to_string()).collect()
}

#[test]
fn detect_build_test_commands_uses_detected_node_package_manager() {
    let files = WorkspaceFiles {
        entries: vec![
            ("package.json".to_string(), true),
            ("pnpm-lock.yaml".to_string(), true),
        ],
        package_json_text: Some(
            r#"{"scripts":{"test":"vitest","build":"vite build","lint":"eslint ."}}"#.to_string(),
        ),
        pyproject_text: None,
    };
    let commands = detect_build_test_commands(&files);
    assert!(commands.contains(&"pnpm test".to_string()));
    assert!(commands.contains(&"pnpm run build".to_string()));
    assert!(commands.contains(&"pnpm run lint".to_string()));
}

#[test]
fn rust_and_go_workspace_is_mapped() {
    let files = strings(&["Cargo.toml", "src/main.rs", "cmd/demo/main.go"]);
    let cargo = "[package]\nname = \"demo\"\n[dependencies]\naxum = \"0.8\"\ntokio = \"1\"\n";
    let languages = detect_languages(&files);
    assert_eq!(
        languages,
        strings(&["Go (1)", "Rust (1)", "TOML (1)"])
    );
    let frameworks = detect_frameworks(cargo, "");
    assert_eq!(frameworks, strings(&["Axum", "Tokio"]));
    let sources = vec![(
        "cmd/demo/main.go".to_string(),
        "package main\nfunc main() {}\n".to_string(),
    )];
    let entries = detect_entry_points(&files, None, &sources);
    assert_eq!(entries, strings(&["cmd/demo/main.go", "src/main.rs"]));
    let build = detect_build_test_commands(&WorkspaceFiles {
        entries: vec![("Cargo.toml".to_string(), true)],
        package_json_text: None,
        pyproject_text: None,
    });
    assert_eq!(build, strings(&["cargo fmt --check", "cargo test", "cargo build"]));
    let folders = detect_important_folders(&files);
    assert_eq!(folders, strings(&["cmd/ (1 files)", "src/ (1 files)"]));

    let out = repo_map_output(
        ".catdesk/repo_map.md".to_string(),
        languages,
        frameworks,
        folders,
        entries,
        build,
        3,
        false,
    );
    assert_eq!(out.path, ".catdesk/repo_map.md");
    assert!(out.text.contains("- Axum\n"));
    assert!(!out.text.contains("node_modules/pkg"));
    assert!(out.render_text().starts_with("wrote: .catdesk/repo_map.md\nfiles scanned: 3\ntruncated: false\n\n"));
}

#[test]
fn generated_directories_are_ignored() {
    assert!(is_ignored_dir("target"));
    assert!(is_ignored_dir("node_modules/pkg"));
    assert!(is_ignored_dir("npm/bin"));
    assert!(is_ignored_dir("target\\debug"));
    assert!(!is_ignored_dir("targets"));
    assert!(!is_ignored_dir("src"));
}

#[test]
fn languages_by_extension() {
    assert_eq!(file_language("a/b.rs"), Some("Rust"));
    assert_eq!(file_language("x.tsx"), Some("TypeScript"));
    assert_eq!(file_language("run.ps1"), Some("Shell"));
    assert_eq!(file_language("Makefile"), None);
    assert_eq!(file_language(".md"), None);
}

#[test]
fn languages_rank_by_count_then_name() {
    let files = strings(&["a.py", "b.py", "c.rs", "d.go", "e"]);
    assert_eq!(
        detect_languages(&files),
        strings(&["Python (2)", "Go (1)", "Rust (1)"])
    );
}

#[test]
fn entry_points_from_package_json() {
    let files = strings(&["index.js", "cli.js", "src/bin/tool.rs", "pkg/__main__.py", "A.java"]);
    let package = r#"{"main":"index.js","bin":{"tool":"cli.js","gone":"missing.js"}}"#;
    let sources = vec![(
        "A.java".to_string(),
        "class A { public static void main(String[] a) {} }".to_string(),
    )];
    let entries = detect_entry_points(&files, Some(package), &sources);
    assert_eq!(
        entries,
        strings(&[
            "A.java",
            "package.json bin.tool: cli.js",
            "package.json main: index.js",
            "pkg/__main__.py",
            "src/bin/tool.rs",
        ])
    );
}

#[test]
fn empty_lists_say_none_detected() {
    assert_eq!(markdown_list(&[]), "- None detected.\n");
    assert_eq!(markdown_list(&strings(&["a", "b"])), "- a\n- b\n");
}

#[test]
fn string_member_pairs_skip_non_strings() {
    let members = vec![
        ("cli".to_string(), Some("bin/cli.js".to_string())),
        ("odd".to_string(), None),
    ];
    assert_eq!(
        catdesk::repo_map::string_member_pairs(&members),
        vec![("cli".to_string(), "bin/cli.js".to_string())]
    );
}
