use catdesk::git_workflow::{
    decide_add, decide_commit, AddDecision,
    commit_confirmation_token, commit_confirmation_token_at, current_branch_from_status,
    literal_pathspec, main_branch_check, parse_porcelain, porcelain_slicing_ok, sorted_unique,
    staged_files_from_output, status_summary_text, unexpected_staged_files,
    validate_branch_name, validate_commit_confirmation_token,
    validate_commit_confirmation_token_at, validate_stage_path, verification_allowed,
};

#[test]
fn parses_status_and_warns_on_main() {
    let raw = "## main...origin/main\n M src/main.rs\n";
    let branch = current_branch_from_status(raw);
    assert_eq!(branch, "main");
    assert_eq!(
        current_branch_from_status("## No commits yet on main\n"),
        "main"
    );
    let summary = status_summary_text(&branch, false, true, raw);
    assert!(summary.contains("warning: currently on main"));
}

#[test]
fn validates_feature_branch_names() {
    assert!(validate_branch_name("feature/git-workflow").is_ok());
    assert!(validate_branch_name("-bad").is_err());
    assert!(validate_branch_name("bad name").is_err());
    assert!(validate_branch_name("bad..name").is_err());
}

#[test]
fn parses_porcelain_sections() {
    let raw = "M  staged.rs\n M unstaged.rs\n?? new file.rs\nD  deleted.rs\nR  old.rs -> new.rs\n";
    assert!(porcelain_slicing_ok(raw));
    let (staged, unstaged, untracked, deleted, renamed, ignored) = parse_porcelain(raw);

    assert!(staged.contains(&"staged.rs".to_string()));
    assert!(unstaged.contains(&"unstaged.rs".to_string()));
    assert!(untracked.contains(&"new file.rs".to_string()));
    assert!(deleted.contains(&"deleted.rs".to_string()));
    assert!(renamed.contains(&"old.rs -> new.rs".to_string()));
    assert!(ignored.is_empty());
}

#[test]
fn validates_explicit_stage_paths() {
    assert!(validate_stage_path("src/file with spaces.rs").is_ok());
    assert!(validate_stage_path("src/file[1].rs").is_ok());
    assert!(validate_stage_path(".").is_err());
    assert!(validate_stage_path("./").is_err());
    assert!(validate_stage_path("src/").is_err());
    assert!(validate_stage_path("-bad").is_err());
    assert!(validate_stage_path("C:/secret.txt").is_err());
}

#[test]
fn commit_confirmation_token_tracks_preview_state() {
    let files = vec!["src/main.rs".to_string()];
    let porcelain = "M  src/main.rs\n";
    let token =
        commit_confirmation_token("feature/demo", "Update demo", &files, "PASSED", porcelain)
            .expect("token");
    assert!(validate_commit_confirmation_token(
        Some(&token),
        "feature/demo",
        "Update demo",
        &files,
        "PASSED",
        porcelain
    )
    .is_ok());
    assert!(validate_commit_confirmation_token(
        Some(&token),
        "feature/demo",
        "Different message",
        &files,
        "PASSED",
        porcelain
    )
    .is_err());
}

#[test]
fn token_has_issue_time_and_sixteen_hex_digits() {
    let files = vec!["a.rs".to_string()];
    let token = commit_confirmation_token_at(1_700_000_000, "b", "m", &files, "PASSED", "M  a.rs\n");
    let parts: Vec<&str> = token.split(':').collect();
    assert_eq!(parts.len(), 3);
    assert_eq!(parts[0], "commit");
    assert_eq!(parts[1], "1700000000");
    assert_eq!(parts[2].len(), 16);
    assert!(parts[2].chars().all(|c| c.is_ascii_hexdigit() && !c.is_ascii_uppercase()));
}

#[test]
fn token_accepted_while_fresh_and_refused_after_expiry() {
    let files = vec!["a.rs".to_string()];
    let token = commit_confirmation_token_at(1000, "b", "m", &files, "PASSED", "M  a.rs\n");
    let check = |now: u64| {
        validate_commit_confirmation_token_at(
            Some(&token),
            now,
            "b",
            "m",
            &files,
            "PASSED",
            "M  a.rs\n",
        )
    };
    assert!(check(1000).is_ok());
    assert!(check(1000 + 600).is_ok());
    assert!(check(1000 + 601).is_err());
}

#[test]
fn token_message_is_trimmed_before_fingerprinting() {
    let files = vec!["a.rs".to_string()];
    let t1 = commit_confirmation_token_at(5, "b", "  msg  ", &files, "PASSED", "x");
    let t2 = commit_confirmation_token_at(5, "b", "msg", &files, "PASSED", "x");
    assert_eq!(t1, t2);
}

#[test]
fn token_changes_with_staged_state() {
    let files = vec!["a.rs".to_string()];
    let t1 = commit_confirmation_token_at(5, "b", "m", &files, "PASSED", "M  a.rs\n");
    let t2 = commit_confirmation_token_at(5, "b", "m", &files, "PASSED", "M  a.rs\nM  b.rs\n");
    assert_ne!(t1, t2);
}

#[test]
fn missing_and_malformed_tokens_are_refused() {
    let files = vec!["a.rs".to_string()];
    let check = |token: Option<&str>| {
        validate_commit_confirmation_token_at(token, 10, "b", "m", &files, "PASSED", "x")
    };
    assert!(check(None).is_err());
    assert!(check(Some("")).is_err());
    assert!(check(Some("commit:10")).is_err());
    assert!(check(Some("commit:abc:0000000000000000")).is_err());
    assert!(check(Some("other:10:0000000000000000")).is_err());
}

#[test]
fn branch_names_with_reserved_characters_are_refused() {
    assert!(validate_branch_name("").is_err());
    assert!(validate_branch_name("   ").is_err());
    assert!(validate_branch_name("a~b").is_err());
    assert!(validate_branch_name("a^b").is_err());
    assert!(validate_branch_name("a:b").is_err());
    assert!(validate_branch_name("a?b").is_err());
    assert!(validate_branch_name("a*b").is_err());
    assert!(validate_branch_name("a[b").is_err());
    assert!(validate_branch_name("a\\b").is_err());
    assert!(validate_branch_name("release/v1.2_rc-1").is_ok());
    assert!(validate_branch_name("  main  ").is_ok());
}

#[test]
fn literal_pathspec_prefix() {
    assert_eq!(literal_pathspec("src/a.rs"), ":(literal)src/a.rs");
}

#[test]
fn sorted_unique_orders_and_drops_repeats() {
    let out = sorted_unique(vec!["b".to_string(), "a".to_string(), "b".to_string()]);
    assert_eq!(out, vec!["a".to_string(), "b".to_string()]);
}

#[test]
fn unexpected_staged_files_lists_files_not_approved() {
    let staged = vec!["a".to_string(), "c".to_string()];
    let approved = vec!["a".to_string(), "b".to_string()];
    assert_eq!(unexpected_staged_files(&staged, &approved), vec!["c".to_string()]);
}

#[test]
fn staged_files_from_output_skips_blank_lines() {
    let out = staged_files_from_output("b.rs\n\n  a.rs  \n");
    assert_eq!(out, vec!["a.rs".to_string(), "b.rs".to_string()]);
}

#[test]
fn commit_on_main_needs_permission() {
    assert!(main_branch_check("main", false).is_err());
    assert!(main_branch_check("master", false).is_err());
    assert!(main_branch_check("main", true).is_ok());
    assert!(main_branch_check("feature/x", false).is_ok());
}

#[test]
fn verification_gates_commit() {
    assert!(verification_allowed("PASSED", false, false));
    assert!(!verification_allowed("FAILED", false, false));
    assert!(verification_allowed("FAILED", true, false));
    assert!(!verification_allowed("PARTIAL", false, false));
    assert!(verification_allowed("PARTIAL", false, true));
}

#[test]
fn malformed_tokens_are_refused_before_the_clock_matters() {
    let files = vec!["src/lib.rs".to_string()];
    assert_eq!(
        validate_commit_confirmation_token(None, "b", "m", &files, "PASSED", "p"),
        Err("Run git_commit_verified with dry_run=true first and pass the returned commit_confirmation_token.".to_string())
    );
    assert_eq!(
        validate_commit_confirmation_token(Some("   "), "b", "m", &files, "PASSED", "p"),
        Err("Run git_commit_verified with dry_run=true first and pass the returned commit_confirmation_token.".to_string())
    );
    assert_eq!(
        validate_commit_confirmation_token(Some("commit:12:zz"), "b", "m", &files, "PASSED", "p"),
        Err("Invalid commit confirmation token.".to_string())
    );
    assert_eq!(
        validate_commit_confirmation_token(Some("commit:12:ff:1"), "b", "m", &files, "PASSED", "p"),
        Err("Invalid commit confirmation token.".to_string())
    );
    assert_eq!(
        validate_commit_confirmation_token(Some("commit:0:ff"), "b", "m", &files, "PASSED", "p"),
        Err("Commit confirmation token expired; run dry_run=true again.".to_string())
    );
}

#[test]
fn staging_waits_for_branch_verification_and_clean_index() {
    let files = vec!["src/a.rs".to_string()];
    match decide_add("feature/x", false, "PASSED", false, false, &[], &files) {
        Ok(AddDecision::Stage(args)) => assert_eq!(args, vec!["add", "--", ":(literal)src/a.rs"]),
        _ => panic!("expected staging"),
    }
    assert!(decide_add("main", false, "PASSED", false, false, &[], &files).is_err());
    assert!(matches!(
        decide_add("feature/x", false, "FAILED", false, false, &[], &files),
        Ok(AddDecision::Blocked)
    ));
    let other = vec!["src/b.rs".to_string()];
    assert_eq!(
        decide_add("feature/x", false, "PASSED", false, false, &other, &files).err().unwrap(),
        "Refusing verified commit because unrelated files are already staged: src/b.rs"
    );
}

#[test]
fn committing_waits_for_exact_staging_and_a_valid_token() {
    let files = vec!["src/a.rs".to_string()];
    let token = commit_confirmation_token("feature/x", " msg ", &files, "PASSED", "state").expect("token");
    assert_eq!(
        decide_commit(&files, &files, Some(&token), "feature/x", " msg ", "PASSED", "state"),
        Ok("msg".to_string())
    );
    assert!(decide_commit(&files, &[], Some(&token), "feature/x", " msg ", "PASSED", "state").is_err());
    assert_eq!(
        decide_commit(&files, &files, Some(&token), "feature/x", " msg ", "PASSED", "other").err().unwrap(),
        "Commit confirmation token does not match the current staged preview."
    );
    assert!(decide_commit(&files, &files, None, "feature/x", " msg ", "PASSED", "state").is_err());
}
