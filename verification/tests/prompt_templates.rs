use catdesk::prompt_templates::{
    default_template_text, default_templates, modified_time_text, not_found_message,
    prompt_template, safe_template_name, template_description, write_creates,
};

#[test]
fn six_default_templates() {
    let templates = default_templates();
    assert_eq!(templates.len(), 6);
    for t in templates {
        let text = default_template_text(t);
        assert!(text.starts_with("# "));
        assert!(t.name.ends_with(".md"));
        assert_eq!(safe_template_name(t.name), Ok(t.name.to_string()));
    }
}

#[test]
fn template_names_are_file_names() {
    assert_eq!(safe_template_name(" bug-report "), Ok("bug-report.md".to_string()));
    assert_eq!(safe_template_name("a_b.md"), Ok("a_b.md".to_string()));
    assert_eq!(
        safe_template_name("  "),
        Err("template name must not be empty".to_string())
    );
    assert_eq!(
        safe_template_name("../x"),
        Err("template name must be a file name, not a path".to_string())
    );
    assert_eq!(
        safe_template_name(".."),
        Err("template name must be a file name, not a path".to_string())
    );
    assert_eq!(
        safe_template_name(".md"),
        Err("template name may contain only letters, numbers, hyphen, and underscore".to_string())
    );
    assert_eq!(
        safe_template_name("a b"),
        Err("template name may contain only letters, numbers, hyphen, and underscore".to_string())
    );
}

#[test]
fn safe_name_is_stable() {
    let once = safe_template_name("notes").expect("name");
    assert_eq!(safe_template_name(&once), Ok(once.clone()));
}

#[test]
fn description_is_first_plain_line() {
    assert_eq!(template_description("# T\n\n  Steps: do it  \nmore"), "Steps: do it");
    assert_eq!(template_description("# only heading\n"), "");
    let long = "x".repeat(200);
    assert_eq!(template_description(&long).chars().count(), 120);
}

#[test]
fn write_needs_overwrite_for_existing() {
    assert_eq!(write_creates(false, false), Ok(true));
    assert_eq!(write_creates(true, true), Ok(false));
    assert_eq!(
        write_creates(true, false),
        Err("Prompt template already exists. Set overwrite=true to replace it.".to_string())
    );
    assert_eq!(not_found_message("x"), "Prompt template not found: x");
}

#[test]
fn templates_listed_without_bodies() {
    let t = prompt_template(
        "bug-report.md".to_string(),
        ".catdesk/prompts/bug-report.md".to_string(),
        "# Bug Report\n\nSteps:\n".to_string(),
        Some(modified_time_text(42)),
        false,
    );
    assert!(t.text.is_empty());
    assert_eq!(t.bytes, 21);
    assert_eq!(t.description, "Steps:");
    assert_eq!(t.modified_time.as_deref(), Some("unix:42"));
}
