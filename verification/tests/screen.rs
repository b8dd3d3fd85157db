use catdesk::screen::{
    settings_screen_lines, settings_scroll,
    clamp_highlight, ngrok_auth_setup_modal_area, pick_detail_mode, pick_theme, pick_tool_mode,
    reset_billing, set_ngrok_domain, toggle_co_author,
    toast_area,
    key_is_clipboard_paste, KeyCode, KeyEvent, KeyModifiers,
    browser_key, centered_rect, clean_ngrok_domain, copy_target, extract_from_screen,
    initial_settings_row, prompt_key, rect_contains, selected_supported_browser_idx,
    selection_missing, settings_key, supported_indices, token_key, token_save_failed_message,
    Area, BrowserChoice, BrowserInput, BrowserStep, LogView, PromptInput, PromptStep, Selection,
    SettingsAction, SettingsInput, SettingsMenu, TokenEntry, TokenInput, TokenStep,
};
use catdesk::state::{AppConfig, AppState, ShowDetailMode, ToolMode, UsageTotals};

fn lines(items: &[&str]) -> Vec<String> {
    items.iter().map(|s| s.to_string()).collect()
}

#[test]
fn selection_orders_its_ends() {
    let mut s = Selection::new();
    assert_eq!(s.range(), None);
    s.press((5, 2));
    s.drag((1, 1));
    assert_eq!(s.range(), Some(((1, 1), (5, 2))));
    assert!(s.release((3, 1)));
    assert_eq!(s.range(), Some(((3, 1), (5, 2))));
    assert!(!s.release((0, 0)));
    s.clear();
    assert_eq!(s.range(), None);
}

#[test]
fn screen_text_is_extracted_in_reading_order() {
    let screen = lines(&["hello world  ", "second line", "third"]);
    assert_eq!(extract_from_screen(&screen, (6, 0), (5, 1)), "world\nsecond");
    assert_eq!(extract_from_screen(&screen, (0, 2), (99, 2)), "third");
    assert_eq!(extract_from_screen(&screen, (3, 1), (3, 1)), "o");
    assert_eq!(extract_from_screen(&screen, (0, 2), (4, 9)), "third");
}

#[test]
fn clicks_copy_urls_and_connector_values() {
    let url = "https://example.ngrok.app/slug/mcp";
    assert_eq!(
        copy_target("open chatgpt.com/apps to connect", Some(url)).as_deref(),
        Some("https://chatgpt.com/apps#settings/Connectors")
    );
    assert_eq!(copy_target("MCP Server URL: ...", Some(url)).as_deref(), Some(url));
    assert_eq!(copy_target("  https://example.ngrok.app/slug/m...", Some(url)).as_deref(), Some(url));
    assert_eq!(copy_target("  https://example.ngrok.app/slu", Some(url)), None);
    assert_eq!(copy_target("\u{2502} Name \u{2502}", None).as_deref(), Some("CatDesk"));
    assert_eq!(
        copy_target("\u{2502} Authentication \u{2502}", None).as_deref(),
        Some("None")
    );
    assert_eq!(copy_target("Name", None), None);
    assert_eq!(copy_target("other", Some(url)), None);
}

#[test]
fn log_view_scrolls_and_follows() {
    let mut v = LogView::new();
    v.scroll_up(10);
    assert_eq!((v.scroll, v.follow_tail), (9, false));
    v.scroll_up(10);
    assert_eq!(v.scroll, 8);
    v.scroll_down(9);
    assert_eq!((v.scroll, v.follow_tail), (9, true));
    v.scroll_down(9);
    assert_eq!((v.scroll, v.follow_tail), (9, true));
    v.scroll_up(3);
    v.settle(1);
    assert_eq!(v.scroll, 1);
    v.jump_to_end(7);
    assert_eq!((v.scroll, v.follow_tail), (7, true));
}

#[test]
fn popups_are_centred() {
    let area = Area { x: 0, y: 0, width: 100, height: 40 };
    let r = centered_rect(90, 15, area);
    assert_eq!((r.x, r.y, r.width, r.height), (5, 12, 90, 15));
    let small = Area { x: 2, y: 3, width: 30, height: 10 };
    let r = centered_rect(90, 15, small);
    assert_eq!((r.x, r.y, r.width, r.height), (3, 4, 28, 8));
    assert!(rect_contains(r, 3, 4));
    assert!(!rect_contains(r, 31, 4));
}

#[test]
fn prompt_editing() {
    let mut input = "ab".to_string();
    assert!(prompt_key(&mut input, PromptInput::Char('c')) == PromptStep::Editing);
    assert!(prompt_key(&mut input, PromptInput::Backspace) == PromptStep::Editing);
    assert!(prompt_key(&mut input, PromptInput::Paste("xé".to_string())) == PromptStep::Editing);
    assert_eq!(input, "abxé");
    assert!(prompt_key(&mut input, PromptInput::Enter) == PromptStep::Submit);
    assert!(prompt_key(&mut input, PromptInput::Esc) == PromptStep::Cancel);
}

#[test]
fn token_screen_saves_normalized_token() {
    let mut entry = TokenEntry { input: String::new(), error: None };
    assert!(matches!(token_key(&mut entry, TokenInput::Enter), TokenStep::Editing));
    assert_eq!(entry.error.as_deref(), Some("NGROK_AUTHTOKEN cannot be empty"));
    token_key(&mut entry, TokenInput::Paste("ngrok config add-authtoken abc".to_string()));
    assert_eq!(entry.input, "abc");
    assert_eq!(entry.error, None);
    token_key(&mut entry, TokenInput::Char('d'));
    token_key(&mut entry, TokenInput::Backspace);
    match token_key(&mut entry, TokenInput::Enter) {
        TokenStep::Save(t) => assert_eq!(t, "abc"),
        _ => panic!("expected save"),
    }
    assert!(matches!(token_key(&mut entry, TokenInput::Quit), TokenStep::Cancel));
    assert_eq!(
        token_save_failed_message("denied"),
        "Failed to save ~/.catdesk/config.toml: denied"
    );
}

#[test]
fn settings_rows_and_actions() {
    let themes = lines(&["concise", "neon", "paper"]);
    let mut menu = SettingsMenu { selected_row: initial_settings_row(&themes, "neon"), confirm_reset: false };
    assert_eq!(menu.selected_row, 1);
    assert!(matches!(settings_key(&mut menu, 3, SettingsInput::Enter), SettingsAction::Theme(1)));
    settings_key(&mut menu, 3, SettingsInput::Down);
    settings_key(&mut menu, 3, SettingsInput::Down);
    assert!(matches!(
        settings_key(&mut menu, 3, SettingsInput::Enter),
        SettingsAction::SetToolMode(ToolMode::MultiTools)
    ));
    for _ in 0..20 {
        settings_key(&mut menu, 3, SettingsInput::Down);
    }
    assert_eq!(menu.selected_row, 11);
    assert!(matches!(settings_key(&mut menu, 3, SettingsInput::Enter), SettingsAction::EditDomain));
    menu.selected_row = 7;
    assert!(matches!(
        settings_key(&mut menu, 3, SettingsInput::Enter),
        SettingsAction::SetDetailMode(ShowDetailMode::Collapsed)
    ));
    assert!(matches!(settings_key(&mut menu, 3, SettingsInput::Reset), SettingsAction::Stay));
    assert!(menu.confirm_reset);
    assert!(matches!(settings_key(&mut menu, 3, SettingsInput::Reset), SettingsAction::ResetBilling));
    assert!(!menu.confirm_reset);
    settings_key(&mut menu, 3, SettingsInput::Reset);
    settings_key(&mut menu, 3, SettingsInput::Other);
    assert!(!menu.confirm_reset);
    assert_eq!(initial_settings_row(&themes, "missing"), 0);
}

#[test]
fn ngrok_domains_are_cleaned() {
    assert_eq!(clean_ngrok_domain(" https://a.ngrok.app/// ").as_deref(), Some("a.ngrok.app"));
    assert_eq!(clean_ngrok_domain("http://b.dev").as_deref(), Some("b.dev"));
    assert_eq!(clean_ngrok_domain("  "), None);
    assert_eq!(clean_ngrok_domain("https://"), None);
}

fn browser(path: &str, supported: bool) -> BrowserChoice {
    BrowserChoice { path: path.to_string(), binary: "chrome".to_string(), mcp_supported: supported }
}

#[test]
fn browser_selection() {
    let browsers = vec![browser("/a", false), browser("/b", true), browser("/c", true)];
    let supported = supported_indices(&browsers);
    assert_eq!(supported, vec![1, 2]);
    assert_eq!(selected_supported_browser_idx(&browsers, Some(&browser("/c", true))), 1);
    assert_eq!(selected_supported_browser_idx(&browsers, Some(&browser("/a", false))), 0);
    assert_eq!(selected_supported_browser_idx(&browsers, None), 0);
    assert!(selection_missing(&browsers, Some(&browser("/z", true))));
    assert!(!selection_missing(&browsers, None));
    let mut at = 0;
    assert!(matches!(browser_key(&mut at, &supported, BrowserInput::Down), BrowserStep::Stay));
    assert_eq!(at, 1);
    browser_key(&mut at, &supported, BrowserInput::Down);
    assert_eq!(at, 1);
    assert!(browser_key(&mut at, &supported, BrowserInput::Enter) == BrowserStep::Choose(2));
    assert!(browser_key(&mut at, &supported, BrowserInput::Digit(1)) == BrowserStep::Choose(1));
    assert!(browser_key(&mut at, &supported, BrowserInput::Digit(3)) == BrowserStep::Stay);
    assert!(browser_key(&mut at, &supported, BrowserInput::Quit) == BrowserStep::Quit);
}

#[test]
fn detects_ctrl_v_as_clipboard_paste() {
    assert!(key_is_clipboard_paste(&KeyEvent::new(
        KeyCode::Char('v'),
        KeyModifiers::control()
    )));
}

#[test]
fn detects_shift_insert_as_clipboard_paste() {
    assert!(key_is_clipboard_paste(&KeyEvent::new(
        KeyCode::Insert,
        KeyModifiers::shift()
    )));
}

#[test]
fn other_keys_are_not_clipboard_paste() {
    assert!(key_is_clipboard_paste(&KeyEvent::new(KeyCode::Char('V'), KeyModifiers::control())));
    assert!(!key_is_clipboard_paste(&KeyEvent::new(KeyCode::Char('v'), KeyModifiers::none())));
    assert!(!key_is_clipboard_paste(&KeyEvent::new(KeyCode::Insert, KeyModifiers::control())));
    assert!(!key_is_clipboard_paste(&KeyEvent::new(KeyCode::Other, KeyModifiers::shift())));
}

#[test]
fn toast_sits_beside_pointer_and_on_screen() {
    let area = Area { x: 0, y: 0, width: 80, height: 24 };
    let t = toast_area("Copied", (10, 5), area);
    assert_eq!((t.x, t.y, t.width, t.height), (11, 4, 8, 1));
    let edge = toast_area("Copied", (79, 0), area);
    assert_eq!((edge.x, edge.y), (72, 1));
    let wide = toast_area("é", (0, 30), area);
    assert_eq!((wide.width, wide.y), (4, 23));
}

fn settings_app() -> AppState {
    AppState::from_config(1, "w".to_string(), "c".to_string(), AppConfig::default(), 7, "s".to_string())
        .expect("state")
}

#[test]
fn settings_changes_report_what_changed() {
    let mut app = settings_app();
    let theme = app.theme.clone();
    assert!(pick_theme(&mut app, &theme, "Same").is_none());
    assert_eq!(pick_theme(&mut app, "night", "Night").as_deref(), Some("Theme changed to Night"));
    assert_eq!(app.theme, "night");
    let other = if app.tool_mode == ToolMode::MultiTools { ToolMode::ReadOnly } else { ToolMode::MultiTools };
    let current = app.tool_mode;
    assert!(pick_tool_mode(&mut app, current).is_none());
    assert!(pick_tool_mode(&mut app, other).unwrap().starts_with("Tool mode: "));
    assert_eq!(app.tool_mode, other);
    let detail = app.show_detail_mode;
    assert!(pick_detail_mode(&mut app, detail).is_none());
    let was = app.set_catdesk_as_co_author;
    let msg = toggle_co_author(&mut app);
    assert_eq!(app.set_catdesk_as_co_author, !was);
    assert!(msg.starts_with("Set CatDesk as co-author: "));
    set_ngrok_domain(&mut app, "  https://cat.ngrok.app/ ");
    assert_eq!(app.ngrok_domain.as_deref(), Some("cat.ngrok.app"));
    set_ngrok_domain(&mut app, "   ");
    assert!(app.ngrok_domain.is_none());
    app.record_turn_usage(3, 4);
    reset_billing(&mut app);
    assert_eq!(app.usage_totals.total_tokens, 0);
    assert_eq!(app.session_usage_totals.total_tokens, 7);
}

#[test]
fn highlight_stays_within_supported_browsers() {
    assert_eq!(clamp_highlight(5, 0), 0);
    assert_eq!(clamp_highlight(1, 3), 1);
    assert_eq!(clamp_highlight(7, 3), 2);
}

#[test]
fn token_modal_is_centred() {
    let area = Area { x: 0, y: 0, width: 100, height: 40 };
    let m = ngrok_auth_setup_modal_area(area);
    assert_eq!((m.width, m.height), (90, 15));
    assert_eq!((m.x, m.y), (5, 12));
}

#[test]
fn settings_screen_text_and_scroll() {
    let themes = vec![
        ("Classic".to_string(), "The default look.".to_string()),
        ("Night".to_string(), "Dark.".to_string()),
    ];
    let usage = UsageTotals { input_tokens: 12, output_tokens: 3, total_tokens: 15, tool_call_count: 2 };
    let (lines, sel) = settings_screen_lines(
        &themes,
        1,
        ToolMode::ReadOnly,
        ShowDetailMode::Expanded,
        true,
        "slug",
        None,
        &usage,
        1,
        false,
    );
    assert_eq!(lines.len(), 3 * 2 + 39);
    assert_eq!(lines[1], "  Choose a theme:");
    assert_eq!(lines[3], "   [1] Classic");
    assert_eq!(lines[6], " > [2] Night  [current]");
    assert_eq!(lines[7], "     Dark.");
    assert_eq!(sel, 6);
    assert_eq!(lines[14], "   [4] read-only  [current]");
    let (_, tool_sel) = settings_screen_lines(
        &themes, 0, ToolMode::ReadOnly, ShowDetailMode::Expanded, false, "s", None, &usage, 3, false,
    );
    assert_eq!(tool_sel, 14);
    let (detail_lines, detail_sel) = settings_screen_lines(
        &themes, 0, ToolMode::ReadOnly, ShowDetailMode::Expanded, false, "s", None, &usage, 5, false,
    );
    assert_eq!(detail_sel, 22);
    assert_eq!(detail_lines[22], " > [6] Expanded  [current]");
    assert_eq!(lines[3 * 2 + 24], "     [enabled]");
    assert_eq!(lines[3 * 2 + 29], "     [slug]");
    assert_eq!(lines[3 * 2 + 32], "     [not set]");
    assert_eq!(lines[3 * 2 + 36], "  Input: 12   Output: 3");
    assert_eq!(lines[3 * 2 + 38], "  [r] Reset token billing totals");
    let (_, domain_sel) = settings_screen_lines(
        &themes, 0, ToolMode::MultiTools, ShowDetailMode::Disable, false, "s", Some("cat.dev"),
        &usage, 2 + 8, true,
    );
    assert_eq!(domain_sel, 3 * 2 + 31);
    assert_eq!(settings_scroll(45, 6, 20), 0);
    assert_eq!(settings_scroll(45, 37, 20), 25);
    assert_eq!(settings_scroll(45, 30, 20), 20);
}
