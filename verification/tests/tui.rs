use catdesk::state::{FlowAnimKind, FlowAnimSegment, FlowDirection, FlowLane};
use std::collections::VecDeque;
use catdesk::tui::{
    panel_heights, visible_flow_slots,
    flow_lane_cells, flow_lit_count,
    flow_phase_line, flow_step_glyph, FlowPhaseStepState,
    debug_lane, flow_call_offset, flow_phase_bounds, masked_secret_preview,
    normalize_ngrok_authtoken_input, sanitize_for_filename, trim_line,
};

#[test]
fn normalizes_plain_ngrok_token() {
    assert_eq!(
        normalize_ngrok_authtoken_input("  test-token-123  "),
        "test-token-123"
    );
}

#[test]
fn extracts_token_from_ngrok_command() {
    assert_eq!(
        normalize_ngrok_authtoken_input("ngrok config add-authtoken test-token-123"),
        "test-token-123"
    );
}

#[test]
fn ngrok_token_quotes_and_blank_input() {
    assert_eq!(
        normalize_ngrok_authtoken_input("ngrok config add-authtoken 'abc'"),
        "abc"
    );
    assert_eq!(
        normalize_ngrok_authtoken_input("add-authtoken \"xyz\" extra"),
        "xyz"
    );
    assert_eq!(normalize_ngrok_authtoken_input("   "), "");
    assert_eq!(
        normalize_ngrok_authtoken_input("ngrok config add-authtoken"),
        "ngrok config add-authtoken"
    );
}

#[test]
fn masked_secret_shows_last_four() {
    assert_eq!(masked_secret_preview(""), "");
    assert_eq!(masked_secret_preview("abc"), "abc");
    assert_eq!(masked_secret_preview("abcdefgh"), "****efgh");
}

#[test]
fn sanitize_replaces_non_alphanumerics() {
    assert_eq!(sanitize_for_filename("a b/c-1"), "a_b_c_1");
    assert_eq!(sanitize_for_filename(""), "browser");
    assert_eq!(sanitize_for_filename("é"), "_");
}

#[test]
fn trim_line_adds_ellipsis() {
    assert_eq!(trim_line("hello", 5), "hello");
    assert_eq!(trim_line("hello world", 8), "hello...");
    assert_eq!(trim_line("hello", 2), "...");
}

#[test]
fn call_offset_centres_text_in_lane() {
    assert_eq!(flow_call_offset("abcd").len(), "Your computer ".len() + 14);
    assert_eq!(
        flow_call_offset(&"x".repeat(40)).len(),
        "Your computer ".len()
    );
}

#[test]
fn debug_lane_lights_from_the_moving_end() {
    assert_eq!(debug_lane(Some(FlowDirection::Forward), 2, 5), "##---");
    assert_eq!(debug_lane(Some(FlowDirection::Backward), 2, 5), "---##");
    assert_eq!(debug_lane(None, 2, 5), "-----");
}

#[test]
fn phase_bounds_cover_the_steps() {
    assert_eq!(flow_phase_bounds(0), (0, 4));
    assert_eq!(flow_phase_bounds(2), (8, 18));
    assert_eq!(flow_phase_bounds(4), (29, 33));
}

#[test]
fn phase_lines_align_titles_and_statuses() {
    let line = flow_phase_line(None, 0);
    assert_eq!(line.title, "    Phase 1: Checking tools");
    assert_eq!(line.title_padding, 33 - 27 + 4);
    assert_eq!(line.status, "");
    assert_eq!(line.status_padding, 20);
    assert_eq!(line.steps.len(), 4);
    assert!(line.steps.iter().all(|s| *s == FlowPhaseStepState::Future));
    let last = flow_phase_line(None, 4);
    assert_eq!(last.title, "    Phase 5: Final resource check");
    assert_eq!(last.title_padding, 4);
    assert_eq!(flow_step_glyph(FlowPhaseStepState::Complete), '\u{2726}');
    assert_eq!(flow_step_glyph(FlowPhaseStepState::Pending), '\u{2727}');
}

fn lane_with(segment: FlowAnimSegment) -> FlowLane {
    let mut queue = VecDeque::new();
    queue.push_back(segment);
    FlowLane {
        flow_id: "flow-1".to_string(),
        short_id: "flow-1".to_string(),
        events: vec![],
        bootstrap_status_active: false,
        bootstrap_completed_steps: 0,
        bootstrap_pending_steps: VecDeque::new(),
        bootstrap_status_close_deadline_ms: None,
        anim_queue: queue,
        last_direction: FlowDirection::Forward,
        closing_started_ms: None,
        closing_step_ms: 0,
    }
}

#[test]
fn lane_cells_light_only_when_active() {
    let lane = lane_with(FlowAnimSegment {
        kind: FlowAnimKind::Move,
        direction: FlowDirection::Backward,
        started_ms: 0,
        ends_ms: 1000,
        step_ms: 10,
        start_cells: 0,
        end_cells: 32,
    });
    let lit = flow_lit_count(Some(&lane), 500, 32);
    assert!(lit > 0 && lit < 32);
    let shown = flow_lane_cells(true, Some(&lane), 500);
    assert_eq!(shown, debug_lane(Some(FlowDirection::Backward), lit, 32));
    assert!(shown.ends_with('#'));
    assert!(shown.starts_with('-'));
    assert_eq!(flow_lane_cells(false, Some(&lane), 500), "-".repeat(32));
    assert_eq!(flow_lane_cells(true, None, 500), "-".repeat(32));
}

#[test]
fn panels_share_the_screen() {
    assert_eq!(panel_heights(50, false), (5, 24));
    assert_eq!(panel_heights(30, true), (3, 21));
    assert_eq!(panel_heights(10, false), (5, 17));
    assert_eq!(visible_flow_slots(true, 24, 6, 3), 4);
    assert_eq!(visible_flow_slots(true, 6, 6, 3), 0);
    assert_eq!(visible_flow_slots(false, 24, 0, 3), 0);
    assert_eq!(visible_flow_slots(true, 24, 0, 0), 19);
}

fn status_app() -> catdesk::state::AppState {
    catdesk::state::AppState::from_config(
        8765,
        "w".to_string(),
        "c".to_string(),
        catdesk::state::AppConfig::default(),
        7,
        "s".to_string(),
    )
    .expect("app")
}

#[test]
fn service_status_texts_follow_the_services() {
    let mut app = status_app();
    app.mode = catdesk::state::Mode::Computer;
    let idle = catdesk::tui::service_status_texts(&app);
    assert_eq!(idle.server, "STOPPED");
    assert_eq!(idle.ngrok, "STOPPED");
    assert_eq!(idle.devtools, "N/A");
    assert_eq!(idle.remote, "X");
    app.server_running = true;
    app.ngrok_running = true;
    app.remote_connected = true;
    app.mode = catdesk::state::Mode::Both;
    let up = catdesk::tui::service_status_texts(&app);
    assert_eq!(up.server, "RUNNING (port 8765)");
    assert_eq!(up.ngrok, "RUNNING");
    assert_eq!(up.devtools, "STOPPED");
    assert_eq!(up.remote, "V");
    app.devtools_running = true;
    assert_eq!(catdesk::tui::service_status_texts(&app).devtools, "RUNNING");
}

#[test]
fn idle_lane_call_text_and_lane_activity() {
    assert_eq!(catdesk::tui::idle_flow_call_text(true), "awaiting request");
    assert_eq!(catdesk::tui::idle_flow_call_text(false), "flow closed");
    let mut app = status_app();
    let mut lane = lane_with(FlowAnimSegment {
        kind: FlowAnimKind::Move,
        direction: FlowDirection::Forward,
        started_ms: 0,
        ends_ms: 1000,
        step_ms: 10,
        start_cells: 0,
        end_cells: 4,
    });
    assert!(catdesk::tui::flow_lane_active(&lane, &app));
    lane.anim_queue.clear();
    assert!(!catdesk::tui::flow_lane_active(&lane, &app));
    app.server_running = true;
    app.ngrok_running = true;
    app.remote_connected = true;
    assert!(catdesk::tui::flow_lane_active(&lane, &app));
    app.remote_connected = false;
    lane.closing_started_ms = Some(5);
    assert!(catdesk::tui::flow_lane_active(&lane, &app));
}
