use std::collections::VecDeque;

use catdesk::tui::{
    active_bootstrap_status_flow, animation_snapshot_at, build_animation_snapshot,
    should_show_connect_guide, bootstrap_call_text,
    bootstrap_footer_text, bootstrap_header_title, flow_phase_line,
};

use catdesk::state::{
    derive_flow_step_ms, enqueue_flow_segment, flow_anim_lit_count, flow_bootstrap_phases,
    flow_bootstrap_step, flow_bootstrap_steps_total, hms_text, move_segment_duration_ms,
    parse_seed_hex, short_flow_id, AppConfig, AppState, Mode, ServerUiEvent, FlowAnimKind, FlowAnimSegment,
    FlowDirection, ShowDetailMode, ToolMode, UsageTotals, FLOW_ANIM_CELLS,
    FLOW_BACKWARD_ANIMATION_DURATION_MS, FLOW_FORWARD_ANIMATION_DURATION_MS,
};

fn test_app() -> AppState {
    AppState::from_config(
        8787,
        "/tmp/workspace".to_string(),
        "/tmp/workspace/config.toml".to_string(),
        AppConfig::default(),
        7,
        "slug".to_string(),
    )
    .expect("create app state")
}

fn record(app: &mut AppState, event: &str, direction: FlowDirection) {
    app.record_flow("stateless", &[event.to_string()], direction);
}

#[test]
fn flow_anim_lit_count_interpolates_between_endpoints() {
    let duration_ms = move_segment_duration_ms(
        FlowDirection::Forward,
        derive_flow_step_ms(),
        0,
        FLOW_ANIM_CELLS,
    );
    let seg = FlowAnimSegment {
        kind: FlowAnimKind::Move,
        direction: FlowDirection::Forward,
        started_ms: 100,
        ends_ms: 100 + duration_ms,
        step_ms: derive_flow_step_ms(),
        start_cells: 0,
        end_cells: FLOW_ANIM_CELLS,
    };

    assert_eq!(flow_anim_lit_count(seg, 100), 0);
    assert!(flow_anim_lit_count(seg, 100 + duration_ms / 2) > 0);
    assert!(flow_anim_lit_count(seg, 100 + duration_ms / 2) < FLOW_ANIM_CELLS);
    assert_eq!(flow_anim_lit_count(seg, 100 + duration_ms), FLOW_ANIM_CELLS);
}

#[test]
fn backward_move_uses_longer_duration() {
    let forward = move_segment_duration_ms(
        FlowDirection::Forward,
        derive_flow_step_ms(),
        0,
        FLOW_ANIM_CELLS,
    );
    let backward = move_segment_duration_ms(
        FlowDirection::Backward,
        derive_flow_step_ms(),
        0,
        FLOW_ANIM_CELLS,
    );

    assert_eq!(forward, FLOW_FORWARD_ANIMATION_DURATION_MS as u128);
    assert_eq!(backward, FLOW_BACKWARD_ANIMATION_DURATION_MS as u128);
}

#[test]
fn enqueue_flow_segment_preempts_inflight_move() {
    let mut queue = VecDeque::new();
    let step_ms = derive_flow_step_ms();
    enqueue_flow_segment(&mut queue, FlowDirection::Forward, 0, step_ms);
    assert_eq!(queue.len(), 1);

    enqueue_flow_segment(&mut queue, FlowDirection::Backward, 40, step_ms);
    assert_eq!(queue.len(), 2);
    assert!(matches!(queue[0].kind, FlowAnimKind::Turn));
    assert!(queue[0].direction == FlowDirection::Forward);
    assert!(queue[0].start_cells > 0);
    assert_eq!(queue[0].end_cells, 0);
    assert!(matches!(queue[1].kind, FlowAnimKind::Move));
    assert!(queue[1].direction == FlowDirection::Backward);
    assert_eq!(queue[1].start_cells, 0);
    assert_eq!(queue[1].end_cells, FLOW_ANIM_CELLS);
}

#[test]
fn record_flow_tool_call_does_not_activate_bootstrap_status() {
    let mut app = test_app();
    record(&mut app, "tools/call:run_command", FlowDirection::Forward);

    let flow = app.flows.first().expect("missing flow");
    assert!(!flow.bootstrap_status_active);
    assert_eq!(flow.bootstrap_completed_steps, 0);
    assert!(flow.bootstrap_pending_steps.is_empty());
}

#[test]
fn record_flow_initialize_activates_bootstrap_status() {
    let mut app = test_app();
    record(&mut app, "initialize", FlowDirection::Forward);

    let flow = app.flows.first().expect("missing flow");
    assert!(flow.bootstrap_status_active);
    assert_eq!(flow.bootstrap_completed_steps, 0);
    assert_eq!(flow.bootstrap_pending_steps.front(), Some(&0));
}

#[test]
fn record_flow_bootstrap_event_keeps_bootstrap_status_active() {
    let mut app = test_app();
    record(&mut app, "initialize", FlowDirection::Forward);
    record(&mut app, "tools/list", FlowDirection::Forward);

    let flow = app.flows.first().expect("missing flow");
    assert!(flow.bootstrap_status_active);
}

#[test]
fn record_flow_bootstrap_keeps_five_phases_and_expands_widget_reads() {
    let mut app = test_app();
    let f = FlowDirection::Forward;
    let b = FlowDirection::Backward;
    let handshake = [
        ("initialize", f),
        ("initialize", b),
        ("initialize", f),
        ("initialize", b),
        ("notifications/initialized", f),
    ];
    let widgets = [
        "resources/read:run_command",
        "resources/read:catdesk_instruction",
        "resources/read:read",
        "resources/read:search",
        "resources/read:write",
        "resources/read:edit",
        "resources/read:delete",
    ];
    let mut sequence: Vec<(&str, FlowDirection)> = Vec::new();
    // Phase 1: Checking tools
    sequence.extend(handshake);
    sequence.extend([("tools/list", f), ("tools/list", b)]);
    // Phase 2: Checking resources
    sequence.extend(handshake);
    sequence.extend([("resources/list", f), ("resources/list", b)]);
    // Phase 3: Loading widgets
    sequence.extend(handshake);
    for w in widgets {
        sequence.extend([(w, f), (w, b)]);
    }
    // Phase 4: Refreshing widgets
    sequence.extend(handshake);
    sequence.extend([("tools/list", f), ("tools/list", b)]);
    for w in widgets {
        sequence.extend([(w, f), (w, b)]);
    }
    // Phase 5: Final resource check
    sequence.extend(handshake);
    sequence.extend([("resources/list", f), ("resources/list", b)]);

    for (event, direction) in sequence {
        record(&mut app, event, direction);
    }

    let flow = app.flows.first().expect("missing flow");
    assert!(flow.bootstrap_status_active);
    let phase_step_counts: Vec<usize> = flow_bootstrap_phases()
        .iter()
        .map(|phase| phase.steps.len())
        .collect();
    assert_eq!(phase_step_counts, vec![4, 4, 10, 11, 4]);
    assert_eq!(flow_bootstrap_steps_total(ShowDetailMode::Expanded), 33);
    assert_eq!(
        flow.bootstrap_completed_steps,
        flow_bootstrap_steps_total(ShowDetailMode::Expanded)
    );
    assert!(flow.bootstrap_pending_steps.is_empty());
}

#[test]
fn record_flow_tool_call_after_initialize_deactivates_bootstrap_status() {
    let mut app = test_app();
    record(&mut app, "initialize", FlowDirection::Forward);
    record(&mut app, "tools/call:catdesk_instruction", FlowDirection::Forward);

    let flow = app.flows.first().expect("missing flow");
    assert!(!flow.bootstrap_status_active);
    assert!(flow.bootstrap_status_close_deadline_ms.is_none());
}

#[test]
fn record_flow_tool_call_after_close_does_not_reactivate_bootstrap_status() {
    let mut app = test_app();
    record(&mut app, "initialize", FlowDirection::Forward);
    app.begin_flow_close("stateless");
    record(&mut app, "tools/call:run_command", FlowDirection::Forward);

    let flow = app.flows.first().expect("missing flow");
    assert!(!flow.bootstrap_status_active);
}

#[test]
fn recording_moves_the_flow_to_the_front_once() {
    let mut app = test_app();
    app.record_flow_at("first-flow", &["initialize".to_string()], FlowDirection::Forward, 10);
    app.record_flow_at("second-flow", &["tools/list".to_string()], FlowDirection::Forward, 20);
    app.record_flow_at("first-flow", &["tools/list".to_string()], FlowDirection::Forward, 30);
    assert_eq!(app.flows.len(), 2);
    assert_eq!(app.flows[0].flow_id, "first-flow");
    assert_eq!(app.flows[0].short_id, "first-fl");
    assert_eq!(app.flows[1].flow_id, "second-flow");
    assert!(app.remote_connected);
    assert_eq!(app.last_remote_activity_ms, Some(30));
}

#[test]
fn recording_keeps_last_twelve_events() {
    let mut app = test_app();
    let events: Vec<String> = (0..15).map(|i| format!("e{i}")).collect();
    app.record_flow_at("f", &events, FlowDirection::Forward, 5);
    let flow = &app.flows[0];
    assert_eq!(flow.events.len(), 12);
    assert_eq!(flow.events[0], "e3");
    assert_eq!(flow.events[11], "e14");
}

#[test]
fn recording_nothing_changes_nothing() {
    let mut app = test_app();
    app.record_flow_at("f", &[], FlowDirection::Forward, 5);
    assert!(app.flows.is_empty());
    assert!(!app.remote_connected);
}

#[test]
fn closed_lane_is_pruned_after_its_time() {
    let mut app = test_app();
    app.record_flow_at("f", &["tools/list".to_string()], FlowDirection::Forward, 1000);
    app.begin_flow_close_at("f", 2000);
    let step = app.flows[0].closing_step_ms.max(1) as u128;
    app.prune_closed_flows_at(2000 + 96 * step - 1);
    assert_eq!(app.flows.len(), 1);
    app.prune_closed_flows_at(2000 + 96 * step);
    assert!(app.flows.is_empty());
}

#[test]
fn open_lane_survives_refresh() {
    let mut app = test_app();
    app.record_flow_at("f", &["tools/list".to_string()], FlowDirection::Forward, 1000);
    app.prune_closed_flows_at(1_000_000);
    assert_eq!(app.flows.len(), 1);
    assert!(app.flows[0].anim_queue.is_empty());
}

#[test]
fn completed_bootstrap_status_hides_three_seconds_after_settling() {
    let mut app = test_app();
    app.show_detail_mode = ShowDetailMode::Disable;
    let total = flow_bootstrap_steps_total(ShowDetailMode::Disable);
    let mut now: u128 = 1000;
    for index in 0..total {
        let step = flow_bootstrap_step(index, ShowDetailMode::Disable).expect("step");
        app.record_flow_at("f", &[step.event.to_string()], FlowDirection::Forward, now);
        now += 1;
        if step.event != "notifications/initialized" {
            app.record_flow_at("f", &[step.event.to_string()], FlowDirection::Backward, now);
            now += 1;
        }
    }
    assert_eq!(app.flows[0].bootstrap_completed_steps, total);
    let settled = now + 10_000;
    app.prune_closed_flows_at(settled);
    assert_eq!(app.flows[0].bootstrap_status_close_deadline_ms, Some(settled + 3000));
    app.prune_closed_flows_at(settled + 2999);
    assert!(app.flows[0].bootstrap_status_active);
    app.prune_closed_flows_at(settled + 3000);
    assert!(!app.flows[0].bootstrap_status_active);
}

#[test]
fn from_config_uses_configured_slug_and_partner_seed() {
    let mut config = AppConfig::default();
    config.mcp_slug = Some("kept".to_string());
    config.partner_binagotchy_seed = Some("ff".to_string());
    config.ngrok_domain = Some("example.ngrok.app".to_string());
    let app = AppState::from_config(1, "w".into(), "c".into(), config, 7, "fresh".into())
        .expect("state");
    assert_eq!(app.mcp_slug, "kept");
    assert_eq!(app.mascot_seed, 255);
    assert!(app.is_returning_user);
    assert_eq!(app.mcp_path(), "/kept/mcp");
}

#[test]
fn from_config_refuses_bad_partner_seed() {
    let mut config = AppConfig::default();
    config.partner_binagotchy_seed = Some("not-hex".to_string());
    assert!(AppState::from_config(1, "w".into(), "c".into(), config, 7, "s".into()).is_err());
}

#[test]
fn from_config_blank_slug_gets_fresh_one() {
    let mut config = AppConfig::default();
    config.mcp_slug = Some(String::new());
    let app = AppState::from_config(1, "w".into(), "c".into(), config, 7, "fresh".into())
        .expect("state");
    assert_eq!(app.mcp_slug, "fresh");
    assert_eq!(app.mascot_seed, 7);
}

#[test]
fn new_generates_url_safe_slug() {
    let app = AppState::new(1, "w".into(), "c".into(), AppConfig::default()).expect("state");
    assert_eq!(app.mcp_slug.len(), 16);
    assert!(app
        .mcp_slug
        .chars()
        .all(|c| c.is_ascii_alphanumeric() || c == '-' || c == '_'));
}

#[test]
fn public_url_needs_a_tunnel() {
    let mut app = test_app();
    assert!(app.public_mcp_url().is_none());
    app.ngrok_url = Some("https://x.ngrok.app".to_string());
    assert_eq!(app.public_mcp_url().as_deref(), Some("https://x.ngrok.app/slug/mcp"));
}

#[test]
fn seed_parsing() {
    assert_eq!(parse_seed_hex("1F"), Ok(31));
    assert_eq!(parse_seed_hex("+ab"), Ok(171));
    assert_eq!(parse_seed_hex("ffffffffffffffff"), Ok(u64::MAX));
    assert_eq!(
        parse_seed_hex("").unwrap_err(),
        "invalid partner Binagotchy seed ``: cannot parse integer from empty string"
    );
    assert_eq!(
        parse_seed_hex("0x1F").unwrap_err(),
        "invalid partner Binagotchy seed `0x1F`: invalid digit found in string"
    );
    assert_eq!(
        parse_seed_hex("10000000000000000").unwrap_err(),
        "invalid partner Binagotchy seed `10000000000000000`: number too large to fit in target type"
    );
}

#[test]
fn short_flow_id_takes_eight_bytes() {
    assert_eq!(short_flow_id("abcdefghijk"), "abcdefgh");
    assert_eq!(short_flow_id("abc"), "abc");
}

#[test]
fn hms_formats_time_of_day() {
    assert_eq!(hms_text(0), "00:00:00");
    assert_eq!(hms_text(3661), "01:01:01");
    assert_eq!(hms_text(86_400 + 59), "00:00:59");
}

#[test]
fn log_keeps_last_five_hundred_entries() {
    let mut app = test_app();
    for i in 0..505 {
        app.log_at("info", format!("m{i}"), "00:00:00".to_string());
    }
    assert_eq!(app.logs.len(), 500);
    assert_eq!(app.logs[0].message, "m5");
}

#[test]
fn usage_accumulates_with_saturation() {
    let mut totals = UsageTotals::default();
    totals.accumulate(10, 5, 1);
    assert_eq!(totals.total_tokens, 15);
    totals.accumulate(u64::MAX, 0, 0);
    assert_eq!(totals.input_tokens, u64::MAX);
    assert_eq!(totals.total_tokens, u64::MAX);
}

#[test]
fn tool_modes_gate_tools() {
    assert!(ToolMode::MultiTools.write_tools_enabled());
    assert!(ToolMode::MultiTools.run_command_enabled());
    assert!(!ToolMode::ReadOnly.write_tools_enabled());
    assert!(!ToolMode::ReadOnly.run_command_enabled());
    assert!(ToolMode::ReadOnly.read_only());
    assert_eq!(ToolMode::all(), &[ToolMode::MultiTools, ToolMode::ReadOnly][..]);
    assert_eq!(
        ShowDetailMode::all(),
        &[ShowDetailMode::Disable, ShowDetailMode::Expanded, ShowDetailMode::Collapsed][..]
    );
}

#[test]
fn bootstrap_panel_texts() {
    let mut app = test_app();
    app.record_flow_at("f", &["initialize".to_string()], FlowDirection::Forward, 1000);
    let flow = &app.flows[0];
    assert_eq!(bootstrap_header_title(flow, ShowDetailMode::Expanded), "Initialize connector in progress");
    assert_eq!(bootstrap_call_text(flow), "call initialize");
    assert_eq!(
        bootstrap_footer_text(flow, ShowDetailMode::Expanded, 1000),
        "Auto closes after initialize is completed."
    );
    let line = flow_phase_line(Some(flow), 0);
    assert_eq!(line.status, "[initialize#1]");
    assert!(active_bootstrap_status_flow(&app, 1000).is_some());
    let rows = animation_snapshot_at(&app, 1000);
    assert_eq!(rows.len(), 1);
    assert!(rows[0].starts_with("flow f phase=request  tool=initialize       Your computer "));
    assert!(rows[0].ends_with(" ChatGPT Web (via Ngrok)"));
}

#[test]
fn completed_bootstrap_footer_counts_down() {
    let mut app = test_app();
    app.show_detail_mode = ShowDetailMode::Disable;
    let total = flow_bootstrap_steps_total(ShowDetailMode::Disable);
    let mut now: u128 = 1000;
    for index in 0..total {
        let step = flow_bootstrap_step(index, ShowDetailMode::Disable).expect("step");
        app.record_flow_at("f", &[step.event.to_string()], FlowDirection::Forward, now);
        now += 1;
        if step.event != "notifications/initialized" {
            app.record_flow_at("f", &[step.event.to_string()], FlowDirection::Backward, now);
            now += 1;
        }
    }
    let settled = now + 10_000;
    app.prune_closed_flows_at(settled);
    let flow = &app.flows[0];
    assert_eq!(
        bootstrap_footer_text(flow, ShowDetailMode::Disable, settled + 1),
        "Completed. Closing in 3s..."
    );
    assert_eq!(bootstrap_footer_text(flow, ShowDetailMode::Disable, settled + 3000), "Completed.");
}

#[test]
fn modes_enable_their_backends() {
    assert!(Mode::Computer.computer_enabled() && !Mode::Computer.browser_enabled());
    assert!(!Mode::Browser.computer_enabled() && Mode::Browser.browser_enabled());
    assert!(Mode::Both.computer_enabled() && Mode::Both.browser_enabled());
}

#[test]
fn regenerated_slug_is_new_and_url_safe() {
    let mut app = test_app();
    app.regenerate_mcp_slug();
    assert_eq!(app.mcp_slug.len(), 16);
    assert_ne!(app.mcp_slug, "slug");
    assert!(app.mcp_slug.chars().all(|c| c.is_ascii_alphanumeric() || c == '-' || c == '_'));
}

#[test]
fn turn_usage_accumulates_and_saturates() {
    let mut app = test_app();
    app.record_turn_usage(10, 5);
    app.record_turn_usage(1, 2);
    assert_eq!(app.usage_totals, UsageTotals { input_tokens: 11, output_tokens: 7, total_tokens: 18, tool_call_count: 2 });
    assert_eq!(app.session_usage_totals.total_tokens, 18);
    app.record_turn_usage(u64::MAX, 0);
    assert_eq!(app.usage_totals.input_tokens, u64::MAX);
    assert_eq!(app.usage_totals.total_tokens, u64::MAX);
}

#[test]
fn server_events_update_the_state() {
    let mut app = test_app();
    app.apply_server_ui_event(ServerUiEvent::IncrementRequestCount);
    assert_eq!(app.request_count, 1);
    app.apply_server_ui_event(ServerUiEvent::SetRemoteConnected(true));
    assert!(app.remote_connected);
    app.apply_server_ui_event(ServerUiEvent::RecordFlow {
        flow_id: "f1".to_string(),
        events: vec!["tools/call".to_string()],
        direction: FlowDirection::Forward,
    });
    assert_eq!(app.flows.len(), 1);
    app.apply_server_ui_event(ServerUiEvent::BeginFlowClose { flow_id: "f1".to_string() });
    assert!(app.flows[0].closing_started_ms.is_some());
    let n = app.logs.len();
    app.apply_server_ui_event(ServerUiEvent::Log { level: "INFO", message: "hello".to_string() });
    assert_eq!(app.logs.len(), n + 1);
    assert_eq!(app.logs[n].message, "hello");
}

#[test]
fn pruning_keeps_open_lanes() {
    let mut app = test_app();
    record(&mut app, "tools/call", FlowDirection::Forward);
    app.prune_closed_flows();
    assert_eq!(app.flows.len(), 1);
}

#[test]
fn connect_guide_waits_for_a_quiet_tunnel() {
    let mut app = test_app();
    assert!(!should_show_connect_guide(&app, 0));
    app.server_running = true;
    app.ngrok_running = true;
    app.ngrok_url = Some("https://x".to_string());
    assert!(should_show_connect_guide(&app, 0));
    app.last_remote_activity_ms = Some(1_000);
    assert!(!should_show_connect_guide(&app, 5_000));
    assert!(should_show_connect_guide(&app, 9_000));
    app.remote_connected = true;
    assert!(!should_show_connect_guide(&app, 9_000));
}

#[test]
fn snapshot_lists_animating_lanes() {
    let mut app = test_app();
    assert!(build_animation_snapshot(&app).is_empty());
    record(&mut app, "tools/call", FlowDirection::Forward);
    let rows = build_animation_snapshot(&app);
    assert_eq!(rows.len(), 1);
    assert!(rows[0].starts_with("flow "));
}
