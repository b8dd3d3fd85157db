use catdesk::ngrok::{tunnel_exited_at, tunnel_plan, tunnel_started_at, TunnelExit};
use catdesk::state::{AppConfig, AppState};

fn app() -> AppState {
    AppState::from_config(
        8787,
        "/tmp/workspace".to_string(),
        "/tmp/workspace/config.toml".to_string(),
        AppConfig::default(),
        7,
        "slug".to_string(),
    )
    .expect("create app state")
}

#[test]
fn plan_needs_a_token_and_a_stopped_tunnel() {
    let mut a = app();
    let plan = tunnel_plan(&a, Ok(Some("tok".to_string()))).ok().unwrap();
    assert_eq!(plan.port, 8787);
    assert_eq!(plan.mcp_path, "/slug/mcp");
    assert_eq!(plan.authtoken, "tok");
    assert_eq!(plan.forward_url, "http://127.0.0.1:8787");
    assert!(plan.domain.is_none());
    assert_eq!(
        tunnel_plan(&a, Ok(None)).err().unwrap(),
        "ngrok authtoken is not configured"
    );
    assert_eq!(
        tunnel_plan(&a, Err("denied".to_string())).err().unwrap(),
        "Failed to read ~/.catdesk/config.toml: denied"
    );
    a.ngrok_domain = Some(String::new());
    assert!(tunnel_plan(&a, Ok(Some("t".to_string()))).ok().unwrap().domain.is_none());
    a.ngrok_domain = Some("cat.example".to_string());
    assert_eq!(
        tunnel_plan(&a, Ok(Some("t".to_string()))).ok().unwrap().domain,
        Some("cat.example".to_string())
    );
    a.ngrok_running = true;
    assert_eq!(
        tunnel_plan(&a, Ok(Some("t".to_string()))).err().unwrap(),
        "ngrok is already running"
    );
}

#[test]
fn started_tunnel_is_logged_and_saves_its_domain_once() {
    let mut a = app();
    let before = a.logs.len();
    let url = "https://cat.ngrok.app".to_string();
    let save = tunnel_started_at(&mut a, url.clone(), Some("cat.ngrok.app".to_string()), "12:00:00".to_string());
    assert!(save);
    assert!(a.ngrok_running);
    assert_eq!(a.ngrok_url, Some(url.clone()));
    assert_eq!(a.ngrok_domain, Some("cat.ngrok.app".to_string()));
    let messages: Vec<&str> = a.logs[before..].iter().map(|e| e.message.as_str()).collect();
    assert_eq!(
        messages,
        vec![
            "ngrok SDK tunnel started",
            "ngrok URL: https://cat.ngrok.app",
            "MCP Server URL: https://cat.ngrok.app/slug/mcp",
            "Auto-saved ngrok static domain: cat.ngrok.app",
        ]
    );
    assert_eq!(a.logs[before].time, "12:00:00");
    let again = tunnel_started_at(&mut a, url, Some("other".to_string()), "12:00:01".to_string());
    assert!(!again);
    assert_eq!(a.ngrok_domain, Some("cat.ngrok.app".to_string()));
}

#[test]
fn ended_tunnel_clears_its_state() {
    let mut a = app();
    tunnel_started_at(&mut a, "https://x".to_string(), None, "t".to_string());
    a.remote_connected = true;
    a.last_remote_activity_ms = Some(5);
    let n = a.logs.len();
    tunnel_exited_at(&mut a, TunnelExit::Cancelled, "t".to_string());
    assert!(a.ngrok_running);
    assert_eq!(a.logs.len(), n);
    tunnel_exited_at(&mut a, TunnelExit::Failed("boom".to_string()), "t".to_string());
    assert!(!a.ngrok_running);
    assert!(a.ngrok_url.is_none());
    assert!(!a.remote_connected);
    assert!(a.last_remote_activity_ms.is_none());
    let last = a.logs.last().unwrap();
    assert_eq!((last.level, last.message.as_str()), ("ERROR", "ngrok tunnel failed: boom"));
    tunnel_exited_at(&mut a, TunnelExit::Closed, "t".to_string());
    assert_eq!(a.logs.last().unwrap().level, "WARN");
    tunnel_exited_at(&mut a, TunnelExit::JoinFailed("lost".to_string()), "t".to_string());
    assert_eq!(a.logs.last().unwrap().message, "ngrok tunnel join failed: lost");
}
