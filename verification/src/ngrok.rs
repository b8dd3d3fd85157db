//! Starting the ngrok tunnel and following it: what is checked before it
//! starts, and what the shared state records once it is up and once it
//! ends.
use vstd::prelude::*;
use crate::number::{decimal, decimal_u64};
use crate::state::{copy_string, opt_chars, with_log, AppState, LogEntry};
use crate::text::push_str;

verus! {

/// What starting the tunnel needs, read from the state and the config.
pub struct TunnelPlan {
    pub port: u16,
    pub mcp_path: String,
    pub authtoken: String,
    /// Where the tunnel forwards to: `http://127.0.0.1:{port}`.
    pub forward_url: String,
    /// The static domain to ask for, when a non-empty one is set.
    pub domain: Option<String>,
}

/// Everything but the tunnel's own fields and the logs stays.
pub open spec fn same_apart_from_tunnel(a: &AppState, b: &AppState) -> bool {
    &&& a.theme@ == b.theme@
    &&& a.mode == b.mode
    &&& a.tool_mode == b.tool_mode
    &&& a.show_detail_mode == b.show_detail_mode
    &&& a.mcp_slug@ == b.mcp_slug@
    &&& a.is_returning_user == b.is_returning_user
    &&& a.server_running == b.server_running
    &&& a.devtools_running == b.devtools_running
    &&& a.port == b.port
    &&& a.workspace_root@ == b.workspace_root@
    &&& a.mascot_seed == b.mascot_seed
    &&& opt_chars(a.partner_binagotchy_seed) == opt_chars(b.partner_binagotchy_seed)
    &&& a.set_catdesk_as_co_author == b.set_catdesk_as_co_author
    &&& a.request_count == b.request_count
    &&& a.usage_totals == b.usage_totals
    &&& a.session_usage_totals == b.session_usage_totals
    &&& a.config_path@ == b.config_path@
    &&& a.flows@ == b.flows@
    &&& a.flow_bootstrap_progress@ == b.flow_bootstrap_progress@
}

/// A log entry with this level and message, stamped `time`.
pub open spec fn entry_is(e: LogEntry, time: Seq<char>, level: Seq<char>, message: Seq<char>) -> bool {
    e.time@ == time && e.level@ == level && e.message@ == message
}

/// Checks before starting the tunnel: not already running, and an
/// authtoken configured (`authtoken` is what reading the config gave).
pub fn tunnel_plan(app: &AppState, authtoken: Result<Option<String>, String>) -> (r: Result<
    TunnelPlan,
    String,
>)
    ensures
        app.ngrok_running ==> (r matches Err(e) && e@ == "ngrok is already running"@),
        !app.ngrok_running ==> match authtoken {
            Err(e) => r matches Err(m) && m@ == "Failed to read ~/.catdesk/config.toml: "@ + e@,
            Ok(None) => r matches Err(m) && m@ == "ngrok authtoken is not configured"@,
            Ok(Some(t)) => r matches Ok(p) && {
                &&& p.port == app.port
                &&& p.mcp_path@ == "/"@ + app.mcp_slug@ + "/mcp"@
                &&& p.authtoken@ == t@
                &&& p.forward_url@ == "http://127.0.0.1:"@ + decimal(app.port as nat)
                &&& opt_chars(p.domain) == match app.ngrok_domain {
                    Some(d) => if d@.len() > 0 {
                        Some(d@)
                    } else {
                        None
                    },
                    None => None,
                }
            },
        },
{
    if app.ngrok_running {
        let mut e = String::new();
        push_str(&mut e, "ngrok is already running");
        return Err(e);
    }
    let token = match authtoken {
        Err(e) => {
            let mut m = String::new();
            push_str(&mut m, "Failed to read ~/.catdesk/config.toml: ");
            push_str(&mut m, e.as_str());
            return Err(m);
        },
        Ok(None) => {
            let mut m = String::new();
            push_str(&mut m, "ngrok authtoken is not configured");
            return Err(m);
        },
        Ok(Some(t)) => t,
    };
    let mut forward_url = String::new();
    push_str(&mut forward_url, "http://127.0.0.1:");
    push_str(&mut forward_url, decimal_u64(app.port as u64).as_str());
    let domain = match &app.ngrok_domain {
        Some(d) => if d.as_str().is_empty() {
            None
        } else {
            Some(copy_string(d))
        },
        None => None,
    };
    Ok(TunnelPlan { port: app.port, mcp_path: app.mcp_path(), authtoken: token, forward_url, domain })
}

/// Records a tunnel that came up at `url`: running, its URL and the MCP
/// URL logged, and, without a domain saved yet, `host` (the host of `url`)
/// kept as the static domain. Says whether the settings need saving.
pub fn tunnel_started_at(app: &mut AppState, url: String, host: Option<String>, time: String) -> (save: bool)
    requires
        old(app).wf(),
    ensures
        final(app).wf(),
        same_apart_from_tunnel(final(app), old(app)),
        final(app).ngrok_running,
        opt_chars(final(app).ngrok_url) == Some(url@),
        final(app).remote_connected == old(app).remote_connected,
        final(app).last_remote_activity_ms == old(app).last_remote_activity_ms,
        save == (old(app).ngrok_domain is None && host is Some),
        save ==> opt_chars(final(app).ngrok_domain) == opt_chars(host),
        !save ==> opt_chars(final(app).ngrok_domain) == opt_chars(old(app).ngrok_domain),
        exists|e1: LogEntry, e2: LogEntry, e3: LogEntry|
            {
                let three = with_log(with_log(with_log(old(app).logs@, e1), e2), e3);
                &&& #[trigger] entry_is(e1, time@, "INFO"@, "ngrok SDK tunnel started"@)
                &&& #[trigger] entry_is(e2, time@, "INFO"@, "ngrok URL: "@ + url@)
                &&& #[trigger] entry_is(e3, time@, "INFO"@, "MCP Server URL: "@ + url@ + "/"@ + old(app).mcp_slug@ + "/mcp"@)
                &&& if save {
                    exists|e4: LogEntry|
                        #[trigger] entry_is(e4, time@, "INFO"@, "Auto-saved ngrok static domain: "@ + host->Some_0@)
                            && final(app).logs@ == with_log(three, e4)
                } else {
                    final(app).logs@ == three
                }
            },
{
    let ghost before = *app;
    let mut m1 = String::new();
    push_str(&mut m1, "ngrok SDK tunnel started");
    let mut m2 = String::new();
    push_str(&mut m2, "ngrok URL: ");
    push_str(&mut m2, url.as_str());
    let mut m3 = String::new();
    push_str(&mut m3, "MCP Server URL: ");
    push_str(&mut m3, url.as_str());
    let path = app.mcp_path();
    push_str(&mut m3, path.as_str());
    app.ngrok_running = true;
    app.ngrok_url = Some(copy_string(&url));
    let ghost l0 = app.logs@;
    let t1 = copy_string(&time);
    let t2 = copy_string(&time);
    let t3 = copy_string(&time);
    let ghost e1 = LogEntry { time: t1, level: "INFO", message: m1 };
    let ghost e2 = LogEntry { time: t2, level: "INFO", message: m2 };
    let ghost e3 = LogEntry { time: t3, level: "INFO", message: m3 };
    app.log_at("INFO", m1, t1);
    app.log_at("INFO", m2, t2);
    app.log_at("INFO", m3, t3);
    proof {
        reveal_strlit("INFO");
        reveal_strlit("ngrok SDK tunnel started");
        assert(entry_is(e1, time@, "INFO"@, "ngrok SDK tunnel started"@));
    }
    let ghost three = app.logs@;
    let save = app.ngrok_domain.is_none() && host.is_some();
    if save {
        match host {
            Some(h) => {
                let mut m4 = String::new();
                push_str(&mut m4, "Auto-saved ngrok static domain: ");
                push_str(&mut m4, h.as_str());
                app.ngrok_domain = Some(h);
                let t4 = copy_string(&time);
                let ghost e4 = LogEntry { time: t4, level: "INFO", message: m4 };
                app.log_at("INFO", m4, t4);
                assert(entry_is(e4, time@, "INFO"@, "Auto-saved ngrok static domain: "@ + host->Some_0@));
                assert(app.logs@ == with_log(three, e4));
            },
            None => {},
        }
    }
    proof {
        assert(l0 == before.logs@);
        assert(entry_is(e2, time@, "INFO"@, "ngrok URL: "@ + url@));
        assert(e3.message@ =~= "MCP Server URL: "@ + url@ + "/"@ + before.mcp_slug@ + "/mcp"@);
        assert(entry_is(e3, time@, "INFO"@, "MCP Server URL: "@ + url@ + "/"@ + before.mcp_slug@ + "/mcp"@));
        assert(three == with_log(with_log(with_log(before.logs@, e1), e2), e3));
    }
    save
}

/// How a tunnel ended.
pub enum TunnelExit {
    /// It closed by itself.
    Closed,
    /// It failed with this error.
    Failed(String),
    /// Its watcher was cancelled: nothing to record.
    Cancelled,
    /// Waiting for it failed with this error.
    JoinFailed(String),
}

/// Records the end of the tunnel: logged, then no longer running, without
/// a URL, and without a remote connection; a cancelled watcher changes
/// nothing.
pub fn tunnel_exited_at(app: &mut AppState, exit: TunnelExit, time: String)
    requires
        old(app).wf(),
    ensures
        final(app).wf(),
        exit is Cancelled ==> (same_apart_from_tunnel(final(app), old(app)) && final(app).logs@ == old(
            app,
        ).logs@ && final(app).ngrok_running == old(app).ngrok_running && opt_chars(final(app).ngrok_url)
            == opt_chars(old(app).ngrok_url) && final(app).remote_connected == old(app).remote_connected
            && final(app).last_remote_activity_ms == old(app).last_remote_activity_ms),
        !(exit is Cancelled) ==> {
            &&& same_apart_from_tunnel(final(app), old(app))
            &&& opt_chars(final(app).ngrok_domain) == opt_chars(old(app).ngrok_domain)
            &&& !final(app).ngrok_running
            &&& final(app).ngrok_url is None
            &&& !final(app).remote_connected
            &&& final(app).last_remote_activity_ms is None
            &&& exists|e: LogEntry|
                #[trigger] final(app).logs@ == with_log(old(app).logs@, e) && match exit {
                    TunnelExit::Closed => entry_is(e, time@, "WARN"@, "ngrok tunnel exited"@),
                    TunnelExit::Failed(err) => entry_is(e, time@, "ERROR"@, "ngrok tunnel failed: "@ + err@),
                    TunnelExit::JoinFailed(err) => entry_is(
                        e,
                        time@,
                        "ERROR"@,
                        "ngrok tunnel join failed: "@ + err@,
                    ),
                    TunnelExit::Cancelled => false,
                }
        },
{
    let (level, message): (&'static str, String) = match exit {
        TunnelExit::Cancelled => {
            return;
        },
        TunnelExit::Closed => {
            let mut m = String::new();
            push_str(&mut m, "ngrok tunnel exited");
            ("WARN", m)
        },
        TunnelExit::Failed(err) => {
            let mut m = String::new();
            push_str(&mut m, "ngrok tunnel failed: ");
            push_str(&mut m, err.as_str());
            ("ERROR", m)
        },
        TunnelExit::JoinFailed(err) => {
            let mut m = String::new();
            push_str(&mut m, "ngrok tunnel join failed: ");
            push_str(&mut m, err.as_str());
            ("ERROR", m)
        },
    };
    proof {
        reveal_strlit("WARN");
        reveal_strlit("ERROR");
    }
    let t = copy_string(&time);
    let ghost e = LogEntry { time: t, level, message };
    app.log_at(level, message, t);
    app.ngrok_running = false;
    app.ngrok_url = None;
    app.remote_connected = false;
    app.last_remote_activity_ms = None;
    assert(app.logs@ == with_log(old(app).logs@, e));
}

} // verus!
