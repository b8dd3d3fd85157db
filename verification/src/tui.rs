//! What the terminal interface shows of the request flows and the tunnel
//! setup: lane visibility and animation, bootstrap phases, and the text
//! helpers the screens use.
use std::collections::VecDeque;
use vstd::prelude::*;
use crate::text::string_views;
use crate::state::{
    AppState, FlowAnimKind, FlowAnimSegment, FlowDirection, FlowLane, LaneView, ShowDetailMode,
    bootstrap_total, current_queue_segment, current_segment, flow_anim_lit_count,
    flow_bootstrap_steps_total, lane_views, lanes_wf, lit_count, phase_len, phase_len_exec,
    phase_start, phase_step, phase_step_label, queue_wf, lemma_phase_starts, lemma_wf_lit_ok,
};
use crate::text::{
    chars_of, first_where, is_ascii_alnum, is_ascii_alnum_char, is_ws, is_ws_char, push_char,
    push_chars, push_str, slice_chars, string_of, trim, trim_chars, trim_start,
};

verus! {

/// Cells of a lane row.
pub const FLOW_ROW_CELLS: usize = 32;

/// The label left of a lane.
pub const FLOW_LANE_LEFT_LABEL: &'static str = "Your computer ";

/// How long after remote activity the connect guide stays hidden.
pub const REMOTE_CONNECT_UI_GRACE_MS: u128 = 8000;

// ---------------------------------------------------------------------------
// Lanes
// ---------------------------------------------------------------------------

/// A lane is shown while the remote side is connected, while it closes, or
/// while it animates.
pub fn should_display_flow_row(flow: &FlowLane, remote_connected: bool) -> (b: bool)
    ensures
        b == (remote_connected || flow.closing_started_ms is Some || flow.anim_queue@.len() > 0),
{
    remote_connected || flow.closing_started_ms.is_some() || flow.anim_queue.len() > 0
}

/// The direction a lane shows: its current segment's, else its last one;
/// forward without a lane.
pub open spec fn direction_of(flow: Option<LaneView>, now_millis: u128) -> FlowDirection {
    match flow {
        Some(l) => match current_segment(l.queue, now_millis) {
            Some(seg) => seg.direction,
            None => l.last_direction,
        },
        None => FlowDirection::Forward,
    }
}

pub open spec fn lane_view_of(flow: Option<&FlowLane>) -> Option<LaneView> {
    match flow {
        Some(f) => Some(f@),
        None => None,
    }
}

pub fn flow_direction(flow: Option<&FlowLane>, now_millis: u128) -> (d: FlowDirection)
    ensures
        d == direction_of(lane_view_of(flow), now_millis),
{
    match flow {
        Some(f) => match current_queue_segment(&f.anim_queue, now_millis) {
            Some(seg) => seg.direction,
            None => f.last_direction,
        },
        None => FlowDirection::Forward,
    }
}

/// Lit cells of a lane: none without a lane or while it closes; else those
/// of its current segment, at most `cells`.
pub open spec fn lit_of(flow: Option<LaneView>, now_millis: u128, cells: usize) -> nat {
    match flow {
        None => 0,
        Some(l) => if l.closing_started is Some {
            0
        } else {
            match current_segment(l.queue, now_millis) {
                Some(seg) => if lit_count(seg, now_millis) < cells {
                    lit_count(seg, now_millis)
                } else {
                    cells as nat
                },
                None => 0,
            }
        },
    }
}

pub fn flow_lit_count(flow: Option<&FlowLane>, now_millis: u128, cells: usize) -> (n: usize)
    requires
        flow matches Some(f) ==> queue_wf(f.anim_queue@),
    ensures
        n == lit_of(lane_view_of(flow), now_millis, cells),
{
    match flow {
        None => 0,
        Some(f) => {
            if f.closing_started_ms.is_some() {
                return 0;
            }
            match current_queue_segment(&f.anim_queue, now_millis) {
                Some(seg) => {
                    proof {
                        let j = choose|j: int| 0 <= j < f.anim_queue@.len() && f.anim_queue@[j] == seg;
                        assert(crate::state::seg_wf(f.anim_queue@[j]));
                        lemma_wf_lit_ok(seg, now_millis);
                    }
                    let lit = flow_anim_lit_count(seg, now_millis);
                    if lit < cells {
                        lit
                    } else {
                        cells
                    }
                },
                None => 0,
            }
        },
    }
}

/// A lane drawn with `#` for lit and `-` for dark cells: lit from the left
/// going forward, from the right coming back.
pub open spec fn lane_text(direction: Option<FlowDirection>, lit: nat, cells: nat) -> Seq<char> {
    Seq::new(
        cells,
        |i: int|
            if match direction {
                Some(FlowDirection::Forward) => lit > 0 && i < lit,
                Some(FlowDirection::Backward) => lit > 0 && i >= (if cells >= lit {
                    cells - lit
                } else {
                    0
                }),
                None => false,
            } {
                '#'
            } else {
                '-'
            },
    )
}

pub fn debug_lane(direction: Option<FlowDirection>, lit_count: usize, cells: usize) -> (s: String)
    ensures
        s@ == lane_text(direction, lit_count as nat, cells as nat),
{
    let mut out: Vec<char> = Vec::new();
    let back_from: usize = if cells >= lit_count {
        cells - lit_count
    } else {
        0
    };
    let mut i: usize = 0;
    while i < cells
        invariant
            i <= cells,
            back_from == (if cells >= lit_count {
                cells - lit_count
            } else {
                0
            }),
            out@ =~= lane_text(direction, lit_count as nat, cells as nat).take(i as int),
        decreases cells - i,
    {
        let lit_here = match direction {
            Some(FlowDirection::Forward) => lit_count > 0 && i < lit_count,
            Some(FlowDirection::Backward) => lit_count > 0 && i >= back_from,
            None => false,
        };
        out.push(if lit_here { '#' } else { '-' });
        i += 1;
    }
    string_of(out.as_slice())
}

/// The cells of a lane row, `#` lit and `-` dark: lit only while the row
/// is active and the lane has lit cells, in the lane's direction.
pub fn flow_lane_cells(active: bool, flow: Option<&FlowLane>, now_millis: u128) -> (s: String)
    requires
        flow matches Some(f) ==> queue_wf(f.anim_queue@),
    ensures
        s@ == lane_text(
            match flow {
                Some(_) => Some(direction_of(lane_view_of(flow), now_millis)),
                None => None,
            },
            if active {
                lit_of(lane_view_of(flow), now_millis, FLOW_ROW_CELLS)
            } else {
                0
            },
            FLOW_ROW_CELLS as nat,
        ),
{
    let direction = match flow {
        Some(_) => Some(flow_direction(flow, now_millis)),
        None => None,
    };
    let lit = if active {
        flow_lit_count(flow, now_millis, FLOW_ROW_CELLS)
    } else {
        0
    };
    debug_lane(direction, lit, FLOW_ROW_CELLS)
}

/// The phase a lane is in: closing, turning, a request or a response
/// moving, or idle.
pub open spec fn phase_of_lane(l: LaneView, now_millis: u128) -> Seq<char> {
    if l.closing_started is Some {
        "close"@
    } else {
        match current_segment(l.queue, now_millis) {
            Some(seg) => match seg.kind {
                FlowAnimKind::Turn => "turn"@,
                FlowAnimKind::Move => match seg.direction {
                    FlowDirection::Forward => "request"@,
                    FlowDirection::Backward => "response"@,
                },
            },
            None => "idle"@,
        }
    }
}

pub fn flow_phase(flow: &FlowLane, now_millis: u128) -> (s: &'static str)
    ensures
        s@ == phase_of_lane(flow@, now_millis),
{
    if flow.closing_started_ms.is_some() {
        return "close";
    }
    match current_queue_segment(&flow.anim_queue, now_millis) {
        Some(seg) => match seg.kind {
            FlowAnimKind::Turn => "turn",
            FlowAnimKind::Move => match seg.direction {
                FlowDirection::Forward => "request",
                FlowDirection::Backward => "response",
            },
        },
        None => "idle",
    }
}

/// What an event shows as the latest action: the tool of a non-empty
/// `tools/call:` event, another event as it is, nothing for an empty one.
pub open spec fn action_of(event: Seq<char>) -> Option<Seq<char>> {
    if crate::text::starts_with(event, "tools/call:"@) {
        if event.len() > 11 {
            Some(event.skip(11))
        } else {
            None
        }
    } else if event.len() == 0 {
        None
    } else {
        Some(event)
    }
}

/// The action of the latest event that has one, else `unknown`.
pub open spec fn latest_action(events: Seq<Seq<char>>) -> Seq<char>
    decreases events.len(),
{
    if events.len() == 0 {
        "unknown"@
    } else {
        match action_of(events.last()) {
            Some(a) => a,
            None => latest_action(events.drop_last()),
        }
    }
}

pub fn latest_flow_action(flow: &FlowLane) -> (s: String)
    ensures
        s@ == latest_action(flow@.events),
{
    let ghost ev = flow@.events;
    let prefix = chars_of("tools/call:");
    proof {
        reveal_strlit("tools/call:");
    }
    let mut i: usize = flow.events.len();
    assert(ev.take(i as int) =~= ev);
    while i > 0
        invariant
            i <= flow.events@.len(),
            ev == flow@.events,
            prefix@ == "tools/call:"@,
            latest_action(ev) == latest_action(ev.take(i as int)),
        decreases i,
    {
        let e = chars_of(flow.events[i - 1].as_str());
        assert(ev.take(i as int).last() == e@);
        assert(ev.take(i as int).drop_last() =~= ev.take(i - 1));
        if crate::text::starts_with_chars(e.as_slice(), prefix.as_slice()) {
            if e.len() > 11 {
                let tool = slice_chars(e.as_slice(), 11, e.len());
                assert(tool@ =~= e@.skip(11));
                return string_of(tool.as_slice());
            }
        } else if e.len() > 0 {
            return string_of(e.as_slice());
        }
        i -= 1;
    }
    proof {
        reveal_strlit("unknown");
    }
    string_of(chars_of("unknown").as_slice())
}

// ---------------------------------------------------------------------------
// Bootstrap phases
// ---------------------------------------------------------------------------

/// The step indices of phase `p`: from its first step to past its last.
pub fn flow_phase_bounds(phase_index: usize) -> (r: (usize, usize))
    requires
        phase_index < 5,
    ensures
        r.0 == phase_start(phase_index as int),
        r.1 == phase_start(phase_index as int) + phase_len(phase_index as int),
{
    proof {
        lemma_phase_starts();
    }
    let start: usize = if phase_index == 0 {
        0
    } else if phase_index == 1 {
        4
    } else if phase_index == 2 {
        8
    } else if phase_index == 3 {
        18
    } else {
        29
    };
    (start, start + phase_len_exec(phase_index))
}

#[derive(Clone, Copy, PartialEq, Eq, Structural)]
pub enum FlowPhaseStepState {
    Future,
    Pending,
    Complete,
}

/// A step is complete below the completed count, pending while waiting
/// for its response, and in the future otherwise.
pub open spec fn step_state(flow: Option<LaneView>, step: usize) -> FlowPhaseStepState {
    match flow {
        None => FlowPhaseStepState::Future,
        Some(l) => if step < l.completed {
            FlowPhaseStepState::Complete
        } else if l.pending.contains(step) {
            FlowPhaseStepState::Pending
        } else {
            FlowPhaseStepState::Future
        },
    }
}

fn deque_contains(q: &VecDeque<usize>, x: usize) -> (b: bool)
    ensures
        b == q@.contains(x),
{
    let mut i: usize = 0;
    while i < q.len()
        invariant
            i <= q@.len(),
            forall|k: int| 0 <= k < i ==> q@[k] != x,
        decreases q@.len() - i,
    {
        if q[i] == x {
            return true;
        }
        i += 1;
    }
    false
}

pub fn flow_phase_step_state(flow: Option<&FlowLane>, step_index: usize) -> (s: FlowPhaseStepState)
    ensures
        s == step_state(lane_view_of(flow), step_index),
{
    match flow {
        None => FlowPhaseStepState::Future,
        Some(f) => if step_index < f.bootstrap_completed_steps {
            FlowPhaseStepState::Complete
        } else if deque_contains(&f.bootstrap_pending_steps, step_index) {
            FlowPhaseStepState::Pending
        } else {
            FlowPhaseStepState::Future
        },
    }
}

/// The first waiting step inside `[start, end)`, if any.
pub open spec fn first_pending_in(pending: Seq<usize>, start: int, end: int) -> Option<int>
    decreases pending.len(),
{
    if pending.len() == 0 {
        None
    } else if start <= pending[0] < end {
        Some(pending[0] as int)
    } else {
        first_pending_in(pending.drop_first(), start, end)
    }
}

/// The status of phase `p`: a check mark once done; else the label of its
/// first waiting step; else of its last completed step; else nothing.
pub open spec fn phase_status(flow: Option<LaneView>, p: int) -> Option<Seq<char>> {
    match flow {
        None => None,
        Some(l) => {
            let start = phase_start(p) as int;
            let end = start + phase_len(p);
            if l.completed >= end {
                Some("\u{2713}"@)
            } else {
                match first_pending_in(l.pending, start, end) {
                    Some(s) => Some(phase_step_label(p, s - start)),
                    None => if l.completed > start && start <= l.completed - 1 < end {
                        Some(phase_step_label(p, l.completed - 1 - start))
                    } else {
                        None
                    },
                }
            }
        },
    }
}

pub fn flow_phase_status_label(flow: Option<&FlowLane>, phase_index: usize) -> (r: Option<String>)
    requires
        phase_index < 5,
    ensures
        match r {
            Some(s) => phase_status(lane_view_of(flow), phase_index as int) == Some(s@),
            None => phase_status(lane_view_of(flow), phase_index as int) is None,
        },
{
    let f = match flow {
        None => {
            return None;
        },
        Some(f) => f,
    };
    let (start, end) = flow_phase_bounds(phase_index);
    if f.bootstrap_completed_steps >= end {
        return Some(string_of(chars_of("\u{2713}").as_slice()));
    }
    let q = &f.bootstrap_pending_steps;
    let mut i: usize = 0;
    assert(q@.skip(0) =~= q@);
    while i < q.len()
        invariant
            i <= q@.len(),
            start == phase_start(phase_index as int),
            end == phase_start(phase_index as int) + phase_len(phase_index as int),
            phase_index < 5,
            flow == Some(f),
            q@ == f@.pending,
            f.bootstrap_completed_steps < end,
            first_pending_in(q@, start as int, end as int) == first_pending_in(q@.skip(i as int), start as int, end as int),
        decreases q@.len() - i,
    {
        let s = q[i];
        assert(q@.skip(i as int)[0] == s);
        assert(q@.skip(i as int).drop_first() =~= q@.skip(i + 1));
        if start <= s && s < end {
            let step = phase_step(phase_index, s - start);
            return Some(string_of(chars_of(step.label).as_slice()));
        }
        i += 1;
    }
    let c = f.bootstrap_completed_steps;
    if c > start && c - 1 < end {
        let step = phase_step(phase_index, c - 1 - start);
        return Some(string_of(chars_of(step.label).as_slice()));
    }
    None
}

/// Every step done and none waiting.
pub open spec fn bootstrap_done(l: LaneView, mode: ShowDetailMode) -> bool {
    l.completed >= bootstrap_total(mode) && l.pending.len() == 0
}

pub fn flow_bootstrap_complete(flow: &FlowLane, mode: ShowDetailMode) -> (b: bool)
    ensures
        b == bootstrap_done(flow@, mode),
{
    flow.bootstrap_completed_steps >= flow_bootstrap_steps_total(mode) && flow.bootstrap_pending_steps.len()
        == 0
}

/// The bootstrap status shows until done, then while the lane animates,
/// then until its close deadline.
pub open spec fn status_visible(l: LaneView, now_millis: u128, mode: ShowDetailMode) -> bool {
    !bootstrap_done(l, mode) || current_segment(l.queue, now_millis) is Some || (match l.deadline {
        Some(d) => now_millis < d,
        None => false,
    })
}

pub fn flow_bootstrap_status_visible(flow: &FlowLane, now_millis: u128, mode: ShowDetailMode) -> (b:
    bool)
    ensures
        b == status_visible(flow@, now_millis, mode),
{
    if !flow_bootstrap_complete(flow, mode) {
        return true;
    }
    if current_queue_segment(&flow.anim_queue, now_millis).is_some() {
        return true;
    }
    match flow.bootstrap_status_close_deadline_ms {
        Some(deadline) => now_millis < deadline,
        None => false,
    }
}

/// Whole seconds left before the status closes, rounded up.
pub fn flow_bootstrap_countdown_remaining_seconds(flow: &FlowLane, now_millis: u128) -> (r: Option<u128>)
    ensures
        r == match flow.bootstrap_status_close_deadline_ms {
            None => None,
            Some(d) => Some(if now_millis >= d {
                0
            } else {
                ((d - now_millis + 999) / 1000) as u128
            }),
        },
{
    match flow.bootstrap_status_close_deadline_ms {
        None => None,
        Some(deadline) => {
            if now_millis >= deadline {
                return Some(0);
            }
            let left = deadline - now_millis;
            Some(left / 1000 + if left % 1000 == 0 {
                0
            } else {
                1
            })
        },
    }
}

/// The connect guide shows once the server and tunnel run with a URL, no
/// remote is connected, no lane is shown, and no remote activity is recent.
pub open spec fn connect_guide_shown(app: AppState, now_millis: u128) -> bool {
    &&& app.server_running && app.ngrok_running
    &&& app.ngrok_url is Some
    &&& !app.remote_connected
    &&& forall|i: int| 0 <= i < app.flows@.len() ==> !({
        let f = #[trigger] app.flows@[i];
        f.closing_started_ms is Some || f.anim_queue@.len() > 0
    })
    &&& !(match app.last_remote_activity_ms {
        Some(t) => (if now_millis >= t {
            now_millis - t
        } else {
            0
        }) < REMOTE_CONNECT_UI_GRACE_MS,
        None => false,
    })
}

pub fn should_show_connect_guide(app: &AppState, now_millis: u128) -> (b: bool)
    ensures
        b == connect_guide_shown(*app, now_millis),
{
    if !(app.server_running && app.ngrok_running) || app.ngrok_url.is_none() || app.remote_connected {
        return false;
    }
    let mut i: usize = 0;
    while i < app.flows.len()
        invariant
            i <= app.flows@.len(),
            !app.remote_connected,
            forall|k: int| 0 <= k < i ==> !({
                let f = #[trigger] app.flows@[k];
                f.closing_started_ms is Some || f.anim_queue@.len() > 0
            }),
        decreases app.flows@.len() - i,
    {
        if should_display_flow_row(&app.flows[i], app.remote_connected) {
            return false;
        }
        i += 1;
    }
    match app.last_remote_activity_ms {
        Some(t) => {
            let elapsed = if now_millis >= t {
                now_millis - t
            } else {
                0
            };
            !(elapsed < REMOTE_CONNECT_UI_GRACE_MS)
        },
        None => true,
    }
}

// ---------------------------------------------------------------------------
// Text
// ---------------------------------------------------------------------------

/// The text, or its first `max_chars - 3` characters and `...` when longer
/// than `max_chars`.
pub open spec fn trimmed_line(text: Seq<char>, max_chars: nat) -> Seq<char> {
    if text.len() <= max_chars {
        text
    } else {
        text.take(if max_chars >= 3 {
            max_chars - 3
        } else {
            0
        }) + "..."@
    }
}

pub fn trim_line(text: &str, max_chars: usize) -> (s: String)
    ensures
        s@ == trimmed_line(text@, max_chars as nat),
{
    let v = chars_of(text);
    if v.len() <= max_chars {
        return string_of(v.as_slice());
    }
    let keep: usize = if max_chars >= 3 {
        max_chars - 3
    } else {
        0
    };
    let mut s = string_of(slice_chars(v.as_slice(), 0, keep).as_slice());
    push_str(&mut s, "...");
    proof {
        reveal_strlit("...");
        assert(s@ =~= trimmed_line(text@, max_chars as nat));
    }
    s
}

/// Spaces that center `text` under the lane, after its left label.
pub fn flow_call_offset(text: &str) -> (s: String)
    ensures
        s@ == Seq::new(
            (14 + (if text@.len() <= 32 {
                32 - text@.len()
            } else {
                0
            }) / 2) as nat,
            |i: int| ' ',
        ),
{
    let width = chars_of(text).len();
    let centered: usize = if width <= FLOW_ROW_CELLS {
        (FLOW_ROW_CELLS - width) / 2
    } else {
        0
    };
    let n = 14 + centered;
    let mut out: Vec<char> = Vec::new();
    let mut i: usize = 0;
    while i < n
        invariant
            i <= n,
            out@ =~= Seq::new(i as nat, |k: int| ' '),
        decreases n - i,
    {
        out.push(' ');
        i += 1;
    }
    string_of(out.as_slice())
}

/// The words of a text, as `str::split_whitespace` gives them.
pub open spec fn words(s: Seq<char>) -> Seq<Seq<char>>
    decreases s.len(),
{
    if s.len() == 0 {
        seq![]
    } else if is_ws(s[0]) {
        words(s.drop_first())
    } else {
        let k = first_where(s, |c: char| is_ws(c));
        proof {
            crate::text::lemma_first_where_le(s, |c: char| is_ws(c));
        }
        seq![s.take(k as int)] + words(s.skip(k as int))
    }
}

/// The text without leading or trailing double or single quotes.
pub open spec fn unquoted(s: Seq<char>) -> Seq<char>
    decreases s.len(),
{
    if s.len() > 0 && (s[0] == '"' || s[0] == '\'') {
        unquoted(s.drop_first())
    } else if s.len() > 0 && (s.last() == '"' || s.last() == '\'') {
        unquoted(s.drop_last())
    } else {
        s
    }
}

/// A pasted ngrok token: trimmed; from a pasted `ngrok config add-authtoken
/// TOKEN` command, the token (without quotes).
pub open spec fn authtoken_input(text: Seq<char>) -> Seq<char> {
    let t = trim(text);
    if t.len() == 0 {
        seq![]
    } else {
        let ws = words(t);
        if exists|i: int| 0 <= i < ws.len() - 1 && ws[i] == "add-authtoken"@ {
            let i = choose|i: int|
                0 <= i < ws.len() && ws[i] == "add-authtoken"@ && forall|j: int|
                    0 <= j < i ==> ws[j] != "add-authtoken"@;
            if i + 1 < ws.len() {
                unquoted(ws[i + 1])
            } else {
                t
            }
        } else {
            t
        }
    }
}

fn words_of(s: &[char]) -> (out: Vec<Vec<char>>)
    ensures
        out@.map_values(|w: Vec<char>| w@) == words(s@),
{
    let mut out: Vec<Vec<char>> = Vec::new();
    let mut i: usize = 0;
    assert(s@.skip(0) =~= s@);
    assert(out@.map_values(|w: Vec<char>| w@) + words(s@) =~= words(s@));
    while i < s.len()
        invariant
            i <= s@.len(),
            out@.map_values(|w: Vec<char>| w@) + words(s@.skip(i as int)) == words(s@),
        decreases s@.len() - i,
    {
        let ghost t = s@.skip(i as int);
        assert(t[0] == s@[i as int]);
        if is_ws_char(s[i]) {
            assert(t.drop_first() =~= s@.skip(i + 1));
            i += 1;
        } else {
            let mut j = i;
            while j < s.len() && !is_ws_char(s[j])
                invariant
                    i <= j <= s@.len(),
                    forall|k: int| i <= k < j ==> !is_ws(s@[k]),
                decreases s@.len() - j,
            {
                j += 1;
            }
            proof {
                crate::text::lemma_first_where(t, |c: char| is_ws(c), j - i);
                crate::text::lemma_first_where_le(t, |c: char| is_ws(c));
                assert(t.skip(j - i) =~= s@.skip(j as int));
            }
            let w = slice_chars(s, i, j);
            assert(w@ =~= t.take(j - i));
            let ghost before = out@;
            out.push(w);
            assert(out@.map_values(|w: Vec<char>| w@) =~= before.map_values(|w: Vec<char>| w@).push(w@));
            i = j;
        }
    }
    assert(s@.skip(i as int) =~= Seq::<char>::empty());
    assert(out@.map_values(|w: Vec<char>| w@) =~= words(s@));
    out
}

pub open spec fn is_quote(c: char) -> bool {
    c == '"' || c == '\''
}

proof fn lemma_unquoted_trail(t: Seq<char>, b: int)
    requires
        0 <= b <= t.len(),
        t.len() > 0 ==> !is_quote(t[0]) || b == 0,
        forall|k: int| b <= k < t.len() ==> is_quote(t[k]),
        b == 0 || !is_quote(t[b - 1]),
        b == 0 ==> forall|k: int| 0 <= k < t.len() ==> is_quote(t[k]),
    ensures
        unquoted(t) == t.take(b),
    decreases t.len(),
{
    if t.len() == 0 {
        assert(t.take(b) =~= t);
    } else if is_quote(t[0]) {
        lemma_unquoted_trail(t.drop_first(), 0);
        assert(t.take(b) =~= Seq::<char>::empty());
        assert(t.drop_first().take(0) =~= Seq::<char>::empty());
    } else if is_quote(t.last()) {
        lemma_unquoted_trail(t.drop_last(), b);
        assert(t.drop_last().take(b) =~= t.take(b));
    } else {
        assert(b == t.len());
        assert(t.take(b) =~= t);
    }
}

proof fn lemma_unquoted_lead(s: Seq<char>, a: int)
    requires
        0 <= a <= s.len(),
        forall|k: int| 0 <= k < a ==> is_quote(s[k]),
    ensures
        unquoted(s) == unquoted(s.skip(a)),
    decreases a,
{
    if a > 0 {
        assert(s.drop_first().skip(a - 1) =~= s.skip(a));
        lemma_unquoted_lead(s.drop_first(), a - 1);
    } else {
        assert(s.skip(0) =~= s);
    }
}

fn unquote(s: &[char]) -> (t: Vec<char>)
    ensures
        t@ == unquoted(s@),
{
    let mut a: usize = 0;
    while a < s.len() && (s[a] == '"' || s[a] == '\'')
        invariant
            a <= s@.len(),
            forall|k: int| 0 <= k < a ==> is_quote(s@[k]),
        decreases s@.len() - a,
    {
        a += 1;
    }
    let mut b: usize = s.len();
    while b > a && (s[b - 1] == '"' || s[b - 1] == '\'')
        invariant
            a <= b <= s@.len(),
            forall|k: int| b <= k < s@.len() ==> is_quote(s@[k]),
        decreases b,
    {
        b -= 1;
    }
    proof {
        lemma_unquoted_lead(s@, a as int);
        let u = s@.skip(a as int);
        lemma_unquoted_trail(u, b - a);
        assert(u.take(b - a) =~= s@.subrange(a as int, b as int));
    }
    slice_chars(s, a, b)
}

/// The ngrok token in what was pasted.
pub fn normalize_ngrok_authtoken_input(text: &str) -> (s: String)
    ensures
        s@ == authtoken_input(text@),
{
    let t = trim_chars(chars_of(text).as_slice());
    if t.len() == 0 {
        return String::new();
    }
    let ws = words_of(t.as_slice());
    let ghost wv = ws@.map_values(|w: Vec<char>| w@);
    let key = chars_of("add-authtoken");
    proof {
        reveal_strlit("add-authtoken");
    }
    let mut i: usize = 0;
    while i < ws.len()
        invariant
            i <= ws@.len(),
            wv == ws@.map_values(|w: Vec<char>| w@),
            wv == words(t@),
            t@ == trim(text@),
            t@.len() > 0,
            key@ == "add-authtoken"@,
            forall|j: int| 0 <= j < i ==> wv[j] != "add-authtoken"@,
        decreases ws@.len() - i,
    {
        assert(wv[i as int] == ws@[i as int]@);
        if crate::text::chars_eq(ws[i].as_slice(), key.as_slice()) {
            if i + 1 < ws.len() {
                proof {
                    let c = choose|c: int|
                        0 <= c < wv.len() && wv[c] == "add-authtoken"@ && forall|j: int|
                            0 <= j < c ==> wv[j] != "add-authtoken"@;
                    assert(c == i) by {
                        if c > i {
                        }
                    }
                    assert(wv[i + 1] == ws@[i + 1]@);
                    assert(0 <= i < wv.len() - 1 && wv[i as int] == "add-authtoken"@);
                }
                let token = unquote(ws[i + 1].as_slice());
                return string_of(token.as_slice());
            } else {
                proof {
                    assert forall|k: int| 0 <= k < wv.len() - 1 implies wv[k] != "add-authtoken"@ by {}
                }
                return string_of(t.as_slice());
            }
        }
        i += 1;
    }
    string_of(t.as_slice())
}

/// All but the last four characters masked with `*`.
pub open spec fn masked(value: Seq<char>) -> Seq<char> {
    let visible: nat = if value.len() < 4 {
        value.len()
    } else {
        4
    };
    Seq::new((value.len() - visible) as nat, |i: int| '*') + value.skip(value.len() - visible)
}

pub fn masked_secret_preview(value: &str) -> (s: String)
    ensures
        s@ == masked(value@),
{
    let v = chars_of(value);
    if v.len() == 0 {
        assert(masked(value@) =~= Seq::<char>::empty());
        return String::new();
    }
    let visible: usize = if v.len() < 4 {
        v.len()
    } else {
        4
    };
    let n = v.len() - visible;
    let mut out: Vec<char> = Vec::new();
    let mut i: usize = 0;
    while i < n
        invariant
            i <= n,
            out@ =~= Seq::new(i as nat, |k: int| '*'),
        decreases n - i,
    {
        out.push('*');
        i += 1;
    }
    let mut s = string_of(out.as_slice());
    push_chars(&mut s, slice_chars(v.as_slice(), n, v.len()).as_slice());
    assert(s@ =~= masked(value@));
    s
}

/// ASCII letters and digits kept, anything else as `_`; `browser` for an
/// empty name.
pub open spec fn sanitized(input: Seq<char>) -> Seq<char> {
    if input.len() == 0 {
        "browser"@
    } else {
        input.map_values(|c: char| if is_ascii_alnum(c) { c } else { '_' })
    }
}

pub fn sanitize_for_filename(input: &str) -> (s: String)
    ensures
        s@ == sanitized(input@),
{
    let v = chars_of(input);
    if v.len() == 0 {
        proof {
            reveal_strlit("browser");
        }
        return string_of(chars_of("browser").as_slice());
    }
    let mut out: Vec<char> = Vec::new();
    let mut i: usize = 0;
    while i < v.len()
        invariant
            i <= v@.len(),
            out@ =~= v@.take(i as int).map_values(|c: char| if is_ascii_alnum(c) { c } else { '_' }),
        decreases v@.len() - i,
    {
        let c = v[i];
        out.push(if is_ascii_alnum_char(c) { c } else { '_' });
        i += 1;
    }
    assert(v@.take(v@.len() as int) =~= v@);
    string_of(out.as_slice())
}

// ---------------------------------------------------------------------------
// The bootstrap status panel
// ---------------------------------------------------------------------------

/// The animation segment a lane plays at `now_millis`.
pub fn current_anim_segment(flow: &FlowLane, now_millis: u128) -> (r: Option<FlowAnimSegment>)
    ensures
        r == current_segment(flow@.queue, now_millis),
{
    current_queue_segment(&flow.anim_queue, now_millis)
}

/// A lane whose bootstrap status the panel shows: displayed, active, not
/// closing, and still visible.
pub open spec fn shows_status(app: AppState, f: FlowLane, now_millis: u128) -> bool {
    &&& (app.remote_connected || f.closing_started_ms is Some || f.anim_queue@.len() > 0)
    &&& f.bootstrap_status_active
    &&& f.closing_started_ms is None
    &&& status_visible(f@, now_millis, app.show_detail_mode)
}

/// The first lane whose bootstrap status the panel shows.
pub fn active_bootstrap_status_flow(app: &AppState, now_millis: u128) -> (r: Option<&FlowLane>)
    ensures
        match r {
            Some(f) => exists|i: int|
                0 <= i < app.flows@.len() && app.flows@[i] == *f && shows_status(*app, *f, now_millis)
                    && forall|j: int| 0 <= j < i ==> !shows_status(*app, #[trigger] app.flows@[j], now_millis),
            None => forall|i: int| 0 <= i < app.flows@.len() ==> !shows_status(*app, #[trigger] app.flows@[i], now_millis),
        },
{
    let mut i: usize = 0;
    while i < app.flows.len()
        invariant
            i <= app.flows@.len(),
            forall|j: int| 0 <= j < i ==> !shows_status(*app, #[trigger] app.flows@[j], now_millis),
        decreases app.flows@.len() - i,
    {
        let f = &app.flows[i];
        if should_display_flow_row(f, app.remote_connected) && f.bootstrap_status_active
            && f.closing_started_ms.is_none() && flow_bootstrap_status_visible(
            f,
            now_millis,
            app.show_detail_mode,
        ) {
            return Some(f);
        }
        i += 1;
    }
    None
}

pub open spec fn header_title(done: bool) -> Seq<char> {
    if done {
        "Initialize completed"@
    } else {
        "Initialize connector in progress"@
    }
}

/// The panel's title.
pub fn bootstrap_header_title(flow: &FlowLane, mode: ShowDetailMode) -> (s: &'static str)
    ensures
        s@ == header_title(bootstrap_done(flow@, mode)),
{
    if flow_bootstrap_complete(flow, mode) {
        "Initialize completed"
    } else {
        "Initialize connector in progress"
    }
}

/// The panel's call line: `call` and the latest action, cut to the lane.
pub fn bootstrap_call_text(flow: &FlowLane) -> (s: String)
    ensures
        s@ == trimmed_line("call "@ + latest_action(flow@.events), FLOW_ROW_CELLS as nat),
{
    let mut t = String::new();
    push_str(&mut t, "call ");
    let a = latest_flow_action(flow);
    push_str(&mut t, a.as_str());
    proof {
        reveal_strlit("call ");
    }
    trim_line(t.as_str(), FLOW_ROW_CELLS)
}

/// The panel's footer: once every step is done and the lane is still, how
/// long until it closes; before, that it closes by itself.
pub open spec fn footer_of(l: LaneView, mode: ShowDetailMode, now_millis: u128) -> Seq<char> {
    if bootstrap_done(l, mode) && current_segment(l.queue, now_millis) is None {
        match l.deadline {
            Some(d) => if now_millis >= d {
                "Completed."@
            } else {
                "Completed. Closing in "@ + crate::number::decimal(
                    ((d - now_millis + 999) / 1000) as nat,
                ) + "s..."@
            },
            None => "Completed."@,
        }
    } else {
        "Auto closes after initialize is completed."@
    }
}

pub fn bootstrap_footer_text(flow: &FlowLane, mode: ShowDetailMode, now_millis: u128) -> (s: String)
    ensures
        s@ == footer_of(flow@, mode, now_millis),
{
    proof {
        reveal_strlit("Completed.");
        reveal_strlit("Completed. Closing in ");
        reveal_strlit("s...");
        reveal_strlit("Auto closes after initialize is completed.");
    }
    if flow_bootstrap_complete(flow, mode) && current_anim_segment(flow, now_millis).is_none() {
        match flow_bootstrap_countdown_remaining_seconds(flow, now_millis) {
            Some(seconds) => {
                if seconds == 0 {
                    string_of(chars_of("Completed.").as_slice())
                } else {
                    let mut s = String::new();
                    push_str(&mut s, "Completed. Closing in ");
                    push_str(&mut s, crate::number::decimal_u128(seconds).as_str());
                    push_str(&mut s, "s...");
                    s
                }
            },
            None => string_of(chars_of("Completed.").as_slice()),
        }
    } else {
        string_of(chars_of("Auto closes after initialize is completed.").as_slice())
    }
}

/// Columns the phase titles line up to: that of the longest heading.
pub const PHASE_TITLE_WIDTH: usize = 33;

/// Columns the phase statuses line up to: that of the longest `[label]`.
pub const PHASE_STATUS_WIDTH: usize = 16;

/// The heading of phase `p`: `    Phase {p + 1}: {title}`.
pub open spec fn phase_heading(p: int) -> Seq<char> {
    "    Phase "@ + crate::number::decimal((p + 1) as nat) + ": "@ + crate::state::phase_title(p)
}

pub open spec fn status_text_of(s: Option<Seq<char>>) -> Seq<char> {
    match s {
        Some(l) => "["@ + l + "]"@,
        None => seq![],
    }
}

/// The widths are those of the longest heading and the longest status.
pub proof fn lemma_phase_widths()
    ensures
        forall|p: int| 0 <= p < 5 ==> #[trigger] phase_heading(p).len() <= PHASE_TITLE_WIDTH,
        phase_heading(4).len() == PHASE_TITLE_WIDTH,
        forall|p: int, j: int|
            0 <= p < 5 && 0 <= j < phase_len(p) ==> #[trigger] status_text_of(Some(phase_step_label(p, j))).len()
                <= PHASE_STATUS_WIDTH,
        status_text_of(Some(phase_step_label(1, 3))).len() == PHASE_STATUS_WIDTH,
        status_text_of(Some("\u{2713}"@)).len() <= PHASE_STATUS_WIDTH,
{
    reveal_strlit("    Phase ");
    reveal_strlit(": ");
    reveal_strlit("Checking tools");
    reveal_strlit("Checking resources");
    reveal_strlit("Loading widgets");
    reveal_strlit("Refreshing widgets");
    reveal_strlit("Final resource check");
    reveal_strlit("[");
    reveal_strlit("]");
    reveal_strlit("\u{2713}");
    reveal_strlit("initialize#1");
    reveal_strlit("initialize#2");
    reveal_strlit("initialized");
    reveal_strlit("tools/list");
    reveal_strlit("resources/list");
    reveal_strlit("run_command");
    reveal_strlit("instruction");
    reveal_strlit("read");
    reveal_strlit("search");
    reveal_strlit("write");
    reveal_strlit("edit");
    reveal_strlit("delete");
    assert forall|p: int| 0 <= p < 5 implies #[trigger] phase_heading(p).len() <= PHASE_TITLE_WIDTH by {
        crate::number::lemma_decimal_chars((p + 1) as nat);
        assert(crate::number::decimal((p + 1) as nat).len() == 1) by {
            reveal_with_fuel(crate::number::decimal, 2);
        }
    }
    assert(crate::number::decimal(5).len() == 1) by {
        reveal_with_fuel(crate::number::decimal, 2);
    }
    lemma_phase_starts();
}

/// The glyph of a step: a filled star once complete, else an open one.
pub open spec fn step_glyph(s: FlowPhaseStepState) -> char {
    match s {
        FlowPhaseStepState::Complete => '\u{2726}',
        _ => '\u{2727}',
    }
}

pub fn flow_step_glyph(s: FlowPhaseStepState) -> (c: char)
    ensures
        c == step_glyph(s),
{
    match s {
        FlowPhaseStepState::Complete => '\u{2726}',
        _ => '\u{2727}',
    }
}

/// One line of the phase list: the heading, padding to the status column,
/// the status, padding to the steps, and the state of each step.
pub struct PhaseLine {
    pub title: String,
    pub title_padding: usize,
    pub status: String,
    pub status_padding: usize,
    pub steps: Vec<FlowPhaseStepState>,
}

/// The line of phase `phase_index` for a lane (or for none).
pub fn flow_phase_line(flow: Option<&FlowLane>, phase_index: usize) -> (l: PhaseLine)
    requires
        phase_index < 5,
    ensures
        l.title@ == phase_heading(phase_index as int),
        l.title_padding == PHASE_TITLE_WIDTH - l.title@.len() + 4,
        l.status@ == status_text_of(phase_status(lane_view_of(flow), phase_index as int)),
        l.status_padding == PHASE_STATUS_WIDTH - l.status@.len() + 4,
        l.steps@ == Seq::new(
            phase_len(phase_index as int),
            |j: int| step_state(lane_view_of(flow), (phase_start(phase_index as int) + j) as usize),
        ),
{
    proof {
        lemma_phase_widths();
        lemma_phase_starts();
        reveal_strlit("    Phase ");
        reveal_strlit(": ");
        reveal_strlit("[");
        reveal_strlit("]");
    }
    let mut title = String::new();
    push_str(&mut title, "    Phase ");
    push_str(&mut title, crate::number::decimal_u64((phase_index + 1) as u64).as_str());
    push_str(&mut title, ": ");
    push_str(&mut title, crate::state::phase_title_str(phase_index));
    assert(title@ =~= phase_heading(phase_index as int));
    assert(title@.len() <= PHASE_TITLE_WIDTH);
    let status = match flow_phase_status_label(flow, phase_index) {
        Some(label) => {
            let mut s = String::new();
            push_str(&mut s, "[");
            push_str(&mut s, label.as_str());
            push_str(&mut s, "]");
            s
        },
        None => String::new(),
    };
    proof {
        let st = phase_status(lane_view_of(flow), phase_index as int);
        if let Some(lbl) = st {
            let start = phase_start(phase_index as int) as int;
            let end = start + phase_len(phase_index as int);
            if lbl != "\u{2713}"@ {
                let l = lane_view_of(flow).unwrap();
                match first_pending_in(l.pending, start, end) {
                    Some(s0) => {
                        lemma_first_pending_in(l.pending, start, end);
                        assert(status_text_of(Some(phase_step_label(phase_index as int, s0 - start))).len() <= PHASE_STATUS_WIDTH);
                    },
                    None => {
                        assert(status_text_of(Some(phase_step_label(phase_index as int, l.completed - 1 - start))).len() <= PHASE_STATUS_WIDTH);
                    },
                }
            }
        }
    }
    assert(status@.len() <= PHASE_STATUS_WIDTH);
    let (start, end) = flow_phase_bounds(phase_index);
    let mut steps: Vec<FlowPhaseStepState> = Vec::new();
    let mut k = start;
    while k < end
        invariant
            start <= k <= end,
            start == phase_start(phase_index as int),
            end == start + phase_len(phase_index as int),
            steps@ == Seq::new(
                (k - start) as nat,
                |j: int| step_state(lane_view_of(flow), (phase_start(phase_index as int) + j) as usize),
            ),
        decreases end - k,
    {
        let st = flow_phase_step_state(flow, k);
        let ghost before = steps@;
        steps.push(st);
        assert(steps@ =~= Seq::new(
            (k + 1 - start) as nat,
            |j: int| step_state(lane_view_of(flow), (phase_start(phase_index as int) + j) as usize),
        ));
        k += 1;
    }
    let title_padding = PHASE_TITLE_WIDTH - title.as_str().unicode_len() + 4;
    let status_padding = PHASE_STATUS_WIDTH - status.as_str().unicode_len() + 4;
    PhaseLine { title, title_padding, status, status_padding, steps }
}

/// A waiting step found in `[start, end)` lies there.
proof fn lemma_first_pending_in(pending: Seq<usize>, start: int, end: int)
    ensures
        first_pending_in(pending, start, end) matches Some(s) ==> start <= s < end,
    decreases pending.len(),
{
    if pending.len() > 0 && !(start <= pending[0] < end) {
        lemma_first_pending_in(pending.drop_first(), start, end);
    }
}

// ---------------------------------------------------------------------------
// Animation snapshot
// ---------------------------------------------------------------------------

/// `s` padded with spaces to `width` characters (longer text stays).
pub open spec fn padded(s: Seq<char>, width: nat) -> Seq<char> {
    if s.len() < width {
        s + Seq::new((width - s.len()) as nat, |i: int| ' ')
    } else {
        s
    }
}

fn push_padded(out: &mut String, s: &str, width: usize)
    ensures
        final(out)@ == old(out)@ + padded(s@, width as nat),
{
    push_str(out, s);
    let n = s.unicode_len();
    if n < width {
        let mut k = n;
        while k < width
            invariant
                n <= k <= width,
                n == s@.len(),
                out@ == old(out)@ + s@ + Seq::new((k - n) as nat, |i: int| ' '),
            decreases width - k,
        {
            push_char(out, ' ');
            assert(Seq::new((k + 1 - n) as nat, |i: int| ' ') =~= Seq::new((k - n) as nat, |i: int| ' ').push(' '));
            k += 1;
        }
    }
    assert(out@ =~= old(out)@ + padded(s@, width as nat));
}

/// One row of the animation snapshot of a lane: its short id, phase,
/// latest action and lane drawing (dark unless it closes, animates, or
/// everything is connected).
pub open spec fn snapshot_row(app: AppState, f: FlowLane, now_millis: u128) -> Seq<char> {
    let active = f.closing_started_ms is Some || f.anim_queue@.len() > 0 || (app.server_running
        && app.ngrok_running && app.remote_connected);
    let direction = if active {
        Some(direction_of(Some(f@), now_millis))
    } else {
        None
    };
    "flow "@ + f.short_id@ + " phase="@ + padded(phase_of_lane(f@, now_millis), 8) + " tool="@
        + padded(latest_action(f@.events), 16) + " Your computer "@ + lane_text(
        direction,
        lit_of(Some(f@), now_millis, FLOW_ROW_CELLS),
        FLOW_ROW_CELLS as nat,
    ) + " ChatGPT Web (via Ngrok)"@
}

/// The rows of the displayed lanes, in order.
pub open spec fn snapshot_rows(app: AppState, flows: Seq<FlowLane>, now_millis: u128) -> Seq<Seq<char>>
    decreases flows.len(),
{
    if flows.len() == 0 {
        seq![]
    } else {
        let r = snapshot_rows(app, flows.drop_last(), now_millis);
        let f = flows.last();
        if app.remote_connected || f.closing_started_ms is Some || f.anim_queue@.len() > 0 {
            r.push(snapshot_row(app, f, now_millis))
        } else {
            r
        }
    }
}

fn snapshot_row_text(app: &AppState, f: &FlowLane, now_millis: u128) -> (s: String)
    requires
        queue_wf(f.anim_queue@),
    ensures
        s@ == snapshot_row(*app, *f, now_millis),
{
    proof {
        reveal_strlit("flow ");
        reveal_strlit(" phase=");
        reveal_strlit(" tool=");
        reveal_strlit(" Your computer ");
        reveal_strlit(" ChatGPT Web (via Ngrok)");
    }
    let active = f.closing_started_ms.is_some() || f.anim_queue.len() > 0 || (app.server_running
        && app.ngrok_running && app.remote_connected);
    let direction = if active {
        Some(flow_direction(Some(f), now_millis))
    } else {
        None
    };
    let mut s = String::new();
    push_str(&mut s, "flow ");
    push_str(&mut s, f.short_id.as_str());
    push_str(&mut s, " phase=");
    push_padded(&mut s, flow_phase(f, now_millis), 8);
    push_str(&mut s, " tool=");
    let action = latest_flow_action(f);
    push_padded(&mut s, action.as_str(), 16);
    push_str(&mut s, " Your computer ");
    let lit = flow_lit_count(Some(f), now_millis, FLOW_ROW_CELLS);
    let lane = debug_lane(direction, lit, FLOW_ROW_CELLS);
    push_str(&mut s, lane.as_str());
    push_str(&mut s, " ChatGPT Web (via Ngrok)");
    s
}

/// The animation snapshot at `now_millis`: a row per displayed lane.
pub fn animation_snapshot_at(app: &AppState, now_millis: u128) -> (rows: Vec<String>)
    requires
        app.wf(),
    ensures
        string_views(rows@) == snapshot_rows(*app, app.flows@, now_millis),
{
    let ghost fl = app.flows@;
    let mut rows: Vec<String> = Vec::new();
    let mut i: usize = 0;
    assert(fl.take(0) =~= Seq::<FlowLane>::empty());
    assert(string_views(rows@) =~= Seq::<Seq<char>>::empty());
    while i < app.flows.len()
        invariant
            i <= fl.len(),
            fl == app.flows@,
            lanes_wf(fl),
            string_views(rows@) == snapshot_rows(*app, fl.take(i as int), now_millis),
        decreases fl.len() - i,
    {
        assert(fl.take(i + 1).drop_last() =~= fl.take(i as int));
        assert(fl.take(i + 1).last() == fl[i as int]);
        let f = &app.flows[i];
        if should_display_flow_row(f, app.remote_connected) {
            assert(queue_wf(fl[i as int].anim_queue@));
            let row = snapshot_row_text(app, f, now_millis);
            let ghost before = rows@;
            rows.push(row);
            assert(string_views(rows@) =~= string_views(before).push(row@));
        }
        i += 1;
    }
    assert(fl.take(fl.len() as int) =~= fl);
    rows
}

/// The animation snapshot now.
pub fn build_animation_snapshot(app: &AppState) -> (rows: Vec<String>)
    requires
        app.wf(),
    ensures
        exists|now_millis: u128| string_views(rows@) == snapshot_rows(*app, app.flows@, now_millis),
{
    let now = crate::clock::now_unix_millis();
    animation_snapshot_at(app, now)
}

// ---------------------------------------------------------------------------
// Panel sizes
// ---------------------------------------------------------------------------

/// What the status panel says of the services and the connection.
pub struct ServiceStatusTexts {
    pub server: String,
    pub ngrok: &'static str,
    pub devtools: &'static str,
    pub remote: &'static str,
}

/// The status panel's service lines: the server with its port while it
/// runs, the tunnel, the browser bridge (not applicable where the mode
/// uses no browser), and `V` or `X` for the remote connection.
pub fn service_status_texts(app: &AppState) -> (t: ServiceStatusTexts)
    ensures
        t.server@ == (if app.server_running {
            "RUNNING (port "@ + crate::number::decimal(app.port as nat) + ")"@
        } else {
            "STOPPED"@
        }),
        t.ngrok@ == (if app.ngrok_running {
            "RUNNING"@
        } else {
            "STOPPED"@
        }),
        t.devtools@ == (if app.devtools_running {
            "RUNNING"@
        } else if app.mode == crate::state::Mode::Browser || app.mode == crate::state::Mode::Both {
            "STOPPED"@
        } else {
            "N/A"@
        }),
        t.remote@ == (if app.remote_connected {
            "V"@
        } else {
            "X"@
        }),
{
    let server = if app.server_running {
        let mut s = String::new();
        push_str(&mut s, "RUNNING (port ");
        push_str(&mut s, crate::number::decimal_u64(app.port as u64).as_str());
        push_str(&mut s, ")");
        s
    } else {
        string_of(chars_of("STOPPED").as_slice())
    };
    let ngrok: &'static str = if app.ngrok_running {
        "RUNNING"
    } else {
        "STOPPED"
    };
    let devtools: &'static str = if app.devtools_running {
        "RUNNING"
    } else if app.mode.browser_enabled() {
        "STOPPED"
    } else {
        "N/A"
    };
    let remote: &'static str = if app.remote_connected {
        "V"
    } else {
        "X"
    };
    ServiceStatusTexts { server, ngrok, devtools, remote }
}

/// The call line over the idle lane shown when no flow is: waiting for a
/// request while connected, else closed.
pub fn idle_flow_call_text(remote_connected: bool) -> (s: &'static str)
    ensures
        s@ == (if remote_connected {
            "awaiting request"@
        } else {
            "flow closed"@
        }),
{
    if remote_connected {
        "awaiting request"
    } else {
        "flow closed"
    }
}

/// A shown flow's lane animates while it closes, while segments wait in
/// its queue, or while server, tunnel and remote are all up.
pub fn flow_lane_active(flow: &FlowLane, app: &AppState) -> (b: bool)
    ensures
        b == (flow.closing_started_ms is Some || flow.anim_queue@.len() > 0 || (app.server_running
            && app.ngrok_running && app.remote_connected)),
{
    flow.closing_started_ms.is_some() || flow.anim_queue.len() > 0 || (app.server_running
        && app.ngrok_running && app.remote_connected)
}

/// Height of the status panel when the screen has room: the mascot block
/// and six more rows.
pub const STATUS_PANEL_HEIGHT: u16 = 24;

/// The heights of the main screen's panels for a screen `area_height` rows
/// tall: the least height of the log panel (3 while the connect guide
/// shows, else 5) and the status panel's height, at most
/// `STATUS_PANEL_HEIGHT` and at most what the header, the key bar and the
/// logs leave, but never below 17 for that reason.
pub fn panel_heights(area_height: u16, show_guide: bool) -> (r: (u16, u16))
    ensures
        r.0 == (if show_guide {
            3u16
        } else {
            5u16
        }),
        ({
            let left = if area_height > 6 + r.0 {
                area_height - 6 - r.0
            } else {
                0
            };
            let max_status = if left > 17 {
                left
            } else {
                17
            };
            r.1 == (if STATUS_PANEL_HEIGHT < max_status {
                STATUS_PANEL_HEIGHT as int
            } else {
                max_status
            })
        }),
{
    let logs_min: u16 = if show_guide { 3 } else { 5 };
    let left = area_height.saturating_sub(6 + logs_min);
    let max_status = if left > 17 { left } else { 17 };
    let status = if STATUS_PANEL_HEIGHT < max_status { STATUS_PANEL_HEIGHT } else { max_status };
    (logs_min, status)
}

/// How many lanes the status panel has room for: the rows inside a panel
/// `status_height` tall (less four for borders and padding), less the
/// `status_lines` already shown and a blank line, in blocks of
/// `lane_lines` rows; none while the flow panel is hidden.
pub fn visible_flow_slots(
    show_flow_panel: bool,
    status_height: u16,
    status_lines: usize,
    lane_lines: usize,
) -> (n: usize)
    ensures
        n == (if !show_flow_panel {
            0
        } else {
            let content = if status_height > 4 {
                status_height - 4
            } else {
                0
            };
            let room = if content > status_lines + 1 {
                content - status_lines - 1
            } else {
                0
            };
            room / (if lane_lines > 1 {
                lane_lines as int
            } else {
                1
            })
        }),
{
    if !show_flow_panel {
        return 0;
    }
    let content = status_height.saturating_sub(4) as usize;
    let room = if status_lines < usize::MAX && content > status_lines + 1 {
        content - status_lines - 1
    } else {
        0
    };
    let per = if lane_lines > 1 { lane_lines } else { 1 };
    room / per
}

} // verus!
