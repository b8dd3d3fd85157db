//! Application settings, usage counters and the request-flow animation.
use std::collections::VecDeque;
use vstd::prelude::*;
use crate::text::string_views;
use crate::number::{int_error_message, parse_uint, parse_uint_exec};
use crate::text::{
    chars_of, cut_at, lemma_cut_unique, lemma_utf8_mono, lemma_utf8_step, lower_char,
    lower_char_exec, push_str, slice_chars, string_of, trim, trim_chars, utf8_char_len_exec,
    utf8_len,
};

verus! {

/// Log entry displayed in the terminal interface.
#[derive(Clone)]
pub struct LogEntry {
    pub time: String,
    pub level: &'static str,
    pub message: String,
}

// ---------------------------------------------------------------------------
// Usage totals
// ---------------------------------------------------------------------------

#[derive(Clone, Copy, Debug, PartialEq, Eq, Structural)]
pub struct UsageTotals {
    pub input_tokens: u64,
    pub output_tokens: u64,
    pub total_tokens: u64,
    pub tool_call_count: u64,
}

pub open spec fn sat_add(a: u64, b: u64) -> u64 {
    if a + b > u64::MAX {
        u64::MAX
    } else {
        (a + b) as u64
    }
}

impl Default for UsageTotals {
    fn default() -> (r: Self)
        ensures
            r == (UsageTotals { input_tokens: 0, output_tokens: 0, total_tokens: 0, tool_call_count: 0 }),
    {
        UsageTotals { input_tokens: 0, output_tokens: 0, total_tokens: 0, tool_call_count: 0 }
    }
}

impl UsageTotals {
    /// Adds one turn's tokens and tool calls, saturating; the total becomes
    /// input plus output.
    pub fn accumulate(&mut self, input_tokens: u64, output_tokens: u64, tool_call_count: u64)
        ensures
            final(self).input_tokens == sat_add(old(self).input_tokens, input_tokens),
            final(self).output_tokens == sat_add(old(self).output_tokens, output_tokens),
            final(self).total_tokens == sat_add(
                sat_add(old(self).input_tokens, input_tokens),
                sat_add(old(self).output_tokens, output_tokens),
            ),
            final(self).tool_call_count == sat_add(old(self).tool_call_count, tool_call_count),
    {
        self.input_tokens = self.input_tokens.saturating_add(input_tokens);
        self.output_tokens = self.output_tokens.saturating_add(output_tokens);
        self.total_tokens = self.input_tokens.saturating_add(self.output_tokens);
        self.tool_call_count = self.tool_call_count.saturating_add(tool_call_count);
    }

    /// The same totals with `total_tokens` recomputed as input plus output.
    pub fn normalized(self) -> (r: Self)
        ensures
            r == (UsageTotals {
                total_tokens: sat_add(self.input_tokens, self.output_tokens),
                ..self
            }),
    {
        let mut r = self;
        r.total_tokens = r.input_tokens.saturating_add(r.output_tokens);
        r
    }
}

// ---------------------------------------------------------------------------
// Settings
// ---------------------------------------------------------------------------

#[derive(Clone, Copy, Debug, PartialEq, Eq, Structural)]
pub enum AgentsPathMode {
    Default,
    Workspace,
    Catdesk,
    Codex,
    Disabled,
}

impl Default for AgentsPathMode {
    fn default() -> (r: Self)
        ensures
            r == AgentsPathMode::Default,
    {
        AgentsPathMode::Default
    }
}

#[derive(Clone, Copy, Debug, PartialEq, Eq, Structural)]
pub enum TokenStatsLayout {
    Disable,
    Right,
    Bottom,
}

impl Default for TokenStatsLayout {
    fn default() -> (r: Self)
        ensures
            r == TokenStatsLayout::Right,
    {
        TokenStatsLayout::Right
    }
}

impl TokenStatsLayout {
    pub fn as_str(self) -> (s: &'static str)
        ensures
            s@ == match self {
                TokenStatsLayout::Disable => "disable"@,
                TokenStatsLayout::Right => "right"@,
                TokenStatsLayout::Bottom => "bottom"@,
            },
    {
        match self {
            TokenStatsLayout::Disable => "disable",
            TokenStatsLayout::Right => "right",
            TokenStatsLayout::Bottom => "bottom",
        }
    }
}

/// The label the settings show for a widget detail mode.
pub open spec fn detail_mode_label(m: ShowDetailMode) -> Seq<char> {
    match m {
        ShowDetailMode::Disable => "Disable"@,
        ShowDetailMode::Expanded => "Expanded"@,
        ShowDetailMode::Collapsed => "Collapsed"@,
    }
}

/// The label the settings show for a tool mode.
pub open spec fn tool_mode_label(m: ToolMode) -> Seq<char> {
    match m {
        ToolMode::MultiTools => "multi-tools"@,
        ToolMode::ReadOnly => "read-only"@,
    }
}

#[derive(Clone, Copy, Debug, PartialEq, Eq, Structural)]
pub enum ShowDetailMode {
    Disable,
    Expanded,
    Collapsed,
}

impl Default for ShowDetailMode {
    fn default() -> (r: Self)
        ensures
            r == ShowDetailMode::Expanded,
    {
        ShowDetailMode::Expanded
    }
}

impl ShowDetailMode {
    /// Every mode, in the order the settings list shows them.
    pub fn all() -> (v: &'static [ShowDetailMode])
        ensures
            v@ == seq![ShowDetailMode::Disable, ShowDetailMode::Expanded, ShowDetailMode::Collapsed],
    {
        let v: &'static [ShowDetailMode] = &[
            ShowDetailMode::Disable,
            ShowDetailMode::Expanded,
            ShowDetailMode::Collapsed,
        ];
        assert(v@ =~= seq![ShowDetailMode::Disable, ShowDetailMode::Expanded, ShowDetailMode::Collapsed]);
        v
    }

    pub fn label(self) -> (s: &'static str)
        ensures
            s@ == match self {
                ShowDetailMode::Disable => "Disable"@,
                ShowDetailMode::Expanded => "Expanded"@,
                ShowDetailMode::Collapsed => "Collapsed"@,
            },
    {
        match self {
            ShowDetailMode::Disable => "Disable",
            ShowDetailMode::Expanded => "Expanded",
            ShowDetailMode::Collapsed => "Collapsed",
        }
    }

    pub fn description(self) -> (s: &'static str)
        ensures
            s@ == match self {
                ShowDetailMode::Disable => "Completely disable the web widget. Fastest and uses least memory."@,
                ShowDetailMode::Expanded => "Show the full web widget with syntax-highlighted diffs."@,
                ShowDetailMode::Collapsed => "Show the web widget but keep code changes collapsed by default."@,
            },
    {
        match self {
            ShowDetailMode::Disable => "Completely disable the web widget. Fastest and uses least memory.",
            ShowDetailMode::Expanded => "Show the full web widget with syntax-highlighted diffs.",
            ShowDetailMode::Collapsed => "Show the web widget but keep code changes collapsed by default.",
        }
    }

    pub fn as_str(self) -> (s: &'static str)
        ensures
            s@ == match self {
                ShowDetailMode::Disable => "disable"@,
                ShowDetailMode::Expanded => "expanded"@,
                ShowDetailMode::Collapsed => "collapsed"@,
            },
    {
        match self {
            ShowDetailMode::Disable => "disable",
            ShowDetailMode::Expanded => "expanded",
            ShowDetailMode::Collapsed => "collapsed",
        }
    }
}

/// Which MCP backends to enable.
#[derive(Clone, Copy, Debug, PartialEq, Eq, Structural)]
pub enum Mode {
    Computer,
    Browser,
    Both,
}

impl Mode {
    pub fn label(self) -> (s: &'static str)
        ensures
            s@ == match self {
                Mode::Computer => "Computer"@,
                Mode::Browser => "Browser"@,
                Mode::Both => "Both"@,
            },
    {
        match self {
            Mode::Computer => "Computer",
            Mode::Browser => "Browser",
            Mode::Both => "Both",
        }
    }

    pub fn computer_enabled(self) -> (b: bool)
        ensures
            b == (self == Mode::Computer || self == Mode::Both),
    {
        match self {
            Mode::Computer | Mode::Both => true,
            Mode::Browser => false,
        }
    }

    pub fn browser_enabled(self) -> (b: bool)
        ensures
            b == (self == Mode::Browser || self == Mode::Both),
    {
        match self {
            Mode::Browser | Mode::Both => true,
            Mode::Computer => false,
        }
    }
}

/// Which local toolset to expose.
#[derive(Clone, Copy, Debug, PartialEq, Eq, Structural)]
pub enum ToolMode {
    MultiTools,
    ReadOnly,
}

impl ToolMode {
    /// Every tool mode, in the order the settings list shows them.
    pub fn all() -> (v: &'static [ToolMode])
        ensures
            v@ == seq![ToolMode::MultiTools, ToolMode::ReadOnly],
    {
        let v: &'static [ToolMode] = &[ToolMode::MultiTools, ToolMode::ReadOnly];
        assert(v@ =~= seq![ToolMode::MultiTools, ToolMode::ReadOnly]);
        v
    }

    pub fn label(self) -> (s: &'static str)
        ensures
            s@ == match self {
                ToolMode::MultiTools => "multi-tools"@,
                ToolMode::ReadOnly => "read-only"@,
            },
    {
        match self {
            ToolMode::MultiTools => "multi-tools",
            ToolMode::ReadOnly => "read-only",
        }
    }

    pub fn description(self) -> (s: &'static str)
        ensures
            s@ == match self {
                ToolMode::MultiTools => "Expose workspace read/write tools plus run_command."@,
                ToolMode::ReadOnly => "Expose safe read-only workspace tools only."@,
            },
    {
        match self {
            ToolMode::MultiTools => "Expose workspace read/write tools plus run_command.",
            ToolMode::ReadOnly => "Expose safe read-only workspace tools only.",
        }
    }

    pub fn run_command_enabled(self) -> (b: bool)
        ensures
            b == (self == ToolMode::MultiTools),
    {
        match self {
            ToolMode::MultiTools => true,
            ToolMode::ReadOnly => false,
        }
    }

    pub fn write_tools_enabled(self) -> (b: bool)
        ensures
            b == (self == ToolMode::MultiTools),
    {
        match self {
            ToolMode::MultiTools => true,
            ToolMode::ReadOnly => false,
        }
    }

    pub fn read_only(self) -> (b: bool)
        ensures
            b == (self == ToolMode::ReadOnly),
    {
        match self {
            ToolMode::MultiTools => false,
            ToolMode::ReadOnly => true,
        }
    }
}

/// The theme chosen when none is configured.
pub open spec fn default_theme_id() -> Seq<char> {
    "concise"@
}

/// The settings kept in `~/.catdesk/config.toml`.
#[derive(Clone)]
pub struct AppConfig {
    pub ngrok_authtoken: Option<String>,
    pub mcp_slug: Option<String>,
    pub ngrok_domain: Option<String>,
    pub agents_path_mode: AgentsPathMode,
    pub token_stats_layout: TokenStatsLayout,
    pub show_detail_mode: ShowDetailMode,
    pub partner_binagotchy_seed: Option<String>,
    pub set_catdesk_as_co_author: bool,
    pub theme: String,
    pub mode: Mode,
    pub tool_mode: ToolMode,
    pub usage_totals: UsageTotals,
}

/// The characters of an optional owned string.
pub open spec fn opt_chars(s: Option<String>) -> Option<Seq<char>> {
    match s {
        Some(t) => Some(t@),
        None => None,
    }
}

/// An optional setting after trimming: absent when blank.
pub open spec fn trimmed_setting(s: Option<Seq<char>>) -> Option<Seq<char>> {
    match s {
        Some(t) => if trim(t).len() == 0 {
            None
        } else {
            Some(trim(t))
        },
        None => None,
    }
}

/// A seed setting: trimmed, ASCII lower case, absent when blank.
pub open spec fn seed_setting(s: Option<Seq<char>>) -> Option<Seq<char>> {
    match s {
        Some(t) => if trim(t).len() == 0 {
            None
        } else {
            Some(trim(t).map_values(|c: char| lower_char(c)))
        },
        None => None,
    }
}

impl Default for AppConfig {
    fn default() -> (r: Self)
        ensures
            r.ngrok_authtoken is None,
            r.mcp_slug is None,
            r.ngrok_domain is None,
            r.agents_path_mode == AgentsPathMode::Default,
            r.token_stats_layout == TokenStatsLayout::Right,
            r.show_detail_mode == ShowDetailMode::Expanded,
            r.partner_binagotchy_seed is None,
            !r.set_catdesk_as_co_author,
            r.theme@ == default_theme_id(),
            r.mode == Mode::Both,
            r.tool_mode == ToolMode::MultiTools,
            r.usage_totals == (UsageTotals {
                input_tokens: 0,
                output_tokens: 0,
                total_tokens: 0,
                tool_call_count: 0,
            }),
    {
        AppConfig {
            ngrok_authtoken: None,
            mcp_slug: None,
            ngrok_domain: None,
            agents_path_mode: AgentsPathMode::Default,
            token_stats_layout: TokenStatsLayout::Right,
            show_detail_mode: ShowDetailMode::Expanded,
            partner_binagotchy_seed: None,
            set_catdesk_as_co_author: false,
            theme: string_of(chars_of("concise").as_slice()),
            mode: Mode::Both,
            tool_mode: ToolMode::MultiTools,
            usage_totals: UsageTotals::default(),
        }
    }
}

fn trimmed_opt(s: Option<String>) -> (r: Option<String>)
    ensures
        opt_chars(r) == trimmed_setting(opt_chars(s)),
{
    match s {
        None => None,
        Some(t) => {
            let v = trim_chars(chars_of(t.as_str()).as_slice());
            if v.len() == 0 {
                None
            } else {
                Some(string_of(v.as_slice()))
            }
        },
    }
}

fn lowered_opt(s: Option<String>) -> (r: Option<String>)
    ensures
        opt_chars(r) == seed_setting(opt_chars(s)),
{
    match s {
        None => None,
        Some(t) => {
            let v = trim_chars(chars_of(t.as_str()).as_slice());
            if v.len() == 0 {
                None
            } else {
                let mut out: Vec<char> = Vec::new();
                let mut i: usize = 0;
                while i < v.len()
                    invariant
                        i <= v.len(),
                        out@ == v@.take(i as int).map_values(|c: char| lower_char(c)),
                    decreases v.len() - i,
                {
                    out.push(lower_char_exec(v[i]));
                    assert(v@.take(i + 1) =~= v@.take(i as int).push(v@[i as int]));
                    assert(out@ =~= v@.take(i + 1).map_values(|c: char| lower_char(c)));
                    i += 1;
                }
                assert(v@.take(v.len() as int) =~= v@);
                Some(string_of(out.as_slice()))
            }
        },
    }
}

impl AppConfig {
    /// Blank optional settings become absent, the others are trimmed, the
    /// partner seed is lower-cased, and the usage total is recomputed.
    pub fn normalized(self) -> (r: Self)
        ensures
            opt_chars(r.ngrok_authtoken) == trimmed_setting(opt_chars(self.ngrok_authtoken)),
            opt_chars(r.mcp_slug) == trimmed_setting(opt_chars(self.mcp_slug)),
            opt_chars(r.ngrok_domain) == trimmed_setting(opt_chars(self.ngrok_domain)),
            opt_chars(r.partner_binagotchy_seed) == seed_setting(
                opt_chars(self.partner_binagotchy_seed),
            ),
            r.usage_totals == self.usage_totals.normalized_spec(),
            r.agents_path_mode == self.agents_path_mode,
            r.token_stats_layout == self.token_stats_layout,
            r.show_detail_mode == self.show_detail_mode,
            r.set_catdesk_as_co_author == self.set_catdesk_as_co_author,
            r.theme == self.theme,
            r.mode == self.mode,
            r.tool_mode == self.tool_mode,
    {
        AppConfig {
            ngrok_authtoken: trimmed_opt(self.ngrok_authtoken),
            mcp_slug: trimmed_opt(self.mcp_slug),
            ngrok_domain: trimmed_opt(self.ngrok_domain),
            agents_path_mode: self.agents_path_mode,
            token_stats_layout: self.token_stats_layout,
            show_detail_mode: self.show_detail_mode,
            partner_binagotchy_seed: lowered_opt(self.partner_binagotchy_seed),
            set_catdesk_as_co_author: self.set_catdesk_as_co_author,
            theme: self.theme,
            mode: self.mode,
            tool_mode: self.tool_mode,
            usage_totals: self.usage_totals.normalized(),
        }
    }
}

impl UsageTotals {
    pub open spec fn normalized_spec(self) -> UsageTotals {
        UsageTotals { total_tokens: sat_add(self.input_tokens, self.output_tokens), ..self }
    }
}

/// The message for a partner seed that is not hexadecimal.
pub open spec fn seed_error(seed: Seq<char>) -> Option<Seq<char>> {
    match parse_uint(seed, 16, 0xffff_ffff_ffff_ffff) {
        Ok(_) => None,
        Err(k) => Some("invalid partner Binagotchy seed `"@ + seed + "`: "@ + int_error_message(k)),
    }
}

/// `u64::from_str_radix(seed, 16)`, with the message for a bad seed.
pub fn parse_seed_hex(seed: &str) -> (r: Result<u64, String>)
    ensures
        match r {
            Ok(v) => parse_uint(seed@, 16, 0xffff_ffff_ffff_ffff) == Ok::<nat, crate::number::IntErrorKind>(v as nat),
            Err(e) => seed_error(seed@) == Some(e@),
        },
{
    match parse_uint_exec(chars_of(seed).as_slice(), 16, 0xffff_ffff_ffff_ffff) {
        Ok(v) => Ok(v),
        Err(k) => {
            let mut e = String::new();
            push_str(&mut e, "invalid partner Binagotchy seed `");
            push_str(&mut e, seed);
            push_str(&mut e, "`: ");
            push_str(&mut e, k.message());
            Err(e)
        },
    }
}

// ---------------------------------------------------------------------------
// Flow identifiers
// ---------------------------------------------------------------------------

/// Slicing a flow id at byte 8 falls between characters.
pub open spec fn short_id_ok(flow_id: Seq<char>) -> bool {
    crate::text::byte_cut_ok(flow_id, 8)
}

/// The first eight bytes of a flow id.
pub open spec fn short_id_spec(flow_id: Seq<char>, short: Seq<char>) -> bool {
    crate::text::byte_prefix(flow_id, 8, short)
}

pub fn short_flow_id(flow_id: &str) -> (s: String)
    requires
        short_id_ok(flow_id@),
    ensures
        short_id_spec(flow_id@, s@),
{
    let v = chars_of(flow_id);
    string_of(crate::text::prefix_bytes(v.as_slice(), 8).as_slice())
}

// ---------------------------------------------------------------------------
// Flow animation
// ---------------------------------------------------------------------------

/// Direction for flow animation.
#[derive(Clone, Copy, Debug, PartialEq, Eq, Structural)]
pub enum FlowDirection {
    Forward,
    Backward,
}

/// Per-flow queued animation segment kind.
#[derive(Clone, Copy, Debug, PartialEq, Eq, Structural)]
pub enum FlowAnimKind {
    Move,
    Turn,
}

#[derive(Clone, Copy, Debug, PartialEq, Eq, Structural)]
pub struct FlowAnimSegment {
    pub kind: FlowAnimKind,
    pub direction: FlowDirection,
    pub started_ms: u128,
    pub ends_ms: u128,
    pub step_ms: u64,
    pub start_cells: usize,
    pub end_cells: usize,
}

/// Number of cells of a flow lane.
pub const FLOW_ANIM_CELLS: usize = 32;

pub const FLOW_FORWARD_ANIMATION_DURATION_MS: u64 = 125;

pub const FLOW_BACKWARD_ANIMATION_DURATION_MS: u64 = 125;

pub const FLOW_TURN_TRANSITION_MS: u64 = 24;

/// ceil(125 / 32): the step of a forward move over the whole lane.
pub const FLOW_STEP_FIXED_MS: u64 = 4;

/// Cells a lane is long, for the time a closed lane stays visible.
pub const FLOW_LINK_CELLS: u64 = 32;

pub const FLOW_CLOSE_PRUNE_MULTIPLIER: u64 = 3;

/// How long a completed bootstrap status stays on screen.
pub const FLOW_BOOTSTRAP_STATUS_CLOSE_DELAY_MS: u128 = 3000;

pub fn derive_flow_step_ms() -> (ms: u64)
    ensures
        ms == FLOW_STEP_FIXED_MS,
{
    FLOW_STEP_FIXED_MS
}

pub open spec fn abs_diff(a: usize, b: usize) -> nat {
    if a >= b {
        (a - b) as nat
    } else {
        (b - a) as nat
    }
}

/// Interpolating a segment at `now_ms` stays within `u128`.
pub open spec fn lit_count_ok(seg: FlowAnimSegment, now_ms: u128) -> bool {
    seg.started_ms < now_ms < seg.ends_ms ==> abs_diff(seg.end_cells, seg.start_cells) * (now_ms
        - seg.started_ms) <= u128::MAX
}

/// Cells lit at `now_ms`: the start cells before the segment, the end cells
/// after it, and in between the start moved towards the end in proportion to
/// the elapsed time, rounded down.
pub open spec fn lit_count(seg: FlowAnimSegment, now_ms: u128) -> nat {
    if seg.started_ms >= seg.ends_ms || now_ms >= seg.ends_ms {
        seg.end_cells as nat
    } else if now_ms <= seg.started_ms {
        seg.start_cells as nat
    } else {
        let progressed = abs_diff(seg.end_cells, seg.start_cells) * ((now_ms - seg.started_ms) as nat)
            / ((seg.ends_ms - seg.started_ms) as nat);
        if seg.end_cells >= seg.start_cells {
            (seg.start_cells + progressed) as nat
        } else {
            (seg.start_cells - progressed) as nat
        }
    }
}

pub fn flow_anim_lit_count(seg: FlowAnimSegment, now_ms: u128) -> (n: usize)
    requires
        lit_count_ok(seg, now_ms),
    ensures
        n == lit_count(seg, now_ms),
        seg.start_cells <= seg.end_cells ==> seg.start_cells <= n <= seg.end_cells,
        seg.end_cells <= seg.start_cells ==> seg.end_cells <= n <= seg.start_cells,
{
    if seg.started_ms >= seg.ends_ms {
        return seg.end_cells;
    }
    if now_ms <= seg.started_ms {
        return seg.start_cells;
    }
    if now_ms >= seg.ends_ms {
        return seg.end_cells;
    }
    let duration_ms = seg.ends_ms - seg.started_ms;
    let elapsed_ms = now_ms - seg.started_ms;
    let distance: usize = if seg.end_cells >= seg.start_cells {
        seg.end_cells - seg.start_cells
    } else {
        seg.start_cells - seg.end_cells
    };
    let product: u128 = (distance as u128) * elapsed_ms;
    let progressed_wide: u128 = product / duration_ms;
    proof {
        assert(elapsed_ms < duration_ms);
        assert(product <= (distance as u128) * duration_ms) by (nonlinear_arith)
            requires
                product == (distance as u128) * elapsed_ms,
                elapsed_ms < duration_ms,
        ;
        assert(progressed_wide <= distance) by (nonlinear_arith)
            requires
                progressed_wide == product / duration_ms,
                product <= (distance as u128) * duration_ms,
                duration_ms > 0,
        ;
    }
    let progressed = progressed_wide as usize;
    if seg.end_cells >= seg.start_cells {
        seg.start_cells + progressed
    } else {
        seg.start_cells - progressed
    }
}

/// Milliseconds of a move over `|end - start|` cells: the direction's
/// whole-lane duration scaled to the distance, rounded up.
pub open spec fn move_duration(direction: FlowDirection, start_cells: usize, end_cells: usize) -> nat {
    let cells = abs_diff(end_cells, start_cells);
    let base: nat = match direction {
        FlowDirection::Forward => FLOW_FORWARD_ANIMATION_DURATION_MS as nat,
        FlowDirection::Backward => FLOW_BACKWARD_ANIMATION_DURATION_MS as nat,
    };
    if cells == 0 {
        0
    } else {
        (cells * base + 31) / 32
    }
}

pub fn move_segment_duration_ms(
    direction: FlowDirection,
    step_ms: u64,
    start_cells: usize,
    end_cells: usize,
) -> (ms: u128)
    ensures
        ms == move_duration(direction, start_cells, end_cells),
{
    let cells: usize = if end_cells >= start_cells {
        end_cells - start_cells
    } else {
        start_cells - end_cells
    };
    if cells == 0 {
        return 0;
    }
    let base: u128 = match direction {
        FlowDirection::Forward => FLOW_FORWARD_ANIMATION_DURATION_MS as u128,
        FlowDirection::Backward => FLOW_BACKWARD_ANIMATION_DURATION_MS as u128,
    };
    assert((cells as u128) * base <= 0xffff_ffff_ffff_ffff * 125) by (nonlinear_arith)
        requires
            cells <= 0xffff_ffff_ffff_ffff,
            base == 125,
    ;
    ((cells as u128) * base + 31) / 32
}

/// A segment the lane itself creates: lanes stay within `FLOW_ANIM_CELLS`
/// and last at most one whole-lane move or turn.
pub open spec fn seg_wf(seg: FlowAnimSegment) -> bool {
    seg.start_cells <= FLOW_ANIM_CELLS && seg.end_cells <= FLOW_ANIM_CELLS && seg.started_ms
        <= seg.ends_ms && seg.ends_ms - seg.started_ms <= 125
}

pub open spec fn queue_wf(q: Seq<FlowAnimSegment>) -> bool {
    forall|i: int| 0 <= i < q.len() ==> seg_wf(#[trigger] q[i])
}

pub proof fn lemma_wf_lit_ok(seg: FlowAnimSegment, now_ms: u128)
    requires
        seg_wf(seg),
    ensures
        lit_count_ok(seg, now_ms),
{
    if seg.started_ms < now_ms < seg.ends_ms {
        assert(abs_diff(seg.end_cells, seg.start_cells) <= 32);
        assert((now_ms - seg.started_ms) <= 125);
        assert(abs_diff(seg.end_cells, seg.start_cells) * (now_ms - seg.started_ms) <= 32 * 125)
            by (nonlinear_arith)
            requires
                abs_diff(seg.end_cells, seg.start_cells) <= 32,
                (now_ms - seg.started_ms) <= 125,
        ;
    }
}

/// The queue without its leading segments that have ended by `now_ms`.
pub open spec fn pruned(q: Seq<FlowAnimSegment>, now_ms: u128) -> Seq<FlowAnimSegment>
    decreases q.len(),
{
    if q.len() > 0 && q[0].ends_ms <= now_ms {
        pruned(q.drop_first(), now_ms)
    } else {
        q
    }
}

proof fn lemma_pruned_skip(q: Seq<FlowAnimSegment>, now_ms: u128, k: int)
    requires
        0 <= k <= q.len(),
        forall|j: int| 0 <= j < k ==> (#[trigger] q[j]).ends_ms <= now_ms,
        k == q.len() || q[k].ends_ms > now_ms,
    ensures
        pruned(q, now_ms) == q.skip(k),
    decreases k,
{
    if k > 0 {
        lemma_pruned_skip(q.drop_first(), now_ms, k - 1);
        assert(q.drop_first().skip(k - 1) =~= q.skip(k));
    } else {
        assert(q.skip(0) =~= q);
    }
}

pub fn prune_finished_segments(queue: &mut VecDeque<FlowAnimSegment>, now_ms: u128)
    ensures
        final(queue)@ == pruned(old(queue)@, now_ms),
{
    let ghost q0 = queue@;
    let ghost mut k: int = 0;
    assert(q0.skip(0) =~= q0);
    while queue.len() > 0 && queue[0].ends_ms <= now_ms
        invariant
            0 <= k <= q0.len(),
            queue@ == q0.skip(k),
            forall|j: int| 0 <= j < k ==> (#[trigger] q0[j]).ends_ms <= now_ms,
        decreases queue@.len(),
    {
        assert(q0[k].ends_ms <= now_ms);
        queue.pop_front();
        proof {
            assert(q0.skip(k).drop_first() =~= q0.skip(k + 1));
            k = k + 1;
        }
    }
    proof {
        lemma_pruned_skip(q0, now_ms, k);
    }
}

/// The segment playing at `now_ms`, else the first one.
pub open spec fn current_segment(q: Seq<FlowAnimSegment>, now_ms: u128) -> Option<FlowAnimSegment> {
    if exists|i: int| 0 <= i < q.len() && (#[trigger] q[i]).started_ms <= now_ms && now_ms < q[i].ends_ms {
        let i = choose|i: int|
            0 <= i < q.len() && (#[trigger] q[i]).started_ms <= now_ms && now_ms < q[i].ends_ms
                && forall|j: int|
                0 <= j < i ==> !((#[trigger] q[j]).started_ms <= now_ms && now_ms < q[j].ends_ms);
        Some(q[i])
    } else if q.len() > 0 {
        Some(q[0])
    } else {
        None
    }
}

pub fn current_queue_segment(queue: &VecDeque<FlowAnimSegment>, now_ms: u128) -> (r: Option<
    FlowAnimSegment,
>)
    ensures
        r == current_segment(queue@, now_ms),
        r matches Some(s) ==> queue@.contains(s),
{
    let mut i: usize = 0;
    while i < queue.len()
        invariant
            i <= queue@.len(),
            forall|j: int|
                0 <= j < i ==> !((#[trigger] queue@[j]).started_ms <= now_ms && now_ms
                    < queue@[j].ends_ms),
        decreases queue@.len() - i,
    {
        let seg = queue[i];
        if seg.started_ms <= now_ms && now_ms < seg.ends_ms {
            proof {
                let q = queue@;
                let w = choose|w: int|
                    0 <= w < q.len() && (#[trigger] q[w]).started_ms <= now_ms && now_ms
                        < q[w].ends_ms && forall|j: int|
                        0 <= j < w ==> !((#[trigger] q[j]).started_ms <= now_ms && now_ms
                            < q[j].ends_ms);
                assert(w == i) by {
                    if w < i {
                    } else if w > i {
                        assert(!(q[i as int].started_ms <= now_ms && now_ms < q[i as int].ends_ms));
                    }
                }
            }
            return Some(seg);
        }
        i += 1;
    }
    if queue.len() > 0 {
        Some(queue[0])
    } else {
        None
    }
}

/// The queue after a request or response of direction `direction` at
/// `now_ms`: finished segments are dropped; if something was playing in
/// the other direction and had cells lit, a turn takes them back to zero
/// first; then a move fills the lane, starting from the lit cells when the
/// direction is the same.
pub open spec fn enqueued(
    q: Seq<FlowAnimSegment>,
    direction: FlowDirection,
    now_ms: u128,
    step_ms: u64,
) -> Seq<FlowAnimSegment> {
    let p = pruned(q, now_ms);
    let cur = current_segment(p, now_ms);
    let cells: nat = match cur {
        Some(s) => if lit_count(s, now_ms) < FLOW_ANIM_CELLS {
            lit_count(s, now_ms)
        } else {
            FLOW_ANIM_CELLS as nat
        },
        None => 0,
    };
    let same = cur matches Some(s) && s.direction == direction;
    let turn = cur matches Some(s) && s.direction != direction && cells > 0;
    let move_start: nat = if same {
        cells
    } else {
        0
    };
    let move_from: int = if turn {
        now_ms + FLOW_TURN_TRANSITION_MS
    } else {
        now_ms as int
    };
    let turn_seg = FlowAnimSegment {
        kind: FlowAnimKind::Turn,
        direction: cur->Some_0.direction,
        started_ms: now_ms,
        ends_ms: (now_ms + FLOW_TURN_TRANSITION_MS) as u128,
        step_ms,
        start_cells: cells as usize,
        end_cells: 0,
    };
    let dur = move_duration(direction, move_start as usize, FLOW_ANIM_CELLS);
    let move_seg = FlowAnimSegment {
        kind: FlowAnimKind::Move,
        direction,
        started_ms: move_from as u128,
        ends_ms: (move_from + dur) as u128,
        step_ms,
        start_cells: move_start as usize,
        end_cells: FLOW_ANIM_CELLS,
    };
    (if turn {
        seq![turn_seg]
    } else {
        seq![]
    }) + (if dur > 0 {
        seq![move_seg]
    } else {
        seq![]
    })
}

/// Clock readings far enough below `u128::MAX` for the animation and
/// status deadlines computed from them.
pub open spec fn now_ok(now_ms: u128) -> bool {
    now_ms + FLOW_BOOTSTRAP_STATUS_CLOSE_DELAY_MS <= u128::MAX
}

proof fn lemma_pruned_sub(q: Seq<FlowAnimSegment>, now_ms: u128)
    ensures
        forall|i: int| 0 <= i < pruned(q, now_ms).len() ==> q.contains(#[trigger] pruned(q, now_ms)[i]),
    decreases q.len(),
{
    if q.len() > 0 && q[0].ends_ms <= now_ms {
        lemma_pruned_sub(q.drop_first(), now_ms);
        assert forall|i: int| 0 <= i < pruned(q, now_ms).len() implies q.contains(
            #[trigger] pruned(q, now_ms)[i],
        ) by {
            let x = pruned(q, now_ms)[i];
            assert(pruned(q, now_ms) == pruned(q.drop_first(), now_ms));
            assert(x == pruned(q.drop_first(), now_ms)[i]);
            assert(q.drop_first().contains(x));
            let j = choose|j: int| 0 <= j < q.drop_first().len() && q.drop_first()[j] == x;
            assert(q[j + 1] == x);
        }
    }
}

pub fn enqueue_flow_segment(
    queue: &mut VecDeque<FlowAnimSegment>,
    direction: FlowDirection,
    now_ms: u128,
    step_ms: u64,
)
    requires
        queue_wf(old(queue)@),
        now_ok(now_ms),
    ensures
        final(queue)@ == enqueued(old(queue)@, direction, now_ms, step_ms),
        queue_wf(final(queue)@),
{
    let ghost q0 = queue@;
    prune_finished_segments(queue, now_ms);
    proof {
        lemma_pruned_sub(q0, now_ms);
    }
    let current_seg = current_queue_segment(queue, now_ms);
    let mut cells: usize = 0;
    let mut has_dir = false;
    let mut current_direction = FlowDirection::Forward;
    match current_seg {
        Some(seg) => {
            proof {
                let j = choose|j: int| 0 <= j < queue@.len() && queue@[j] == seg;
                assert(q0.contains(queue@[j]));
                let k = choose|k: int| 0 <= k < q0.len() && q0[k] == seg;
                assert(seg_wf(q0[k]));
                lemma_wf_lit_ok(seg, now_ms);
            }
            let lit = flow_anim_lit_count(seg, now_ms);
            cells = if lit < FLOW_ANIM_CELLS {
                lit
            } else {
                FLOW_ANIM_CELLS
            };
            has_dir = true;
            current_direction = seg.direction;
        },
        None => {},
    }
    queue.clear();
    let mut start_ms = now_ms;
    let mut move_start_cells: usize = 0;
    let ghost mut turn = false;
    if has_dir {
        if current_direction == direction {
            move_start_cells = cells;
        } else if cells > 0 {
            let turn_end = start_ms + FLOW_TURN_TRANSITION_MS as u128;
            queue.push_back(
                FlowAnimSegment {
                    kind: FlowAnimKind::Turn,
                    direction: current_direction,
                    started_ms: start_ms,
                    ends_ms: turn_end,
                    step_ms,
                    start_cells: cells,
                    end_cells: 0,
                },
            );
            start_ms = turn_end;
            proof {
                turn = true;
            }
        }
    }
    let dur = move_segment_duration_ms(direction, step_ms, move_start_cells, FLOW_ANIM_CELLS);
    assert(dur <= 125);
    let move_end = start_ms + dur;
    if move_end > start_ms {
        queue.push_back(
            FlowAnimSegment {
                kind: FlowAnimKind::Move,
                direction,
                started_ms: start_ms,
                ends_ms: move_end,
                step_ms,
                start_cells: move_start_cells,
                end_cells: FLOW_ANIM_CELLS,
            },
        );
    }
    assert(queue@ =~= enqueued(q0, direction, now_ms, step_ms));
}

// ---------------------------------------------------------------------------
// Connector bootstrap progress
// ---------------------------------------------------------------------------

#[derive(Clone, Copy)]
pub struct FlowBootstrapStep {
    pub event: &'static str,
    pub label: &'static str,
}

#[derive(Clone)]
pub struct FlowBootstrapPhase {
    pub title: &'static str,
    pub steps: Vec<FlowBootstrapStep>,
}

/// Number of steps of each bootstrap phase.
pub open spec fn phase_len(p: int) -> nat {
    if p == 0 {
        4
    } else if p == 1 {
        4
    } else if p == 2 {
        10
    } else if p == 3 {
        11
    } else if p == 4 {
        4
    } else {
        0
    }
}

/// Index of the first step of each phase in the whole sequence.
pub open spec fn phase_start(p: int) -> nat
    decreases p,
{
    if p <= 0 {
        0
    } else {
        phase_start(p - 1) + phase_len(p - 1)
    }
}

/// The widget resources read while loading widgets.
pub open spec fn widget_event(w: int) -> Seq<char> {
    if w == 0 {
        "resources/read:run_command"@
    } else if w == 1 {
        "resources/read:catdesk_instruction"@
    } else if w == 2 {
        "resources/read:read"@
    } else if w == 3 {
        "resources/read:search"@
    } else if w == 4 {
        "resources/read:write"@
    } else if w == 5 {
        "resources/read:edit"@
    } else {
        "resources/read:delete"@
    }
}

pub open spec fn widget_label(w: int) -> Seq<char> {
    if w == 0 {
        "run_command"@
    } else if w == 1 {
        "instruction"@
    } else if w == 2 {
        "read"@
    } else if w == 3 {
        "search"@
    } else if w == 4 {
        "write"@
    } else if w == 5 {
        "edit"@
    } else {
        "delete"@
    }
}

/// The event that step `j` of phase `p` waits for. Every phase starts with
/// two `initialize` exchanges and `notifications/initialized`; phases 1 and
/// 4 list tools, phases 2 and 5 list resources, and phases 3 and 4 read the
/// seven widgets.
pub open spec fn phase_step_event(p: int, j: int) -> Seq<char> {
    if j == 0 || j == 1 {
        "initialize"@
    } else if j == 2 {
        "notifications/initialized"@
    } else if p == 0 || (p == 3 && j == 3) {
        "tools/list"@
    } else if p == 1 || p == 4 {
        "resources/list"@
    } else if p == 2 {
        widget_event(j - 3)
    } else {
        widget_event(j - 4)
    }
}

pub open spec fn phase_step_label(p: int, j: int) -> Seq<char> {
    if j == 0 {
        "initialize#1"@
    } else if j == 1 {
        "initialize#2"@
    } else if j == 2 {
        "initialized"@
    } else if p == 0 || (p == 3 && j == 3) {
        "tools/list"@
    } else if p == 1 || p == 4 {
        "resources/list"@
    } else if p == 2 {
        widget_label(j - 3)
    } else {
        widget_label(j - 4)
    }
}

pub open spec fn phase_title(p: int) -> Seq<char> {
    if p == 0 {
        "Checking tools"@
    } else if p == 1 {
        "Checking resources"@
    } else if p == 2 {
        "Loading widgets"@
    } else if p == 3 {
        "Refreshing widgets"@
    } else {
        "Final resource check"@
    }
}

/// Phases shown: all five, or only the first two when the web widget is
/// disabled.
pub open spec fn phases_shown(mode: ShowDetailMode) -> int {
    if mode == ShowDetailMode::Disable {
        2
    } else {
        5
    }
}

pub open spec fn bootstrap_total(mode: ShowDetailMode) -> nat {
    phase_start(phases_shown(mode))
}

/// The phase holding step `index` of the whole sequence.
pub open spec fn phase_of(index: int) -> int {
    if index < 4 {
        0
    } else if index < 8 {
        1
    } else if index < 18 {
        2
    } else if index < 29 {
        3
    } else {
        4
    }
}

/// The event of step `index` of the whole sequence.
pub open spec fn bootstrap_event(index: int) -> Seq<char> {
    phase_step_event(phase_of(index), index - phase_start(phase_of(index)))
}

pub open spec fn bootstrap_label(index: int) -> Seq<char> {
    phase_step_label(phase_of(index), index - phase_start(phase_of(index)))
}

pub proof fn lemma_phase_starts()
    ensures
        phase_start(0) == 0,
        phase_start(1) == 4,
        phase_start(2) == 8,
        phase_start(3) == 18,
        phase_start(4) == 29,
        phase_start(5) == 33,
{
    reveal_with_fuel(phase_start, 6);
}

fn widget_strs(w: usize) -> (r: (&'static str, &'static str))
    requires
        w < 7,
    ensures
        r.0@ == widget_event(w as int),
        r.1@ == widget_label(w as int),
{
    if w == 0 {
        ("resources/read:run_command", "run_command")
    } else if w == 1 {
        ("resources/read:catdesk_instruction", "instruction")
    } else if w == 2 {
        ("resources/read:read", "read")
    } else if w == 3 {
        ("resources/read:search", "search")
    } else if w == 4 {
        ("resources/read:write", "write")
    } else if w == 5 {
        ("resources/read:edit", "edit")
    } else {
        ("resources/read:delete", "delete")
    }
}

pub fn phase_step(p: usize, j: usize) -> (r: FlowBootstrapStep)
    requires
        p < 5,
        j < phase_len(p as int),
    ensures
        r.event@ == phase_step_event(p as int, j as int),
        r.label@ == phase_step_label(p as int, j as int),
{
    if j == 0 {
        FlowBootstrapStep { event: "initialize", label: "initialize#1" }
    } else if j == 1 {
        FlowBootstrapStep { event: "initialize", label: "initialize#2" }
    } else if j == 2 {
        FlowBootstrapStep { event: "notifications/initialized", label: "initialized" }
    } else if p == 0 || (p == 3 && j == 3) {
        FlowBootstrapStep { event: "tools/list", label: "tools/list" }
    } else if p == 1 || p == 4 {
        FlowBootstrapStep { event: "resources/list", label: "resources/list" }
    } else if p == 2 {
        let (e, l) = widget_strs(j - 3);
        FlowBootstrapStep { event: e, label: l }
    } else {
        let (e, l) = widget_strs(j - 4);
        FlowBootstrapStep { event: e, label: l }
    }
}

pub fn phase_len_exec(p: usize) -> (n: usize)
    requires
        p < 5,
    ensures
        n == phase_len(p as int),
{
    if p == 2 {
        10
    } else if p == 3 {
        11
    } else {
        4
    }
}

/// The title of phase `p`.
pub fn phase_title_str(p: usize) -> (s: &'static str)
    requires
        p < 5,
    ensures
        s@ == phase_title(p as int),
{
    if p == 0 {
        "Checking tools"
    } else if p == 1 {
        "Checking resources"
    } else if p == 2 {
        "Loading widgets"
    } else if p == 3 {
        "Refreshing widgets"
    } else {
        "Final resource check"
    }
}

/// The five bootstrap phases, with their titles and steps.
pub fn flow_bootstrap_phases() -> (v: Vec<FlowBootstrapPhase>)
    ensures
        v@.len() == 5,
        forall|p: int|
            0 <= p < 5 ==> (#[trigger] v@[p]).title@ == phase_title(p) && v@[p].steps@.len()
                == phase_len(p) && forall|j: int|
                0 <= j < phase_len(p) ==> (#[trigger] v@[p].steps@[j]).event@ == phase_step_event(
                    p,
                    j,
                ) && v@[p].steps@[j].label@ == phase_step_label(p, j),
{
    let mut v: Vec<FlowBootstrapPhase> = Vec::new();
    let mut p: usize = 0;
    while p < 5
        invariant
            p <= 5,
            v@.len() == p,
            forall|q: int|
                0 <= q < p ==> (#[trigger] v@[q]).title@ == phase_title(q) && v@[q].steps@.len()
                    == phase_len(q) && forall|j: int|
                    0 <= j < phase_len(q) ==> (#[trigger] v@[q].steps@[j]).event@
                        == phase_step_event(q, j) && v@[q].steps@[j].label@ == phase_step_label(q, j),
        decreases 5 - p,
    {
        let n = phase_len_exec(p);
        let mut steps: Vec<FlowBootstrapStep> = Vec::new();
        let mut j: usize = 0;
        while j < n
            invariant
                p < 5,
                n == phase_len(p as int),
                j <= n,
                steps@.len() == j,
                forall|k: int|
                    0 <= k < j ==> (#[trigger] steps@[k]).event@ == phase_step_event(p as int, k)
                        && steps@[k].label@ == phase_step_label(p as int, k),
            decreases n - j,
        {
            steps.push(phase_step(p, j));
            j += 1;
        }
        v.push(FlowBootstrapPhase { title: phase_title_str(p), steps });
        p += 1;
    }
    v
}

/// Total number of bootstrap steps shown for `mode`.
pub fn flow_bootstrap_steps_total(mode: ShowDetailMode) -> (n: usize)
    ensures
        n == bootstrap_total(mode),
{
    proof {
        lemma_phase_starts();
    }
    if mode == ShowDetailMode::Disable {
        8
    } else {
        33
    }
}

/// Step `index` of the whole sequence, when `mode` shows it.
pub fn flow_bootstrap_step(index: usize, mode: ShowDetailMode) -> (r: Option<FlowBootstrapStep>)
    ensures
        match r {
            Some(step) => index < bootstrap_total(mode) && step.event@ == bootstrap_event(
                index as int,
            ) && step.label@ == bootstrap_label(index as int),
            None => index >= bootstrap_total(mode),
        },
{
    proof {
        lemma_phase_starts();
    }
    let total = flow_bootstrap_steps_total(mode);
    if index >= total {
        return None;
    }
    let (p, start): (usize, usize) = if index < 4 {
        (0, 0)
    } else if index < 8 {
        (1, 4)
    } else if index < 18 {
        (2, 8)
    } else if index < 29 {
        (3, 18)
    } else {
        (4, 29)
    };
    Some(phase_step(p, index - start))
}

/// Whether the events start the bootstrap status display.
pub fn events_start_bootstrap_status(events: &[String]) -> (b: bool)
    ensures
        b == exists|i: int| 0 <= i < events@.len() && (#[trigger] events@[i])@ == "initialize"@,
{
    let init = chars_of("initialize");
    let mut i: usize = 0;
    while i < events.len()
        invariant
            i <= events@.len(),
            init@ == "initialize"@,
            forall|k: int| 0 <= k < i ==> (#[trigger] events@[k])@ != "initialize"@,
        decreases events.len() - i,
    {
        if crate::text::chars_eq(chars_of(events[i].as_str()).as_slice(), init.as_slice()) {
            return true;
        }
        i += 1;
    }
    false
}

/// An event of some bootstrap step.
pub open spec fn is_bootstrap_event(e: Seq<char>) -> bool {
    exists|i: int| 0 <= i < 33 && #[trigger] bootstrap_event(i) == e
}

pub fn is_bootstrap_status_event(event: &str) -> (b: bool)
    ensures
        b == is_bootstrap_event(event@),
{
    proof {
        lemma_phase_starts();
    }
    let e = chars_of(event);
    let mut i: usize = 0;
    while i < 33
        invariant
            i <= 33,
            e@ == event@,
            forall|k: int| 0 <= k < i ==> #[trigger] bootstrap_event(k) != e@,
        decreases 33 - i,
    {
        proof {
            lemma_phase_starts();
        }
        let step = flow_bootstrap_step(i, ShowDetailMode::Expanded);
        match step {
            Some(st) => {
                if crate::text::chars_eq(chars_of(st.event).as_slice(), e.as_slice()) {
                    return true;
                }
            },
            None => {},
        }
        i += 1;
    }
    false
}

pub fn events_are_bootstrap_status_events(events: &[String]) -> (b: bool)
    ensures
        b == forall|i: int| 0 <= i < events@.len() ==> is_bootstrap_event(#[trigger] events@[i]@),
{
    let mut i: usize = 0;
    while i < events.len()
        invariant
            i <= events@.len(),
            forall|k: int| 0 <= k < i ==> is_bootstrap_event(#[trigger] events@[k]@),
        decreases events.len() - i,
    {
        if !is_bootstrap_status_event(events[i].as_str()) {
            return false;
        }
        i += 1;
    }
    true
}

/// Bootstrap progress: completed steps, steps waiting for their response,
/// and whether reading the current batch of events has stopped.
pub type BootProgress = (nat, Seq<usize>, bool);

/// Progress after one event. A request advances to the next step when it
/// is that step's event (`notifications/initialized` completes at once,
/// others wait for a response); a response completes the oldest waiting
/// step when it matches it. Running past the last step, or a response with
/// nothing waiting, stops the batch.
pub open spec fn advance_one(
    s: BootProgress,
    event: Seq<char>,
    direction: FlowDirection,
    mode: ShowDetailMode,
) -> BootProgress {
    if s.2 {
        s
    } else {
        match direction {
            FlowDirection::Forward => {
                let next = s.0 + s.1.len();
                if next >= bootstrap_total(mode) {
                    (s.0, s.1, true)
                } else if bootstrap_event(next as int) != event {
                    s
                } else if event == "notifications/initialized"@ {
                    ((next + 1) as nat, s.1, false)
                } else {
                    (s.0, s.1.push(next as usize), false)
                }
            },
            FlowDirection::Backward => {
                if s.1.len() == 0 {
                    (s.0, s.1, true)
                } else if s.1[0] >= bootstrap_total(mode) {
                    (s.0, seq![], true)
                } else if bootstrap_event(s.1[0] as int) == event {
                    ((s.1[0] + 1) as nat, s.1.drop_first(), false)
                } else {
                    s
                }
            },
        }
    }
}

pub open spec fn advance(
    s: BootProgress,
    events: Seq<Seq<char>>,
    direction: FlowDirection,
    mode: ShowDetailMode,
) -> BootProgress
    decreases events.len(),
{
    if events.len() == 0 {
        s
    } else {
        advance_one(advance(s, events.drop_last(), direction, mode), events.last(), direction, mode)
    }
}

/// Advances the bootstrap progress over a batch of events.
pub fn advance_bootstrap_progress(
    completed_steps: &mut usize,
    pending_steps: &mut VecDeque<usize>,
    events: &[String],
    direction: FlowDirection,
    mode: ShowDetailMode,
)
    ensures
        ({
            let r = advance(
                (*old(completed_steps) as nat, old(pending_steps)@, false),
                string_views(events@),
                direction,
                mode,
            );
            *final(completed_steps) == r.0 && final(pending_steps)@ == r.1
        }),
{
    let ghost evs = string_views(events@);
    let ghost init: BootProgress = (*completed_steps as nat, pending_steps@, false);
    let total = flow_bootstrap_steps_total(mode);
    let mut stopped = false;
    let mut i: usize = 0;
    assert(evs.take(0) =~= Seq::<Seq<char>>::empty());
    while i < events.len()
        invariant
            i <= events@.len(),
            evs == string_views(events@),
            total == bootstrap_total(mode),
            advance(init, evs.take(i as int), direction, mode) == (
                *completed_steps as nat,
                pending_steps@,
                stopped,
            ),
        decreases events.len() - i,
    {
        let ghost pre = evs.take(i as int);
        assert(evs.take(i + 1).drop_last() =~= pre);
        assert(evs.take(i + 1).last() == events@[i as int]@);
        let ev = chars_of(events[i].as_str());
        if !stopped {
            match direction {
                FlowDirection::Forward => {
                    let next_index = completed_steps.saturating_add(pending_steps.len());
                    match flow_bootstrap_step(next_index, mode) {
                        None => {
                            stopped = true;
                        },
                        Some(step) => {
                            let se = chars_of(step.event);
                            if crate::text::chars_eq(se.as_slice(), ev.as_slice()) {
                                if crate::text::chars_eq(
                                    se.as_slice(),
                                    chars_of("notifications/initialized").as_slice(),
                                ) {
                                    *completed_steps = next_index + 1;
                                } else {
                                    pending_steps.push_back(next_index);
                                }
                            }
                        },
                    }
                },
                FlowDirection::Backward => {
                    if pending_steps.len() == 0 {
                        stopped = true;
                    } else {
                        let pending_index = pending_steps[0];
                        match flow_bootstrap_step(pending_index, mode) {
                            None => {
                                pending_steps.clear();
                                stopped = true;
                            },
                            Some(step) => {
                                if crate::text::chars_eq(chars_of(step.event).as_slice(), ev.as_slice()) {
                                    pending_steps.pop_front();
                                    *completed_steps = pending_index + 1;
                                }
                            },
                        }
                    }
                },
            }
        }
        proof {
            if direction == FlowDirection::Backward && !stopped {
            }
        }
        assert(advance(init, evs.take(i + 1), direction, mode) =~= (
            *completed_steps as nat,
            pending_steps@,
            stopped,
        ));
        i += 1;
    }
    assert(evs.take(events.len() as int) =~= evs);
}

// ---------------------------------------------------------------------------
// Flow lanes
// ---------------------------------------------------------------------------

/// MCP request flow rendered as a single timeline line.
pub struct FlowLane {
    pub flow_id: String,
    pub short_id: String,
    pub events: Vec<String>,
    pub bootstrap_status_active: bool,
    pub bootstrap_completed_steps: usize,
    pub bootstrap_pending_steps: VecDeque<usize>,
    pub bootstrap_status_close_deadline_ms: Option<u128>,
    pub anim_queue: VecDeque<FlowAnimSegment>,
    pub last_direction: FlowDirection,
    pub closing_started_ms: Option<u128>,
    pub closing_step_ms: u64,
}

/// What a lane holds, as values.
pub struct LaneView {
    pub flow_id: Seq<char>,
    pub short_id: Seq<char>,
    pub events: Seq<Seq<char>>,
    pub active: bool,
    pub completed: usize,
    pub pending: Seq<usize>,
    pub deadline: Option<u128>,
    pub queue: Seq<FlowAnimSegment>,
    pub last_direction: FlowDirection,
    pub closing_started: Option<u128>,
    pub closing_step: u64,
}

impl View for FlowLane {
    type V = LaneView;

    open spec fn view(&self) -> LaneView {
        LaneView {
            flow_id: self.flow_id@,
            short_id: self.short_id@,
            events: self.events@.map_values(|e: String| e@),
            active: self.bootstrap_status_active,
            completed: self.bootstrap_completed_steps,
            pending: self.bootstrap_pending_steps@,
            deadline: self.bootstrap_status_close_deadline_ms,
            queue: self.anim_queue@,
            last_direction: self.last_direction,
            closing_started: self.closing_started_ms,
            closing_step: self.closing_step_ms,
        }
    }
}

pub struct FlowBootstrapProgress {
    pub completed_steps: usize,
    pub pending_steps: VecDeque<usize>,
}

impl Default for FlowBootstrapProgress {
    fn default() -> (r: Self)
        ensures
            r.completed_steps == 0,
            r.pending_steps@ == Seq::<usize>::empty(),
    {
        FlowBootstrapProgress { completed_steps: 0, pending_steps: VecDeque::new() }
    }
}

/// Events the UI thread receives from the server.
pub enum ServerUiEvent {
    IncrementRequestCount,
    SetRemoteConnected(bool),
    RecordFlow { flow_id: String, events: Vec<String>, direction: FlowDirection },
    BeginFlowClose { flow_id: String },
    Log { level: &'static str, message: String },
}

/// The last twelve events.
pub open spec fn last12<T>(s: Seq<T>) -> Seq<T> {
    if s.len() > 12 {
        s.skip(s.len() - 12)
    } else {
        s
    }
}

/// The first eight bytes of a flow id (all of it when shorter).
pub open spec fn short_id_of(flow_id: Seq<char>) -> Seq<char> {
    if utf8_len(flow_id) <= 8 {
        flow_id
    } else {
        flow_id.take(choose|k: int| cut_at(flow_id, k, 8))
    }
}

pub proof fn lemma_short_id(flow_id: Seq<char>, s: Seq<char>)
    requires
        short_id_spec(flow_id, s),
    ensures
        s == short_id_of(flow_id),
{
    if utf8_len(flow_id) > 8 {
        let k = choose|k: int| cut_at(flow_id, k, 8) && s == flow_id.take(k);
        let c = choose|k: int| cut_at(flow_id, k, 8);
        lemma_cut_unique(flow_id, k, c, 8);
    }
}

/// Position of the first lane for `id`, or -1.
pub open spec fn find_lane(lanes: Seq<LaneView>, id: Seq<char>) -> int
    decreases lanes.len(),
{
    if lanes.len() == 0 {
        -1
    } else if lanes[0].flow_id == id {
        0
    } else {
        let r = find_lane(lanes.drop_first(), id);
        if r < 0 {
            -1
        } else {
            r + 1
        }
    }
}

pub proof fn lemma_find_lane(lanes: Seq<LaneView>, id: Seq<char>, m: int)
    requires
        0 <= m <= lanes.len(),
        forall|j: int| 0 <= j < m ==> (#[trigger] lanes[j]).flow_id != id,
        m == lanes.len() || lanes[m].flow_id == id,
    ensures
        find_lane(lanes, id) == (if m == lanes.len() {
            -1
        } else {
            m
        }),
    decreases lanes.len(),
{
    if lanes.len() > 0 && m > 0 {
        assert forall|j: int| 0 <= j < m - 1 implies (#[trigger] lanes.drop_first()[j]).flow_id
            != id by {
            assert(lanes.drop_first()[j] == lanes[j + 1]);
        }
        lemma_find_lane(lanes.drop_first(), id, m - 1);
    }
}

pub open spec fn lane_views(flows: Seq<FlowLane>) -> Seq<LaneView> {
    flows.map_values(|l: FlowLane| l@)
}

/// Lanes whose queued segments the lanes themselves created.
pub open spec fn lanes_wf(flows: Seq<FlowLane>) -> bool {
    forall|i: int| 0 <= i < flows.len() ==> queue_wf(#[trigger] flows[i].anim_queue@)
}

/// Bootstrap progress entries kept per flow id.
pub open spec fn progress_keys(p: Seq<(String, FlowBootstrapProgress)>) -> Seq<Seq<char>> {
    p.map_values(|e: (String, FlowBootstrapProgress)| e.0@)
}

/// The progress recorded for `id`: completed steps and waiting steps.
pub open spec fn progress_of(p: Seq<(String, FlowBootstrapProgress)>, id: Seq<char>) -> Option<
    (usize, Seq<usize>),
>
    decreases p.len(),
{
    if p.len() == 0 {
        None
    } else if p[0].0@ == id {
        Some((p[0].1.completed_steps, p[0].1.pending_steps@))
    } else {
        progress_of(p.drop_first(), id)
    }
}

/// The progress a flow starts from: what was recorded, else nothing.
pub open spec fn prior_progress(p: Seq<(String, FlowBootstrapProgress)>, id: Seq<char>) -> BootProgress {
    match progress_of(p, id) {
        Some((c, q)) => (c as nat, q, false),
        None => (0, seq![], false),
    }
}

fn copy_deque(q: &VecDeque<usize>) -> (r: VecDeque<usize>)
    ensures
        r@ == q@,
{
    let mut r: VecDeque<usize> = VecDeque::new();
    let mut i: usize = 0;
    while i < q.len()
        invariant
            i <= q@.len(),
            r@ == q@.take(i as int),
        decreases q@.len() - i,
    {
        r.push_back(q[i]);
        assert(q@.take(i + 1) =~= q@.take(i as int).push(q@[i as int]));
        i += 1;
    }
    assert(q@.take(q@.len() as int) =~= q@);
    r
}

pub fn copy_string(s: &String) -> (r: String)
    ensures
        r@ == s@,
{
    string_of(chars_of(s.as_str()).as_slice())
}

fn progress_lookup(p: &Vec<(String, FlowBootstrapProgress)>, id: &str) -> (r: (usize, VecDeque<usize>))
    ensures
        (r.0 as nat, r.1@, false) == prior_progress(p@, id@),
{
    let idc = chars_of(id);
    match progress_position(p, idc.as_slice()) {
        Some(i) => {
            proof {
                lemma_progress_of_index(p@, id@, i as int);
            }
            (p[i].1.completed_steps, copy_deque(&p[i].1.pending_steps))
        },
        None => {
            proof {
                lemma_progress_of_none(p@, id@);
            }
            (0, VecDeque::new())
        },
    }
}

pub proof fn lemma_progress_of_index(p: Seq<(String, FlowBootstrapProgress)>, id: Seq<char>, i: int)
    requires
        0 <= i < p.len(),
        p[i].0@ == id,
        forall|j: int| 0 <= j < i ==> (#[trigger] p[j]).0@ != id,
    ensures
        progress_of(p, id) == Some((p[i].1.completed_steps, p[i].1.pending_steps@)),
    decreases i,
{
    if i > 0 {
        assert forall|j: int| 0 <= j < i - 1 implies (#[trigger] p.drop_first()[j]).0@ != id by {
            assert(p.drop_first()[j] == p[j + 1]);
        }
        lemma_progress_of_index(p.drop_first(), id, i - 1);
    }
}

pub proof fn lemma_progress_of_none(p: Seq<(String, FlowBootstrapProgress)>, id: Seq<char>)
    requires
        forall|j: int| 0 <= j < p.len() ==> (#[trigger] p[j]).0@ != id,
    ensures
        progress_of(p, id) is None,
    decreases p.len(),
{
    if p.len() > 0 {
        assert forall|j: int| 0 <= j < p.len() - 1 implies (#[trigger] p.drop_first()[j]).0@ != id by {
            assert(p.drop_first()[j] == p[j + 1]);
        }
        lemma_progress_of_none(p.drop_first(), id);
    }
}

/// Finds the entry for `id`.
fn progress_position(p: &Vec<(String, FlowBootstrapProgress)>, id: &[char]) -> (r: Option<usize>)
    ensures
        match r {
            Some(i) => i < p@.len() && p@[i as int].0@ == id@ && forall|j: int|
                0 <= j < i ==> (#[trigger] p@[j]).0@ != id@,
            None => forall|j: int| 0 <= j < p@.len() ==> (#[trigger] p@[j]).0@ != id@,
        },
{
    let mut i: usize = 0;
    while i < p.len()
        invariant
            i <= p@.len(),
            forall|j: int| 0 <= j < i ==> (#[trigger] p@[j]).0@ != id@,
        decreases p@.len() - i,
    {
        if crate::text::chars_eq(chars_of(p[i].0.as_str()).as_slice(), id) {
            return Some(i);
        }
        i += 1;
    }
    None
}

/// Records the progress of `id`, replacing what was recorded for it.
fn progress_store(
    p: &mut Vec<(String, FlowBootstrapProgress)>,
    id: &str,
    completed: usize,
    pending: VecDeque<usize>,
)
    requires
        progress_keys(old(p)@).no_duplicates(),
    ensures
        progress_keys(final(p)@).no_duplicates(),
        progress_of(final(p)@, id@) == Some((completed, pending@)),
        forall|k: Seq<char>| k != id@ ==> progress_of(final(p)@, k) == progress_of(old(p)@, k),
{
    let idc = chars_of(id);
    let ghost old_p = p@;
    let entry = (string_of(idc.as_slice()), FlowBootstrapProgress { completed_steps: completed, pending_steps: pending });
    match progress_position(p, idc.as_slice()) {
        Some(i) => {
            p.set(i, entry);
            proof {
                let np = p@;
                assert(np =~= old_p.update(i as int, entry));
                lemma_progress_of_index(np, id@, i as int);
                assert forall|k: Seq<char>| k != id@ implies progress_of(np, k) == progress_of(
                    old_p,
                    k,
                ) by {
                    lemma_progress_update_other(old_p, i as int, entry, k);
                }
                assert(progress_keys(np) =~= progress_keys(old_p).update(i as int, id@));
                assert(progress_keys(old_p)[i as int] == id@);
                assert(progress_keys(np) =~= progress_keys(old_p));
            }
        },
        None => {
            p.push(entry);
            proof {
                let np = p@;
                assert(np =~= old_p.push(entry));
                lemma_progress_of_index(np, id@, old_p.len() as int);
                assert forall|k: Seq<char>| k != id@ implies progress_of(np, k) == progress_of(
                    old_p,
                    k,
                ) by {
                    lemma_progress_push_other(old_p, entry, k);
                }
                assert(progress_keys(np) =~= progress_keys(old_p).push(id@));
                assert forall|a: int, b: int|
                    0 <= a < b < progress_keys(np).len() implies progress_keys(np)[a]
                    != progress_keys(np)[b] by {
                    if b == old_p.len() {
                        assert(old_p[a].0@ != id@);
                    }
                }
            }
        },
    }
}

proof fn lemma_progress_update_other(
    p: Seq<(String, FlowBootstrapProgress)>,
    i: int,
    e: (String, FlowBootstrapProgress),
    k: Seq<char>,
)
    requires
        0 <= i < p.len(),
        p[i].0@ != k,
        e.0@ != k,
    ensures
        progress_of(p.update(i, e), k) == progress_of(p, k),
    decreases p.len(),
{
    if i > 0 {
        lemma_progress_update_other(p.drop_first(), i - 1, e, k);
        assert(p.update(i, e).drop_first() =~= p.drop_first().update(i - 1, e));
    } else {
        assert(p.update(i, e).drop_first() =~= p.drop_first());
    }
}

proof fn lemma_progress_push_other(
    p: Seq<(String, FlowBootstrapProgress)>,
    e: (String, FlowBootstrapProgress),
    k: Seq<char>,
)
    requires
        e.0@ != k,
    ensures
        progress_of(p.push(e), k) == progress_of(p, k),
    decreases p.len(),
{
    if p.len() > 0 {
        lemma_progress_push_other(p.drop_first(), e, k);
        assert(p.push(e).drop_first() =~= p.drop_first().push(e));
    } else {
        assert(progress_of(p.push(e).drop_first(), k) == progress_of(Seq::<(String, FlowBootstrapProgress)>::empty(), k));
        assert(p.push(e).drop_first() =~= Seq::<(String, FlowBootstrapProgress)>::empty());
    }
}

/// Forgets the progress of `id`.
fn progress_forget(p: &mut Vec<(String, FlowBootstrapProgress)>, id: &str)
    requires
        progress_keys(old(p)@).no_duplicates(),
    ensures
        progress_keys(final(p)@).no_duplicates(),
        progress_of(final(p)@, id@) is None,
        forall|k: Seq<char>| k != id@ ==> progress_of(final(p)@, k) == progress_of(old(p)@, k),
{
    let idc = chars_of(id);
    let ghost old_p = p@;
    match progress_position(p, idc.as_slice()) {
        Some(i) => {
            p.remove(i);
            proof {
                let np = p@;
                assert(np =~= old_p.remove(i as int));
                assert(progress_keys(np) =~= progress_keys(old_p).remove(i as int));
                assert forall|j: int| 0 <= j < np.len() implies (#[trigger] np[j]).0@ != id@ by {
                    if j >= i {
                        assert(np[j] == old_p[j + 1]);
                        assert(progress_keys(old_p)[j + 1] != progress_keys(old_p)[i as int]);
                    }
                }
                lemma_progress_of_none(np, id@);
                assert forall|k: Seq<char>| k != id@ implies progress_of(np, k) == progress_of(
                    old_p,
                    k,
                ) by {
                    lemma_progress_remove_other(old_p, i as int, k);
                }
            }
        },
        None => {
            proof {
                lemma_progress_of_none(old_p, id@);
            }
        },
    }
}

proof fn lemma_progress_remove_other(p: Seq<(String, FlowBootstrapProgress)>, i: int, k: Seq<char>)
    requires
        0 <= i < p.len(),
        p[i].0@ != k,
    ensures
        progress_of(p.remove(i), k) == progress_of(p, k),
    decreases p.len(),
{
    if i > 0 {
        lemma_progress_remove_other(p.drop_first(), i - 1, k);
        assert(p.remove(i).drop_first() =~= p.drop_first().remove(i - 1));
    } else {
        assert(p.remove(i) =~= p.drop_first());
    }
}

/// The lane a flow has after recording `events`: moved to the front, with
/// the last twelve events, bootstrap progress advanced, closing cancelled,
/// and a new animation enqueued.
pub open spec fn recorded_lane(
    prev: Option<LaneView>,
    flow_id: Seq<char>,
    events: Seq<Seq<char>>,
    direction: FlowDirection,
    now_ms: u128,
    completed: nat,
    pending: Seq<usize>,
    starts: bool,
    only_bootstrap: bool,
) -> LaneView {
    match prev {
        Some(l) => LaneView {
            flow_id: l.flow_id,
            short_id: l.short_id,
            events: last12(l.events + events),
            active: if starts {
                true
            } else {
                l.active && only_bootstrap
            },
            completed: completed as usize,
            pending,
            deadline: None,
            queue: enqueued(l.queue, direction, now_ms, FLOW_STEP_FIXED_MS),
            last_direction: direction,
            closing_started: None,
            closing_step: 0,
        },
        None => LaneView {
            flow_id,
            short_id: short_id_of(flow_id),
            events: last12(events),
            active: starts,
            completed: completed as usize,
            pending,
            deadline: None,
            queue: enqueued(seq![], direction, now_ms, FLOW_STEP_FIXED_MS),
            last_direction: direction,
            closing_started: None,
            closing_step: 0,
        },
    }
}

// ---------------------------------------------------------------------------
// Lane helpers
// ---------------------------------------------------------------------------

/// Appends copies of `src[from..to]` to `r`.
fn push_copies(r: &mut Vec<String>, src: &[String], from: usize, to: usize)
    requires
        from <= to <= src@.len(),
    ensures
        string_views(final(r)@) == string_views(old(r)@) + string_views(src@).subrange(
            from as int,
            to as int,
        ),
{
    let ghost start = string_views(r@);
    let mut i: usize = from;
    while i < to
        invariant
            from <= i <= to <= src@.len(),
            string_views(r@) == start + string_views(src@).subrange(from as int, i as int),
        decreases to - i,
    {
        let ghost before = r@;
        let item = copy_string(&src[i]);
        r.push(item);
        assert(string_views(r@) =~= string_views(before).push(item@));
        assert(string_views(src@).subrange(from as int, i + 1) =~= string_views(src@).subrange(
            from as int,
            i as int,
        ).push(src@[i as int]@));
        i += 1;
    }
}

/// `kept` followed by `events`, keeping only the last twelve.
fn append_last12(kept: &Vec<String>, events: &[String]) -> (r: Vec<String>)
    ensures
        string_views(r@) == last12(string_views(kept@) + string_views(events@)),
{
    let ghost kv = string_views(kept@);
    let ghost ev = string_views(events@);
    let mut r: Vec<String> = Vec::new();
    if events.len() >= 12 {
        push_copies(&mut r, events, events.len() - 12, events.len());
        assert(string_views(r@) =~= last12(kv + ev));
    } else {
        let room = 12 - events.len();
        let from = if kept.len() > room {
            kept.len() - room
        } else {
            0
        };
        push_copies(&mut r, kept.as_slice(), from, kept.len());
        push_copies(&mut r, events, 0, events.len());
        assert(string_views(r@) =~= last12(kv + ev));
    }
    r
}

/// Position of the first lane of `id`.
fn lane_position(flows: &Vec<FlowLane>, id: &[char]) -> (r: Option<usize>)
    ensures
        match r {
            Some(i) => i < flows@.len() && find_lane(lane_views(flows@), id@) == i,
            None => find_lane(lane_views(flows@), id@) == -1,
        },
{
    let ghost lv = lane_views(flows@);
    let mut i: usize = 0;
    while i < flows.len()
        invariant
            i <= flows@.len(),
            lv == lane_views(flows@),
            forall|j: int| 0 <= j < i ==> (#[trigger] lv[j]).flow_id != id@,
        decreases flows@.len() - i,
    {
        if crate::text::chars_eq(chars_of(flows[i].flow_id.as_str()).as_slice(), id) {
            proof {
                lemma_find_lane(lv, id@, i as int);
            }
            return Some(i);
        }
        i += 1;
    }
    proof {
        lemma_find_lane(lv, id@, lv.len() as int);
    }
    None
}

/// The lanes after recording `events` of flow `id`: its lane, updated or
/// new, goes to the front; the other lanes keep their order.
pub open spec fn lanes_after_record(
    lanes: Seq<LaneView>,
    id: Seq<char>,
    events: Seq<Seq<char>>,
    direction: FlowDirection,
    now_ms: u128,
    completed: nat,
    pending: Seq<usize>,
) -> Seq<LaneView> {
    let starts = exists|i: int| 0 <= i < events.len() && events[i] == "initialize"@;
    let only = forall|i: int| 0 <= i < events.len() ==> is_bootstrap_event(#[trigger] events[i]);
    let idx = find_lane(lanes, id);
    if idx >= 0 {
        seq![recorded_lane(Some(lanes[idx]), id, events, direction, now_ms, completed, pending, starts, only)]
            + lanes.remove(idx)
    } else {
        seq![recorded_lane(None, id, events, direction, now_ms, completed, pending, starts, only)] + lanes
    }
}

/// A lane after one refresh at `now_ms`: finished animation segments are
/// dropped; a bootstrap status that is complete, not closing and no longer
/// animating gets a close deadline three seconds away and switches off once
/// it has passed; any other lane has no deadline.
pub open spec fn lane_ticked(l: LaneView, now_ms: u128, total: nat) -> LaneView {
    let q = pruned(l.queue, now_ms);
    if !l.active {
        LaneView { queue: q, deadline: None, ..l }
    } else if l.closing_started is None && l.completed >= total && l.pending.len() == 0 {
        if q.len() == 0 {
            match l.deadline {
                Some(d) => if now_ms >= d {
                    LaneView { queue: q, active: false, deadline: None, ..l }
                } else {
                    LaneView { queue: q, ..l }
                },
                None => LaneView {
                    queue: q,
                    deadline: Some((now_ms + FLOW_BOOTSTRAP_STATUS_CLOSE_DELAY_MS) as u128),
                    ..l
                },
            }
        } else {
            LaneView { queue: q, deadline: None, ..l }
        }
    } else {
        LaneView { queue: q, deadline: None, ..l }
    }
}

/// How long a closed lane stays: three passes over the lane at its step.
pub open spec fn close_ttl(step_ms: u64) -> nat {
    (FLOW_LINK_CELLS * FLOW_CLOSE_PRUNE_MULTIPLIER) as nat * (if step_ms == 0 {
        1
    } else {
        step_ms as nat
    })
}

/// A lane is kept unless it is closing and its time is up.
pub open spec fn lane_alive(l: LaneView, now_ms: u128) -> bool {
    match l.closing_started {
        None => true,
        Some(c) => (if now_ms >= c {
            now_ms - c
        } else {
            0
        }) < close_ttl(l.closing_step),
    }
}

/// The lanes after a refresh: each ticked, the expired closing ones removed.
pub open spec fn lanes_after_prune(lanes: Seq<LaneView>, now_ms: u128, total: nat) -> Seq<LaneView>
    decreases lanes.len(),
{
    if lanes.len() == 0 {
        seq![]
    } else {
        let rest = lanes_after_prune(lanes.drop_last(), now_ms, total);
        let l = lane_ticked(lanes.last(), now_ms, total);
        if lane_alive(l, now_ms) {
            rest.push(l)
        } else {
            rest
        }
    }
}

/// The lane after a close begins at `now_ms`: unless already closing, it
/// records the start and the step of its last animation segment (at least
/// one millisecond; the fixed step without one), and stops animating and
/// showing the bootstrap status.
pub open spec fn lane_closed(l: LaneView, now_ms: u128) -> LaneView {
    if l.closing_started is Some {
        l
    } else {
        LaneView {
            closing_started: Some(now_ms),
            closing_step: if l.queue.len() > 0 {
                if l.queue.last().step_ms == 0 {
                    1
                } else {
                    l.queue.last().step_ms
                }
            } else {
                FLOW_STEP_FIXED_MS
            },
            queue: seq![],
            active: false,
            deadline: None,
            ..l
        }
    }
}

/// The flow ids of the lanes, in order.
pub open spec fn lane_ids(lanes: Seq<LaneView>) -> Seq<Seq<char>> {
    lanes.map_values(|l: LaneView| l.flow_id)
}

/// `find_lane` finds the first lane of the id, and -1 means none.
pub proof fn lemma_find_lane_found(lanes: Seq<LaneView>, id: Seq<char>)
    ensures
        -1 <= find_lane(lanes, id) < lanes.len(),
        find_lane(lanes, id) >= 0 ==> lanes[find_lane(lanes, id)].flow_id == id,
        find_lane(lanes, id) == -1 ==> forall|j: int| 0 <= j < lanes.len() ==> (#[trigger] lanes[j]).flow_id != id,
    decreases lanes.len(),
{
    if lanes.len() > 0 && lanes[0].flow_id != id {
        lemma_find_lane_found(lanes.drop_first(), id);
        assert forall|j: int| 0 <= j < lanes.len() && find_lane(lanes, id) == -1 implies (
        #[trigger] lanes[j]).flow_id != id by {
            if j > 0 {
                assert(lanes[j] == lanes.drop_first()[j - 1]);
            }
        }
    }
}

pub open spec fn lanes_events_bounded(flows: Seq<FlowLane>) -> bool {
    forall|i: int| 0 <= i < flows.len() ==> (#[trigger] flows[i]).events@.len() <= 12
}

/// `HH:MM:SS` of the time of day, in UTC, of `secs` since the epoch.
pub open spec fn hms(secs: nat) -> Seq<char> {
    two_digits((secs % 86400) / 3600) + ":"@ + two_digits((secs % 3600) / 60) + ":"@ + two_digits(
        secs % 60,
    )
}

pub open spec fn two_digits(n: nat) -> Seq<char> {
    seq![crate::number::digit_char(n / 10), crate::number::digit_char(n % 10)]
}

fn two_digits_exec(n: u64) -> (s: String)
    requires
        n < 100,
    ensures
        s@ == two_digits(n as nat),
{
    let a: u8 = ('0' as u8) + ((n / 10) as u8);
    let b: u8 = ('0' as u8) + ((n % 10) as u8);
    let mut s = String::new();
    crate::text::push_char(&mut s, a as char);
    crate::text::push_char(&mut s, b as char);
    s
}

/// `HH:MM:SS` for `secs` seconds since the epoch.
pub fn hms_text(secs: u128) -> (s: String)
    ensures
        s@ == hms(secs as nat),
{
    let mut s = two_digits_exec(((secs % 86400) / 3600) as u64);
    push_str(&mut s, ":");
    let m = two_digits_exec(((secs % 3600) / 60) as u64);
    push_str(&mut s, m.as_str());
    push_str(&mut s, ":");
    let t = two_digits_exec((secs % 60) as u64);
    push_str(&mut s, t.as_str());
    proof {
        reveal_strlit(":");
    }
    s
}

/// The current time of day, `HH:MM:SS`.
pub fn now_hms() -> (s: String)
    ensures
        exists|secs: nat| #[trigger] hms(secs) == s@,
{
    let secs = crate::clock::now_unix_secs();
    let s = hms_text(secs as u128);
    assert(hms(secs as nat) == s@);
    s
}

// ---------------------------------------------------------------------------
// Application state
// ---------------------------------------------------------------------------

/// State shared by the server, the tunnel and the terminal interface.
pub struct AppState {
    pub theme: String,
    pub mode: Mode,
    pub tool_mode: ToolMode,
    pub show_detail_mode: ShowDetailMode,
    pub mcp_slug: String,
    pub ngrok_domain: Option<String>,
    pub is_returning_user: bool,
    pub server_running: bool,
    pub ngrok_running: bool,
    pub ngrok_url: Option<String>,
    pub remote_connected: bool,
    pub last_remote_activity_ms: Option<u128>,
    pub devtools_running: bool,
    pub port: u16,
    pub workspace_root: String,
    pub mascot_seed: u64,
    pub partner_binagotchy_seed: Option<String>,
    pub set_catdesk_as_co_author: bool,
    pub logs: Vec<LogEntry>,
    pub flows: Vec<FlowLane>,
    /// Bootstrap progress per flow id, each id at most once.
    pub flow_bootstrap_progress: Vec<(String, FlowBootstrapProgress)>,
    pub request_count: u64,
    pub usage_totals: UsageTotals,
    pub session_usage_totals: UsageTotals,
    pub config_path: String,
}

/// Maximum number of log entries kept.
pub const MAX_LOG_ENTRIES: usize = 500;

/// The log after appending `e`: the oldest entry goes beyond 500.
pub open spec fn with_log(logs: Seq<LogEntry>, e: LogEntry) -> Seq<LogEntry> {
    let all = logs.push(e);
    if all.len() > MAX_LOG_ENTRIES {
        all.drop_first()
    } else {
        all
    }
}

impl AppState {
    /// Progress keys are unique, lanes hold their own animation segments and
    /// at most twelve events, no flow has two lanes, and at most 500 log
    /// entries are kept.
    pub open spec fn wf(&self) -> bool {
        &&& progress_keys(self.flow_bootstrap_progress@).no_duplicates()
        &&& lanes_wf(self.flows@)
        &&& lanes_events_bounded(self.flows@)
        &&& lane_ids(lane_views(self.flows@)).no_duplicates()
        &&& self.logs@.len() <= MAX_LOG_ENTRIES
    }

    /// Every field but the flows, their progress and the remote activity
    /// is the same.
    pub open spec fn same_settings(&self, other: &AppState) -> bool {
        &&& self.theme@ == other.theme@
        &&& self.mode == other.mode
        &&& self.tool_mode == other.tool_mode
        &&& self.show_detail_mode == other.show_detail_mode
        &&& self.mcp_slug@ == other.mcp_slug@
        &&& opt_chars(self.ngrok_domain) == opt_chars(other.ngrok_domain)
        &&& self.is_returning_user == other.is_returning_user
        &&& self.server_running == other.server_running
        &&& self.ngrok_running == other.ngrok_running
        &&& opt_chars(self.ngrok_url) == opt_chars(other.ngrok_url)
        &&& self.devtools_running == other.devtools_running
        &&& self.port == other.port
        &&& self.workspace_root@ == other.workspace_root@
        &&& self.mascot_seed == other.mascot_seed
        &&& opt_chars(self.partner_binagotchy_seed) == opt_chars(other.partner_binagotchy_seed)
        &&& self.set_catdesk_as_co_author == other.set_catdesk_as_co_author
        &&& self.request_count == other.request_count
        &&& self.usage_totals == other.usage_totals
        &&& self.session_usage_totals == other.session_usage_totals
        &&& self.config_path@ == other.config_path@
    }

    /// What a fresh state holds for `config`: its settings, no flows, logs
    /// or requests yet, the persisted usage totals and empty session totals;
    /// the configured slug when there is one, and a returning user when both
    /// the slug and the tunnel domain are configured.
    pub open spec fn starts_from(
        &self,
        port: u16,
        workspace_root: Seq<char>,
        config_path: Seq<char>,
        config: AppConfig,
    ) -> bool {
        &&& self.wf()
        &&& self.theme@ == config.theme@
        &&& self.mode == config.mode
        &&& self.tool_mode == config.tool_mode
        &&& self.show_detail_mode == config.show_detail_mode
        &&& opt_chars(self.ngrok_domain) == opt_chars(config.ngrok_domain)
        &&& self.is_returning_user == (config.mcp_slug is Some && config.ngrok_domain is Some)
        &&& !self.server_running && !self.ngrok_running && self.ngrok_url is None
        &&& !self.remote_connected && self.last_remote_activity_ms is None
        &&& !self.devtools_running
        &&& self.port == port
        &&& self.workspace_root@ == workspace_root
        &&& opt_chars(self.partner_binagotchy_seed) == opt_chars(config.partner_binagotchy_seed)
        &&& self.set_catdesk_as_co_author == config.set_catdesk_as_co_author
        &&& self.logs@.len() == 0 && self.flows@.len() == 0
        &&& self.flow_bootstrap_progress@.len() == 0
        &&& self.request_count == 0
        &&& self.usage_totals == config.usage_totals
        &&& self.session_usage_totals == (UsageTotals {
            input_tokens: 0,
            output_tokens: 0,
            total_tokens: 0,
            tool_call_count: 0,
        })
        &&& self.config_path@ == config_path
        &&& (match config.mcp_slug {
            Some(s) => s@.len() > 0 ==> self.mcp_slug@ == s@,
            None => true,
        })
        &&& (match config.partner_binagotchy_seed {
            Some(s) => parse_uint(s@, 16, 0xffff_ffff_ffff_ffff) == Ok::<
                nat,
                crate::number::IntErrorKind,
            >(self.mascot_seed as nat),
            None => true,
        })
    }

    /// The state for `config`, with `random_seed` as the mascot seed when no
    /// partner seed is configured and `fresh_slug` as the MCP slug when no
    /// slug is; an error when the partner seed is not hexadecimal.
    pub fn from_config(
        port: u16,
        workspace_root: String,
        config_path: String,
        config: AppConfig,
        random_seed: u64,
        fresh_slug: String,
    ) -> (r: Result<AppState, String>)
        ensures
            match r {
                Ok(app) => {
                    &&& app.starts_from(port, workspace_root@, config_path@, config)
                    &&& (config.partner_binagotchy_seed is None ==> app.mascot_seed == random_seed)
                    &&& (match config.mcp_slug {
                        Some(s) => s@.len() == 0 ==> app.mcp_slug@ == fresh_slug@,
                        None => app.mcp_slug@ == fresh_slug@,
                    })
                },
                Err(e) => match config.partner_binagotchy_seed {
                    Some(s) => seed_error(s@) == Some(e@),
                    None => false,
                },
            },
    {
        let mascot_seed = match &config.partner_binagotchy_seed {
            Some(seed) => match parse_seed_hex(seed.as_str()) {
                Ok(v) => v,
                Err(e) => {
                    return Err(e);
                },
            },
            None => random_seed,
        };
        let is_returning_user = config.mcp_slug.is_some() && config.ngrok_domain.is_some();
        let mcp_slug = match config.mcp_slug {
            Some(slug) => if !slug.as_str().is_empty() {
                slug
            } else {
                fresh_slug
            },
            None => fresh_slug,
        };
        Ok(
            AppState {
                theme: config.theme,
                mode: config.mode,
                tool_mode: config.tool_mode,
                show_detail_mode: config.show_detail_mode,
                mcp_slug,
                ngrok_domain: config.ngrok_domain,
                is_returning_user,
                server_running: false,
                ngrok_running: false,
                ngrok_url: None,
                remote_connected: false,
                last_remote_activity_ms: None,
                devtools_running: false,
                port,
                workspace_root,
                mascot_seed,
                partner_binagotchy_seed: config.partner_binagotchy_seed,
                set_catdesk_as_co_author: config.set_catdesk_as_co_author,
                logs: Vec::new(),
                flows: Vec::new(),
                flow_bootstrap_progress: Vec::new(),
                request_count: 0,
                usage_totals: config.usage_totals,
                session_usage_totals: UsageTotals::default(),
                config_path,
            },
        )
    }

    /// The state for the configuration read from `config_path`: a random
    /// mascot seed unless a partner seed is configured, a fresh slug unless
    /// one is configured.
    pub fn new(port: u16, workspace_root: String, config_path: String, config: AppConfig) -> (r:
        Result<AppState, String>)
        ensures
            match r {
                Ok(app) => {
                    &&& app.starts_from(port, workspace_root@, config_path@, config)
                    &&& ((match config.mcp_slug {
                        Some(s) => s@.len() == 0,
                        None => true,
                    }) ==> exists|b: Seq<u8>|
                        crate::ids::v4_bytes(b) && app.mcp_slug@ == crate::ids::mcp_slug_of(b))
                },
                Err(e) => match config.partner_binagotchy_seed {
                    Some(s) => seed_error(s@) == Some(e@),
                    None => false,
                },
            },
    {
        let random_seed = if config.partner_binagotchy_seed.is_none() {
            crate::ids::random_u64()
        } else {
            0
        };
        let needs_slug = match &config.mcp_slug {
            Some(s) => s.as_str().is_empty(),
            None => true,
        };
        let fresh_slug = if needs_slug {
            crate::ids::generate_mcp_slug()
        } else {
            String::new()
        };
        Self::from_config(port, workspace_root, config_path, config, random_seed, fresh_slug)
    }

    /// `/{slug}/mcp`.
    pub fn mcp_path(&self) -> (s: String)
        ensures
            s@ == "/"@ + self.mcp_slug@ + "/mcp"@,
    {
        let mut s = String::new();
        push_str(&mut s, "/");
        push_str(&mut s, self.mcp_slug.as_str());
        push_str(&mut s, "/mcp");
        s
    }

    /// The tunnel URL followed by the MCP path, once the tunnel is up.
    pub fn public_mcp_url(&self) -> (r: Option<String>)
        ensures
            match self.ngrok_url {
                Some(u) => r matches Some(t) && t@ == u@ + "/"@ + self.mcp_slug@ + "/mcp"@,
                None => r is None,
            },
    {
        match &self.ngrok_url {
            Some(url) => {
                let mut s = copy_string(url);
                let p = self.mcp_path();
                push_str(&mut s, p.as_str());
                assert(s@ =~= url@ + "/"@ + self.mcp_slug@ + "/mcp"@);
                Some(s)
            },
            None => None,
        }
    }

    /// Appends a log entry stamped `time`, dropping the oldest beyond 500.
    pub fn log_at(&mut self, level: &'static str, message: String, time: String)
        requires
            old(self).wf(),
        ensures
            final(self).wf(),
            final(self).logs@ == with_log(old(self).logs@, LogEntry { time, level, message }),
            final(self).same_settings(old(self)),
            final(self).flows@ == old(self).flows@,
            final(self).flow_bootstrap_progress@ == old(self).flow_bootstrap_progress@,
            final(self).remote_connected == old(self).remote_connected,
            final(self).last_remote_activity_ms == old(self).last_remote_activity_ms,
    {
        self.logs.push(LogEntry { time, level, message });
        if self.logs.len() > MAX_LOG_ENTRIES {
            self.logs.remove(0);
        }
    }

    /// Appends a log entry stamped with the current time of day.
    pub fn log(&mut self, level: &'static str, message: String)
        requires
            old(self).wf(),
        ensures
            final(self).wf(),
            final(self).logs@ == with_log(old(self).logs@, final(self).logs@.last()),
            final(self).logs@.last().level == level,
            final(self).logs@.last().message == message,
            exists|secs: nat| #[trigger] hms(secs) == final(self).logs@.last().time@,
            final(self).same_settings(old(self)),
            final(self).flows@ == old(self).flows@,
            final(self).flow_bootstrap_progress@ == old(self).flow_bootstrap_progress@,
            final(self).remote_connected == old(self).remote_connected,
            final(self).last_remote_activity_ms == old(self).last_remote_activity_ms,
    {
        let time = now_hms();
        self.log_at(level, message, time);
    }

    /// Takes a fresh random MCP slug.
    pub fn regenerate_mcp_slug(&mut self)
        ensures
            exists|b: Seq<u8>|
                crate::ids::v4_bytes(b) && final(self).mcp_slug@ == crate::ids::mcp_slug_of(b),
            final(self).theme == old(self).theme,
            final(self).flows@ == old(self).flows@,
            final(self).logs@ == old(self).logs@,
            final(self).flow_bootstrap_progress@ == old(self).flow_bootstrap_progress@,
    {
        self.mcp_slug = crate::ids::generate_mcp_slug();
    }

    /// The settings to persist: those read from disk (`loaded`) with the
    /// slug, tunnel domain, partner seed, co-author flag, theme, modes and
    /// usage totals of this state, normalized.
    pub fn app_config(&self, loaded: AppConfig) -> (r: AppConfig)
        ensures
            opt_chars(r.ngrok_authtoken) == trimmed_setting(opt_chars(loaded.ngrok_authtoken)),
            opt_chars(r.mcp_slug) == trimmed_setting(Some(self.mcp_slug@)),
            opt_chars(r.ngrok_domain) == trimmed_setting(opt_chars(self.ngrok_domain)),
            opt_chars(r.partner_binagotchy_seed) == seed_setting(
                opt_chars(self.partner_binagotchy_seed),
            ),
            r.agents_path_mode == loaded.agents_path_mode,
            r.token_stats_layout == loaded.token_stats_layout,
            r.show_detail_mode == self.show_detail_mode,
            r.set_catdesk_as_co_author == self.set_catdesk_as_co_author,
            r.theme@ == self.theme@,
            r.mode == self.mode,
            r.tool_mode == self.tool_mode,
            r.usage_totals == self.usage_totals.normalized_spec().normalized_spec(),
    {
        let config = AppConfig {
            ngrok_authtoken: loaded.ngrok_authtoken,
            mcp_slug: Some(copy_string(&self.mcp_slug)),
            ngrok_domain: match &self.ngrok_domain {
                Some(d) => Some(copy_string(d)),
                None => None,
            },
            agents_path_mode: loaded.agents_path_mode,
            token_stats_layout: loaded.token_stats_layout,
            show_detail_mode: self.show_detail_mode,
            partner_binagotchy_seed: match &self.partner_binagotchy_seed {
                Some(d) => Some(copy_string(d)),
                None => None,
            },
            set_catdesk_as_co_author: self.set_catdesk_as_co_author,
            theme: copy_string(&self.theme),
            mode: self.mode,
            tool_mode: self.tool_mode,
            usage_totals: self.usage_totals.normalized(),
        };
        config.normalized()
    }

    /// Adds one turn to the persisted and the session usage totals.
    pub fn record_turn_usage(&mut self, input_tokens: u64, output_tokens: u64)
        ensures
            final(self).usage_totals.input_tokens == sat_add(old(self).usage_totals.input_tokens, input_tokens),
            final(self).usage_totals.output_tokens == sat_add(old(self).usage_totals.output_tokens, output_tokens),
            final(self).usage_totals.total_tokens == sat_add(
                sat_add(old(self).usage_totals.input_tokens, input_tokens),
                sat_add(old(self).usage_totals.output_tokens, output_tokens),
            ),
            final(self).usage_totals.tool_call_count == sat_add(old(self).usage_totals.tool_call_count, 1),
            final(self).session_usage_totals.input_tokens == sat_add(
                old(self).session_usage_totals.input_tokens,
                input_tokens,
            ),
            final(self).session_usage_totals.output_tokens == sat_add(
                old(self).session_usage_totals.output_tokens,
                output_tokens,
            ),
            final(self).session_usage_totals.total_tokens == sat_add(
                sat_add(old(self).session_usage_totals.input_tokens, input_tokens),
                sat_add(old(self).session_usage_totals.output_tokens, output_tokens),
            ),
            final(self).session_usage_totals.tool_call_count == sat_add(
                old(self).session_usage_totals.tool_call_count,
                1,
            ),
            final(self).flows@ == old(self).flows@,
            final(self).logs@ == old(self).logs@,
            final(self).flow_bootstrap_progress@ == old(self).flow_bootstrap_progress@,
            final(self).request_count == old(self).request_count,
    {
        self.usage_totals.accumulate(input_tokens, output_tokens, 1);
        self.session_usage_totals.accumulate(input_tokens, output_tokens, 1);
    }
}

proof fn lemma_pruned_wf(q: Seq<FlowAnimSegment>, now_ms: u128)
    requires
        queue_wf(q),
    ensures
        queue_wf(pruned(q, now_ms)),
{
    lemma_pruned_sub(q, now_ms);
    assert forall|i: int| 0 <= i < pruned(q, now_ms).len() implies seg_wf(
        #[trigger] pruned(q, now_ms)[i],
    ) by {
        let x = pruned(q, now_ms)[i];
        assert(q.contains(x));
        let j = choose|j: int| 0 <= j < q.len() && q[j] == x;
        assert(seg_wf(q[j]));
    }
}

proof fn lemma_last12_len<T>(s: Seq<T>)
    ensures
        last12(s).len() <= 12,
        last12(s).len() <= s.len(),
{
}

impl AppState {
    /// `new` is `self` after recording `events` of flow `flow_id` at
    /// `now_ms`: nothing changes without events; otherwise the remote side
    /// counts as connected and active now, the flow's bootstrap progress
    /// advances from what was recorded for it, and its lane, updated or
    /// new, moves to the front.
    pub open spec fn records(
        self,
        new: AppState,
        flow_id: Seq<char>,
        events: Seq<Seq<char>>,
        direction: FlowDirection,
        now_ms: u128,
    ) -> bool {
        &&& new.wf()
        &&& new.same_settings(&self)
        &&& new.logs@ == self.logs@
        &&& if events.len() == 0 {
            &&& new.flows@ == self.flows@
            &&& new.flow_bootstrap_progress@ == self.flow_bootstrap_progress@
            &&& new.remote_connected == self.remote_connected
            &&& new.last_remote_activity_ms == self.last_remote_activity_ms
        } else {
            let adv = advance(
                prior_progress(self.flow_bootstrap_progress@, flow_id),
                events,
                direction,
                self.show_detail_mode,
            );
            &&& lane_views(new.flows@) == lanes_after_record(
                lane_views(self.flows@),
                flow_id,
                events,
                direction,
                now_ms,
                adv.0,
                adv.1,
            )
            &&& progress_of(new.flow_bootstrap_progress@, flow_id) == Some((adv.0 as usize, adv.1))
            &&& forall|k: Seq<char>|
                k != flow_id ==> #[trigger] progress_of(new.flow_bootstrap_progress@, k)
                    == progress_of(self.flow_bootstrap_progress@, k)
            &&& new.remote_connected
            &&& new.last_remote_activity_ms == Some(now_ms)
        }
    }

    /// Recording `events` of a flow that has no lane yet needs its id to
    /// be cut into a short id at a character boundary.
    pub open spec fn can_record(self, flow_id: Seq<char>, events: Seq<Seq<char>>) -> bool {
        events.len() > 0 && find_lane(lane_views(self.flows@), flow_id) < 0 ==> short_id_ok(flow_id)
    }

    /// Records a batch of events of a flow at `now_ms`.
    pub fn record_flow_at(
        &mut self,
        flow_id: &str,
        events: &[String],
        direction: FlowDirection,
        now_ms: u128,
    )
        requires
            old(self).wf(),
            now_ok(now_ms),
            old(self).can_record(flow_id@, string_views(events@)),
        ensures
            old(self).records(*final(self), flow_id@, string_views(events@), direction, now_ms),
    {
        if events.len() == 0 {
            return;
        }
        self.last_remote_activity_ms = Some(now_ms);
        self.remote_connected = true;
        let (completed, pending) = advance_flow_progress(
            &mut self.flow_bootstrap_progress,
            flow_id,
            events,
            direction,
            self.show_detail_mode,
        );
        place_lane(&mut self.flows, flow_id, events, direction, now_ms, completed, pending);
    }
}

/// Puts the lane of `flow_id`, updated by `events` or new, at the front.
fn place_lane(
    flows: &mut Vec<FlowLane>,
    flow_id: &str,
    events: &[String],
    direction: FlowDirection,
    now_ms: u128,
    completed: usize,
    pending: VecDeque<usize>,
)
    requires
        lanes_wf(old(flows)@),
        lanes_events_bounded(old(flows)@),
        now_ok(now_ms),
        find_lane(lane_views(old(flows)@), flow_id@) < 0 ==> short_id_ok(flow_id@),
        lane_ids(lane_views(old(flows)@)).no_duplicates(),
    ensures
        lane_ids(lane_views(final(flows)@)).no_duplicates(),
        lane_views(final(flows)@) == lanes_after_record(
            lane_views(old(flows)@),
            flow_id@,
            string_views(events@),
            direction,
            now_ms,
            completed as nat,
            pending@,
        ),
        lanes_wf(final(flows)@),
        lanes_events_bounded(final(flows)@),
{
    let ghost lv0 = lane_views(flows@);
    let ghost flows0 = flows@;
    let starts = events_start_bootstrap_status(events);
    let only = events_are_bootstrap_status_events(events);
    proof {
        lemma_batch_flags(events@, starts, only);
    }
    let idc = chars_of(flow_id);
    match lane_position(flows, idc.as_slice()) {
        Some(idx) => {
            assert(queue_wf(flows0[idx as int].anim_queue@));
            let flow = flows.remove(idx);
            assert(flow@ == lv0[idx as int]);
            let flow = refreshed_lane(flow, events, direction, now_ms, completed, pending, starts, only);
            flows.insert(0, flow);
            proof {
                lemma_lane_to_front(flows0, idx as int, flow);
                lemma_record_ids(lv0, flow_id@, string_views(events@), direction, now_ms, completed as nat, pending@);
                assert(flows@ =~= seq![flow] + flows0.remove(idx as int));
            }
        },
        None => {
            let lane = fresh_lane(flow_id, events, direction, now_ms, completed, pending, starts);
            flows.insert(0, lane);
            proof {
                lemma_lane_added(flows0, lane);
                lemma_record_ids(lv0, flow_id@, string_views(events@), direction, now_ms, completed as nat, pending@);
                assert(flows@ =~= seq![lane] + flows0);
            }
        },
    }
}

/// Advances the recorded bootstrap progress of `flow_id` over `events` and
/// records the result, which it returns.
fn advance_flow_progress(
    p: &mut Vec<(String, FlowBootstrapProgress)>,
    flow_id: &str,
    events: &[String],
    direction: FlowDirection,
    mode: ShowDetailMode,
) -> (r: (usize, VecDeque<usize>))
    requires
        progress_keys(old(p)@).no_duplicates(),
    ensures
        ({
            let adv = advance(prior_progress(old(p)@, flow_id@), string_views(events@), direction, mode);
            &&& r.0 == adv.0 && r.1@ == adv.1
            &&& progress_keys(final(p)@).no_duplicates()
            &&& progress_of(final(p)@, flow_id@) == Some((r.0, r.1@))
            &&& forall|k: Seq<char>|
                k != flow_id@ ==> #[trigger] progress_of(final(p)@, k) == progress_of(old(p)@, k)
        }),
{
    let (mut completed, mut pending) = progress_lookup(p, flow_id);
    advance_bootstrap_progress(&mut completed, &mut pending, events, direction, mode);
    let kept = copy_deque(&pending);
    progress_store(p, flow_id, completed, kept);
    (completed, pending)
}

proof fn lemma_batch_flags(events: Seq<String>, starts: bool, only: bool)
    requires
        starts == exists|i: int| 0 <= i < events.len() && (#[trigger] events[i])@ == "initialize"@,
        only == forall|i: int| 0 <= i < events.len() ==> is_bootstrap_event(#[trigger] events[i]@),
    ensures
        starts == exists|i: int|
            0 <= i < string_views(events).len() && string_views(events)[i] == "initialize"@,
        only == forall|i: int|
            0 <= i < string_views(events).len() ==> is_bootstrap_event(#[trigger] string_views(events)[i]),
{
    let evs = string_views(events);
    if starts {
        let i = choose|i: int| 0 <= i < events.len() && (#[trigger] events[i])@ == "initialize"@;
        assert(evs[i] == events[i]@);
    }
    if !only {
        let i = choose|i: int| 0 <= i < events.len() && !is_bootstrap_event(#[trigger] events[i]@);
        assert(evs[i] == events[i]@);
    }
}

/// An existing lane after a batch of events.
fn refreshed_lane(
    flow: FlowLane,
    events: &[String],
    direction: FlowDirection,
    now_ms: u128,
    completed: usize,
    pending: VecDeque<usize>,
    starts: bool,
    only: bool,
) -> (r: FlowLane)
    requires
        queue_wf(flow.anim_queue@),
        now_ok(now_ms),
    ensures
        r@ == recorded_lane(
            Some(flow@),
            flow@.flow_id,
            string_views(events@),
            direction,
            now_ms,
            completed as nat,
            pending@,
            starts,
            only,
        ),
        queue_wf(r.anim_queue@),
        r.events@.len() <= 12,
{
    let mut flow = flow;
    let ghost l0 = flow@;
    if starts {
        flow.bootstrap_status_active = true;
    } else if flow.bootstrap_status_active && !only {
        flow.bootstrap_status_active = false;
    }
    flow.events = append_last12(&flow.events, events);
    flow.bootstrap_completed_steps = completed;
    flow.bootstrap_pending_steps = pending;
    flow.closing_started_ms = None;
    flow.closing_step_ms = 0;
    flow.bootstrap_status_close_deadline_ms = None;
    flow.last_direction = direction;
    enqueue_flow_segment(&mut flow.anim_queue, direction, now_ms, FLOW_STEP_FIXED_MS);
    proof {
        lemma_last12_len(l0.events + string_views(events@));
        assert(flow@.events.len() == flow.events@.len());
    }
    flow
}

/// The lane of a flow seen for the first time.
fn fresh_lane(
    flow_id: &str,
    events: &[String],
    direction: FlowDirection,
    now_ms: u128,
    completed: usize,
    pending: VecDeque<usize>,
    starts: bool,
) -> (r: FlowLane)
    requires
        now_ok(now_ms),
        short_id_ok(flow_id@),
    ensures
        forall|only: bool|
            r@ == #[trigger] recorded_lane(
                None,
                flow_id@,
                string_views(events@),
                direction,
                now_ms,
                completed as nat,
                pending@,
                starts,
                only,
            ),
        queue_wf(r.anim_queue@),
        r.events@.len() <= 12,
{
    let none: Vec<String> = Vec::new();
    let trimmed = append_last12(&none, events);
    assert(string_views(none@) + string_views(events@) =~= string_views(events@));
    let mut queue: VecDeque<FlowAnimSegment> = VecDeque::new();
    enqueue_flow_segment(&mut queue, direction, now_ms, FLOW_STEP_FIXED_MS);
    let short = short_flow_id(flow_id);
    proof {
        lemma_short_id(flow_id@, short@);
        lemma_last12_len(string_views(events@));
    }
    let idc = chars_of(flow_id);
    FlowLane {
        flow_id: string_of(idc.as_slice()),
        short_id: short,
        events: trimmed,
        bootstrap_status_active: starts,
        bootstrap_completed_steps: completed,
        bootstrap_pending_steps: pending,
        bootstrap_status_close_deadline_ms: None,
        anim_queue: queue,
        last_direction: direction,
        closing_started_ms: None,
        closing_step_ms: 0,
    }
}

proof fn lemma_lane_to_front(flows0: Seq<FlowLane>, idx: int, flow: FlowLane)
    requires
        0 <= idx < flows0.len(),
        lanes_wf(flows0),
        lanes_events_bounded(flows0),
        queue_wf(flow.anim_queue@),
        flow.events@.len() <= 12,
    ensures
        lane_views(seq![flow] + flows0.remove(idx)) == seq![flow@] + lane_views(flows0).remove(idx),
        lanes_wf(seq![flow] + flows0.remove(idx)),
        lanes_events_bounded(seq![flow] + flows0.remove(idx)),
{
    let f = seq![flow] + flows0.remove(idx);
    assert(lane_views(f) =~= seq![flow@] + lane_views(flows0).remove(idx));
    assert forall|i: int| 0 <= i < f.len() implies queue_wf(#[trigger] f[i].anim_queue@) && f[i].events@.len()
        <= 12 by {
        if i == 0 {
            assert(f[i] == flow);
        } else if i - 1 < idx {
            assert(f[i] == flows0[i - 1]);
            assert(queue_wf(flows0[i - 1].anim_queue@) && flows0[i - 1].events@.len() <= 12);
        } else {
            assert(f[i] == flows0[i]);
            assert(queue_wf(flows0[i].anim_queue@) && flows0[i].events@.len() <= 12);
        }
    }
}

proof fn lemma_lane_added(flows0: Seq<FlowLane>, lane: FlowLane)
    requires
        lanes_wf(flows0),
        lanes_events_bounded(flows0),
        queue_wf(lane.anim_queue@),
        lane.events@.len() <= 12,
    ensures
        lane_views(seq![lane] + flows0) == seq![lane@] + lane_views(flows0),
        lanes_wf(seq![lane] + flows0),
        lanes_events_bounded(seq![lane] + flows0),
{
    let f = seq![lane] + flows0;
    assert(lane_views(f) =~= seq![lane@] + lane_views(flows0));
    assert forall|i: int| 0 <= i < f.len() implies queue_wf(#[trigger] f[i].anim_queue@) && f[i].events@.len()
        <= 12 by {
        if i == 0 {
            assert(f[i] == lane);
        } else {
            assert(f[i] == flows0[i - 1]);
            assert(queue_wf(flows0[i - 1].anim_queue@) && flows0[i - 1].events@.len() <= 12);
        }
    }
}

impl AppState {
    /// `new` is `self` after the close of flow `flow_id` began at `now_ms`:
    /// its bootstrap progress is forgotten and its first lane, if any, is
    /// closed.
    pub open spec fn closes(self, new: AppState, flow_id: Seq<char>, now_ms: u128) -> bool {
        let lanes = lane_views(self.flows@);
        let idx = find_lane(lanes, flow_id);
        &&& new.wf()
        &&& new.same_settings(&self)
        &&& new.logs@ == self.logs@
        &&& new.remote_connected == self.remote_connected
        &&& new.last_remote_activity_ms == self.last_remote_activity_ms
        &&& progress_of(new.flow_bootstrap_progress@, flow_id) is None
        &&& forall|k: Seq<char>|
            k != flow_id ==> #[trigger] progress_of(new.flow_bootstrap_progress@, k) == progress_of(
                self.flow_bootstrap_progress@,
                k,
            )
        &&& lane_views(new.flows@) == if idx >= 0 {
            lanes.update(idx, lane_closed(lanes[idx], now_ms))
        } else {
            lanes
        }
    }

    /// Begins closing flow `flow_id` at `now_ms`.
    pub fn begin_flow_close_at(&mut self, flow_id: &str, now_ms: u128)
        requires
            old(self).wf(),
        ensures
            old(self).closes(*final(self), flow_id@, now_ms),
    {
        progress_forget(&mut self.flow_bootstrap_progress, flow_id);
        close_lane(&mut self.flows, flow_id, now_ms);
    }

    /// `new` is `self` after a refresh at `now_ms`.
    pub open spec fn prunes(self, new: AppState, now_ms: u128) -> bool {
        &&& new.wf()
        &&& new.same_settings(&self)
        &&& new.logs@ == self.logs@
        &&& new.remote_connected == self.remote_connected
        &&& new.last_remote_activity_ms == self.last_remote_activity_ms
        &&& new.flow_bootstrap_progress@ == self.flow_bootstrap_progress@
        &&& lane_views(new.flows@) == lanes_after_prune(
            lane_views(self.flows@),
            now_ms,
            bootstrap_total(self.show_detail_mode),
        )
    }

    /// Refreshes the lanes at `now_ms` and drops the closed ones whose time
    /// is up.
    pub fn prune_closed_flows_at(&mut self, now_ms: u128)
        requires
            old(self).wf(),
            now_ok(now_ms),
        ensures
            old(self).prunes(*final(self), now_ms),
    {
        let total = flow_bootstrap_steps_total(self.show_detail_mode);
        let mut lanes: Vec<FlowLane> = Vec::new();
        std::mem::swap(&mut lanes, &mut self.flows);
        self.flows = kept_lanes(lanes, now_ms, total);
    }
}

/// Closes the first lane of `flow_id`, if any.
fn close_lane(flows: &mut Vec<FlowLane>, flow_id: &str, now_ms: u128)
    requires
        lanes_wf(old(flows)@),
        lanes_events_bounded(old(flows)@),
    ensures
        lane_ids(lane_views(final(flows)@)) == lane_ids(lane_views(old(flows)@)),
        lanes_wf(final(flows)@),
        lanes_events_bounded(final(flows)@),
        ({
            let lanes = lane_views(old(flows)@);
            let idx = find_lane(lanes, flow_id@);
            lane_views(final(flows)@) == if idx >= 0 {
                lanes.update(idx, lane_closed(lanes[idx], now_ms))
            } else {
                lanes
            }
        }),
{
    let ghost flows0 = flows@;
    let idc = chars_of(flow_id);
    match lane_position(flows, idc.as_slice()) {
        Some(i) => {
            if flows[i].closing_started_ms.is_none() {
                let mut flow = flows.remove(i);
                let ghost l0 = flow@;
                let n = flow.anim_queue.len();
                flow.closing_step_ms = if n > 0 {
                    let st = flow.anim_queue[n - 1].step_ms;
                    if st == 0 {
                        1
                    } else {
                        st
                    }
                } else {
                    FLOW_STEP_FIXED_MS
                };
                flow.closing_started_ms = Some(now_ms);
                flow.anim_queue.clear();
                flow.bootstrap_status_active = false;
                flow.bootstrap_status_close_deadline_ms = None;
                assert(flow@ == lane_closed(l0, now_ms));
                flows.insert(i, flow);
                proof {
                    assert(flows@ =~= flows0.update(i as int, flow));
                    assert(lane_views(flows@) =~= lane_views(flows0).update(i as int, flow@));
                    assert(lane_ids(lane_views(flows@)) =~= lane_ids(lane_views(flows0)));
                    assert forall|j: int| 0 <= j < flows@.len() implies queue_wf(
                        #[trigger] flows@[j].anim_queue@,
                    ) && flows@[j].events@.len() <= 12 by {
                        if j != i {
                            assert(flows@[j] == flows0[j]);
                        }
                    }
                }
            } else {
                assert(lane_views(flows0)[i as int] == flows0[i as int]@);
                assert(lane_views(flows0).update(i as int, lane_views(flows0)[i as int]) =~= lane_views(
                    flows0,
                ));
            }
        },
        None => {},
    }
}

/// One lane refreshed at `now_ms`.
fn ticked_lane(flow: FlowLane, now_ms: u128, total: usize) -> (r: FlowLane)
    requires
        queue_wf(flow.anim_queue@),
        now_ok(now_ms),
    ensures
        r@ == lane_ticked(flow@, now_ms, total as nat),
        queue_wf(r.anim_queue@),
        r.events@ == flow.events@,
{
    let mut flow = flow;
    let ghost l0 = flow@;
    prune_finished_segments(&mut flow.anim_queue, now_ms);
    proof {
        lemma_pruned_wf(l0.queue, now_ms);
    }
    if !flow.bootstrap_status_active {
        flow.bootstrap_status_close_deadline_ms = None;
    } else {
        let complete = flow.bootstrap_completed_steps >= total && flow.bootstrap_pending_steps.len()
            == 0;
        if flow.closing_started_ms.is_none() && complete {
            if flow.anim_queue.len() == 0 {
                match flow.bootstrap_status_close_deadline_ms {
                    Some(deadline) => {
                        if now_ms >= deadline {
                            flow.bootstrap_status_active = false;
                            flow.bootstrap_status_close_deadline_ms = None;
                        }
                    },
                    None => {
                        flow.bootstrap_status_close_deadline_ms = Some(
                            now_ms + FLOW_BOOTSTRAP_STATUS_CLOSE_DELAY_MS,
                        );
                    },
                }
            } else {
                flow.bootstrap_status_close_deadline_ms = None;
            }
        } else {
            flow.bootstrap_status_close_deadline_ms = None;
        }
    }
    flow
}

/// Whether a lane stays at `now_ms`.
fn lane_stays(flow: &FlowLane, now_ms: u128) -> (b: bool)
    ensures
        b == lane_alive(flow@, now_ms),
{
    match flow.closing_started_ms {
        None => true,
        Some(started) => {
            let step: u128 = if flow.closing_step_ms == 0 {
                1
            } else {
                flow.closing_step_ms as u128
            };
            let passes: u128 = (FLOW_LINK_CELLS * FLOW_CLOSE_PRUNE_MULTIPLIER) as u128;
            assert(passes == 96 && step <= 0xffff_ffff_ffff_ffff);
            let ttl: u128 = passes * step;
            let elapsed: u128 = if now_ms >= started {
                now_ms - started
            } else {
                0
            };
            elapsed < ttl
        },
    }
}

/// The lanes refreshed at `now_ms`, without those whose close has expired.
fn kept_lanes(lanes: Vec<FlowLane>, now_ms: u128, total: usize) -> (r: Vec<FlowLane>)
    requires
        lanes_wf(lanes@),
        lanes_events_bounded(lanes@),
        now_ok(now_ms),
    ensures
        lane_views(r@) == lanes_after_prune(lane_views(lanes@), now_ms, total as nat),
        lanes_wf(r@),
        lanes_events_bounded(r@),
        lane_ids(lane_views(lanes@)).no_duplicates() ==> lane_ids(lane_views(r@)).no_duplicates(),
{
    let ghost l0 = lanes@;
    let mut rest = lanes;
    let mut kept: Vec<FlowLane> = Vec::new();
    let mut i: usize = 0;
    let n = rest.len();
    assert(l0.skip(0) =~= l0);
    assert(lane_views(l0).take(0) =~= Seq::<LaneView>::empty());
    while i < n
        invariant
            i <= n == l0.len(),
            rest@ == l0.skip(i as int),
            lanes_wf(l0),
            lanes_events_bounded(l0),
            now_ok(now_ms),
            lane_views(kept@) == lanes_after_prune(lane_views(l0).take(i as int), now_ms, total as nat),
            lanes_wf(kept@),
            lanes_events_bounded(kept@),
        decreases n - i,
    {
        let ghost kept0 = kept@;
        let flow = rest.remove(0);
        assert(flow == l0[i as int]);
        assert(queue_wf(l0[i as int].anim_queue@));
        assert(l0[i as int].events@.len() <= 12);
        let flow = ticked_lane(flow, now_ms, total);
        let ghost t = lane_views(l0).take(i + 1);
        assert(t.drop_last() =~= lane_views(l0).take(i as int));
        assert(t.last() == l0[i as int]@);
        if lane_stays(&flow, now_ms) {
            kept.push(flow);
            assert(lane_views(kept@) =~= lane_views(kept0).push(flow@));
            assert forall|j: int| 0 <= j < kept@.len() implies queue_wf(
                #[trigger] kept@[j].anim_queue@,
            ) && kept@[j].events@.len() <= 12 by {
                if j < kept0.len() {
                    assert(kept@[j] == kept0[j]);
                }
            }
        }
        assert(rest@ =~= l0.skip(i + 1));
        i += 1;
    }
    assert(lane_views(l0).take(n as int) =~= lane_views(l0));
    proof {
        lemma_prune_ids(lane_views(l0), now_ms, total as nat);
    }
    kept
}

/// A clock reading in milliseconds, held at least three seconds below
/// `u128::MAX` so that the deadlines computed from it fit.
fn flow_clock() -> (t: u128)
    ensures
        now_ok(t),
{
    let t = crate::clock::now_unix_millis();
    if t <= u128::MAX - FLOW_BOOTSTRAP_STATUS_CLOSE_DELAY_MS {
        t
    } else {
        u128::MAX - FLOW_BOOTSTRAP_STATUS_CLOSE_DELAY_MS
    }
}

impl AppState {
    /// `new` is `self` after applying a server event at `now_ms`.
    pub open spec fn applies(self, new: AppState, event: ServerUiEvent, now_ms: u128) -> bool {
        match event {
            ServerUiEvent::IncrementRequestCount => {
                &&& new.wf()
                &&& new.request_count == sat_add(self.request_count, 1)
                &&& (AppState { request_count: self.request_count, ..new }).same_settings(&self)
                &&& new.logs@ == self.logs@
                &&& new.flows@ == self.flows@
                &&& new.flow_bootstrap_progress@ == self.flow_bootstrap_progress@
                &&& new.remote_connected == self.remote_connected
                &&& new.last_remote_activity_ms == self.last_remote_activity_ms
            },
            ServerUiEvent::SetRemoteConnected(connected) => {
                &&& new.wf()
                &&& new.same_settings(&self)
                &&& new.logs@ == self.logs@
                &&& new.flows@ == self.flows@
                &&& new.flow_bootstrap_progress@ == self.flow_bootstrap_progress@
                &&& new.remote_connected == connected
                &&& new.last_remote_activity_ms == if connected {
                    Some(now_ms)
                } else {
                    None
                }
            },
            ServerUiEvent::RecordFlow { flow_id, events, direction } => self.records(
                new,
                flow_id@,
                string_views(events@),
                direction,
                now_ms,
            ),
            ServerUiEvent::BeginFlowClose { flow_id } => self.closes(new, flow_id@, now_ms),
            ServerUiEvent::Log { level, message } => {
                &&& new.wf()
                &&& new.same_settings(&self)
                &&& new.logs@ == with_log(self.logs@, new.logs@.last())
                &&& new.logs@.last().level == level
                &&& new.logs@.last().message == message
                &&& new.logs@.last().time@ == hms((now_ms / 1000) as nat)
                &&& new.flows@ == self.flows@
                &&& new.flow_bootstrap_progress@ == self.flow_bootstrap_progress@
                &&& new.remote_connected == self.remote_connected
                &&& new.last_remote_activity_ms == self.last_remote_activity_ms
            },
        }
    }

    /// What an event needs: a new flow's id must be cut at a character
    /// boundary for its short id.
    pub open spec fn can_apply(self, event: ServerUiEvent) -> bool {
        match event {
            ServerUiEvent::RecordFlow { flow_id, events, .. } => self.can_record(
                flow_id@,
                string_views(events@),
            ),
            _ => true,
        }
    }

    /// Applies an event from the server at `now_ms`.
    pub fn apply_server_ui_event_at(&mut self, event: ServerUiEvent, now_ms: u128)
        requires
            old(self).wf(),
            now_ok(now_ms),
            old(self).can_apply(event),
        ensures
            old(self).applies(*final(self), event, now_ms),
    {
        match event {
            ServerUiEvent::IncrementRequestCount => {
                self.request_count = self.request_count.saturating_add(1);
            },
            ServerUiEvent::SetRemoteConnected(connected) => {
                self.remote_connected = connected;
                if connected {
                    self.last_remote_activity_ms = Some(now_ms);
                } else {
                    self.last_remote_activity_ms = None;
                }
            },
            ServerUiEvent::RecordFlow { flow_id, events, direction } => {
                self.record_flow_at(flow_id.as_str(), events.as_slice(), direction, now_ms);
            },
            ServerUiEvent::BeginFlowClose { flow_id } => {
                self.begin_flow_close_at(flow_id.as_str(), now_ms);
            },
            ServerUiEvent::Log { level, message } => {
                let time = hms_text(now_ms / 1000);
                self.log_at(level, message, time);
            },
        }
    }

    /// Applies an event from the server now.
    pub fn apply_server_ui_event(&mut self, event: ServerUiEvent)
        requires
            old(self).wf(),
            old(self).can_apply(event),
        ensures
            exists|now_ms: u128| now_ok(now_ms) && #[trigger] old(self).applies(*final(self), event, now_ms),
    {
        let now_ms = flow_clock();
        self.apply_server_ui_event_at(event, now_ms);
    }

    /// Records a batch of events of a flow now.
    pub fn record_flow(&mut self, flow_id: &str, events: &[String], direction: FlowDirection)
        requires
            old(self).wf(),
            old(self).can_record(flow_id@, string_views(events@)),
        ensures
            exists|now_ms: u128|
                now_ok(now_ms) && #[trigger] old(self).records(
                    *final(self),
                    flow_id@,
                    string_views(events@),
                    direction,
                    now_ms,
                ),
    {
        let now_ms = flow_clock();
        self.record_flow_at(flow_id, events, direction, now_ms);
    }

    /// Begins closing a flow now.
    pub fn begin_flow_close(&mut self, flow_id: &str)
        requires
            old(self).wf(),
        ensures
            exists|now_ms: u128| #[trigger] old(self).closes(*final(self), flow_id@, now_ms),
    {
        let now_ms = flow_clock();
        self.begin_flow_close_at(flow_id, now_ms);
    }

    /// Refreshes the lanes now.
    pub fn prune_closed_flows(&mut self)
        requires
            old(self).wf(),
        ensures
            exists|now_ms: u128| now_ok(now_ms) && #[trigger] old(self).prunes(*final(self), now_ms),
    {
        let now_ms = flow_clock();
        self.prune_closed_flows_at(now_ms);
    }
}

/// Recording keeps each flow to one lane, and the recorded flow's lane
/// comes first.
pub proof fn lemma_record_ids(
    lanes: Seq<LaneView>,
    id: Seq<char>,
    events: Seq<Seq<char>>,
    direction: FlowDirection,
    now_ms: u128,
    completed: nat,
    pending: Seq<usize>,
)
    requires
        lane_ids(lanes).no_duplicates(),
    ensures
        ({
            let r = lanes_after_record(lanes, id, events, direction, now_ms, completed, pending);
            &&& lane_ids(r).no_duplicates()
            &&& r[0].flow_id == id
            &&& r.len() == (if find_lane(lanes, id) >= 0 {
                lanes.len()
            } else {
                lanes.len() + 1
            })
        }),
{
    lemma_find_lane_found(lanes, id);
    let r = lanes_after_record(lanes, id, events, direction, now_ms, completed, pending);
    let idx = find_lane(lanes, id);
    let ids = lane_ids(lanes);
    if idx >= 0 {
        let rest = lanes.remove(idx);
        assert(lane_ids(r) =~= seq![id] + ids.remove(idx));
        assert forall|a: int, b: int| 0 <= a < b < lane_ids(r).len() implies lane_ids(r)[a] != lane_ids(
            r,
        )[b] by {
            let ra = if a == 0 { idx } else if a - 1 < idx { a - 1 } else { a };
            let rb = if b - 1 < idx { b - 1 } else { b };
            assert(lane_ids(r)[b] == ids[rb]);
            assert(lane_ids(r)[a] == ids[ra]);
        }
    } else {
        assert(lane_ids(r) =~= seq![id] + ids);
        assert forall|a: int, b: int| 0 <= a < b < lane_ids(r).len() implies lane_ids(r)[a] != lane_ids(
            r,
        )[b] by {
            assert(lane_ids(r)[b] == ids[b - 1]);
            assert(lanes[b - 1].flow_id != id);
            if a > 0 {
                assert(lane_ids(r)[a] == ids[a - 1]);
            }
        }
    }
}

/// After recording, the flow's lane holds the given bootstrap progress and
/// is neither closing nor waiting to hide its status, and the other lanes
/// keep their order behind it. Only an `initialize` event switches the
/// status on: without one, it stays on only where it was on and every
/// event belongs to the bootstrap.
pub proof fn lemma_record_front_lane(
    lanes: Seq<LaneView>,
    id: Seq<char>,
    events: Seq<Seq<char>>,
    direction: FlowDirection,
    now_ms: u128,
    completed: nat,
    pending: Seq<usize>,
)
    requires
        completed <= usize::MAX,
    ensures
        ({
            let r = lanes_after_record(lanes, id, events, direction, now_ms, completed, pending);
            let idx = find_lane(lanes, id);
            &&& r[0].completed == completed
            &&& r[0].pending == pending
            &&& r[0].closing_started is None
            &&& r[0].deadline is None
            &&& r[0].last_direction == direction
            &&& r.drop_first() == (if idx >= 0 {
                lanes.remove(idx)
            } else {
                lanes
            })
            &&& (exists|i: int| 0 <= i < events.len() && events[i] == "initialize"@) ==> r[0].active
            &&& (forall|i: int| 0 <= i < events.len() ==> events[i] != "initialize"@) ==> (r[0].active
                ==> {
                &&& idx >= 0
                &&& lanes[idx].active
                &&& forall|i: int| 0 <= i < events.len() ==> is_bootstrap_event(#[trigger] events[i])
            })
        }),
{
    let r = lanes_after_record(lanes, id, events, direction, now_ms, completed, pending);
    let idx = find_lane(lanes, id);
    if idx >= 0 {
        assert(r.drop_first() =~= lanes.remove(idx));
    } else {
        assert(r.drop_first() =~= lanes);
    }
}

/// Recording a non-empty batch of events for a flow puts that flow's lane
/// first, keeps one lane per flow, and marks the remote side connected
/// and active now. The lane keeps the last twelve of its earlier events
/// followed by the new ones, has no pending close deadline, and shows the
/// bootstrap status when an event is `initialize`, or when it showed it
/// before and every event is a bootstrap step's event.
pub proof fn lemma_record_flow_law(
    before: AppState,
    after: AppState,
    flow_id: Seq<char>,
    events: Seq<Seq<char>>,
    direction: FlowDirection,
    now_ms: u128,
)
    requires
        before.records(after, flow_id, events, direction, now_ms),
        events.len() > 0,
    ensures
        ({
            let olds = lane_views(before.flows@);
            let news = lane_views(after.flows@);
            let idx = find_lane(olds, flow_id);
            let was_active = idx >= 0 && olds[idx].active;
            let starts = exists|i: int| 0 <= i < events.len() && events[i] == "initialize"@;
            let only = forall|i: int| 0 <= i < events.len() ==> is_bootstrap_event(#[trigger] events[i]);
            &&& news.len() > 0
            &&& news[0].flow_id == flow_id
            &&& lane_ids(news).no_duplicates()
            &&& news[0].active == (starts || (was_active && only))
            &&& news[0].deadline is None
            &&& news[0].events == last12(
                (if idx >= 0 {
                    olds[idx].events
                } else {
                    seq![]
                }) + events,
            )
            &&& after.remote_connected
            &&& after.last_remote_activity_ms == Some(now_ms)
        }),
{
    let olds = lane_views(before.flows@);
    lemma_find_lane_found(olds, flow_id);
    let idx = find_lane(olds, flow_id);
    if idx < 0 {
        assert(Seq::<Seq<char>>::empty() + events =~= events);
    }
}

/// A refresh removes closing lanes only: every lane that is not closing
/// stays, refreshed.
pub proof fn lemma_prune_keeps_open_lanes(lanes: Seq<LaneView>, now_ms: u128, total: nat)
    ensures
        forall|j: int|
            0 <= j < lanes.len() && (#[trigger] lanes[j]).closing_started is None ==> lanes_after_prune(
                lanes,
                now_ms,
                total,
            ).contains(lane_ticked(lanes[j], now_ms, total)),
    decreases lanes.len(),
{
    if lanes.len() > 0 {
        let init = lanes.drop_last();
        lemma_prune_keeps_open_lanes(init, now_ms, total);
        let rest = lanes_after_prune(init, now_ms, total);
        let r = lanes_after_prune(lanes, now_ms, total);
        let l = lane_ticked(lanes.last(), now_ms, total);
        assert forall|j: int|
            0 <= j < lanes.len() && (#[trigger] lanes[j]).closing_started is None implies r.contains(
                lane_ticked(lanes[j], now_ms, total),
            ) by {
            if j < lanes.len() - 1 {
                assert(lanes[j] == init[j]);
                let k = choose|k: int| 0 <= k < rest.len() && rest[k] == lane_ticked(init[j], now_ms, total);
                if lane_alive(l, now_ms) {
                    assert(r[k] == rest[k]);
                } else {
                    assert(r == rest);
                }
            } else {
                assert(lanes[j] == lanes.last());
                assert(l.closing_started is None);
                assert(r[rest.len() as int] == l);
            }
        }
    }
}

/// Every lane left by a refresh is a refreshed lane that was there, and
/// is not expired; no flow gains a second lane.
pub proof fn lemma_prune_ids(lanes: Seq<LaneView>, now_ms: u128, total: nat)
    ensures
        forall|i: int|
            0 <= i < lanes_after_prune(lanes, now_ms, total).len() ==> exists|j: int|
                0 <= j < lanes.len() && #[trigger] lanes_after_prune(lanes, now_ms, total)[i]
                    == lane_ticked(lanes[j], now_ms, total),
        forall|i: int|
            0 <= i < lanes_after_prune(lanes, now_ms, total).len() ==> lane_alive(
                #[trigger] lanes_after_prune(lanes, now_ms, total)[i],
                now_ms,
            ),
        lane_ids(lanes).no_duplicates() ==> lane_ids(lanes_after_prune(lanes, now_ms, total)).no_duplicates(),
    decreases lanes.len(),
{
    if lanes.len() > 0 {
        let init = lanes.drop_last();
        lemma_prune_ids(init, now_ms, total);
        let rest = lanes_after_prune(init, now_ms, total);
        let r = lanes_after_prune(lanes, now_ms, total);
        let l = lane_ticked(lanes.last(), now_ms, total);
        assert forall|i: int| 0 <= i < r.len() implies exists|j: int|
            0 <= j < lanes.len() && #[trigger] r[i] == lane_ticked(lanes[j], now_ms, total) by {
            if i < rest.len() {
                let j = choose|j: int| 0 <= j < init.len() && #[trigger] rest[i] == lane_ticked(init[j], now_ms, total);
                assert(r[i] == rest[i]);
                assert(lanes[j] == init[j]);
            } else {
                assert(r[i] == l);
                assert(lanes[lanes.len() - 1] == lanes.last());
            }
        }
        assert forall|i: int| 0 <= i < r.len() implies lane_alive(#[trigger] r[i], now_ms) by {
            if i < rest.len() {
                assert(r[i] == rest[i]);
            }
        }
        if lane_ids(lanes).no_duplicates() {
            assert(lane_ids(init).no_duplicates()) by {
                assert forall|a: int, b: int| 0 <= a < b < lane_ids(init).len() implies lane_ids(init)[a]
                    != lane_ids(init)[b] by {
                    assert(lane_ids(init)[a] == lane_ids(lanes)[a]);
                    assert(lane_ids(init)[b] == lane_ids(lanes)[b]);
                }
            }
            assert forall|a: int, b: int| 0 <= a < b < lane_ids(r).len() implies lane_ids(r)[a]
                != lane_ids(r)[b] by {
                assert(lane_ids(r)[a] == r[a].flow_id);
                assert(lane_ids(r)[b] == r[b].flow_id);
                if b < rest.len() {
                    assert(r[a] == rest[a] && r[b] == rest[b]);
                    assert(lane_ids(rest)[a] == rest[a].flow_id);
                    assert(lane_ids(rest)[b] == rest[b].flow_id);
                } else {
                    let ja = choose|j: int| 0 <= j < init.len() && #[trigger] rest[a] == lane_ticked(init[j], now_ms, total);
                    assert(r[a] == rest[a]);
                    assert(r[b] == l);
                    assert(r[a].flow_id == init[ja].flow_id);
                    assert(l.flow_id == lanes.last().flow_id);
                    assert(init[ja] == lanes[ja]);
                    assert(lane_ids(lanes)[ja] == lanes[ja].flow_id);
                    assert(lane_ids(lanes)[lanes.len() - 1] == lanes.last().flow_id);
                }
            }
        }
    }
}

} // verus!
