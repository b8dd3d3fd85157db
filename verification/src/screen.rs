//! What the terminal screens decide: selecting and copying text with the
//! mouse, scrolling the log, editing prompts, and the settings, browser
//! and ngrok token screens.
use vstd::prelude::*;
use crate::text::string_views;
use crate::state::{AppState, ShowDetailMode, ToolMode};
use crate::text::{
    byte_cut_ok, byte_prefix_of, chars_of, contains_seq, joined, lemma_byte_prefix, lines,
    lines_of, prefix_bytes, push_char, push_chars, str_contains, string_of, trim_end,
    trim_end_chars,
};

verus! {

// ---------------------------------------------------------------------------
// Mouse selection
// ---------------------------------------------------------------------------

/// A cell position: column, row.
pub type Cell = (u16, u16);

/// `a` comes no later than `b` in reading order: by row, then column.
pub open spec fn reads_before(a: Cell, b: Cell) -> bool {
    a.1 < b.1 || (a.1 == b.1 && a.0 <= b.0)
}

/// A selection dragged with the left mouse button.
pub struct Selection {
    pub start: Option<Cell>,
    pub end: Option<Cell>,
    pub dragging: bool,
}

impl Selection {
    /// The selected span, first cell first, once both ends are set.
    pub open spec fn span(self) -> Option<(Cell, Cell)> {
        match (self.start, self.end) {
            (Some(s), Some(e)) => if reads_before(s, e) {
                Some((s, e))
            } else {
                Some((e, s))
            },
            _ => None,
        }
    }

    pub open spec fn is_empty(self) -> bool {
        self.start is None && self.end is None && !self.dragging
    }

    pub fn new() -> (s: Self)
        ensures
            s.is_empty(),
    {
        Selection { start: None, end: None, dragging: false }
    }

    pub fn clear(&mut self)
        ensures
            final(self).is_empty(),
    {
        self.start = None;
        self.end = None;
        self.dragging = false;
    }

    /// The selected span in reading order.
    pub fn range(&self) -> (r: Option<(Cell, Cell)>)
        ensures
            r == self.span(),
    {
        match (self.start, self.end) {
            (Some(s), Some(e)) => {
                if s.1 < e.1 || (s.1 == e.1 && s.0 <= e.0) {
                    Some((s, e))
                } else {
                    Some((e, s))
                }
            },
            _ => None,
        }
    }

    /// The left button goes down at `cell`: a new selection starts there.
    pub fn press(&mut self, cell: Cell)
        ensures
            final(self).start == Some(cell),
            final(self).end == Some(cell),
            final(self).dragging,
    {
        self.start = Some(cell);
        self.end = Some(cell);
        self.dragging = true;
    }

    /// The mouse moves to `cell` with the left button down.
    pub fn drag(&mut self, cell: Cell)
        ensures
            final(self).start == old(self).start,
            final(self).dragging == old(self).dragging,
            final(self).end == if old(self).dragging {
                Some(cell)
            } else {
                old(self).end
            },
    {
        if self.dragging {
            self.end = Some(cell);
        }
    }

    /// The left button comes up at `cell`; whether a drag ended there.
    pub fn release(&mut self, cell: Cell) -> (ended: bool)
        ensures
            ended == old(self).dragging,
            final(self).start == old(self).start,
            !final(self).dragging,
            final(self).end == if ended {
                Some(cell)
            } else {
                old(self).end
            },
    {
        if self.dragging {
            self.end = Some(cell);
            self.dragging = false;
            true
        } else {
            false
        }
    }
}

// ---------------------------------------------------------------------------
// Copying from the screen
// ---------------------------------------------------------------------------

/// The characters of screen row `row` that a selection from `start` to
/// `end` covers: from the start column on the first row (else from the
/// line's start) to the end column on the last row (else to the line's
/// end).
pub open spec fn row_piece(line: Seq<char>, row: int, start: Cell, end: Cell) -> Seq<char> {
    let last: int = if line.len() > 0 {
        line.len() - 1
    } else {
        0
    };
    let cs: int = if row == start.1 {
        start.0 as int
    } else {
        0
    };
    let ce: int = if row == end.1 && (end.0 as int) < last {
        end.0 as int
    } else {
        last
    };
    if cs <= ce && cs < line.len() {
        line.subrange(cs, ce + 1)
    } else {
        seq![]
    }
}

/// The covered characters of the screen rows from `row` to the end row,
/// as far as the screen has rows, a newline after each but the end row.
pub open spec fn covered_text(screen: Seq<Seq<char>>, row: int, start: Cell, end: Cell) -> Seq<char>
    decreases end.1 + 1 - row,
{
    if row > end.1 || row < 0 || row >= screen.len() {
        seq![]
    } else {
        row_piece(screen[row], row, start, end) + (if row != end.1 {
            seq!['\n']
        } else {
            seq![]
        }) + covered_text(screen, row + 1, start, end)
    }
}

/// The selected text: the covered lines, each without trailing whitespace.
pub open spec fn screen_text(screen: Seq<Seq<char>>, start: Cell, end: Cell) -> Seq<char> {
    joined(
        lines(covered_text(screen, start.1 as int, start, end)).map_values(
            |l: Seq<char>| trim_end(l),
        ),
        "\n"@,
    )
}

fn push_row_piece(out: &mut Vec<char>, line: &[char], row: u16, start: Cell, end: Cell)
    ensures
        final(out)@ == old(out)@ + row_piece(line@, row as int, start, end),
{
    let last: usize = if line.len() > 0 {
        line.len() - 1
    } else {
        0
    };
    let cs: usize = if row == start.1 {
        start.0 as usize
    } else {
        0
    };
    let ce: usize = if row == end.1 && (end.0 as usize) < last {
        end.0 as usize
    } else {
        last
    };
    if cs <= ce && cs < line.len() {
        let mut k = cs;
        while k <= ce
            invariant
                cs <= k <= ce + 1,
                ce < line@.len(),
                out@ == old(out)@ + line@.subrange(cs as int, k as int),
            decreases ce + 1 - k,
        {
            out.push(line[k]);
            assert(line@.subrange(cs as int, k + 1) =~= line@.subrange(cs as int, k as int).push(line@[k as int]));
            k += 1;
        }
    }
}

/// The text of the screen `lines` from `start` to `end`, in reading order,
/// each line without trailing whitespace.
pub fn extract_from_screen(screen_lines: &[String], start: Cell, end: Cell) -> (s: String)
    ensures
        s@ == screen_text(string_views(screen_lines@), start, end),
{
    let ghost screen = string_views(screen_lines@);
    let mut raw: Vec<char> = Vec::new();
    let mut r: u32 = start.1 as u32;
    while r <= end.1 as u32 && (r as usize) < screen_lines.len()
        invariant
            screen == string_views(screen_lines@),
            start.1 <= r,
            raw@ + covered_text(screen, r as int, start, end) == covered_text(screen, start.1 as int, start, end),
        decreases end.1 as u32 + 1 - r,
    {
        let ghost before = raw@;
        let line = chars_of(screen_lines[r as usize].as_str());
        assert(line@ == screen[r as int]);
        push_row_piece(&mut raw, line.as_slice(), r as u16, start, end);
        if r != end.1 as u32 {
            raw.push('\n');
        }
        assert(raw@ + covered_text(screen, r + 1, start, end) =~= before + covered_text(
            screen,
            r as int,
            start,
            end,
        ));
        r += 1;
    }
    assert(covered_text(screen, r as int, start, end) =~= Seq::<char>::empty());
    assert(raw@ =~= covered_text(screen, start.1 as int, start, end));
    let ls = lines_of(raw.as_slice());
    let ghost tl = lines(raw@).map_values(|l: Seq<char>| trim_end(l));
    let mut s = String::new();
    let mut i: usize = 0;
    assert(tl.take(0) =~= Seq::<Seq<char>>::empty());
    while i < ls.len()
        invariant
            i <= ls@.len(),
            ls@.len() == lines(raw@).len(),
            forall|k: int| 0 <= k < ls@.len() ==> (#[trigger] ls@[k])@ == lines(raw@)[k],
            tl == lines(raw@).map_values(|l: Seq<char>| trim_end(l)),
            s@ == joined(tl.take(i as int), "\n"@),
        decreases ls@.len() - i,
    {
        assert(tl.take(i + 1).drop_last() =~= tl.take(i as int));
        assert(tl.take(i + 1).last() == trim_end(ls@[i as int]@));
        if i > 0 {
            push_char(&mut s, '\n');
        } else {
            assert(tl.take(1) =~= seq![tl[0]]);
        }
        let t = trim_end_chars(ls[i].as_slice());
        push_chars(&mut s, t.as_slice());
        proof {
            reveal_strlit("\n");
        }
        i += 1;
    }
    assert(tl.take(ls@.len() as int) =~= tl);
    s
}

pub open spec fn connectors_url() -> Seq<char> {
    "https://chatgpt.com/apps#settings/Connectors"@
}

/// What a click on a screen line copies: the connectors page from the line
/// that names it; the MCP URL from the line that shows it (or its first
/// 30 bytes); else, from a row of the connector table, the value to enter
/// for its name or its authentication.
pub open spec fn copy_target_of(line: Seq<char>, mcp_url: Option<Seq<char>>) -> Option<Seq<char>> {
    let first = if contains_seq(line, "chatgpt.com/apps"@) {
        Some(connectors_url())
    } else {
        match mcp_url {
            Some(u) => if contains_seq(line, "MCP Server URL"@) || contains_seq(
                line,
                byte_prefix_of(u, 30),
            ) {
                Some(u)
            } else {
                None
            },
            None => None,
        }
    };
    match first {
        Some(t) => Some(t),
        None => if contains_seq(line, "\u{2502}"@) {
            if contains_seq(line, "Name"@) {
                Some("CatDesk"@)
            } else if contains_seq(line, "Authentication"@) {
                Some("None"@)
            } else {
                None
            }
        } else {
            None
        },
    }
}

/// The text a click on `line` copies, if any.
pub fn copy_target(line: &str, mcp_url: Option<&str>) -> (r: Option<String>)
    requires
        mcp_url matches Some(u) ==> byte_cut_ok(u@, 30),
    ensures
        match r {
            Some(t) => copy_target_of(line@, crate::text::opt_str_view(mcp_url)) == Some(t@),
            None => copy_target_of(line@, crate::text::opt_str_view(mcp_url)) is None,
        },
{
    proof {
        reveal_strlit("https://chatgpt.com/apps#settings/Connectors");
        reveal_strlit("CatDesk");
        reveal_strlit("None");
    }
    if str_contains(line, "chatgpt.com/apps") {
        return Some(string_of(chars_of("https://chatgpt.com/apps#settings/Connectors").as_slice()));
    }
    match mcp_url {
        Some(url) => {
            let prefix = prefix_bytes(chars_of(url).as_slice(), 30);
            proof {
                lemma_byte_prefix(url@, 30, prefix@);
            }
            let p = string_of(prefix.as_slice());
            if str_contains(line, "MCP Server URL") || str_contains(line, p.as_str()) {
                return Some(string_of(chars_of(url).as_slice()));
            }
        },
        None => {},
    }
    if str_contains(line, "\u{2502}") {
        if str_contains(line, "Name") {
            return Some(string_of(chars_of("CatDesk").as_slice()));
        } else if str_contains(line, "Authentication") {
            return Some(string_of(chars_of("None").as_slice()));
        }
    }
    None
}

// ---------------------------------------------------------------------------
// Log scrolling
// ---------------------------------------------------------------------------

/// Where the log view is: following the newest entries, or scrolled to a
/// line.
pub struct LogView {
    pub scroll: usize,
    pub follow_tail: bool,
}

impl LogView {
    pub fn new() -> (v: Self)
        ensures
            v.scroll == 0,
            v.follow_tail,
    {
        LogView { scroll: 0, follow_tail: true }
    }

    /// One line up: leaves the tail one line above where it was showing
    /// (`shown`), or moves one line up.
    pub fn scroll_up(&mut self, shown: usize)
        ensures
            !final(self).follow_tail,
            final(self).scroll == if old(self).follow_tail {
                if shown > 0 {
                    shown - 1
                } else {
                    0
                }
            } else if old(self).scroll > 0 {
                old(self).scroll - 1
            } else {
                0
            },
    {
        if self.follow_tail {
            self.follow_tail = false;
            self.scroll = shown.saturating_sub(1);
        } else {
            self.scroll = self.scroll.saturating_sub(1);
        }
    }

    /// One line down, no further than `max_scroll`; reaching it follows the
    /// tail again.
    pub fn scroll_down(&mut self, max_scroll: usize)
        requires
            !old(self).follow_tail ==> old(self).scroll < usize::MAX,
        ensures
            old(self).follow_tail ==> *final(self) == *old(self),
            !old(self).follow_tail ==> {
                let s = if old(self).scroll + 1 < max_scroll {
                    old(self).scroll + 1
                } else {
                    max_scroll as int
                };
                &&& final(self).scroll == s
                &&& final(self).follow_tail == (s >= max_scroll)
            },
    {
        if !self.follow_tail {
            let next = self.scroll + 1;
            self.scroll = if next < max_scroll {
                next
            } else {
                max_scroll
            };
            if self.scroll >= max_scroll {
                self.follow_tail = true;
            }
        }
    }

    /// Back to the newest entries.
    pub fn jump_to_end(&mut self, max_scroll: usize)
        ensures
            final(self).follow_tail,
            final(self).scroll == max_scroll,
    {
        self.follow_tail = true;
        self.scroll = max_scroll;
    }

    /// After drawing, a scrolled view stays within `max_scroll`.
    pub fn settle(&mut self, max_scroll: usize)
        ensures
            final(self).follow_tail == old(self).follow_tail,
            final(self).scroll == if !old(self).follow_tail && old(self).scroll > max_scroll {
                max_scroll
            } else {
                old(self).scroll
            },
    {
        if !self.follow_tail && self.scroll > max_scroll {
            self.scroll = max_scroll;
        }
    }
}

// ---------------------------------------------------------------------------
// Areas
// ---------------------------------------------------------------------------

/// A rectangle of terminal cells.
#[derive(Clone, Copy, PartialEq, Eq, Structural)]
pub struct Area {
    pub x: u16,
    pub y: u16,
    pub width: u16,
    pub height: u16,
}

pub open spec fn sat_add16(a: u16, b: u16) -> int {
    if a + b > u16::MAX {
        u16::MAX as int
    } else {
        a + b
    }
}

pub open spec fn sat_sub(a: int, b: int) -> int {
    if a > b {
        a - b
    } else {
        0
    }
}

/// The cell lies in the area (its far edges saturating at the screen's).
pub open spec fn in_area(area: Area, column: u16, row: u16) -> bool {
    &&& column >= area.x
    &&& column < sat_add16(area.x, area.width)
    &&& row >= area.y
    &&& row < sat_add16(area.y, area.height)
}

pub fn rect_contains(area: Area, column: u16, row: u16) -> (b: bool)
    ensures
        b == in_area(area, column, row),
{
    column >= area.x && column < area.x.saturating_add(area.width) && row >= area.y && row
        < area.y.saturating_add(area.height)
}

/// Width of a centred popup: `percent_x` percent of the area, at least 44,
/// but no wider than the area less two (at least 1).
pub open spec fn popup_width(percent_x: u16, area: Area) -> int {
    let scaled = if area.width * percent_x > u16::MAX {
        u16::MAX as int
    } else {
        area.width * percent_x
    };
    let w = if scaled / 100 > 44 {
        scaled / 100
    } else {
        44
    };
    let cap = if sat_sub(area.width as int, 2) > 1 {
        sat_sub(area.width as int, 2)
    } else {
        1
    };
    if w < cap {
        w
    } else {
        cap
    }
}

/// Height of a centred popup: `height`, no taller than the area less two
/// (at least 1).
pub open spec fn popup_height(height: u16, area: Area) -> int {
    let cap = if sat_sub(area.height as int, 2) > 1 {
        sat_sub(area.height as int, 2)
    } else {
        1
    };
    if height < cap {
        height as int
    } else {
        cap
    }
}

/// The popup fits the screen's coordinates.
pub open spec fn centered_fits(percent_x: u16, height: u16, area: Area) -> bool {
    &&& area.x + sat_sub(area.width as int, popup_width(percent_x, area)) / 2 <= u16::MAX
    &&& area.y + sat_sub(area.height as int, popup_height(height, area)) / 2 <= u16::MAX
}

/// The width of the toast label ` msg `: its length in bytes, kept to the
/// low 16 bits.
pub open spec fn toast_width(msg: Seq<char>) -> u16 {
    ((crate::text::utf8_len(msg) + 2) % 65536) as u16
}

/// Where a toast for `msg` goes, one row tall: right of the pointer at
/// `pos`, kept on screen, above its row (below on the first row).
pub fn toast_area(msg: &str, pos: (u16, u16), area: Area) -> (r: Area)
    ensures
        r.width == toast_width(msg@),
        r.height == 1,
        r.x == (if sat_add16(pos.0, 1) < sat_sub(area.width as int, r.width as int) {
            sat_add16(pos.0, 1)
        } else {
            sat_sub(area.width as int, r.width as int)
        }),
        r.y == ({
            let y = if pos.1 > 0 {
                pos.1 - 1
            } else {
                pos.1 + 1
            };
            if y < sat_sub(area.height as int, 1) {
                y
            } else {
                sat_sub(area.height as int, 1)
            }
        }),
{
    let v = chars_of(msg);
    let mut acc: u32 = 2;
    let mut i: usize = 0;
    assert(v@.take(0) =~= Seq::<char>::empty());
    while i < v.len()
        invariant
            i <= v@.len(),
            acc < 65536,
            acc == (crate::text::utf8_len(v@.take(i as int)) + 2) % 65536,
        decreases v@.len() - i,
    {
        let n = crate::text::utf8_char_len_exec(v[i]);
        proof {
            crate::text::lemma_utf8_step(v@, i as int);
            vstd::arithmetic::div_mod::lemma_add_mod_noop(
                crate::text::utf8_len(v@.take(i as int)) + 2int,
                crate::text::utf8_char_len(v@[i as int]) as int,
                65536,
            );
            assert(crate::text::utf8_char_len(v@[i as int]) <= 4);
            assert((crate::text::utf8_char_len(v@[i as int]) as int) % 65536 == crate::text::utf8_char_len(
                v@[i as int],
            ));
        }
        acc = (acc + n as u32) % 65536;
        i += 1;
    }
    assert(v@.take(v@.len() as int) =~= v@);
    let w = acc as u16;
    let x0 = pos.0.saturating_add(1);
    let xmax = area.width.saturating_sub(w);
    let x = if x0 < xmax { x0 } else { xmax };
    let y0 = if pos.1 > 0 { pos.1 - 1 } else { pos.1 + 1 };
    let ymax = area.height.saturating_sub(1);
    let y = if y0 < ymax { y0 } else { ymax };
    Area { x, y, width: w, height: 1 }
}

/// A popup `percent_x` percent wide and `height` tall, centred in `area`.
pub fn centered_rect(percent_x: u16, height: u16, area: Area) -> (r: Area)
    requires
        centered_fits(percent_x, height, area),
    ensures
        r.width == popup_width(percent_x, area),
        r.height == popup_height(height, area),
        r.x == area.x + sat_sub(area.width as int, r.width as int) / 2,
        r.y == area.y + sat_sub(area.height as int, r.height as int) / 2,
{
    let a: u32 = area.width as u32;
    let b: u32 = percent_x as u32;
    assert(a * b <= 0xffff * 0xffff) by (nonlinear_arith)
        requires
            a <= 0xffff,
            b <= 0xffff,
    ;
    let product: u32 = a * b;
    let scaled: u16 = if product > 0xffff {
        0xffff
    } else {
        product as u16
    };
    let w = if scaled / 100 > 44 {
        scaled / 100
    } else {
        44
    };
    let cap = if area.width.saturating_sub(2) > 1 {
        area.width.saturating_sub(2)
    } else {
        1
    };
    let width = if w < cap {
        w
    } else {
        cap
    };
    let hcap = if area.height.saturating_sub(2) > 1 {
        area.height.saturating_sub(2)
    } else {
        1
    };
    let popup_h = if height < hcap {
        height
    } else {
        hcap
    };
    let x = area.x + area.width.saturating_sub(width) / 2;
    let y = area.y + area.height.saturating_sub(popup_h) / 2;
    Area { x, y, width, height: popup_h }
}

/// The ngrok token popup: 90 percent wide and 15 rows tall.
pub fn ngrok_auth_setup_modal_area(anchor_area: Area) -> (r: Area)
    requires
        centered_fits(90, 15, anchor_area),
    ensures
        r.width == popup_width(90, anchor_area),
        r.height == popup_height(15, anchor_area),
        r.x == anchor_area.x + sat_sub(anchor_area.width as int, r.width as int) / 2,
        r.y == anchor_area.y + sat_sub(anchor_area.height as int, r.height as int) / 2,
{
    centered_rect(90, 15, anchor_area)
}

// ---------------------------------------------------------------------------
// Text prompts
// ---------------------------------------------------------------------------

/// A key or paste while a prompt is open.
pub enum PromptInput {
    Paste(String),
    Char(char),
    Backspace,
    Enter,
    Esc,
    Other,
}

#[derive(PartialEq, Eq, Structural)]
pub enum PromptStep {
    Editing,
    Submit,
    Cancel,
}

/// Edits the prompt's `input`: Enter submits it, Esc cancels, Backspace
/// removes the last character, a character or a paste is appended.
pub fn prompt_key(input: &mut String, key: PromptInput) -> (step: PromptStep)
    ensures
        match key {
            PromptInput::Paste(t) => step == PromptStep::Editing && final(input)@ == old(input)@ + t@,
            PromptInput::Char(c) => step == PromptStep::Editing && final(input)@ == old(input)@.push(c),
            PromptInput::Backspace => {
                let before = old(input)@;
                step == PromptStep::Editing && final(input)@ == (if before.len() > 0 {
                    before.drop_last()
                } else {
                    before
                })
            },
            PromptInput::Enter => step == PromptStep::Submit && final(input)@ == old(input)@,
            PromptInput::Esc => step == PromptStep::Cancel && final(input)@ == old(input)@,
            PromptInput::Other => step == PromptStep::Editing && final(input)@ == old(input)@,
        },
{
    match key {
        PromptInput::Paste(t) => {
            crate::text::push_str(input, t.as_str());
            PromptStep::Editing
        },
        PromptInput::Char(c) => {
            push_char(input, c);
            PromptStep::Editing
        },
        PromptInput::Backspace => {
            pop_char(input);
            PromptStep::Editing
        },
        PromptInput::Enter => PromptStep::Submit,
        PromptInput::Esc => PromptStep::Cancel,
        PromptInput::Other => PromptStep::Editing,
    }
}

/// Removes the last character, if any.
fn pop_char(s: &mut String)
    ensures
        final(s)@ == if old(s)@.len() > 0 {
            old(s)@.drop_last()
        } else {
            old(s)@
        },
{
    let v = chars_of(s.as_str());
    if v.len() > 0 {
        let t = crate::text::slice_chars(v.as_slice(), 0, v.len() - 1);
        assert(t@ =~= v@.drop_last());
        *s = string_of(t.as_slice());
    }
}

// ---------------------------------------------------------------------------
// Keys
// ---------------------------------------------------------------------------

/// The key of a key press, as far as the screens tell keys apart.
pub enum KeyCode {
    Insert,
    Char(char),
    Other,
}

/// The modifiers held with a key.
#[derive(Clone, Copy)]
pub struct KeyModifiers {
    pub shift: bool,
    pub control: bool,
}

impl KeyModifiers {
    pub fn none() -> (m: KeyModifiers)
        ensures
            !m.shift && !m.control,
    {
        KeyModifiers { shift: false, control: false }
    }

    pub fn shift() -> (m: KeyModifiers)
        ensures
            m.shift && !m.control,
    {
        KeyModifiers { shift: true, control: false }
    }

    pub fn control() -> (m: KeyModifiers)
        ensures
            !m.shift && m.control,
    {
        KeyModifiers { shift: false, control: true }
    }
}

/// A key press.
pub struct KeyEvent {
    pub code: KeyCode,
    pub modifiers: KeyModifiers,
}

impl KeyEvent {
    pub fn new(code: KeyCode, modifiers: KeyModifiers) -> (k: KeyEvent)
        ensures
            k.code == code,
            k.modifiers == modifiers,
    {
        KeyEvent { code, modifiers }
    }
}

/// Shift+Insert, or Ctrl with `v` in either case, asks for the clipboard.
pub fn key_is_clipboard_paste(key: &KeyEvent) -> (b: bool)
    ensures
        b == ((key.code is Insert && key.modifiers.shift) || (key.code matches KeyCode::Char(c) && (c
            == 'v' || c == 'V') && key.modifiers.control)),
{
    match key.code {
        KeyCode::Insert => key.modifiers.shift,
        KeyCode::Char(c) => (c == 'v' || c == 'V') && key.modifiers.control,
        KeyCode::Other => false,
    }
}

// ---------------------------------------------------------------------------
// The ngrok token screen
// ---------------------------------------------------------------------------

/// A key or paste on the token screen. Paste stands for a terminal paste
/// and for Ctrl+V or Shift+Insert with the clipboard's text.
pub enum TokenInput {
    Quit,
    Enter,
    Backspace,
    Char(char),
    Paste(String),
    Other,
}

/// What the token screen does next.
pub enum TokenStep {
    Editing,
    Cancel,
    Save(String),
}

/// The token typed so far and the error shown under it.
pub struct TokenEntry {
    pub input: String,
    pub error: Option<String>,
}

pub open spec fn empty_token_msg() -> Seq<char> {
    "NGROK_AUTHTOKEN cannot be empty"@
}

/// Handles a key on the token screen: Enter saves the token taken from the
/// input (or shows that it is empty); typing and pasting clear the error,
/// a paste adding the token taken from the pasted text.
pub fn token_key(entry: &mut TokenEntry, key: TokenInput) -> (step: TokenStep)
    ensures
        match key {
            TokenInput::Quit => step is Cancel && *final(entry) == *old(entry),
            TokenInput::Enter => {
                let token = crate::tui::authtoken_input(old(entry).input@);
                &&& final(entry).input == old(entry).input
                &&& if token.len() == 0 {
                    &&& step is Editing
                    &&& (final(entry).error matches Some(e) && e@ == empty_token_msg())
                } else {
                    &&& (step matches TokenStep::Save(t) && t@ == token)
                    &&& final(entry).error == old(entry).error
                }
            },
            TokenInput::Backspace => {
                let before = old(entry).input@;
                &&& step is Editing
                &&& final(entry).error is None
                &&& final(entry).input@ == if before.len() > 0 {
                    before.drop_last()
                } else {
                    before
                }
            },
            TokenInput::Char(c) => {
                &&& step is Editing
                &&& final(entry).error is None
                &&& final(entry).input@ == old(entry).input@.push(c)
            },
            TokenInput::Paste(t) => {
                &&& step is Editing
                &&& final(entry).error is None
                &&& final(entry).input@ == old(entry).input@ + crate::tui::authtoken_input(t@)
            },
            TokenInput::Other => step is Editing && *final(entry) == *old(entry),
        },
{
    match key {
        TokenInput::Quit => TokenStep::Cancel,
        TokenInput::Enter => {
            let token = crate::tui::normalize_ngrok_authtoken_input(entry.input.as_str());
            if token.as_str().is_empty() {
                proof {
                    reveal_strlit("NGROK_AUTHTOKEN cannot be empty");
                }
                entry.error = Some(string_of(chars_of("NGROK_AUTHTOKEN cannot be empty").as_slice()));
                TokenStep::Editing
            } else {
                TokenStep::Save(token)
            }
        },
        TokenInput::Backspace => {
            pop_char(&mut entry.input);
            entry.error = None;
            TokenStep::Editing
        },
        TokenInput::Char(c) => {
            push_char(&mut entry.input, c);
            entry.error = None;
            TokenStep::Editing
        },
        TokenInput::Paste(t) => {
            let token = crate::tui::normalize_ngrok_authtoken_input(t.as_str());
            crate::text::push_str(&mut entry.input, token.as_str());
            entry.error = None;
            TokenStep::Editing
        },
        TokenInput::Other => TokenStep::Editing,
    }
}

/// `Failed to save ~/.catdesk/config.toml: {error}`.
pub fn token_save_failed_message(error: &str) -> (s: String)
    ensures
        s@ == "Failed to save ~/.catdesk/config.toml: "@ + error@,
{
    let mut s = String::new();
    crate::text::push_str(&mut s, "Failed to save ~/.catdesk/config.toml: ");
    crate::text::push_str(&mut s, error);
    s
}


// ---------------------------------------------------------------------------
// The settings screen
// ---------------------------------------------------------------------------

/// A key on the settings screen.
pub enum SettingsInput {
    Quit,
    Up,
    Down,
    Enter,
    Reset,
    Other,
}

/// What the settings screen does next.
pub enum SettingsAction {
    Stay,
    Exit,
    Theme(usize),
    SetToolMode(ToolMode),
    SetDetailMode(ShowDetailMode),
    ToggleCoAuthor,
    KeepSlug,
    NewSlug,
    EditDomain,
    ResetBilling,
}

/// The highlighted row, and whether the token billing reset awaits its
/// confirmation.
pub struct SettingsMenu {
    pub selected_row: usize,
    pub confirm_reset: bool,
}

/// Rows of the settings list: the themes, two tool modes, three widget
/// detail modes, the co-author switch, keeping the slug, a new slug and the
/// ngrok domain.
pub open spec fn settings_rows(theme_count: nat) -> nat {
    theme_count + 9
}

pub open spec fn tool_mode_at(i: int) -> ToolMode {
    if i == 0 {
        ToolMode::MultiTools
    } else {
        ToolMode::ReadOnly
    }
}

pub open spec fn detail_mode_at(i: int) -> ShowDetailMode {
    if i == 0 {
        ShowDetailMode::Disable
    } else if i == 1 {
        ShowDetailMode::Expanded
    } else {
        ShowDetailMode::Collapsed
    }
}

/// What Enter does on `row`.
pub open spec fn row_action(row: nat, theme_count: nat) -> SettingsAction {
    if row < theme_count {
        SettingsAction::Theme(row as usize)
    } else if row < theme_count + 2 {
        SettingsAction::SetToolMode(tool_mode_at(row - theme_count))
    } else if row < theme_count + 5 {
        SettingsAction::SetDetailMode(detail_mode_at(row - theme_count - 2))
    } else if row == theme_count + 5 {
        SettingsAction::ToggleCoAuthor
    } else if row == theme_count + 6 {
        SettingsAction::KeepSlug
    } else if row == theme_count + 7 {
        SettingsAction::NewSlug
    } else if row == theme_count + 8 {
        SettingsAction::EditDomain
    } else {
        SettingsAction::Stay
    }
}

/// Handles a key on the settings screen with `theme_count` themes: arrows
/// move within the list, Enter acts on the row, `r` asks to confirm and a
/// second `r` resets the token billing; any other key cancels the
/// confirmation.
pub fn settings_key(menu: &mut SettingsMenu, theme_count: usize, key: SettingsInput) -> (a:
    SettingsAction)
    requires
        theme_count + 9 <= usize::MAX,
    ensures
        match key {
            SettingsInput::Quit => a is Exit && *final(menu) == *old(menu),
            SettingsInput::Up => {
                &&& a is Stay
                &&& !final(menu).confirm_reset
                &&& final(menu).selected_row == if old(menu).selected_row > 0 {
                    old(menu).selected_row - 1
                } else {
                    0
                }
            },
            SettingsInput::Down => {
                &&& a is Stay
                &&& !final(menu).confirm_reset
                &&& final(menu).selected_row == if old(menu).selected_row + 1 < settings_rows(
                    theme_count as nat,
                ) {
                    old(menu).selected_row + 1
                } else {
                    old(menu).selected_row as int
                }
            },
            SettingsInput::Enter => {
                &&& a == row_action(old(menu).selected_row as nat, theme_count as nat)
                &&& !final(menu).confirm_reset
                &&& final(menu).selected_row == old(menu).selected_row
            },
            SettingsInput::Reset => {
                &&& final(menu).selected_row == old(menu).selected_row
                &&& if old(menu).confirm_reset {
                    a is ResetBilling && !final(menu).confirm_reset
                } else {
                    a is Stay && final(menu).confirm_reset
                }
            },
            SettingsInput::Other => {
                &&& a is Stay
                &&& !final(menu).confirm_reset
                &&& final(menu).selected_row == old(menu).selected_row
            },
        },
{
    match key {
        SettingsInput::Quit => SettingsAction::Exit,
        SettingsInput::Up => {
            menu.confirm_reset = false;
            menu.selected_row = menu.selected_row.saturating_sub(1);
            SettingsAction::Stay
        },
        SettingsInput::Down => {
            menu.confirm_reset = false;
            if menu.selected_row < theme_count + 8 {
                menu.selected_row = menu.selected_row + 1;
            }
            SettingsAction::Stay
        },
        SettingsInput::Enter => {
            menu.confirm_reset = false;
            let row = menu.selected_row;
            if row < theme_count {
                SettingsAction::Theme(row)
            } else if row < theme_count + 2 {
                SettingsAction::SetToolMode(
                    if row == theme_count {
                        ToolMode::MultiTools
                    } else {
                        ToolMode::ReadOnly
                    },
                )
            } else if row < theme_count + 5 {
                SettingsAction::SetDetailMode(
                    if row == theme_count + 2 {
                        ShowDetailMode::Disable
                    } else if row == theme_count + 3 {
                        ShowDetailMode::Expanded
                    } else {
                        ShowDetailMode::Collapsed
                    },
                )
            } else if row == theme_count + 5 {
                SettingsAction::ToggleCoAuthor
            } else if row == theme_count + 6 {
                SettingsAction::KeepSlug
            } else if row == theme_count + 7 {
                SettingsAction::NewSlug
            } else if row == theme_count + 8 {
                SettingsAction::EditDomain
            } else {
                SettingsAction::Stay
            }
        },
        SettingsInput::Reset => {
            if menu.confirm_reset {
                menu.confirm_reset = false;
                SettingsAction::ResetBilling
            } else {
                menu.confirm_reset = true;
                SettingsAction::Stay
            }
        },
        SettingsInput::Other => {
            menu.confirm_reset = false;
            SettingsAction::Stay
        },
    }
}

/// The row of the current theme among `theme_ids`, or the first row.
pub fn initial_settings_row(theme_ids: &[String], current: &str) -> (row: usize)
    ensures
        row == 0 || (row < theme_ids@.len() && theme_ids@[row as int]@ == current@),
        (exists|i: int| 0 <= i < theme_ids@.len() && (#[trigger] theme_ids@[i])@ == current@) ==> {
            &&& theme_ids@[row as int]@ == current@
            &&& forall|j: int| 0 <= j < row ==> (#[trigger] theme_ids@[j])@ != current@
        },
{
    let mut i: usize = 0;
    while i < theme_ids.len()
        invariant
            i <= theme_ids@.len(),
            forall|j: int| 0 <= j < i ==> (#[trigger] theme_ids@[j])@ != current@,
        decreases theme_ids@.len() - i,
    {
        if crate::text::str_eq(theme_ids[i].as_str(), current) {
            return i;
        }
        i += 1;
    }
    0
}

/// The ngrok domain typed in the prompt, without surrounding whitespace,
/// an `https://` or `http://` scheme, or trailing slashes; none when empty.
pub open spec fn without_scheme(t: Seq<char>) -> Seq<char> {
    if crate::text::starts_with(t, "https://"@) {
        t.skip(8)
    } else if crate::text::starts_with(t, "http://"@) {
        t.skip(7)
    } else {
        t
    }
}

pub open spec fn without_trailing_slashes(t: Seq<char>) -> Seq<char>
    decreases t.len(),
{
    if t.len() > 0 && t.last() == '/' {
        without_trailing_slashes(t.drop_last())
    } else {
        t
    }
}

pub open spec fn cleaned_domain(input: Seq<char>) -> Option<Seq<char>> {
    let c = without_trailing_slashes(without_scheme(crate::text::trim(input)));
    if c.len() == 0 {
        None
    } else {
        Some(c)
    }
}

pub fn clean_ngrok_domain(input: &str) -> (r: Option<String>)
    ensures
        crate::text::opt_string_view(r) == cleaned_domain(input@),
{
    let t = crate::text::trim_chars(chars_of(input).as_slice());
    let https = chars_of("https://");
    let http = chars_of("http://");
    proof {
        reveal_strlit("https://");
        reveal_strlit("http://");
    }
    let start: usize = if crate::text::starts_with_chars(t.as_slice(), https.as_slice()) {
        8
    } else if crate::text::starts_with_chars(t.as_slice(), http.as_slice()) {
        7
    } else {
        0
    };
    let ghost u = t@.skip(start as int);
    assert(u == without_scheme(t@));
    let mut end: usize = t.len();
    assert(t@.subrange(start as int, end as int) =~= u);
    while end > start && t[end - 1] == '/'
        invariant
            start <= end <= t@.len(),
            without_trailing_slashes(t@.subrange(start as int, end as int)) == without_trailing_slashes(u),
        decreases end,
    {
        assert(t@.subrange(start as int, end as int).drop_last() =~= t@.subrange(
            start as int,
            end - 1,
        ));
        end -= 1;
    }
    if end == start {
        None
    } else {
        let c = crate::text::slice_chars(t.as_slice(), start, end);
        Some(string_of(c.as_slice()))
    }
}

/// Picks theme `id` (shown as `label`): the message to log when it changes
/// the setting.
pub fn pick_theme(app: &mut AppState, id: &str, label: &str) -> (msg: Option<String>)
    ensures
        if old(app).theme@ == id@ {
            msg is None && *final(app) == *old(app)
        } else {
            &&& (msg matches Some(m) && m@ == "Theme changed to "@ + label@)
            &&& final(app).theme@ == id@
            &&& *final(app) == (AppState { theme: final(app).theme, ..*old(app) })
        },
{
    if crate::text::str_eq(app.theme.as_str(), id) {
        None
    } else {
        app.theme = string_of(chars_of(id).as_slice());
        let mut m = String::new();
        crate::text::push_str(&mut m, "Theme changed to ");
        crate::text::push_str(&mut m, label);
        Some(m)
    }
}

/// Picks a tool mode: the message to log when it changes the setting.
pub fn pick_tool_mode(app: &mut AppState, mode: ToolMode) -> (msg: Option<String>)
    ensures
        if old(app).tool_mode == mode {
            msg is None && *final(app) == *old(app)
        } else {
            &&& (msg matches Some(m) && m@ == "Tool mode: "@ + crate::state::tool_mode_label(mode))
            &&& *final(app) == (AppState { tool_mode: mode, ..*old(app) })
        },
{
    if app.tool_mode == mode {
        None
    } else {
        app.tool_mode = mode;
        let mut m = String::new();
        crate::text::push_str(&mut m, "Tool mode: ");
        crate::text::push_str(&mut m, mode.label());
        Some(m)
    }
}

/// Picks a widget detail mode: the message to log when it changes the
/// setting.
pub fn pick_detail_mode(app: &mut AppState, mode: ShowDetailMode) -> (msg: Option<String>)
    ensures
        if old(app).show_detail_mode == mode {
            msg is None && *final(app) == *old(app)
        } else {
            &&& (msg matches Some(m) && m@ == "Widget detail mode: "@ + crate::state::detail_mode_label(
                mode,
            ))
            &&& *final(app) == (AppState { show_detail_mode: mode, ..*old(app) })
        },
{
    if app.show_detail_mode == mode {
        None
    } else {
        app.show_detail_mode = mode;
        let mut m = String::new();
        crate::text::push_str(&mut m, "Widget detail mode: ");
        crate::text::push_str(&mut m, mode.label());
        Some(m)
    }
}

/// Switches the co-author trailer on or off: the message to log.
pub fn toggle_co_author(app: &mut AppState) -> (msg: String)
    ensures
        *final(app) == (AppState {
            set_catdesk_as_co_author: !old(app).set_catdesk_as_co_author,
            ..*old(app)
        }),
        msg@ == "Set CatDesk as co-author: "@ + if final(app).set_catdesk_as_co_author {
            "enabled"@
        } else {
            "disabled"@
        },
{
    app.set_catdesk_as_co_author = !app.set_catdesk_as_co_author;
    let mut m = String::new();
    crate::text::push_str(&mut m, "Set CatDesk as co-author: ");
    crate::text::push_str(
        &mut m,
        if app.set_catdesk_as_co_author {
            "enabled"
        } else {
            "disabled"
        },
    );
    m
}

/// Sets the ngrok static domain from what was typed in the prompt.
pub fn set_ngrok_domain(app: &mut AppState, input: &str)
    ensures
        crate::text::opt_string_view(final(app).ngrok_domain) == cleaned_domain(input@),
        *final(app) == (AppState { ngrok_domain: final(app).ngrok_domain, ..*old(app) }),
{
    app.ngrok_domain = clean_ngrok_domain(input);
}

/// Clears the persisted token billing totals.
pub fn reset_billing(app: &mut AppState)
    ensures
        *final(app) == (AppState {
            usage_totals: crate::state::UsageTotals {
                input_tokens: 0,
                output_tokens: 0,
                total_tokens: 0,
                tool_call_count: 0,
            },
            ..*old(app)
        }),
{
    app.usage_totals = crate::state::UsageTotals {
        input_tokens: 0,
        output_tokens: 0,
        total_tokens: 0,
        tool_call_count: 0,
    };
}

// ---------------------------------------------------------------------------
// The browser screen
// ---------------------------------------------------------------------------

/// A browser found on the machine, as the selection screen reads it.
pub struct BrowserChoice {
    pub path: String,
    pub binary: String,
    pub mcp_supported: bool,
}

/// Two entries name the same browser: same path and same binary.
pub open spec fn same_browser(a: BrowserChoice, b: BrowserChoice) -> bool {
    a.path@ == b.path@ && a.binary@ == b.binary@
}

pub fn browser_identity_matches(browser: &BrowserChoice, selected: &BrowserChoice) -> (b: bool)
    ensures
        b == same_browser(*browser, *selected),
{
    crate::text::str_eq(browser.path.as_str(), selected.path.as_str()) && crate::text::str_eq(
        browser.binary.as_str(),
        selected.binary.as_str(),
    )
}

/// The positions of the browsers that support the MCP bridge, in order.
pub open spec fn supported_of(browsers: Seq<BrowserChoice>) -> Seq<usize>
    decreases browsers.len(),
{
    if browsers.len() == 0 {
        seq![]
    } else {
        let r = supported_of(browsers.drop_last());
        if browsers.last().mcp_supported {
            r.push((browsers.len() - 1) as usize)
        } else {
            r
        }
    }
}

pub fn supported_indices(browsers: &[BrowserChoice]) -> (v: Vec<usize>)
    ensures
        v@ == supported_of(browsers@),
{
    let mut v: Vec<usize> = Vec::new();
    let mut i: usize = 0;
    assert(browsers@.take(0) =~= Seq::<BrowserChoice>::empty());
    while i < browsers.len()
        invariant
            i <= browsers@.len(),
            v@ == supported_of(browsers@.take(i as int)),
        decreases browsers@.len() - i,
    {
        assert(browsers@.take(i + 1).drop_last() =~= browsers@.take(i as int));
        if browsers[i].mcp_supported {
            v.push(i);
        }
        i += 1;
    }
    assert(browsers@.take(browsers@.len() as int) =~= browsers@);
    v
}

/// The first position of the selected browser among all browsers, if any.
pub open spec fn first_match(browsers: Seq<BrowserChoice>, selected: BrowserChoice) -> int
    decreases browsers.len(),
{
    if browsers.len() == 0 {
        -1
    } else {
        let r = first_match(browsers.drop_last(), selected);
        if r >= 0 {
            r
        } else if same_browser(browsers.last(), selected) {
            browsers.len() - 1
        } else {
            -1
        }
    }
}

/// The first position of `x` in `v`, or -1.
pub open spec fn position_of(v: Seq<usize>, x: int) -> int
    decreases v.len(),
{
    if v.len() == 0 {
        -1
    } else {
        let r = position_of(v.drop_last(), x);
        if r >= 0 {
            r
        } else if v.last() == x {
            v.len() - 1
        } else {
            -1
        }
    }
}

/// Which supported browser the screen highlights: the selected one when it
/// is found and supported, else the first.
pub open spec fn highlighted_of(browsers: Seq<BrowserChoice>, selected: Option<BrowserChoice>) -> nat {
    let supported = supported_of(browsers);
    match selected {
        None => 0,
        Some(b) => {
            let at = first_match(browsers, b);
            if supported.len() == 0 || at < 0 {
                0
            } else {
                let p = position_of(supported, at);
                if p < 0 {
                    0
                } else {
                    p as nat
                }
            }
        },
    }
}

fn first_match_exec(browsers: &[BrowserChoice], selected: &BrowserChoice) -> (r: Option<usize>)
    ensures
        match r {
            Some(i) => first_match(browsers@, *selected) == i,
            None => first_match(browsers@, *selected) == -1,
        },
{
    let mut i: usize = 0;
    assert(browsers@.take(0) =~= Seq::<BrowserChoice>::empty());
    while i < browsers.len()
        invariant
            i <= browsers@.len(),
            first_match(browsers@.take(i as int), *selected) == -1,
        decreases browsers@.len() - i,
    {
        assert(browsers@.take(i + 1).drop_last() =~= browsers@.take(i as int));
        if browser_identity_matches(&browsers[i], selected) {
            proof {
                lemma_first_match_prefix(browsers@, *selected, i + 1);
            }
            return Some(i);
        }
        i += 1;
    }
    assert(browsers@.take(browsers@.len() as int) =~= browsers@);
    None
}

/// A match found in a prefix is the first match of the whole list.
proof fn lemma_first_match_prefix(browsers: Seq<BrowserChoice>, selected: BrowserChoice, k: int)
    requires
        0 <= k <= browsers.len(),
        first_match(browsers.take(k), selected) >= 0,
    ensures
        first_match(browsers, selected) == first_match(browsers.take(k), selected),
    decreases browsers.len() - k,
{
    if k < browsers.len() {
        assert(browsers.take(k + 1).drop_last() =~= browsers.take(k));
        lemma_first_match_prefix(browsers, selected, k + 1);
    } else {
        assert(browsers.take(k) =~= browsers);
    }
}

fn position_exec(v: &[usize], x: usize) -> (r: Option<usize>)
    ensures
        match r {
            Some(i) => position_of(v@, x as int) == i,
            None => position_of(v@, x as int) == -1,
        },
{
    let mut i: usize = 0;
    assert(v@.take(0) =~= Seq::<usize>::empty());
    while i < v.len()
        invariant
            i <= v@.len(),
            position_of(v@.take(i as int), x as int) == -1,
        decreases v@.len() - i,
    {
        assert(v@.take(i + 1).drop_last() =~= v@.take(i as int));
        if v[i] == x {
            proof {
                lemma_position_prefix(v@, x as int, i + 1);
            }
            return Some(i);
        }
        i += 1;
    }
    assert(v@.take(v@.len() as int) =~= v@);
    None
}

proof fn lemma_position_prefix(v: Seq<usize>, x: int, k: int)
    requires
        0 <= k <= v.len(),
        position_of(v.take(k), x) >= 0,
    ensures
        position_of(v, x) == position_of(v.take(k), x),
    decreases v.len() - k,
{
    if k < v.len() {
        assert(v.take(k + 1).drop_last() =~= v.take(k));
        lemma_position_prefix(v, x, k + 1);
    } else {
        assert(v.take(k) =~= v);
    }
}

/// The supported browser to highlight first.
pub fn selected_supported_browser_idx(browsers: &[BrowserChoice], selected: Option<&BrowserChoice>) -> (r:
    usize)
    ensures
        r == highlighted_of(browsers@, match selected {
            Some(b) => Some(*b),
            None => None,
        }),
{
    let supported = supported_indices(browsers);
    if supported.len() == 0 {
        return 0;
    }
    let selected = match selected {
        Some(b) => b,
        None => {
            return 0;
        },
    };
    match first_match_exec(browsers, selected) {
        None => 0,
        Some(at) => match position_exec(supported.as_slice(), at) {
            Some(p) => p,
            None => 0,
        },
    }
}

/// The selected browser is no longer among those found.
pub fn selection_missing(browsers: &[BrowserChoice], selected: Option<&BrowserChoice>) -> (b: bool)
    ensures
        b == match selected {
            Some(s) => first_match(browsers@, *s) == -1,
            None => false,
        },
{
    match selected {
        Some(s) => first_match_exec(browsers, s).is_none(),
        None => false,
    }
}

/// A key on the browser screen.
pub enum BrowserInput {
    Quit,
    Refresh,
    Up,
    Down,
    Enter,
    Digit(u32),
    Other,
}

/// What the browser screen does next.
#[derive(PartialEq, Eq, Structural)]
pub enum BrowserStep {
    Stay,
    Quit,
    Refresh,
    Choose(usize),
}

/// The highlighted position kept within the supported browsers.
pub open spec fn clamped(at: nat, count: nat) -> nat {
    if count == 0 {
        0
    } else if at < count {
        at
    } else {
        (count - 1) as nat
    }
}

/// Handles a key on the browser screen. `supported` are the positions of
/// the supported browsers and `highlighted` the highlighted one among
/// them: arrows move it, Enter picks it, a digit `n` picks the `n`-th
/// supported browser, `q` quits and `r` detects the browsers again.
pub fn browser_key(highlighted: &mut usize, supported: &[usize], key: BrowserInput) -> (step:
    BrowserStep)
    ensures
        match key {
            BrowserInput::Quit => step is Quit && *final(highlighted) == *old(highlighted),
            BrowserInput::Refresh => step is Refresh && *final(highlighted) == *old(highlighted),
            BrowserInput::Up => step is Stay && *final(highlighted) == if *old(highlighted) > 0 {
                *old(highlighted) - 1
            } else {
                0
            },
            BrowserInput::Down => step is Stay && *final(highlighted) == if *old(highlighted) + 1
                < supported@.len() {
                *old(highlighted) + 1
            } else {
                *old(highlighted) as int
            },
            BrowserInput::Enter => *final(highlighted) == *old(highlighted) && if *old(highlighted)
                < supported@.len() {
                step == BrowserStep::Choose(supported@[*old(highlighted) as int])
            } else {
                step is Stay
            },
            BrowserInput::Digit(d) => *final(highlighted) == *old(highlighted) && if 1 <= d
                <= supported@.len() {
                step == BrowserStep::Choose(supported@[d - 1])
            } else {
                step is Stay
            },
            BrowserInput::Other => step is Stay && *final(highlighted) == *old(highlighted),
        },
{
    match key {
        BrowserInput::Quit => BrowserStep::Quit,
        BrowserInput::Refresh => BrowserStep::Refresh,
        BrowserInput::Up => {
            *highlighted = highlighted.saturating_sub(1);
            BrowserStep::Stay
        },
        BrowserInput::Down => {
            if *highlighted < supported.len() && *highlighted + 1 < supported.len() {
                *highlighted = *highlighted + 1;
            }
            BrowserStep::Stay
        },
        BrowserInput::Enter => {
            if *highlighted < supported.len() {
                BrowserStep::Choose(supported[*highlighted])
            } else {
                BrowserStep::Stay
            }
        },
        BrowserInput::Digit(d) => {
            if d >= 1 && (d as usize) <= supported.len() {
                BrowserStep::Choose(supported[(d - 1) as usize])
            } else {
                BrowserStep::Stay
            }
        },
        BrowserInput::Other => BrowserStep::Stay,
    }
}

/// Keeps the highlighted position within the supported browsers.
pub fn clamp_highlight(highlighted: usize, supported_count: usize) -> (r: usize)
    ensures
        r == clamped(highlighted as nat, supported_count as nat),
{
    if supported_count == 0 {
        0
    } else if highlighted < supported_count {
        highlighted
    } else {
        supported_count - 1
    }
}

// ---------------------------------------------------------------------------
// The settings screen's text
// ---------------------------------------------------------------------------

/// The row line of a settings option: a `>` marker when selected, its
/// number, its label, and `  [current]` when it is in use.
pub open spec fn option_line(selected: bool, number: nat, label: Seq<char>, current: bool) -> Seq<char> {
    " "@ + (if selected {
        ">"@
    } else {
        " "@
    }) + " ["@ + crate::number::decimal(number) + "] "@ + label + (if current {
        "  [current]"@
    } else {
        seq![]
    })
}

/// The lines of a group of options numbered from row `first`: for each, a
/// blank line, its row line and its indented description.
pub open spec fn option_block(
    entries: Seq<(Seq<char>, Seq<char>, bool)>,
    first: nat,
    selected_row: nat,
) -> Seq<Seq<char>>
    decreases entries.len(),
{
    if entries.len() == 0 {
        seq![]
    } else {
        let i = (entries.len() - 1) as nat;
        let e = entries.last();
        option_block(entries.drop_last(), first, selected_row) + seq![
            seq![],
            option_line(first + i == selected_row, first + i + 1, e.0, e.2),
            "     "@ + e.1,
        ]
    }
}

pub open spec fn tool_entries(current: ToolMode) -> Seq<(Seq<char>, Seq<char>, bool)> {
    seq![
        ("multi-tools"@, "Expose workspace read/write tools plus run_command."@, current
            == ToolMode::MultiTools),
        ("read-only"@, "Expose safe read-only workspace tools only."@, current == ToolMode::ReadOnly),
    ]
}

pub open spec fn detail_entries(current: ShowDetailMode) -> Seq<(Seq<char>, Seq<char>, bool)> {
    seq![
        ("Disable"@, "Completely disable the web widget. Fastest and uses least memory."@, current
            == ShowDetailMode::Disable),
        ("Expanded"@, "Show the full web widget with syntax-highlighted diffs."@, current
            == ShowDetailMode::Expanded),
        ("Collapsed"@, "Show the web widget but keep code changes collapsed by default."@, current
            == ShowDetailMode::Collapsed),
    ]
}

pub open spec fn theme_entries(themes: Seq<(Seq<char>, Seq<char>)>, current: nat) -> Seq<
    (Seq<char>, Seq<char>, bool),
> {
    Seq::new(themes.len(), |i: int| (themes[i].0, themes[i].1, i == current))
}

pub open spec fn co_author_note() -> Seq<char> {
    "     When enabled, CatDesk automatically appends \"Co-Authored-By: CatDesk\" to git commits and blocks manually written CatDesk co-author trailers."@
}

/// The lines of the settings screen below its header: the themes, tool
/// modes and widget detail modes, commit attribution, the connection URL
/// settings and the token billing totals.
pub open spec fn settings_lines(
    themes: Seq<(Seq<char>, Seq<char>)>,
    current_theme: nat,
    tool_mode: ToolMode,
    detail_mode: ShowDetailMode,
    co_author: bool,
    mcp_slug: Seq<char>,
    ngrok_domain: Option<Seq<char>>,
    usage: crate::state::UsageTotals,
    selected_row: nat,
    confirm_reset: bool,
) -> Seq<Seq<char>> {
    settings_option_lines(themes, current_theme, tool_mode, detail_mode, selected_row) + settings_tail_lines(
        themes.len() + 5,
        co_author,
        mcp_slug,
        ngrok_domain,
        usage,
        selected_row,
        confirm_reset,
    )
}

/// The theme, tool mode and widget detail mode groups.
pub open spec fn settings_option_lines(
    themes: Seq<(Seq<char>, Seq<char>)>,
    current_theme: nat,
    tool_mode: ToolMode,
    detail_mode: ShowDetailMode,
    selected_row: nat,
) -> Seq<Seq<char>> {
    let t = themes.len();
    seq![seq![], "  Choose a theme:"@] + option_block(theme_entries(themes, current_theme), 0, selected_row)
        + seq![seq![], "  Choose a tool mode:"@] + option_block(tool_entries(tool_mode), t, selected_row)
        + seq![seq![], "  Choose a widget detail mode:"@] + option_block(
        detail_entries(detail_mode),
        t + 2,
        selected_row,
    )
}

/// Commit attribution, the connection URL settings and token billing; the
/// co-author option is row `co`.
pub open spec fn settings_tail_lines(
    co: nat,
    co_author: bool,
    mcp_slug: Seq<char>,
    ngrok_domain: Option<Seq<char>>,
    usage: crate::state::UsageTotals,
    selected_row: nat,
    confirm_reset: bool,
) -> Seq<Seq<char>> {
    attribution_lines(co, co_author, selected_row) + url_lines(co, mcp_slug, ngrok_domain, selected_row)
        + billing_lines(usage, confirm_reset)
}

pub open spec fn attribution_lines(co: nat, co_author: bool, selected_row: nat) -> Seq<Seq<char>> {
    seq![
        seq![],
        "  Commit attribution:"@,
        option_line(co == selected_row, co + 1, "Set CatDesk as co-author"@, false),
        "     "@ + (if co_author {
            "[enabled]"@
        } else {
            "[disabled]"@
        }),
        co_author_note(),
    ]
}

pub open spec fn url_lines(
    co: nat,
    mcp_slug: Seq<char>,
    ngrok_domain: Option<Seq<char>>,
    selected_row: nat,
) -> Seq<Seq<char>> {
    seq![
        seq![],
        "  Connection Security URL:"@,
        option_line(co + 1 == selected_row, co + 2, "Keep current recorded slug"@, false),
        "     ["@ + mcp_slug + "]"@,
        option_line(co + 2 == selected_row, co + 3, "Generate new random slug"@, false),
        option_line(co + 3 == selected_row, co + 4, "Set ngrok static domain"@, false),
        "     "@ + match ngrok_domain {
            Some(d) => "["@ + d + "]"@,
            None => "[not set]"@,
        },
        "     Pro tip: Your permanent ngrok-free.dev domain is auto-saved above."@,
    ]
}

pub open spec fn billing_lines(usage: crate::state::UsageTotals, confirm_reset: bool) -> Seq<Seq<char>> {
    seq![
        seq![],
        "  Token billing:"@,
        "  Input: "@ + crate::number::decimal(usage.input_tokens as nat) + "   Output: "@
            + crate::number::decimal(usage.output_tokens as nat),
        "  Total: "@ + crate::number::decimal(usage.total_tokens as nat) + "   Tool calls: "@
            + crate::number::decimal(usage.tool_call_count as nat),
        "  [r]"@ + (if confirm_reset {
            " Press again to confirm token billing reset"@
        } else {
            " Reset token billing totals"@
        }),
    ]
}

/// A group of options has three lines per option, the second of each its
/// row line.
proof fn lemma_option_block(entries: Seq<(Seq<char>, Seq<char>, bool)>, first: nat, selected_row: nat)
    ensures
        option_block(entries, first, selected_row).len() == 3 * entries.len(),
        forall|i: int|
            0 <= i < entries.len() ==> #[trigger] option_block(entries, first, selected_row)[3 * i + 1]
                == option_line(first + i == selected_row, (first + i + 1) as nat, entries[i].0, entries[i].2),
    decreases entries.len(),
{
    if entries.len() > 0 {
        lemma_option_block(entries.drop_last(), first, selected_row);
        let b = option_block(entries, first, selected_row);
        let p = option_block(entries.drop_last(), first, selected_row);
        assert forall|i: int| 0 <= i < entries.len() implies #[trigger] b[3 * i + 1] == option_line(
            first + i == selected_row,
            (first + i + 1) as nat,
            entries[i].0,
            entries[i].2,
        ) by {
            if i < entries.len() - 1 {
                assert(b[3 * i + 1] == p[3 * i + 1]);
                assert(entries.drop_last()[i] == entries[i]);
            }
        }
    }
}

/// The line of the selected row shows the `>` marker.
pub proof fn lemma_selected_line_marked(
    themes: Seq<(Seq<char>, Seq<char>)>,
    current_theme: nat,
    tool_mode: ToolMode,
    detail_mode: ShowDetailMode,
    co_author: bool,
    mcp_slug: Seq<char>,
    ngrok_domain: Option<Seq<char>>,
    usage: crate::state::UsageTotals,
    selected_row: nat,
    confirm_reset: bool,
)
    requires
        selected_row < themes.len() + 9,
    ensures
        ({
            let ls = settings_lines(
                themes,
                current_theme,
                tool_mode,
                detail_mode,
                co_author,
                mcp_slug,
                ngrok_domain,
                usage,
                selected_row,
                confirm_reset,
            );
            let k = settings_selected_line(themes.len(), selected_row);
            &&& k < ls.len()
            &&& ls[k as int].take(2) == " >"@
        }),
{
    reveal_strlit(" ");
    reveal_strlit(">");
    reveal_strlit(" >");
    let t = themes.len();
    let te = theme_entries(themes, current_theme);
    lemma_option_block(te, 0, selected_row);
    lemma_option_block(tool_entries(tool_mode), t, selected_row);
    lemma_option_block(detail_entries(detail_mode), t + 2, selected_row);
    let ls = settings_lines(
        themes,
        current_theme,
        tool_mode,
        detail_mode,
        co_author,
        mcp_slug,
        ngrok_domain,
        usage,
        selected_row,
        confirm_reset,
    );
    let k = settings_selected_line(t, selected_row);
    let bt = option_block(te, 0, selected_row);
    let bm = option_block(tool_entries(tool_mode), t, selected_row);
    let bd = option_block(detail_entries(detail_mode), t + 2, selected_row);
    let head = seq![Seq::<char>::empty(), "  Choose a theme:"@];
    let mid1 = seq![Seq::<char>::empty(), "  Choose a tool mode:"@];
    let mid2 = seq![Seq::<char>::empty(), "  Choose a widget detail mode:"@];
    let tail = settings_tail_lines(t + 5, co_author, mcp_slug, ngrok_domain, usage, selected_row, confirm_reset);
    assert(ls =~= head + bt + mid1 + bm + mid2 + bd + tail);
    let line = ls[k as int];
    if selected_row < t {
        let i = selected_row as int;
        assert(te[i].0 == themes[i].0);
        assert(line == bt[3 * i + 1]);
    } else if selected_row < t + 2 {
        let i = selected_row - t;
        assert(line == bm[3 * i + 1]);
    } else if selected_row < t + 5 {
        let i = selected_row - t - 2;
        assert(line == bd[3 * i + 1]);
    } else {
        assert(line == tail[(k - (3 * t + 21)) as int]);
    }
    assert(line.take(2) =~= " >"@);
}

/// The line of the selected row, 0 when no row is selected.
pub open spec fn settings_selected_line(t: nat, r: nat) -> nat {
    if r < t {
        3 + 3 * r
    } else if r < t + 2 {
        (3 * t + 5 + 3 * (r - t)) as nat
    } else if r < t + 5 {
        (3 * t + 13 + 3 * (r - t - 2)) as nat
    } else if r == t + 5 {
        3 * t + 23
    } else if r == t + 6 {
        3 * t + 28
    } else if r == t + 7 {
        3 * t + 30
    } else if r == t + 8 {
        3 * t + 31
    } else {
        0
    }
}

pub open spec fn entry_views(v: Seq<(String, String, bool)>) -> Seq<(Seq<char>, Seq<char>, bool)> {
    v.map_values(|e: (String, String, bool)| (e.0@, e.1@, e.2))
}

fn row_text(selected: bool, number: usize, label: &str, current: bool) -> (s: String)
    ensures
        s@ == option_line(selected, number as nat, label@, current),
{
    let mut s = String::new();
    crate::text::push_str(&mut s, " ");
    if selected {
        crate::text::push_str(&mut s, ">");
    } else {
        crate::text::push_str(&mut s, " ");
    }
    crate::text::push_str(&mut s, " [");
    crate::text::push_str(&mut s, crate::number::decimal_u64(number as u64).as_str());
    crate::text::push_str(&mut s, "] ");
    crate::text::push_str(&mut s, label);
    if current {
        crate::text::push_str(&mut s, "  [current]");
    }
    proof {
        reveal_strlit(" ");
        reveal_strlit(">");
        reveal_strlit(" [");
        reveal_strlit("] ");
        reveal_strlit("  [current]");
    }
    assert(s@ =~= option_line(selected, number as nat, label@, current));
    s
}

fn text_of(a: &str, b: &str) -> (s: String)
    ensures
        s@ == a@ + b@,
{
    let mut s = String::new();
    crate::text::push_str(&mut s, a);
    crate::text::push_str(&mut s, b);
    s
}

fn push_option_block(
    lines: &mut Vec<String>,
    entries: &Vec<(String, String, bool)>,
    first: usize,
    selected_row: usize,
)
    requires
        first + entries@.len() < usize::MAX,
    ensures
        string_views(final(lines)@) == string_views(old(lines)@) + option_block(
            entry_views(entries@),
            first as nat,
            selected_row as nat,
        ),
{
    let ghost ev = entry_views(entries@);
    let ghost start = string_views(lines@);
    let mut i: usize = 0;
    assert(ev.take(0) =~= Seq::<(Seq<char>, Seq<char>, bool)>::empty());
    assert(start + option_block(ev.take(0), first as nat, selected_row as nat) =~= start);
    while i < entries.len()
        invariant
            i <= entries@.len(),
            first + entries@.len() < usize::MAX,
            ev == entry_views(entries@),
            string_views(lines@) == start + option_block(ev.take(i as int), first as nat, selected_row as nat),
        decreases entries@.len() - i,
    {
        let ghost before = string_views(lines@);
        lines.push(String::new());
        lines.push(row_text(first + i == selected_row, first + i + 1, entries[i].0.as_str(), entries[i].2));
        lines.push(text_of("     ", entries[i].1.as_str()));
        proof {
            assert(ev.take(i + 1).drop_last() =~= ev.take(i as int));
            assert(ev.take(i + 1).last() == ev[i as int]);
            assert(ev[i as int] == (entries@[i as int].0@, entries@[i as int].1@, entries@[i as int].2));
            assert(string_views(lines@) =~= before + seq![
                Seq::<char>::empty(),
                option_line(first + i == selected_row, (first + i + 1) as nat, ev[i as int].0, ev[i as int].2),
                "     "@ + ev[i as int].1,
            ]);
        }
        i += 1;
    }
    assert(ev.take(entries@.len() as int) =~= ev);
}

fn push_text(lines: &mut Vec<String>, t: &str)
    ensures
        string_views(final(lines)@) == string_views(old(lines)@).push(t@),
{
    lines.push(string_of(chars_of(t).as_slice()));
    assert(string_views(lines@) =~= string_views(old(lines)@).push(t@));
}

fn push_owned(lines: &mut Vec<String>, t: String)
    ensures
        string_views(final(lines)@) == string_views(old(lines)@).push(t@),
{
    let ghost v = t@;
    lines.push(t);
    assert(string_views(lines@) =~= string_views(old(lines)@).push(v));
}

fn theme_rows_of(themes: &[(String, String)], current_theme: usize) -> (rows: Vec<(String, String, bool)>)
    ensures
        entry_views(rows@) == theme_entries(
            themes@.map_values(|x: (String, String)| (x.0@, x.1@)),
            current_theme as nat,
        ),
        rows@.len() == themes@.len(),
{
    let t = themes.len();
    let ghost tv = themes@.map_values(|x: (String, String)| (x.0@, x.1@));
    let mut theme_rows: Vec<(String, String, bool)> = Vec::new();
    let mut i: usize = 0;
    while i < t
        invariant
            i <= t,
            t == themes@.len(),
            tv == themes@.map_values(|x: (String, String)| (x.0@, x.1@)),
            entry_views(theme_rows@) == theme_entries(tv, current_theme as nat).take(i as int),
        decreases t - i,
    {
        let lab = string_of(chars_of(themes[i].0.as_str()).as_slice());
        let desc = string_of(chars_of(themes[i].1.as_str()).as_slice());
        let ghost before = entry_views(theme_rows@);
        theme_rows.push((lab, desc, i == current_theme));
        assert(entry_views(theme_rows@) =~= before.push(theme_entries(tv, current_theme as nat)[i as int]));
        assert(theme_entries(tv, current_theme as nat).take(i + 1) =~= theme_entries(
            tv,
            current_theme as nat,
        ).take(i as int).push(theme_entries(tv, current_theme as nat)[i as int]));
        i += 1;
    }
    assert(theme_entries(tv, current_theme as nat).take(t as int) =~= theme_entries(tv, current_theme as nat));
    theme_rows
}

fn tool_rows_of(tool_mode: ToolMode) -> (rows: Vec<(String, String, bool)>)
    ensures
        entry_views(rows@) == tool_entries(tool_mode),
        rows@.len() == 2,
{
    let tools = ToolMode::all();
    let mut rows: Vec<(String, String, bool)> = Vec::new();
    let m0 = tools[0];
    let m1 = tools[1];
    rows.push((string_of(chars_of(m0.label()).as_slice()), string_of(chars_of(m0.description()).as_slice()), m0 == tool_mode));
    rows.push((string_of(chars_of(m1.label()).as_slice()), string_of(chars_of(m1.description()).as_slice()), m1 == tool_mode));
    assert(entry_views(rows@) =~= tool_entries(tool_mode));
    rows
}

fn detail_rows_of(detail_mode: ShowDetailMode) -> (rows: Vec<(String, String, bool)>)
    ensures
        entry_views(rows@) == detail_entries(detail_mode),
        rows@.len() == 3,
{
    let details = ShowDetailMode::all();
    let d0 = details[0];
    let d1 = details[1];
    let d2 = details[2];
    let mut rows: Vec<(String, String, bool)> = Vec::new();
    rows.push((string_of(chars_of(d0.label()).as_slice()), string_of(chars_of(d0.description()).as_slice()), d0 == detail_mode));
    rows.push((string_of(chars_of(d1.label()).as_slice()), string_of(chars_of(d1.description()).as_slice()), d1 == detail_mode));
    rows.push((string_of(chars_of(d2.label()).as_slice()), string_of(chars_of(d2.description()).as_slice()), d2 == detail_mode));
    assert(entry_views(rows@) =~= detail_entries(detail_mode));
    rows
}

fn push_option_groups(
    lines: &mut Vec<String>,
    themes: &[(String, String)],
    current_theme: usize,
    tool_mode: ToolMode,
    detail_mode: ShowDetailMode,
    selected_row: usize,
)
    requires
        themes@.len() + 10 < usize::MAX / 4,
    ensures
        string_views(final(lines)@) == string_views(old(lines)@) + settings_option_lines(
            themes@.map_values(|t: (String, String)| (t.0@, t.1@)),
            current_theme as nat,
            tool_mode,
            detail_mode,
            selected_row as nat,
        ),
{
    let t = themes.len();
    let theme_rows = theme_rows_of(themes, current_theme);
    let tool_rows = tool_rows_of(tool_mode);
    let detail_rows = detail_rows_of(detail_mode);
    let ghost start = string_views(lines@);
    proof {
        reveal_strlit("");
        assert(""@ =~= Seq::<char>::empty());
    }
    push_text(lines, "");
    push_text(lines, "  Choose a theme:");
    assert(string_views(lines@) =~= start + seq![Seq::<char>::empty(), "  Choose a theme:"@]);
    let ghost p1 = string_views(lines@);
    push_option_block(lines, &theme_rows, 0, selected_row);
    let ghost p2 = string_views(lines@);
    push_text(lines, "");
    push_text(lines, "  Choose a tool mode:");
    assert(string_views(lines@) =~= p2 + seq![Seq::<char>::empty(), "  Choose a tool mode:"@]);
    push_option_block(lines, &tool_rows, t, selected_row);
    let ghost p3 = string_views(lines@);
    push_text(lines, "");
    push_text(lines, "  Choose a widget detail mode:");
    assert(string_views(lines@) =~= p3 + seq![Seq::<char>::empty(), "  Choose a widget detail mode:"@]);
    push_option_block(lines, &detail_rows, t + 2, selected_row);
    assert(string_views(lines@) =~= start + settings_option_lines(
        themes@.map_values(|x: (String, String)| (x.0@, x.1@)),
        current_theme as nat,
        tool_mode,
        detail_mode,
        selected_row as nat,
    ));
}

fn push_attribution(lines: &mut Vec<String>, co: usize, co_author: bool, selected_row: usize)
    requires
        co + 4 < usize::MAX,
    ensures
        string_views(final(lines)@) == string_views(old(lines)@) + attribution_lines(co as nat, co_author, selected_row as nat),
{
    let ghost start = string_views(lines@);
    let l2 = row_text(co == selected_row, co + 1, "Set CatDesk as co-author", false);
    let l3 = text_of("     ", if co_author { "[enabled]" } else { "[disabled]" });
    push_text(lines, "");
    push_text(lines, "  Commit attribution:");
    push_owned(lines, l2);
    push_owned(lines, l3);
    push_text(
        lines,
        "     When enabled, CatDesk automatically appends \"Co-Authored-By: CatDesk\" to git commits and blocks manually written CatDesk co-author trailers.",
    );
    proof {
        reveal_strlit("");
        assert(""@ =~= Seq::<char>::empty());
    }
    assert(string_views(lines@) =~= start + attribution_lines(co as nat, co_author, selected_row as nat));
}

fn push_url(
    lines: &mut Vec<String>,
    co: usize,
    mcp_slug: &str,
    ngrok_domain: Option<&str>,
    selected_row: usize,
)
    requires
        co + 4 < usize::MAX,
    ensures
        string_views(final(lines)@) == string_views(old(lines)@) + url_lines(
            co as nat,
            mcp_slug@,
            match ngrok_domain {
                Some(d) => Some(d@),
                None => None,
            },
            selected_row as nat,
        ),
{
    let ghost start = string_views(lines@);
    let keep = row_text(co + 1 == selected_row, co + 2, "Keep current recorded slug", false);
    let mut slug_line = text_of("     [", mcp_slug);
    crate::text::push_str(&mut slug_line, "]");
    let fresh = row_text(co + 2 == selected_row, co + 3, "Generate new random slug", false);
    let domain_row = row_text(co + 3 == selected_row, co + 4, "Set ngrok static domain", false);
    let domain_line = match ngrok_domain {
        Some(d) => {
            let mut x = text_of("     [", d);
            crate::text::push_str(&mut x, "]");
            x
        },
        None => text_of("     ", "[not set]"),
    };
    proof {
        reveal_strlit("");
        assert(""@ =~= Seq::<char>::empty());
        reveal_strlit("     [");
        reveal_strlit("[");
        reveal_strlit("     ");
        match ngrok_domain {
            Some(d) => {
                assert(domain_line@ =~= "     "@ + ("["@ + d@ + "]"@));
            },
            None => {},
        }
    }
    push_text(lines, "");
    push_text(lines, "  Connection Security URL:");
    push_owned(lines, keep);
    push_owned(lines, slug_line);
    push_owned(lines, fresh);
    push_owned(lines, domain_row);
    push_owned(lines, domain_line);
    push_text(lines, "     Pro tip: Your permanent ngrok-free.dev domain is auto-saved above.");
    let ghost dv = match ngrok_domain {
        Some(d) => Some(d@),
        None => None,
    };
    assert(string_views(lines@) =~= start + url_lines(co as nat, mcp_slug@, dv, selected_row as nat));
}

fn push_billing(lines: &mut Vec<String>, usage: &crate::state::UsageTotals, confirm_reset: bool)
    ensures
        string_views(final(lines)@) == string_views(old(lines)@) + billing_lines(*usage, confirm_reset),
{
    let ghost start = string_views(lines@);
    let mut input_line = text_of("  Input: ", crate::number::decimal_u64(usage.input_tokens).as_str());
    crate::text::push_str(&mut input_line, "   Output: ");
    crate::text::push_str(&mut input_line, crate::number::decimal_u64(usage.output_tokens).as_str());
    let mut total_line = text_of("  Total: ", crate::number::decimal_u64(usage.total_tokens).as_str());
    crate::text::push_str(&mut total_line, "   Tool calls: ");
    crate::text::push_str(&mut total_line, crate::number::decimal_u64(usage.tool_call_count).as_str());
    let reset = text_of(
        "  [r]",
        if confirm_reset {
            " Press again to confirm token billing reset"
        } else {
            " Reset token billing totals"
        },
    );
    push_text(lines, "");
    push_text(lines, "  Token billing:");
    push_owned(lines, input_line);
    push_owned(lines, total_line);
    push_owned(lines, reset);
    proof {
        reveal_strlit("");
        assert(""@ =~= Seq::<char>::empty());
    }
    assert(string_views(lines@) =~= start + billing_lines(*usage, confirm_reset));
}

fn push_tail(
    lines: &mut Vec<String>,
    co: usize,
    co_author: bool,
    mcp_slug: &str,
    ngrok_domain: Option<&str>,
    usage: &crate::state::UsageTotals,
    selected_row: usize,
    confirm_reset: bool,
)
    requires
        co + 4 < usize::MAX,
    ensures
        string_views(final(lines)@) == string_views(old(lines)@) + settings_tail_lines(
            co as nat,
            co_author,
            mcp_slug@,
            match ngrok_domain {
                Some(d) => Some(d@),
                None => None,
            },
            *usage,
            selected_row as nat,
            confirm_reset,
        ),
{
    let ghost start = string_views(lines@);
    push_attribution(lines, co, co_author, selected_row);
    let ghost s1 = string_views(lines@);
    push_url(lines, co, mcp_slug, ngrok_domain, selected_row);
    let ghost s2 = string_views(lines@);
    push_billing(lines, usage, confirm_reset);
    let ghost dv = match ngrok_domain {
        Some(d) => Some(d@),
        None => None,
    };
    assert(string_views(lines@) =~= start + settings_tail_lines(
        co as nat,
        co_author,
        mcp_slug@,
        dv,
        *usage,
        selected_row as nat,
        confirm_reset,
    ));
}

/// The lines of the settings screen and the line of the selected row.
/// `themes` are the themes' labels and descriptions in order, and
/// `current_theme` the position of the theme in use.
pub fn settings_screen_lines(
    themes: &[(String, String)],
    current_theme: usize,
    tool_mode: ToolMode,
    detail_mode: ShowDetailMode,
    co_author: bool,
    mcp_slug: &str,
    ngrok_domain: Option<&str>,
    usage: &crate::state::UsageTotals,
    selected_row: usize,
    confirm_reset: bool,
) -> (r: (Vec<String>, usize))
    requires
        themes@.len() + 10 < usize::MAX / 4,
    ensures
        string_views(r.0@) == settings_lines(
            themes@.map_values(|t: (String, String)| (t.0@, t.1@)),
            current_theme as nat,
            tool_mode,
            detail_mode,
            co_author,
            mcp_slug@,
            match ngrok_domain {
                Some(d) => Some(d@),
                None => None,
            },
            *usage,
            selected_row as nat,
            confirm_reset,
        ),
        r.1 == settings_selected_line(themes@.len() as nat, selected_row as nat),
        selected_row < themes@.len() + 9 ==> r.1 < r.0@.len() && string_views(r.0@)[r.1 as int].take(2) == " >"@,
{
    let t = themes.len();
    let mut lines: Vec<String> = Vec::new();
    push_option_groups(&mut lines, themes, current_theme, tool_mode, detail_mode, selected_row);
    push_tail(&mut lines, t + 5, co_author, mcp_slug, ngrok_domain, usage, selected_row, confirm_reset);
    assert(string_views(lines@) =~= settings_lines(
        themes@.map_values(|x: (String, String)| (x.0@, x.1@)),
        current_theme as nat,
        tool_mode,
        detail_mode,
        co_author,
        mcp_slug@,
        match ngrok_domain {
            Some(d) => Some(d@),
            None => None,
        },
        *usage,
        selected_row as nat,
        confirm_reset,
    ));
    proof {
        if selected_row < t + 9 {
            lemma_selected_line_marked(
                themes@.map_values(|x: (String, String)| (x.0@, x.1@)),
                current_theme as nat,
                tool_mode,
                detail_mode,
                co_author,
                mcp_slug@,
                match ngrok_domain {
                    Some(d) => Some(d@),
                    None => None,
                },
                *usage,
                selected_row as nat,
                confirm_reset,
            );
        }
    }
    let sel = if selected_row < t {
        3 + 3 * selected_row
    } else if selected_row < t + 2 {
        3 * t + 5 + 3 * (selected_row - t)
    } else if selected_row < t + 5 {
        3 * t + 13 + 3 * (selected_row - t - 2)
    } else if selected_row == t + 5 {
        3 * t + 23
    } else if selected_row == t + 6 {
        3 * t + 28
    } else if selected_row == t + 7 {
        3 * t + 30
    } else if selected_row == t + 8 {
        3 * t + 31
    } else {
        0
    };
    (lines, sel)
}

/// How far the settings body scrolls: the selected line kept in the middle
/// of the `visible` lines where the text allows, never past its end.
pub fn settings_scroll(n_lines: u16, selected_line: u16, visible: u16) -> (s: u16)
    ensures
        s == (if sat_sub(selected_line as int, (visible / 2) as int) < sat_sub(
            n_lines as int,
            visible as int,
        ) {
            sat_sub(selected_line as int, (visible / 2) as int)
        } else {
            sat_sub(n_lines as int, visible as int)
        }),
{
    let max_scroll = n_lines.saturating_sub(visible);
    let target = selected_line.saturating_sub(visible / 2);
    if target < max_scroll {
        target
    } else {
        max_scroll
    }
}

} // verus!
