//! The pixel mascot: terminal cells from pixel pairs, the widget's palette
//! and frame strings, cropping, and the choices a seed makes.
use vstd::prelude::*;
use crate::number::{decimal, decimal_u64, hex_fixed, hex_fixed_u64};
use crate::text::{push_char, push_str};

verus! {

/// Milliseconds per animation frame.
pub const MASCOT_FRAME_MS: u64 = 50;

/// Percent of seeds that draw the spirit variant.
pub const MASCOT_SPIRIT_PERCENT: u64 = 1;

pub const MASCOT_SPIRIT_FRAME_WIDTH: u32 = 40;

pub const MASCOT_SPIRIT_FRAME_HEIGHT: u32 = 32;

/// Terminal columns of the mascot block: the frame plus a border.
pub const TUI_MASCOT_BLOCK_WIDTH: u16 = 42;

/// Terminal rows of the mascot block: two pixel rows per cell, plus a border.
pub const TUI_MASCOT_BLOCK_HEIGHT: u16 = 18;

/// One symbol per palette entry after `.`, which stands for transparent.
pub const WIDGET_MASCOT_ALPHABET: &'static str =
    ".0123456789ABCDEFGHIJKLMNOPQRSTUVWXYZabcdefghijklmnopqrstuvwxyz-_";

pub open spec fn alphabet() -> Seq<char> {
    ".0123456789ABCDEFGHIJKLMNOPQRSTUVWXYZabcdefghijklmnopqrstuvwxyz-_"@
}

/// A pixel: red, green, blue, alpha.
pub type Rgba = (u8, u8, u8, u8);

/// An image as rows of pixels, top to bottom, each left to right.
pub struct PixelFrame {
    pub width: usize,
    pub height: usize,
    pub pixels: Vec<Rgba>,
}

impl PixelFrame {
    /// The pixels fill the rectangle.
    pub open spec fn wf(&self) -> bool {
        self.pixels@.len() == self.width * self.height
    }

    pub open spec fn at(&self, x: int, y: int) -> Rgba {
        self.pixels@[y * self.width + x]
    }
}

#[derive(Clone, Copy)]
pub struct TuiMascotCell {
    pub glyph: char,
    pub fg: Option<(u8, u8, u8)>,
    pub bg: Option<(u8, u8, u8)>,
}

pub struct TuiMascotFrame {
    pub rows: Vec<Vec<TuiMascotCell>>,
}

pub struct MascotPack {
    pub frame_ms: u64,
    pub tui_frames: Vec<TuiMascotFrame>,
}

#[derive(Clone, Copy)]
pub struct WidgetMascotSequenceStep {
    pub frame: u8,
    pub repeat: u8,
}

pub struct WidgetMascot {
    pub width: u32,
    pub height: u32,
    pub frame_ms: u64,
    pub spirit_hero_background: String,
    pub palette: Vec<String>,
    pub frames: Vec<String>,
    pub sequence: Vec<WidgetMascotSequenceStep>,
}

pub struct ArchivedBinagotchyCard {
    pub folder: String,
    pub seed: String,
    pub image: String,
}

// ---------------------------------------------------------------------------
// Terminal cells
// ---------------------------------------------------------------------------

pub open spec fn rgb(p: Rgba) -> (u8, u8, u8) {
    (p.0, p.1, p.2)
}

/// The cell showing two stacked pixels with half blocks: nothing for two
/// transparent pixels, an upper or lower half in the opaque one's color, a
/// full block for two of one color, else an upper half over the lower
/// color.
pub open spec fn cell_of(top: Rgba, bottom: Rgba) -> TuiMascotCell {
    if top.3 == 0 && bottom.3 == 0 {
        TuiMascotCell { glyph: ' ', fg: None, bg: None }
    } else if bottom.3 == 0 {
        TuiMascotCell { glyph: '\u{2580}', fg: Some(rgb(top)), bg: None }
    } else if top.3 == 0 {
        TuiMascotCell { glyph: '\u{2584}', fg: Some(rgb(bottom)), bg: None }
    } else if rgb(top) == rgb(bottom) {
        TuiMascotCell { glyph: '\u{2588}', fg: Some(rgb(top)), bg: None }
    } else {
        TuiMascotCell { glyph: '\u{2580}', fg: Some(rgb(top)), bg: Some(rgb(bottom)) }
    }
}

pub fn build_tui_cell(top: Rgba, bottom: Rgba) -> (c: TuiMascotCell)
    ensures
        c == cell_of(top, bottom),
{
    let top_alpha = top.3 > 0;
    let bottom_alpha = bottom.3 > 0;
    if !top_alpha && !bottom_alpha {
        TuiMascotCell { glyph: ' ', fg: None, bg: None }
    } else if top_alpha && !bottom_alpha {
        TuiMascotCell { glyph: '\u{2580}', fg: Some((top.0, top.1, top.2)), bg: None }
    } else if !top_alpha && bottom_alpha {
        TuiMascotCell { glyph: '\u{2584}', fg: Some((bottom.0, bottom.1, bottom.2)), bg: None }
    } else if top.0 == bottom.0 && top.1 == bottom.1 && top.2 == bottom.2 {
        TuiMascotCell { glyph: '\u{2588}', fg: Some((top.0, top.1, top.2)), bg: None }
    } else {
        TuiMascotCell {
            glyph: '\u{2580}',
            fg: Some((top.0, top.1, top.2)),
            bg: Some((bottom.0, bottom.1, bottom.2)),
        }
    }
}

/// Row `r` of cells: pixel rows `2r` and `2r + 1` (transparent below the
/// last row).
pub open spec fn cell_row(f: PixelFrame, r: int) -> Seq<TuiMascotCell> {
    Seq::new(
        f.width as nat,
        |x: int|
            cell_of(
                f.at(x, 2 * r),
                if 2 * r + 1 < f.height {
                    f.at(x, 2 * r + 1)
                } else {
                    (0u8, 0u8, 0u8, 0u8)
                },
            ),
    )
}

/// The terminal frame of a pixel frame: one row of cells per two pixel
/// rows.
pub fn build_tui_frame(frame: &PixelFrame) -> (t: TuiMascotFrame)
    requires
        frame.wf(),
    ensures
        t.rows@.len() == (frame.height + 1) / 2,
        forall|r: int| 0 <= r < t.rows@.len() ==> (#[trigger] t.rows@[r])@ == cell_row(*frame, r),
{
    let mut rows: Vec<Vec<TuiMascotCell>> = Vec::new();
    let total = frame.height / 2 + frame.height % 2;
    assert(total == (frame.height + 1) / 2);
    let mut r: usize = 0;
    assert(frame.pixels.len() == frame.width * frame.height);
    while r < total
        invariant
            frame.wf(),
            frame.pixels@.len() <= usize::MAX,
            total == (frame.height + 1) / 2,
            r <= total,
            rows@.len() == r,
            forall|k: int| 0 <= k < rows@.len() ==> (#[trigger] rows@[k])@ == cell_row(*frame, k),
        decreases total - r,
    {
        let y = 2 * r;
        assert(y < frame.height);
        let mut row: Vec<TuiMascotCell> = Vec::new();
        let mut x: usize = 0;
        while x < frame.width
            invariant
                frame.wf(),
                frame.pixels@.len() <= usize::MAX,
                y == 2 * r,
                y < frame.height,
                x <= frame.width,
                row@.len() == x,
                forall|k: int| 0 <= k < x ==> #[trigger] row@[k] == cell_row(*frame, r as int)[k],
            decreases frame.width - x,
        {
            proof {
                assert(y * frame.width + x < frame.width * frame.height) by (nonlinear_arith)
                    requires
                        x < frame.width,
                        y < frame.height,
                ;
                assert(y * frame.width <= y * frame.width + x);
            }
            let top = frame.pixels[y * frame.width + x];
            let bottom = if y + 1 < frame.height {
                proof {
                    assert((y + 1) * frame.width + x < frame.width * frame.height) by (nonlinear_arith)
                        requires
                            x < frame.width,
                            y + 1 < frame.height,
                    ;
                }
                frame.pixels[(y + 1) * frame.width + x]
            } else {
                (0u8, 0u8, 0u8, 0u8)
            };
            row.push(build_tui_cell(top, bottom));
            x += 1;
        }
        assert(row@ =~= cell_row(*frame, r as int));
        rows.push(row);
        r += 1;
    }
    TuiMascotFrame { rows }
}

impl MascotPack {
    /// The frame showing at `now_millis`: frames advance every `frame_ms`
    /// and loop.
    pub fn current_tui_frame(&self, now_millis: u128) -> (f: &TuiMascotFrame)
        requires
            self.tui_frames@.len() > 0,
            self.frame_ms > 0,
        ensures
            *f == self.tui_frames@[((now_millis / self.frame_ms as u128) as usize) as int
                % (self.tui_frames@.len() as int)],
    {
        let step = (now_millis / self.frame_ms as u128) as usize;
        let idx = step % self.tui_frames.len();
        &self.tui_frames[idx]
    }
}

// ---------------------------------------------------------------------------
// Seeds
// ---------------------------------------------------------------------------

/// One seed in a hundred draws the spirit.
pub fn mascot_use_spirit(seed: u64) -> (b: bool)
    ensures
        b == (seed % 100 < MASCOT_SPIRIT_PERCENT),
{
    seed % 100 < MASCOT_SPIRIT_PERCENT
}

/// The spirit wears nothing; other mascots may wear anything.
pub fn mascot_headwear_preference(use_spirit: bool) -> (s: &'static str)
    ensures
        s@ == if use_spirit {
            "none"@
        } else {
            "random"@
        },
{
    if use_spirit {
        "none"
    } else {
        "random"
    }
}

/// The seed as sixteen lower-case hexadecimal digits.
pub fn seed_hex(seed: u64) -> (s: String)
    ensures
        s@ == hex_fixed(seed as nat, 16),
{
    hex_fixed_u64(seed, 16)
}

/// The key of the Mersenne Twister for a seed: its low word, and its high
/// word when that is not zero.
pub fn mt_key_from_seed(seed_val: u64) -> (v: Vec<u32>)
    ensures
        v@ == if seed_val / 0x1_0000_0000 == 0 {
            seq![(seed_val % 0x1_0000_0000) as u32]
        } else {
            seq![(seed_val % 0x1_0000_0000) as u32, (seed_val / 0x1_0000_0000) as u32]
        },
{
    let low = (seed_val % 0x1_0000_0000) as u32;
    let high = seed_val / 0x1_0000_0000;
    let mut v: Vec<u32> = Vec::new();
    v.push(low);
    if high != 0 {
        v.push(high as u32);
    }
    v
}

/// `#rrggbbaa`, lower case.
pub fn rgba_hex_raw(r: u8, g: u8, b: u8, a: u8) -> (s: String)
    ensures
        s@ == "#"@ + hex_fixed(r as nat, 2) + hex_fixed(g as nat, 2) + hex_fixed(b as nat, 2)
            + hex_fixed(a as nat, 2),
{
    let mut s = String::new();
    push_char(&mut s, '#');
    push_str(&mut s, hex_fixed_u64(r as u64, 2).as_str());
    push_str(&mut s, hex_fixed_u64(g as u64, 2).as_str());
    push_str(&mut s, hex_fixed_u64(b as u64, 2).as_str());
    push_str(&mut s, hex_fixed_u64(a as u64, 2).as_str());
    proof {
        reveal_strlit("#");
        assert(s@ =~= "#"@ + hex_fixed(r as nat, 2) + hex_fixed(g as nat, 2) + hex_fixed(b as nat, 2)
            + hex_fixed(a as nat, 2));
    }
    s
}

// ---------------------------------------------------------------------------
// Colors
// ---------------------------------------------------------------------------

/// Squared distance of two colors, alpha included.
pub open spec fn distance(a: Rgba, b: Rgba) -> int {
    (a.0 - b.0) * (a.0 - b.0) + (a.1 - b.1) * (a.1 - b.1) + (a.2 - b.2) * (a.2 - b.2) + (a.3 - b.3)
        * (a.3 - b.3)
}

pub fn color_distance(left: Rgba, right: Rgba) -> (d: u32)
    ensures
        d == distance(left, right),
{
    let dr = left.0 as i32 - right.0 as i32;
    let dg = left.1 as i32 - right.1 as i32;
    let db = left.2 as i32 - right.2 as i32;
    let da = left.3 as i32 - right.3 as i32;
    assert(dr * dr <= 65025 && dg * dg <= 65025 && db * db <= 65025 && da * da <= 65025) by (nonlinear_arith)
        requires
            -255 <= dr <= 255,
            -255 <= dg <= 255,
            -255 <= db <= 255,
            -255 <= da <= 255,
    ;
    assert(dr * dr >= 0 && dg * dg >= 0 && db * db >= 0 && da * da >= 0) by (nonlinear_arith);
    (dr * dr + dg * dg + db * db + da * da) as u32
}

/// The first palette color nearest to `c`.
pub open spec fn is_nearest(c: Rgba, palette: Seq<Rgba>, i: int) -> bool {
    &&& 0 <= i < palette.len()
    &&& forall|j: int| 0 <= j < palette.len() ==> distance(c, palette[i]) <= distance(c, #[trigger] palette[j])
    &&& forall|j: int| 0 <= j < i ==> distance(c, palette[i]) < distance(c, #[trigger] palette[j])
}

/// The first palette color at the least distance from `c`.
pub open spec fn nearest_color(c: Rgba, palette: Seq<Rgba>) -> Rgba {
    palette[choose|i: int| is_nearest(c, palette, i)]
}

/// Only one position is the first nearest.
pub proof fn lemma_nearest_unique(c: Rgba, palette: Seq<Rgba>, i: int, j: int)
    requires
        is_nearest(c, palette, i),
        is_nearest(c, palette, j),
    ensures
        i == j,
{
    if i < j {
        assert(distance(c, palette[j]) < distance(c, palette[i]));
    } else if j < i {
        assert(distance(c, palette[i]) < distance(c, palette[j]));
    }
}

/// The palette color nearest to `rgba`, the first of those at the least
/// distance.
pub fn nearest_widget_color(rgba: Rgba, palette: &[Rgba]) -> (r: Rgba)
    requires
        palette@.len() > 0,
    ensures
        exists|i: int| is_nearest(rgba, palette@, i) && r == palette@[i],
        r == nearest_color(rgba, palette@),
{
    let mut best_i: usize = 0;
    let mut best = palette[0];
    let mut best_distance = color_distance(rgba, best);
    let mut k: usize = 1;
    while k < palette.len()
        invariant
            1 <= k <= palette@.len(),
            best_i < k,
            best == palette@[best_i as int],
            best_distance == distance(rgba, best),
            forall|j: int| 0 <= j < k ==> distance(rgba, best) <= distance(rgba, #[trigger] palette@[j]),
            forall|j: int| 0 <= j < best_i ==> distance(rgba, best) < distance(rgba, #[trigger] palette@[j]),
        decreases palette@.len() - k,
    {
        let candidate = palette[k];
        let d = color_distance(rgba, candidate);
        if d < best_distance {
            best = candidate;
            best_distance = d;
            best_i = k;
        }
        k += 1;
    }
    assert(is_nearest(rgba, palette@, best_i as int));
    proof {
        let i = choose|i: int| is_nearest(rgba, palette@, i);
        lemma_nearest_unique(rgba, palette@, i, best_i as int);
    }
    best
}

// ---------------------------------------------------------------------------
// Widget frames
// ---------------------------------------------------------------------------

/// The opaque pixels of a pixel sequence, in order.
pub open spec fn opaque_of(px: Seq<Rgba>) -> Seq<Rgba>
    decreases px.len(),
{
    if px.len() == 0 {
        seq![]
    } else if px.last().3 == 0 {
        opaque_of(px.drop_last())
    } else {
        opaque_of(px.drop_last()).push(px.last())
    }
}

/// The opaque pixels of all frames, frame by frame.
pub open spec fn opaque_pixels(frames: Seq<PixelFrame>) -> Seq<Rgba>
    decreases frames.len(),
{
    if frames.len() == 0 {
        seq![]
    } else {
        opaque_pixels(frames.drop_last()) + opaque_of(frames.last().pixels@)
    }
}

/// The distinct colors in order of first appearance.
pub open spec fn first_seen(s: Seq<Rgba>) -> Seq<Rgba>
    decreases s.len(),
{
    if s.len() == 0 {
        seq![]
    } else {
        let f = first_seen(s.drop_last());
        if f.contains(s.last()) {
            f
        } else {
            f.push(s.last())
        }
    }
}

fn palette_contains(palette: &Vec<Rgba>, c: Rgba) -> (b: bool)
    ensures
        b == palette@.contains(c),
{
    let mut i: usize = 0;
    while i < palette.len()
        invariant
            i <= palette@.len(),
            forall|k: int| 0 <= k < i ==> palette@[k] != c,
        decreases palette@.len() - i,
    {
        let e = palette[i];
        if e.0 == c.0 && e.1 == c.1 && e.2 == c.2 && e.3 == c.3 {
            assert(palette@[i as int] == c);
            return true;
        }
        i += 1;
    }
    false
}

/// Adds the opaque colors of `px` not yet in `palette`, in order.
fn add_colors(palette: &mut Vec<Rgba>, px: &Vec<Rgba>, Ghost(prefix): Ghost<Seq<Rgba>>)
    requires
        old(palette)@ == first_seen(prefix),
    ensures
        final(palette)@ == first_seen(prefix + opaque_of(px@)),
{
    let mut i: usize = 0;
    assert(opaque_of(px@.take(0)) =~= Seq::<Rgba>::empty());
    assert(prefix + opaque_of(px@.take(0)) =~= prefix);
    while i < px.len()
        invariant
            i <= px@.len(),
            palette@ == first_seen(prefix + opaque_of(px@.take(i as int))),
        decreases px@.len() - i,
    {
        let c = px[i];
        let ghost t = prefix + opaque_of(px@.take(i as int));
        proof {
            assert(px@.take(i + 1).drop_last() =~= px@.take(i as int));
            assert(px@.take(i + 1).last() == c);
        }
        if c.3 != 0 {
            if !palette_contains(palette, c) {
                palette.push(c);
            }
            proof {
                assert(prefix + opaque_of(px@.take(i + 1)) =~= t.push(c));
                assert(t.push(c).drop_last() =~= t);
            }
        } else {
            proof {
                assert(opaque_of(px@.take(i + 1)) == opaque_of(px@.take(i as int)));
            }
        }
        i += 1;
    }
    assert(px@.take(px@.len() as int) =~= px@);
}

/// The distinct opaque colors of the frames, in order of first appearance;
/// there must be fewer than there are symbols after `.` in the alphabet.
pub fn build_widget_palette(frames: &[PixelFrame]) -> (palette: Vec<Rgba>)
    requires
        first_seen(opaque_pixels(frames@)).len() < 65,
    ensures
        palette@ == first_seen(opaque_pixels(frames@)),
{
    distinct_colors(frames)
}

/// The distinct opaque colors of the frames, in order of first appearance.
fn distinct_colors(frames: &[PixelFrame]) -> (palette: Vec<Rgba>)
    ensures
        palette@ == first_seen(opaque_pixels(frames@)),
{
    let mut palette: Vec<Rgba> = Vec::new();
    let mut i: usize = 0;
    assert(frames@.take(0) =~= Seq::<PixelFrame>::empty());
    while i < frames.len()
        invariant
            i <= frames@.len(),
            palette@ == first_seen(opaque_pixels(frames@.take(i as int))),
        decreases frames@.len() - i,
    {
        let ghost before = opaque_pixels(frames@.take(i as int));
        add_colors(&mut palette, &frames[i].pixels, Ghost(before));
        proof {
            assert(frames@.take(i + 1).drop_last() =~= frames@.take(i as int));
            assert(frames@.take(i + 1).last() == frames@[i as int]);
        }
        i += 1;
    }
    assert(frames@.take(frames@.len() as int) =~= frames@);
    palette
}

/// The position of `c` in the palette.
pub open spec fn index_in(palette: Seq<Rgba>, c: Rgba) -> int {
    choose|i: int| 0 <= i < palette.len() && palette[i] == c && forall|j: int| 0 <= j < i ==> palette[j] != c
}

/// The symbol of a pixel: `.` when transparent, else the alphabet symbol
/// after the position of its color in the palette.
pub open spec fn pixel_symbol(p: Rgba, palette: Seq<Rgba>) -> char {
    if p.3 == 0 {
        '.'
    } else {
        alphabet()[index_in(palette, p) + 1]
    }
}

/// Every opaque pixel's color is in the palette.
pub open spec fn palette_covers(px: Seq<Rgba>, palette: Seq<Rgba>) -> bool {
    forall|i: int| 0 <= i < px.len() && (#[trigger] px[i]).3 != 0 ==> palette.contains(px[i])
}

/// The first position of `c` in the palette.
fn palette_index(palette: &[Rgba], c: Rgba) -> (k: usize)
    requires
        palette@.contains(c),
    ensures
        k < palette@.len(),
        palette@[k as int] == c,
        k == index_in(palette@, c),
{
    let mut k: usize = 0;
    while k < palette.len()
        invariant
            k <= palette@.len(),
            palette@.contains(c),
            forall|j: int| 0 <= j < k ==> palette@[j] != c,
        decreases palette@.len() - k,
    {
        let e = palette[k];
        if e.0 == c.0 && e.1 == c.1 && e.2 == c.2 && e.3 == c.3 {
            assert(palette@[k as int] == c);
            proof {
                let w = index_in(palette@, c);
                assert(0 <= k < palette@.len() && palette@[k as int] == c && forall|j: int|
                    0 <= j < k ==> palette@[j] != c);
                assert(w == k) by {
                    if w < k {
                    } else if w > k {
                    }
                }
            }
            return k;
        }
        k += 1;
    }
    proof {
        let j = choose|j: int| 0 <= j < palette@.len() && palette@[j] == c;
        assert(palette@[j] != c);
    }
    0
}

/// A frame as a string of palette symbols, one per pixel.
pub fn build_widget_frame_string(frame: &PixelFrame, palette: &[Rgba]) -> (s: String)
    requires
        palette@.len() < 65,
        palette_covers(frame.pixels@, palette@),
    ensures
        s@ == frame.pixels@.map_values(|p: Rgba| pixel_symbol(p, palette@)),
{
    let alpha = crate::text::chars_of(WIDGET_MASCOT_ALPHABET);
    proof {
        reveal_strlit(".0123456789ABCDEFGHIJKLMNOPQRSTUVWXYZabcdefghijklmnopqrstuvwxyz-_");
    }
    let mut out: Vec<char> = Vec::new();
    let mut i: usize = 0;
    while i < frame.pixels.len()
        invariant
            i <= frame.pixels@.len(),
            alpha@ == alphabet(),
            alpha@.len() == 65,
            palette@.len() < 65,
            palette_covers(frame.pixels@, palette@),
            out@ == frame.pixels@.take(i as int).map_values(|p: Rgba| pixel_symbol(p, palette@)),
        decreases frame.pixels@.len() - i,
    {
        let p = frame.pixels[i];
        if p.3 == 0 {
            out.push('.');
        } else {
            assert(palette@.contains(p));
            let k = palette_index(palette, p);
            out.push(alpha[k + 1]);
        }
        proof {
            assert(frame.pixels@.take(i + 1) =~= frame.pixels@.take(i as int).push(p));
            assert(out@ =~= frame.pixels@.take(i + 1).map_values(|p: Rgba| pixel_symbol(p, palette@)));
        }
        i += 1;
    }
    assert(frame.pixels@.take(frame.pixels@.len() as int) =~= frame.pixels@);
    crate::text::string_of(out.as_slice())
}

// ---------------------------------------------------------------------------
// Archived mascots
// ---------------------------------------------------------------------------

pub open spec fn traversal_msg() -> Seq<char> {
    "binagotchy folder name must not be empty or traversal-only"@
}

pub open spec fn segment_msg() -> Seq<char> {
    "binagotchy folder name must be a single path segment"@
}

/// Why an archive folder name is refused: empty, `.` or `..`, or more
/// than one path segment.
pub open spec fn folder_error(folder: Seq<char>) -> Option<Seq<char>> {
    if folder.len() == 0 || folder == "."@ || folder == ".."@ {
        Some(traversal_msg())
    } else if folder.contains('/') || folder.contains('\\') {
        Some(segment_msg())
    } else {
        None
    }
}

/// Checks the name of an archived mascot folder.
pub fn check_archived_folder_name(folder: &str) -> (r: Result<(), String>)
    ensures
        match r {
            Ok(()) => folder_error(folder@) is None,
            Err(e) => folder_error(folder@) == Some(e@),
        },
{
    let v = crate::text::chars_of(folder);
    proof {
        reveal_strlit(".");
        reveal_strlit("..");
        reveal_strlit("binagotchy folder name must not be empty or traversal-only");
        reveal_strlit("binagotchy folder name must be a single path segment");
    }
    if v.len() == 0 || crate::text::str_eq(folder, ".") || crate::text::str_eq(folder, "..") {
        return Err(crate::text::string_of(crate::text::chars_of("binagotchy folder name must not be empty or traversal-only").as_slice()));
    }
    if crate::text::char_in(v.as_slice(), '/') || crate::text::char_in(v.as_slice(), '\\') {
        return Err(crate::text::string_of(crate::text::chars_of("binagotchy folder name must be a single path segment").as_slice()));
    }
    Ok(())
}

/// `binagotchy archive folder not found: {folder}`.
pub fn folder_not_found_message(folder: &str) -> (s: String)
    ensures
        s@ == "binagotchy archive folder not found: "@ + folder@,
{
    let mut s = String::new();
    push_str(&mut s, "binagotchy archive folder not found: ");
    push_str(&mut s, folder);
    s
}

/// The value of trait `key`, or the error naming the missing trait.
pub fn required_trait(traits: &[(String, String)], key: &str) -> (r: Result<String, String>)
    ensures
        match r {
            Ok(v) => exists|i: int|
                0 <= i < traits@.len() && (#[trigger] traits@[i]).0@ == key@ && traits@[i].1@ == v@
                    && forall|j: int| 0 <= j < i ==> (#[trigger] traits@[j]).0@ != key@,
            Err(e) => e@ == "missing mascot trait: "@ + key@ && forall|i: int|
                0 <= i < traits@.len() ==> (#[trigger] traits@[i]).0@ != key@,
        },
{
    let mut i: usize = 0;
    while i < traits.len()
        invariant
            i <= traits@.len(),
            forall|j: int| 0 <= j < i ==> (#[trigger] traits@[j]).0@ != key@,
        decreases traits@.len() - i,
    {
        if crate::text::str_eq(traits[i].0.as_str(), key) {
            return Ok(traits[i].1.clone());
        }
        i += 1;
    }
    let mut e = String::new();
    push_str(&mut e, "missing mascot trait: ");
    push_str(&mut e, key);
    Err(e)
}

// ---------------------------------------------------------------------------
// Pixel frames: bounds, crops and masks
// ---------------------------------------------------------------------------

/// The pixel at column `x`, row `y`.
pub fn pixel_at(f: &PixelFrame, x: usize, y: usize) -> (p: Rgba)
    requires
        f.wf(),
        x < f.width,
        y < f.height,
    ensures
        p == f.at(x as int, y as int),
{
    let n = f.pixels.len();
    proof {
        assert(y * f.width + x < f.width * f.height) by (nonlinear_arith)
            requires
                x < f.width,
                y < f.height,
        ;
        assert(0 <= y * f.width) by (nonlinear_arith);
    }
    let row = y * f.width;
    f.pixels[row + x]
}

/// A copy of a frame.
pub fn copy_frame(f: &PixelFrame) -> (r: PixelFrame)
    ensures
        r.width == f.width,
        r.height == f.height,
        r.pixels@ == f.pixels@,
{
    let mut pixels: Vec<Rgba> = Vec::new();
    let mut i: usize = 0;
    while i < f.pixels.len()
        invariant
            i <= f.pixels@.len(),
            pixels@ == f.pixels@.take(i as int),
        decreases f.pixels@.len() - i,
    {
        pixels.push(f.pixels[i]);
        assert(f.pixels@.take(i + 1) =~= f.pixels@.take(i as int).push(f.pixels@[i as int]));
        i += 1;
    }
    assert(f.pixels@.take(f.pixels@.len() as int) =~= f.pixels@);
    PixelFrame { width: f.width, height: f.height, pixels }
}

/// Pixel `(x, y)` of the frame is inside it and not transparent.
pub open spec fn opaque_at(f: PixelFrame, x: int, y: int) -> bool {
    0 <= x < f.width && 0 <= y < f.height && f.at(x, y).3 != 0
}

/// `b` = (least column, least row, greatest column, greatest row) of the
/// opaque pixels of frame `f`.
pub open spec fn frame_bounds_are(f: PixelFrame, b: (usize, usize, usize, usize)) -> bool {
    &&& forall|x: int, y: int| #[trigger] opaque_at(f, x, y) ==> b.0 <= x <= b.2 && b.1 <= y <= b.3
    &&& exists|y: int| #[trigger] opaque_at(f, b.0 as int, y)
    &&& exists|y: int| #[trigger] opaque_at(f, b.2 as int, y)
    &&& exists|x: int| #[trigger] opaque_at(f, x, b.1 as int)
    &&& exists|x: int| #[trigger] opaque_at(f, x, b.3 as int)
}

pub open spec fn all_clear(f: PixelFrame) -> bool {
    forall|x: int, y: int| !#[trigger] opaque_at(f, x, y)
}

/// Pixel `(x, y)` comes before `(cx, cy)` in row order.
pub open spec fn scanned(x: int, y: int, cx: int, cy: int) -> bool {
    y < cy || (y == cy && x < cx)
}

/// The bounds of the opaque pixels of one frame.
pub fn frame_bounds(f: &PixelFrame) -> (r: Option<(usize, usize, usize, usize)>)
    requires
        f.wf(),
    ensures
        match r {
            Some(b) => frame_bounds_are(*f, b),
            None => all_clear(*f),
        },
{
    let mut found = false;
    let mut b: (usize, usize, usize, usize) = (0, 0, 0, 0);
    let ghost mut w0: int = 0;
    let ghost mut w2: int = 0;
    let ghost mut w1: int = 0;
    let ghost mut w3: int = 0;
    let mut y: usize = 0;
    while y < f.height
        invariant
            f.wf(),
            y <= f.height,
            found ==> opaque_at(*f, b.0 as int, w0) && opaque_at(*f, b.2 as int, w2) && opaque_at(
                *f,
                w1,
                b.1 as int,
            ) && opaque_at(*f, w3, b.3 as int),
            forall|x: int, yy: int|
                #[trigger] opaque_at(*f, x, yy) && yy < y ==> found && b.0 <= x <= b.2 && b.1 <= yy <= b.3,
        decreases f.height - y,
    {
        let mut x: usize = 0;
        while x < f.width
            invariant
                f.wf(),
                y < f.height,
                x <= f.width,
                found ==> opaque_at(*f, b.0 as int, w0) && opaque_at(*f, b.2 as int, w2) && opaque_at(
                    *f,
                    w1,
                    b.1 as int,
                ) && opaque_at(*f, w3, b.3 as int),
                forall|xx: int, yy: int|
                    #[trigger] opaque_at(*f, xx, yy) && scanned(xx, yy, x as int, y as int) ==> found && b.0
                        <= xx <= b.2 && b.1 <= yy <= b.3,
            decreases f.width - x,
        {
            let p = pixel_at(f, x, y);
            if p.3 != 0 {
                if !found {
                    found = true;
                    b = (x, y, x, y);
                    proof {
                        w0 = y as int;
                        w2 = y as int;
                        w1 = x as int;
                        w3 = x as int;
                    }
                } else {
                    if x < b.0 {
                        b.0 = x;
                        proof {
                            w0 = y as int;
                        }
                    }
                    if x > b.2 {
                        b.2 = x;
                        proof {
                            w2 = y as int;
                        }
                    }
                    if y < b.1 {
                        b.1 = y;
                        proof {
                            w1 = x as int;
                        }
                    }
                    if y > b.3 {
                        b.3 = y;
                        proof {
                            w3 = x as int;
                        }
                    }
                }
            }
            x += 1;
        }
        y += 1;
    }
    if found {
        Some(b)
    } else {
        None
    }
}

/// `b` bounds the opaque pixels of all the frames, exactly.
pub open spec fn bounds_of_all(frames: Seq<PixelFrame>, b: (usize, usize, usize, usize)) -> bool {
    &&& forall|k: int, x: int, y: int|
        0 <= k < frames.len() && #[trigger] opaque_at(frames[k], x, y) ==> b.0 <= x <= b.2 && b.1 <= y
            <= b.3
    &&& exists|k: int, y: int| 0 <= k < frames.len() && #[trigger] opaque_at(frames[k], b.0 as int, y)
    &&& exists|k: int, y: int| 0 <= k < frames.len() && #[trigger] opaque_at(frames[k], b.2 as int, y)
    &&& exists|k: int, x: int| 0 <= k < frames.len() && #[trigger] opaque_at(frames[k], x, b.1 as int)
    &&& exists|k: int, x: int| 0 <= k < frames.len() && #[trigger] opaque_at(frames[k], x, b.3 as int)
}

pub open spec fn frames_wf(frames: Seq<PixelFrame>) -> bool {
    forall|k: int| 0 <= k < frames.len() ==> (#[trigger] frames[k]).wf()
}

/// Bounds of some frames, widened by the bounds of one more frame, bound
/// them all.
proof fn lemma_bounds_push(
    pre: Seq<PixelFrame>,
    f: PixelFrame,
    b: (usize, usize, usize, usize),
    fb: (usize, usize, usize, usize),
    nb: (usize, usize, usize, usize),
)
    requires
        bounds_of_all(pre, b),
        frame_bounds_are(f, fb),
        nb.0 == (if fb.0 < b.0 { fb.0 } else { b.0 }),
        nb.1 == (if fb.1 < b.1 { fb.1 } else { b.1 }),
        nb.2 == (if fb.2 > b.2 { fb.2 } else { b.2 }),
        nb.3 == (if fb.3 > b.3 { fb.3 } else { b.3 }),
    ensures
        bounds_of_all(pre.push(f), nb),
{
    let next = pre.push(f);
    let n = pre.len() as int;
    assert(next[n] == f);
    assert forall|k: int, x: int, y: int|
        0 <= k < next.len() && #[trigger] opaque_at(next[k], x, y) implies nb.0 <= x <= nb.2 && nb.1
        <= y <= nb.3 by {
        if k < n {
            assert(next[k] == pre[k]);
            assert(opaque_at(pre[k], x, y));
        } else {
            assert(opaque_at(f, x, y));
        }
    }
    if fb.0 < b.0 {
        let y = choose|y: int| opaque_at(f, fb.0 as int, y);
        assert(opaque_at(next[n], nb.0 as int, y));
    } else {
        let (k, y) = choose|k: int, y: int| 0 <= k < pre.len() && opaque_at(pre[k], b.0 as int, y);
        assert(next[k] == pre[k]);
        assert(opaque_at(next[k], nb.0 as int, y));
    }
    if fb.2 > b.2 {
        let y = choose|y: int| opaque_at(f, fb.2 as int, y);
        assert(opaque_at(next[n], nb.2 as int, y));
    } else {
        let (k, y) = choose|k: int, y: int| 0 <= k < pre.len() && opaque_at(pre[k], b.2 as int, y);
        assert(next[k] == pre[k]);
        assert(opaque_at(next[k], nb.2 as int, y));
    }
    if fb.1 < b.1 {
        let x = choose|x: int| opaque_at(f, x, fb.1 as int);
        assert(opaque_at(next[n], x, nb.1 as int));
    } else {
        let (k, x) = choose|k: int, x: int| 0 <= k < pre.len() && opaque_at(pre[k], x, b.1 as int);
        assert(next[k] == pre[k]);
        assert(opaque_at(next[k], x, nb.1 as int));
    }
    if fb.3 > b.3 {
        let x = choose|x: int| opaque_at(f, x, fb.3 as int);
        assert(opaque_at(next[n], x, nb.3 as int));
    } else {
        let (k, x) = choose|k: int, x: int| 0 <= k < pre.len() && opaque_at(pre[k], x, b.3 as int);
        assert(next[k] == pre[k]);
        assert(opaque_at(next[k], x, nb.3 as int));
    }
}

/// The bounds of the opaque pixels of all the frames.
pub fn visible_bounds(frames: &[PixelFrame]) -> (r: Option<(usize, usize, usize, usize)>)
    requires
        frames_wf(frames@),
    ensures
        match r {
            Some(b) => bounds_of_all(frames@, b),
            None => forall|k: int, x: int, y: int|
                0 <= k < frames@.len() ==> !#[trigger] opaque_at(frames@[k], x, y),
        },
{
    let mut r: Option<(usize, usize, usize, usize)> = None;
    let mut k: usize = 0;
    while k < frames.len()
        invariant
            frames_wf(frames@),
            k <= frames@.len(),
            match r {
                Some(b) => bounds_of_all(frames@.take(k as int), b),
                None => forall|j: int, x: int, y: int|
                    0 <= j < k ==> !#[trigger] opaque_at(frames@[j], x, y),
            },
        decreases frames@.len() - k,
    {
        let ghost pre = frames@.take(k as int);
        let ghost next = frames@.take(k + 1);
        assert(next =~= pre.push(frames@[k as int]));
        assert(forall|j: int| 0 <= j < k ==> next[j] == pre[j] && pre[j] == frames@[j]);
        assert(next[k as int] == frames@[k as int]);
        assert(frames@[k as int].wf());
        match frame_bounds(&frames[k]) {
            None => {
                match r {
                    Some(b) => {
                        assert(bounds_of_all(next, b));
                    },
                    None => {},
                }
            },
            Some(fb) => {
                match r {
                    None => {
                        r = Some(fb);
                        assert(bounds_of_all(next, fb));
                    },
                    Some(b) => {
                        let nb = (
                            if fb.0 < b.0 { fb.0 } else { b.0 },
                            if fb.1 < b.1 { fb.1 } else { b.1 },
                            if fb.2 > b.2 { fb.2 } else { b.2 },
                            if fb.3 > b.3 { fb.3 } else { b.3 },
                        );
                        r = Some(nb);
                        proof {
                            lemma_bounds_push(pre, frames@[k as int], b, fb, nb);
                        }
                    },
                }
            },
        }
        k += 1;
    }
    assert(frames@.take(frames@.len() as int) =~= frames@);
    r
}

/// Where `image::imageops::crop_imm(f, x, y, width, height)` cuts: the
/// corner kept inside the frame, the size cut to what is left of it.
pub open spec fn crop_dims(f: PixelFrame, x: nat, y: nat, width: nat, height: nat) -> (nat, nat, nat, nat) {
    let cx: nat = if x < f.width {
        x
    } else {
        f.width as nat
    };
    let cy: nat = if y < f.height {
        y
    } else {
        f.height as nat
    };
    let w: nat = if width < f.width - cx {
        width
    } else {
        (f.width - cx) as nat
    };
    let h: nat = if height < f.height - cy {
        height
    } else {
        (f.height - cy) as nat
    };
    (cx, cy, w, h)
}

/// The pixels of the `w` by `h` piece of `f` at `(cx, cy)`, in row order.
pub open spec fn crop_pixels(f: PixelFrame, cx: int, cy: int, w: int, h: int) -> Seq<Rgba> {
    Seq::new((w * h) as nat, |i: int| f.at(cx + i % w, cy + i / w))
}

/// Index `y * w + x` of a row-major grid `w` wide is column `x`, row `y`.
pub proof fn lemma_row_major(x: int, y: int, w: int)
    requires
        0 <= x < w,
        0 <= y,
    ensures
        (y * w + x) / w == y,
        (y * w + x) % w == x,
{
    vstd::arithmetic::div_mod::lemma_fundamental_div_mod_converse(y * w + x, w, y, x);
}

/// `r` is the `width` by `height` piece of `f` at `(x, y)`, both cut to
/// what lies inside `f`.
pub open spec fn is_crop(r: PixelFrame, f: PixelFrame, x: int, y: int, width: int, height: int) -> bool {
    let (cx, cy, w, h) = crop_dims(f, x as nat, y as nat, width as nat, height as nat);
    &&& r.width == w
    &&& r.height == h
    &&& r.pixels@ == crop_pixels(f, cx as int, cy as int, w as int, h as int)
}

/// A crop of the frame: `image::imageops::crop_imm(f, x, y, width,
/// height).to_image()`, the same as far as the few lines of `crop_dims`
/// and `crop_pixels` state it.
pub fn crop_frame(f: &PixelFrame, x: usize, y: usize, width: usize, height: usize) -> (r: PixelFrame)
    requires
        f.wf(),
    ensures
        is_crop(r, *f, x as int, y as int, width as int, height as int),
        r.wf(),
{
    let cx = if x < f.width { x } else { f.width };
    let cy = if y < f.height { y } else { f.height };
    let w = if width < f.width - cx { width } else { f.width - cx };
    let h = if height < f.height - cy { height } else { f.height - cy };
    let ghost target = crop_pixels(*f, cx as int, cy as int, w as int, h as int);
    let mut pixels: Vec<Rgba> = Vec::new();
    let mut j: usize = 0;
    proof {
        assert(w * h <= f.width * f.height) by (nonlinear_arith)
            requires
                w <= f.width,
                h <= f.height,
        ;
    }
    while j < h
        invariant
            f.wf(),
            cx + w <= f.width,
            cy + h <= f.height,
            j <= h,
            w * h <= f.width * f.height,
            target == crop_pixels(*f, cx as int, cy as int, w as int, h as int),
            pixels@.len() == j * w,
            j * w <= w * h,
            forall|k: int| 0 <= k < pixels@.len() ==> #[trigger] pixels@[k] == target[k],
        decreases h - j,
    {
        let mut i: usize = 0;
        while i < w
            invariant
                f.wf(),
                cx + w <= f.width,
                cy + h <= f.height,
                j < h,
                i <= w,
                w * h <= f.width * f.height,
                target == crop_pixels(*f, cx as int, cy as int, w as int, h as int),
                pixels@.len() == j * w + i,
                j * w + i <= w * h,
                forall|k: int| 0 <= k < pixels@.len() ==> #[trigger] pixels@[k] == target[k],
            decreases w - i,
        {
            proof {
                lemma_row_major(i as int, j as int, w as int);
                assert(j * w + i < w * h) by (nonlinear_arith)
                    requires
                        i < w,
                        j < h,
                ;
            }
            let p = pixel_at(f, cx + i, cy + j);
            let ghost at = j * w + i;
            pixels.push(p);
            assert(pixels@[at] == target[at]);
            i += 1;
        }
        proof {
            assert((j + 1) * w == j * w + w) by (nonlinear_arith);
            assert((j + 1) * w <= w * h) by (nonlinear_arith)
                requires
                    j < h,
            ;
        }
        j += 1;
    }
    proof {
        assert(h * w == w * h) by (nonlinear_arith);
        assert(pixels@.len() == target.len());
    }
    assert(pixels@ =~= target);
    PixelFrame { width: w, height: h, pixels }
}

/// `a - b`, or 0 where `b` is the larger.
pub open spec fn sat_sub(a: int, b: int) -> int {
    if a > b {
        a - b
    } else {
        0
    }
}

/// The window (x, y, width, height) that bounds `b` widened by `pad` on
/// each side take from a frame `fw` by `fh`: the far edges stop at the last
/// column and row.
pub open spec fn padded_window(b: (usize, usize, usize, usize), fw: int, fh: int, pad: int) -> (
    int,
    int,
    int,
    int,
) {
    let x = sat_sub(b.0 as int, pad);
    let y = sat_sub(b.1 as int, pad);
    let mx = if b.2 + pad < sat_sub(fw, 1) {
        b.2 + pad
    } else {
        sat_sub(fw, 1)
    };
    let my = if b.3 + pad < sat_sub(fh, 1) {
        b.3 + pad
    } else {
        sat_sub(fh, 1)
    };
    (x, y, sat_sub(mx, x) + 1, sat_sub(my, y) + 1)
}

fn window_of(b: (usize, usize, usize, usize), fw: usize, fh: usize, pad: usize) -> (r: (
    usize,
    usize,
    usize,
    usize,
))
    ensures
        r.0 == padded_window(b, fw as int, fh as int, pad as int).0,
        r.1 == padded_window(b, fw as int, fh as int, pad as int).1,
        r.2 == padded_window(b, fw as int, fh as int, pad as int).2,
        r.3 == padded_window(b, fw as int, fh as int, pad as int).3,
{
    let x = b.0.saturating_sub(pad);
    let y = b.1.saturating_sub(pad);
    let last_x = fw.saturating_sub(1);
    let last_y = fh.saturating_sub(1);
    let far_x = b.2.saturating_add(pad);
    let far_y = b.3.saturating_add(pad);
    let mx = if far_x < last_x { far_x } else { last_x };
    let my = if far_y < last_y { far_y } else { last_y };
    (x, y, mx.saturating_sub(x) + 1, my.saturating_sub(y) + 1)
}

/// `r` holds the same frame as `f`.
pub open spec fn same_frame(r: PixelFrame, f: PixelFrame) -> bool {
    r.width == f.width && r.height == f.height && r.pixels@ == f.pixels@
}

/// The frames cut to the opaque pixels of all of them, with a margin of two
/// pixels kept inside the first frame; unchanged where nothing is opaque.
pub fn crop_frames(frames: &[PixelFrame]) -> (r: Vec<PixelFrame>)
    requires
        frames_wf(frames@),
    ensures
        frames@.len() == 0 ==> r@.len() == 0,
        frames@.len() > 0 ==> r@.len() == frames@.len(),
        frames@.len() > 0 && (forall|k: int, x: int, y: int|
            0 <= k < frames@.len() ==> !#[trigger] opaque_at(frames@[k], x, y)) ==> forall|k: int|
            0 <= k < frames@.len() ==> same_frame(#[trigger] r@[k], frames@[k]),
        frames@.len() > 0 && !(forall|k: int, x: int, y: int|
            0 <= k < frames@.len() ==> !#[trigger] opaque_at(frames@[k], x, y)) ==> exists|
            b: (usize, usize, usize, usize),
        |
            {
                let (x, y, w, h) = padded_window(
                    b,
                    frames@[0].width as int,
                    frames@[0].height as int,
                    2,
                );
                &&& #[trigger] bounds_of_all(frames@, b)
                &&& forall|k: int|
                    0 <= k < frames@.len() ==> is_crop(#[trigger] r@[k], frames@[k], x, y, w, h)
            },
{
    let mut out: Vec<PixelFrame> = Vec::new();
    if frames.len() == 0 {
        return out;
    }
    let fw = frames[0].width;
    let fh = frames[0].height;
    match visible_bounds(frames) {
        None => {
            let mut k: usize = 0;
            while k < frames.len()
                invariant
                    k <= frames@.len(),
                    out@.len() == k,
                    forall|j: int| 0 <= j < k ==> same_frame(#[trigger] out@[j], frames@[j]),
                decreases frames@.len() - k,
            {
                out.push(copy_frame(&frames[k]));
                k += 1;
            }
        },
        Some(b) => {
            let win = window_of(b, fw, fh, 2);
            let mut k: usize = 0;
            while k < frames.len()
                invariant
                    frames_wf(frames@),
                    k <= frames@.len(),
                    out@.len() == k,
                    forall|j: int|
                        0 <= j < k ==> is_crop(
                            #[trigger] out@[j],
                            frames@[j],
                            win.0 as int,
                            win.1 as int,
                            win.2 as int,
                            win.3 as int,
                        ),
                decreases frames@.len() - k,
            {
                assert(frames@[k as int].wf());
                out.push(crop_frame(&frames[k], win.0, win.1, win.2, win.3));
                k += 1;
            }
            assert(bounds_of_all(frames@, b));
        },
    }
    out
}

/// The frame cut to its opaque pixels with a margin of `padding` kept
/// inside it; unchanged where nothing is opaque.
pub fn crop_visible_bounds(sprite: &PixelFrame, padding: usize) -> (r: PixelFrame)
    requires
        sprite.wf(),
    ensures
        all_clear(*sprite) ==> same_frame(r, *sprite),
        !all_clear(*sprite) ==> exists|b: (usize, usize, usize, usize)|
            {
                let (x, y, w, h) = padded_window(
                    b,
                    sprite.width as int,
                    sprite.height as int,
                    padding as int,
                );
                #[trigger] frame_bounds_are(*sprite, b) && is_crop(r, *sprite, x, y, w, h)
            },
{
    match frame_bounds(sprite) {
        None => copy_frame(sprite),
        Some(b) => {
            let win = window_of(b, sprite.width, sprite.height, padding);
            let r = crop_frame(sprite, win.0, win.1, win.2, win.3);
            assert(frame_bounds_are(*sprite, b));
            r
        },
    }
}

// ---------------------------------------------------------------------------
// Masks
// ---------------------------------------------------------------------------

/// The grey pixel of an alpha mask for `p`.
pub open spec fn alpha_mask_px(p: Rgba) -> Rgba {
    (p.3, p.3, p.3, 255)
}

/// White where `p` is opaque and of one of the outline colors, else clear.
pub open spec fn line_mask_px(p: Rgba) -> Rgba {
    if p.3 != 0 && ((p.0 == 10 && p.1 == 10 && p.2 == 10) || (p.0 == 20 && p.1 == 20 && p.2 == 20) || (
    p.0 == 35 && p.1 == 35 && p.2 == 40)) {
        (255, 255, 255, 255)
    } else {
        (0, 0, 0, 0)
    }
}

/// The grey pixel whose level is how far `a`'s red exceeds `b`'s.
pub open spec fn diff_px(a: Rgba, b: Rgba) -> Rgba {
    let v: u8 = if a.0 > b.0 {
        (a.0 - b.0) as u8
    } else {
        0
    };
    (v, v, v, 255)
}

/// A frame of the same size whose pixels are `px`.
pub open spec fn reshaped(r: PixelFrame, f: PixelFrame, px: Seq<Rgba>) -> bool {
    r.width == f.width && r.height == f.height && r.pixels@ == px
}

/// The pixel of `b` at the place that index `i` has in a frame `w` wide.
pub open spec fn aligned(b: PixelFrame, w: int, i: int) -> Rgba {
    b.at(i % w, i / w)
}

/// The pixels of `b` on the grid of a `w` by `h` frame, in row order.
fn aligned_pixels(w: usize, h: usize, b: &PixelFrame) -> (r: Vec<Rgba>)
    requires
        b.wf(),
        w <= b.width,
        h <= b.height,
    ensures
        r@.len() == w * h,
        forall|i: int| 0 <= i < r@.len() ==> #[trigger] r@[i] == aligned(*b, w as int, i),
{
    let mut out: Vec<Rgba> = Vec::new();
    let mut y: usize = 0;
    while y < h
        invariant
            b.wf(),
            w <= b.width,
            h <= b.height,
            y <= h,
            out@.len() == y * w,
            forall|k: int| 0 <= k < out@.len() ==> #[trigger] out@[k] == aligned(*b, w as int, k),
        decreases h - y,
    {
        let mut x: usize = 0;
        while x < w
            invariant
                b.wf(),
                w <= b.width,
                h <= b.height,
                y < h,
                x <= w,
                out@.len() == y * w + x,
                forall|k: int| 0 <= k < out@.len() ==> #[trigger] out@[k] == aligned(*b, w as int, k),
            decreases w - x,
        {
            proof {
                lemma_row_major(x as int, y as int, w as int);
            }
            let ghost at = y * w + x;
            out.push(pixel_at(b, x, y));
            assert(out@[at] == aligned(*b, w as int, at));
            x += 1;
        }
        proof {
            assert((y + 1) * w == y * w + w) by (nonlinear_arith);
        }
        y += 1;
    }
    proof {
        assert(h * w == w * h) by (nonlinear_arith);
    }
    out
}

/// The alpha channel of the frame as grey levels, fully opaque.
pub fn extract_alpha_mask(img: &PixelFrame) -> (r: PixelFrame)
    ensures
        reshaped(r, *img, img.pixels@.map_values(|p: Rgba| alpha_mask_px(p))),
{
    let mut out: Vec<Rgba> = Vec::new();
    let mut i: usize = 0;
    while i < img.pixels.len()
        invariant
            i <= img.pixels@.len(),
            out@ == img.pixels@.take(i as int).map_values(|p: Rgba| alpha_mask_px(p)),
        decreases img.pixels@.len() - i,
    {
        let a = img.pixels[i].3;
        out.push((a, a, a, 255));
        assert(img.pixels@.take(i + 1).map_values(|p: Rgba| alpha_mask_px(p)) =~= img.pixels@.take(
            i as int,
        ).map_values(|p: Rgba| alpha_mask_px(p)).push(alpha_mask_px(img.pixels@[i as int])));
        i += 1;
    }
    assert(img.pixels@.take(img.pixels@.len() as int) =~= img.pixels@);
    PixelFrame { width: img.width, height: img.height, pixels: out }
}

/// White where the frame shows one of the outline colors, clear elsewhere.
pub fn line_mask_from_exact_colors(img: &PixelFrame) -> (r: PixelFrame)
    ensures
        reshaped(r, *img, img.pixels@.map_values(|p: Rgba| line_mask_px(p))),
{
    let mut out: Vec<Rgba> = Vec::new();
    let mut i: usize = 0;
    while i < img.pixels.len()
        invariant
            i <= img.pixels@.len(),
            out@ == img.pixels@.take(i as int).map_values(|p: Rgba| line_mask_px(p)),
        decreases img.pixels@.len() - i,
    {
        let p = img.pixels[i];
        let line = p.3 != 0 && ((p.0 == 10 && p.1 == 10 && p.2 == 10) || (p.0 == 20 && p.1 == 20
            && p.2 == 20) || (p.0 == 35 && p.1 == 35 && p.2 == 40));
        if line {
            out.push((255, 255, 255, 255));
        } else {
            out.push((0, 0, 0, 0));
        }
        assert(img.pixels@.take(i + 1).map_values(|p: Rgba| line_mask_px(p)) =~= img.pixels@.take(
            i as int,
        ).map_values(|p: Rgba| line_mask_px(p)).push(line_mask_px(p)));
        i += 1;
    }
    assert(img.pixels@.take(img.pixels@.len() as int) =~= img.pixels@);
    PixelFrame { width: img.width, height: img.height, pixels: out }
}

/// Mask `a` less mask `b`, level by level, down to black; `b` is read on
/// the grid of `a` and must cover it.
pub fn subtract_masks(a: &PixelFrame, b: &PixelFrame) -> (r: PixelFrame)
    requires
        a.wf(),
        b.wf(),
        a.width <= b.width,
        a.height <= b.height,
    ensures
        reshaped(
            r,
            *a,
            Seq::new(a.pixels@.len(), |i: int| diff_px(a.pixels@[i], aligned(*b, a.width as int, i))),
        ),
{
    let bs = aligned_pixels(a.width, a.height, b);
    let ghost target = Seq::new(
        a.pixels@.len(),
        |i: int| diff_px(a.pixels@[i], aligned(*b, a.width as int, i)),
    );
    let mut out: Vec<Rgba> = Vec::new();
    let mut i: usize = 0;
    while i < a.pixels.len()
        invariant
            i <= a.pixels@.len(),
            bs@.len() == a.pixels@.len(),
            forall|k: int| 0 <= k < bs@.len() ==> #[trigger] bs@[k] == aligned(*b, a.width as int, k),
            target == Seq::new(
                a.pixels@.len(),
                |i: int| diff_px(a.pixels@[i], aligned(*b, a.width as int, i)),
            ),
            out@ == target.take(i as int),
        decreases a.pixels@.len() - i,
    {
        let av = a.pixels[i].0;
        let bv = bs[i].0;
        let v: u8 = if av > bv { av - bv } else { 0 };
        out.push((v, v, v, 255));
        assert(target.take(i + 1) =~= target.take(i as int).push(target[i as int]));
        i += 1;
    }
    assert(target.take(a.pixels@.len() as int) =~= target);
    PixelFrame { width: a.width, height: a.height, pixels: out }
}

/// The frame's colors with the alpha of each pixel taken from the level of
/// `alpha` at its place; `alpha` must cover the frame.
pub fn set_alpha_channel(img: &mut PixelFrame, alpha: &PixelFrame)
    requires
        old(img).wf(),
        alpha.wf(),
        old(img).width <= alpha.width,
        old(img).height <= alpha.height,
    ensures
        reshaped(
            *final(img),
            *old(img),
            Seq::new(
                old(img).pixels@.len(),
                |i: int|
                    {
                        let p = old(img).pixels@[i];
                        (p.0, p.1, p.2, aligned(*alpha, old(img).width as int, i).0)
                    },
            ),
        ),
{
    let levels = aligned_pixels(img.width, img.height, alpha);
    let ghost src = img.pixels@;
    let ghost target = Seq::new(
        src.len(),
        |i: int|
            {
                let p = src[i];
                (p.0, p.1, p.2, aligned(*alpha, img.width as int, i).0)
            },
    );
    let mut out: Vec<Rgba> = Vec::new();
    let mut i: usize = 0;
    while i < img.pixels.len()
        invariant
            src == img.pixels@,
            i <= src.len(),
            levels@.len() == src.len(),
            forall|k: int|
                0 <= k < levels@.len() ==> #[trigger] levels@[k] == aligned(*alpha, img.width as int, k),
            target == Seq::new(
                src.len(),
                |i: int|
                    {
                        let p = src[i];
                        (p.0, p.1, p.2, aligned(*alpha, img.width as int, i).0)
                    },
            ),
            out@ == target.take(i as int),
        decreases src.len() - i,
    {
        let p = img.pixels[i];
        out.push((p.0, p.1, p.2, levels[i].0));
        assert(target.take(i + 1) =~= target.take(i as int).push(target[i as int]));
        i += 1;
    }
    assert(target.take(src.len() as int) =~= target);
    img.pixels = out;
}

// ---------------------------------------------------------------------------
// Fitting the colors to the widget alphabet
// ---------------------------------------------------------------------------

/// How often `c` occurs in `s`.
pub open spec fn occurrences(s: Seq<Rgba>, c: Rgba) -> nat
    decreases s.len(),
{
    if s.len() == 0 {
        0
    } else {
        occurrences(s.drop_last(), c) + if s.last() == c {
            1nat
        } else {
            0nat
        }
    }
}

/// The order of colors channel by channel: red, green, blue, alpha.
pub open spec fn rgba_lt(a: Rgba, b: Rgba) -> bool {
    a.0 < b.0 || (a.0 == b.0 && (a.1 < b.1 || (a.1 == b.1 && (a.2 < b.2 || (a.2 == b.2 && a.3
        < b.3)))))
}

/// Among the pixels `all`, color `a` occurs more often than `b`, or as
/// often and is the smaller.
pub open spec fn ranks_before(all: Seq<Rgba>, a: Rgba, b: Rgba) -> bool {
    occurrences(all, a) > occurrences(all, b) || (occurrences(all, a) == occurrences(all, b)
        && rgba_lt(a, b))
}

/// `p` is the `m` colors of `d` that rank first among the pixels `all`,
/// best first.
pub open spec fn top_colors(p: Seq<Rgba>, d: Seq<Rgba>, all: Seq<Rgba>, m: int) -> bool {
    &&& p.len() == m
    &&& forall|i: int| 0 <= i < p.len() ==> d.contains(#[trigger] p[i])
    &&& forall|i: int, j: int|
        0 <= i < j < p.len() ==> ranks_before(all, #[trigger] p[i], #[trigger] p[j])
    &&& forall|c: Rgba|
        #[trigger] d.contains(c) && !p.contains(c) ==> forall|i: int|
            0 <= i < p.len() ==> ranks_before(all, #[trigger] p[i], c)
}

/// A pixel fitted to `palette`: clear stays clear, any other takes the
/// nearest palette color.
pub open spec fn quantize_px(q: Rgba, palette: Seq<Rgba>) -> Rgba {
    if q.3 == 0 {
        (0, 0, 0, 0)
    } else {
        nearest_color(q, palette)
    }
}

/// `r` is frame `f` fitted to `palette`.
pub open spec fn quantized(r: PixelFrame, f: PixelFrame, palette: Seq<Rgba>) -> bool {
    reshaped(r, f, f.pixels@.map_values(|q: Rgba| quantize_px(q, palette)))
}

proof fn lemma_occurrences_concat(a: Seq<Rgba>, b: Seq<Rgba>, c: Rgba)
    ensures
        occurrences(a + b, c) == occurrences(a, c) + occurrences(b, c),
    decreases b.len(),
{
    if b.len() == 0 {
        assert(a + b =~= a);
    } else {
        lemma_occurrences_concat(a, b.drop_last(), c);
        assert((a + b).drop_last() =~= a + b.drop_last());
        assert((a + b).last() == b.last());
    }
}

proof fn lemma_opaque_of_concat(a: Seq<Rgba>, b: Seq<Rgba>)
    ensures
        opaque_of(a + b) == opaque_of(a) + opaque_of(b),
    decreases b.len(),
{
    if b.len() == 0 {
        assert(a + b =~= a);
        assert(opaque_of(a) + opaque_of(b) =~= opaque_of(a));
    } else {
        lemma_opaque_of_concat(a, b.drop_last());
        assert((a + b).drop_last() =~= a + b.drop_last());
        assert((a + b).last() == b.last());
        if b.last().3 != 0 {
            assert(opaque_of(a) + opaque_of(b.drop_last()).push(b.last()) =~= (opaque_of(a)
                + opaque_of(b.drop_last())).push(b.last()));
        }
    }
}

proof fn lemma_opaque_pixels_concat(a: Seq<PixelFrame>, b: Seq<PixelFrame>)
    ensures
        opaque_pixels(a + b) == opaque_pixels(a) + opaque_pixels(b),
    decreases b.len(),
{
    if b.len() == 0 {
        assert(a + b =~= a);
        assert(opaque_pixels(a) + opaque_pixels(b) =~= opaque_pixels(a));
    } else {
        lemma_opaque_pixels_concat(a, b.drop_last());
        assert((a + b).drop_last() =~= a + b.drop_last());
        assert((a + b).last() == b.last());
        assert(opaque_pixels(a) + (opaque_pixels(b.drop_last()) + opaque_of(b.last().pixels@))
            =~= (opaque_pixels(a) + opaque_pixels(b.drop_last())) + opaque_of(b.last().pixels@));
    }
}

fn rgba_less(a: Rgba, b: Rgba) -> (r: bool)
    ensures
        r == rgba_lt(a, b),
{
    if a.0 != b.0 {
        a.0 < b.0
    } else if a.1 != b.1 {
        a.1 < b.1
    } else if a.2 != b.2 {
        a.2 < b.2
    } else {
        a.3 < b.3
    }
}

/// How often `c` occurs among the opaque pixels of the frames.
fn count_color(frames: &[PixelFrame], c: Rgba) -> (n: u32)
    requires
        occurrences(opaque_pixels(frames@), c) <= u32::MAX,
    ensures
        n == occurrences(opaque_pixels(frames@), c),
{
    let ghost all = opaque_pixels(frames@);
    let mut n: u32 = 0;
    let mut k: usize = 0;
    assert(frames@.take(0) =~= Seq::<PixelFrame>::empty());
    while k < frames.len()
        invariant
            k <= frames@.len(),
            all == opaque_pixels(frames@),
            occurrences(all, c) <= u32::MAX,
            n == occurrences(opaque_pixels(frames@.take(k as int)), c),
        decreases frames@.len() - k,
    {
        let ghost prefix = opaque_pixels(frames@.take(k as int));
        let px = &frames[k].pixels;
        proof {
            assert(frames@ =~= frames@.take(k + 1) + frames@.skip(k + 1));
            lemma_opaque_pixels_concat(frames@.take(k + 1), frames@.skip(k + 1));
            assert(frames@.take(k + 1).drop_last() =~= frames@.take(k as int));
            assert(frames@.take(k + 1).last() == frames@[k as int]);
            lemma_occurrences_concat(
                opaque_pixels(frames@.take(k + 1)),
                opaque_pixels(frames@.skip(k + 1)),
                c,
            );
        }
        let mut i: usize = 0;
        assert(opaque_of(px@.take(0)) =~= Seq::<Rgba>::empty());
        assert(prefix + opaque_of(px@.take(0)) =~= prefix);
        while i < px.len()
            invariant
                i <= px@.len(),
                occurrences(prefix + opaque_of(px@), c) <= u32::MAX,
                n == occurrences(prefix + opaque_of(px@.take(i as int)), c),
            decreases px@.len() - i,
        {
            let p = px[i];
            let ghost t = prefix + opaque_of(px@.take(i as int));
            proof {
                assert(px@.take(i + 1).drop_last() =~= px@.take(i as int));
                assert(px@.take(i + 1).last() == p);
                assert(px@ =~= px@.take(i + 1) + px@.skip(i + 1));
                lemma_opaque_of_concat(px@.take(i + 1), px@.skip(i + 1));
                assert(prefix + opaque_of(px@) =~= (prefix + opaque_of(px@.take(i + 1))) + opaque_of(
                    px@.skip(i + 1),
                ));
                lemma_occurrences_concat(
                    prefix + opaque_of(px@.take(i + 1)),
                    opaque_of(px@.skip(i + 1)),
                    c,
                );
            }
            if p.3 != 0 {
                proof {
                    assert(prefix + opaque_of(px@.take(i + 1)) =~= t.push(p));
                    assert(t.push(p).drop_last() =~= t);
                }
                if p.0 == c.0 && p.1 == c.1 && p.2 == c.2 && p.3 == c.3 {
                    n += 1;
                }
            }
            i += 1;
        }
        assert(px@.take(px@.len() as int) =~= px@);
        k += 1;
    }
    assert(frames@.take(frames@.len() as int) =~= frames@);
    n
}

/// The frame fitted to `palette`: clear pixels cleared, the others set to
/// their nearest palette color.
pub fn quantize_widget_frame(frame: &PixelFrame, palette: &[Rgba]) -> (r: PixelFrame)
    requires
        palette@.len() > 0 || forall|i: int|
            0 <= i < frame.pixels@.len() ==> (#[trigger] frame.pixels@[i]).3 == 0,
    ensures
        quantized(r, *frame, palette@),
        forall|i: int|
            0 <= i < r.pixels@.len() ==> #[trigger] r.pixels@[i] == (0u8, 0u8, 0u8, 0u8)
                || palette@.contains(r.pixels@[i]),
{
    let mut out: Vec<Rgba> = Vec::new();
    let mut i: usize = 0;
    while i < frame.pixels.len()
        invariant
            i <= frame.pixels@.len(),
            palette@.len() > 0 || forall|i: int|
                0 <= i < frame.pixels@.len() ==> (#[trigger] frame.pixels@[i]).3 == 0,
            out@ == frame.pixels@.take(i as int).map_values(|q: Rgba| quantize_px(q, palette@)),
            forall|j: int|
                0 <= j < out@.len() ==> #[trigger] out@[j] == (0u8, 0u8, 0u8, 0u8) || palette@.contains(
                    out@[j],
                ),
        decreases frame.pixels@.len() - i,
    {
        let p = frame.pixels[i];
        if p.3 == 0 {
            out.push((0, 0, 0, 0));
        } else {
            let c = nearest_widget_color(p, palette);
            out.push(c);
        }
        assert(frame.pixels@.take(i + 1).map_values(|q: Rgba| quantize_px(q, palette@))
            =~= frame.pixels@.take(i as int).map_values(|q: Rgba| quantize_px(q, palette@)).push(
            quantize_px(p, palette@),
        ));
        i += 1;
    }
    assert(frame.pixels@.take(frame.pixels@.len() as int) =~= frame.pixels@);
    PixelFrame { width: frame.width, height: frame.height, pixels: out }
}

/// The palette `p` is the one the frames are fitted to, where they need one.
pub open spec fn chosen_palette(frames: Seq<PixelFrame>, m: int, p: Seq<Rgba>) -> bool {
    let all = opaque_pixels(frames);
    first_seen(all).len() <= m || top_colors(p, first_seen(all), all, m)
}

/// The pixels `px` of one of the frames after fitting: unchanged where the
/// frames hold no more than `m` distinct opaque colors, else fitted to `p`.
pub open spec fn fitted(px: Seq<Rgba>, frames: Seq<PixelFrame>, m: int, p: Seq<Rgba>) -> Seq<Rgba> {
    if first_seen(opaque_pixels(frames)).len() <= m {
        px
    } else {
        px.map_values(|q: Rgba| quantize_px(q, p))
    }
}

/// The colors that fitted frames can show opaque.
pub open spec fn kept_colors(frames: Seq<PixelFrame>, m: int, p: Seq<Rgba>) -> Seq<Rgba> {
    if first_seen(opaque_pixels(frames)).len() <= m {
        first_seen(opaque_pixels(frames))
    } else {
        p
    }
}

proof fn lemma_opaque_of_has(px: Seq<Rgba>, i: int)
    requires
        0 <= i < px.len(),
        px[i].3 != 0,
    ensures
        opaque_of(px).contains(px[i]),
    decreases px.len(),
{
    if i == px.len() - 1 {
        assert(opaque_of(px).last() == px[i]);
    } else {
        lemma_opaque_of_has(px.drop_last(), i);
        let j = choose|j: int|
            0 <= j < opaque_of(px.drop_last()).len() && opaque_of(px.drop_last())[j] == px[i];
        assert(opaque_of(px)[j] == px[i]);
    }
}

proof fn lemma_first_seen_has(s: Seq<Rgba>, x: Rgba)
    requires
        s.contains(x),
    ensures
        first_seen(s).contains(x),
    decreases s.len(),
{
    let f = first_seen(s.drop_last());
    if s.last() == x {
        if !f.contains(x) {
            assert(first_seen(s).last() == x);
        }
    } else {
        let i = choose|i: int| 0 <= i < s.len() && s[i] == x;
        assert(s.drop_last()[i] == x);
        lemma_first_seen_has(s.drop_last(), x);
        let j = choose|j: int| 0 <= j < f.len() && f[j] == x;
        assert(first_seen(s)[j] == x);
    }
}

/// Every opaque pixel of the frames has its color among their distinct
/// colors.
proof fn lemma_opaque_in_palette(frames: Seq<PixelFrame>, k: int, i: int)
    requires
        0 <= k < frames.len(),
        0 <= i < frames[k].pixels@.len(),
        frames[k].pixels@[i].3 != 0,
    ensures
        first_seen(opaque_pixels(frames)).contains(frames[k].pixels@[i]),
{
    let x = frames[k].pixels@[i];
    lemma_opaque_of_has(frames[k].pixels@, i);
    assert(frames =~= frames.take(k) + frames.skip(k));
    lemma_opaque_pixels_concat(frames.take(k), frames.skip(k));
    let rest = frames.skip(k);
    assert(rest =~= seq![frames[k]] + rest.skip(1));
    lemma_opaque_pixels_concat(seq![frames[k]], rest.skip(1));
    let one = seq![frames[k]];
    let o = opaque_of(frames[k].pixels@);
    assert(one.drop_last() =~= Seq::<PixelFrame>::empty());
    assert(one.last() == frames[k]);
    assert(opaque_pixels(one.drop_last()) =~= Seq::<Rgba>::empty());
    assert(opaque_pixels(one) =~= Seq::<Rgba>::empty() + o);
    assert(opaque_pixels(one) =~= o);
    let j = choose|j: int| 0 <= j < o.len() && o[j] == x;
    let a = opaque_pixels(frames.take(k));
    assert(opaque_pixels(frames) =~= a + (o + opaque_pixels(rest.skip(1))));
    assert(opaque_pixels(frames)[a.len() + j] == x);
    lemma_first_seen_has(opaque_pixels(frames), x);
}

/// No color is seen first twice.
proof fn lemma_first_seen_distinct(s: Seq<Rgba>)
    ensures
        forall|i: int, j: int|
            0 <= i < j < first_seen(s).len() ==> first_seen(s)[i] != first_seen(s)[j],
    decreases s.len(),
{
    if s.len() > 0 {
        lemma_first_seen_distinct(s.drop_last());
        let f = first_seen(s.drop_last());
        if !f.contains(s.last()) {
            assert forall|i: int, j: int|
                0 <= i < j < first_seen(s).len() implies first_seen(s)[i] != first_seen(s)[j] by {
                if j == f.len() {
                    assert(f[i] == first_seen(s)[i]);
                }
            }
        }
    }
}

/// The frames fitted to at most `max_colors` colors: unchanged where they
/// hold no more distinct opaque colors than that; else each fitted to the
/// `max_colors` colors that occur most often, ties going to the smaller.
pub fn quantize_widget_frames(frames: &[PixelFrame], max_colors: usize) -> (r: Vec<PixelFrame>)
    requires
        forall|c: Rgba| #[trigger] occurrences(opaque_pixels(frames@), c) <= u32::MAX,
        max_colors > 0 || first_seen(opaque_pixels(frames@)).len() == 0,
    ensures
        r@.len() == frames@.len(),
        first_seen(opaque_pixels(frames@)).len() <= max_colors ==> forall|k: int|
            0 <= k < frames@.len() ==> same_frame(#[trigger] r@[k], frames@[k]),
        first_seen(opaque_pixels(frames@)).len() > max_colors ==> exists|p: Seq<Rgba>|
            #[trigger] top_colors(
                p,
                first_seen(opaque_pixels(frames@)),
                opaque_pixels(frames@),
                max_colors as int,
            ) && forall|k: int| 0 <= k < frames@.len() ==> quantized(#[trigger] r@[k], frames@[k], p),
        exists|p: Seq<Rgba>|
            {
                &&& #[trigger] chosen_palette(frames@, max_colors as int, p)
                &&& forall|k: int|
                    0 <= k < frames@.len() ==> reshaped(
                        #[trigger] r@[k],
                        frames@[k],
                        fitted(frames@[k].pixels@, frames@, max_colors as int, p),
                    )
                &&& forall|k: int, i: int|
                    0 <= k < frames@.len() && 0 <= i < r@[k].pixels@.len() && (#[trigger] r@[k].pixels@[i]).3
                        != 0 ==> kept_colors(frames@, max_colors as int, p).contains(r@[k].pixels@[i])
            },
{
    let ghost all = opaque_pixels(frames@);
    let ghost d = first_seen(all);
    let mut colors = distinct_colors(frames);
    let mut out: Vec<PixelFrame> = Vec::new();
    if colors.len() <= max_colors {
        let mut k: usize = 0;
        while k < frames.len()
            invariant
                k <= frames@.len(),
                out@.len() == k,
                forall|j: int| 0 <= j < k ==> same_frame(#[trigger] out@[j], frames@[j]),
            decreases frames@.len() - k,
        {
            out.push(copy_frame(&frames[k]));
            k += 1;
        }
        proof {
            let p = Seq::<Rgba>::empty();
            assert forall|k: int, i: int|
                0 <= k < frames@.len() && 0 <= i < out@[k].pixels@.len() && (#[trigger] out@[k].pixels@[i]).3
                    != 0 implies kept_colors(frames@, max_colors as int, p).contains(out@[k].pixels@[i]) by {
                lemma_opaque_in_palette(frames@, k, i);
            }
            assert(chosen_palette(frames@, max_colors as int, p));
        }
        return out;
    }
    proof {
        lemma_first_seen_distinct(all);
    }
    let mut counts: Vec<u32> = Vec::new();
    let mut i: usize = 0;
    while i < colors.len()
        invariant
            all == opaque_pixels(frames@),
            forall|c: Rgba| #[trigger] occurrences(all, c) <= u32::MAX,
            i <= colors@.len(),
            counts@.len() == i,
            forall|j: int| 0 <= j < i ==> #[trigger] counts@[j] == occurrences(all, colors@[j]),
        decreases colors@.len() - i,
    {
        let n = count_color(frames, colors[i]);
        counts.push(n);
        i += 1;
    }
    let mut p: usize = 0;
    while p < max_colors
        invariant
            d == first_seen(all),
            max_colors < colors@.len(),
            p <= max_colors,
            counts@.len() == colors@.len(),
            forall|j: int| 0 <= j < colors@.len() ==> #[trigger] counts@[j] == occurrences(all, colors@[j]),
            forall|j: int| 0 <= j < colors@.len() ==> d.contains(#[trigger] colors@[j]),
            forall|c: Rgba| #[trigger] d.contains(c) ==> colors@.contains(c),
            forall|a: int, b: int| 0 <= a < b < colors@.len() ==> colors@[a] != colors@[b],
            forall|a: int, b: int|
                0 <= a < b < p ==> ranks_before(all, #[trigger] colors@[a], #[trigger] colors@[b]),
            forall|a: int, m: int|
                0 <= a < p && p <= m < colors@.len() ==> ranks_before(
                    all,
                    #[trigger] colors@[a],
                    #[trigger] colors@[m],
                ),
        decreases max_colors - p,
    {
        let mut best: usize = p;
        let mut m: usize = p + 1;
        while m < colors.len()
            invariant
                p <= best < m <= colors@.len(),
                counts@.len() == colors@.len(),
                forall|j: int|
                    0 <= j < colors@.len() ==> #[trigger] counts@[j] == occurrences(all, colors@[j]),
                forall|a: int, b: int| 0 <= a < b < colors@.len() ==> colors@[a] != colors@[b],
                forall|q: int|
                    p <= q < m && q != best ==> ranks_before(all, colors@[best as int], #[trigger] colors@[q]),
            decreases colors@.len() - m,
        {
            let ghost old_best = best;
            assert(counts@[m as int] == occurrences(all, colors@[m as int]));
            assert(counts@[best as int] == occurrences(all, colors@[best as int]));
            if counts[m] > counts[best] || (counts[m] == counts[best] && rgba_less(colors[m], colors[best])) {
                best = m;
            } else {
                assert(colors@[m as int] != colors@[best as int]);
            }
            m += 1;
        }
        let ghost before = colors@;
        let cp = colors[p];
        let cb = colors[best];
        let np = counts[p];
        let nb = counts[best];
        colors.set(p, cb);
        colors.set(best, cp);
        counts.set(p, nb);
        counts.set(best, np);
        proof {
            assert forall|c: Rgba| #[trigger] d.contains(c) implies colors@.contains(c) by {
                let q = choose|q: int| 0 <= q < before.len() && before[q] == c;
                if q == p {
                    assert(colors@[best as int] == c);
                } else if q == best {
                    assert(colors@[p as int] == c);
                } else {
                    assert(colors@[q] == c);
                }
            }
            assert forall|j: int| 0 <= j < colors@.len() implies d.contains(#[trigger] colors@[j]) by {
                if j == p {
                    assert(colors@[j] == before[best as int]);
                } else if j == best {
                    assert(colors@[j] == before[p as int]);
                } else {
                    assert(colors@[j] == before[j]);
                }
            }
        }
        p += 1;
    }
    let mut palette: Vec<Rgba> = Vec::new();
    let mut j: usize = 0;
    while j < max_colors
        invariant
            max_colors < colors@.len(),
            j <= max_colors,
            palette@ == colors@.take(j as int),
        decreases max_colors - j,
    {
        palette.push(colors[j]);
        assert(colors@.take(j + 1) =~= colors@.take(j as int).push(colors@[j as int]));
        j += 1;
    }
    proof {
        assert(top_colors(palette@, d, all, max_colors as int)) by {
            assert forall|c: Rgba| #[trigger] d.contains(c) && !palette@.contains(c) implies forall|i: int|
                0 <= i < palette@.len() ==> ranks_before(all, #[trigger] palette@[i], c) by {
                let q = choose|q: int| 0 <= q < colors@.len() && colors@[q] == c;
                if q < max_colors {
                    assert(palette@[q] == c);
                }
                assert forall|i: int| 0 <= i < palette@.len() implies ranks_before(
                    all,
                    #[trigger] palette@[i],
                    c,
                ) by {
                    assert(palette@[i] == colors@[i]);
                    assert(ranks_before(all, colors@[i], colors@[q]));
                }
            }
            assert forall|i: int| 0 <= i < palette@.len() implies d.contains(#[trigger] palette@[i]) by {
                assert(palette@[i] == colors@[i]);
            }
            assert forall|a: int, b: int|
                0 <= a < b < palette@.len() implies ranks_before(
                all,
                #[trigger] palette@[a],
                #[trigger] palette@[b],
            ) by {
                assert(palette@[a] == colors@[a]);
                assert(palette@[b] == colors@[b]);
            }
        }
    }
    let mut k: usize = 0;
    while k < frames.len()
        invariant
            palette@.len() == max_colors,
            max_colors > 0,
            k <= frames@.len(),
            out@.len() == k,
            forall|j: int| 0 <= j < k ==> quantized(#[trigger] out@[j], frames@[j], palette@),
            forall|j: int, i: int|
                0 <= j < k && 0 <= i < out@[j].pixels@.len() ==> #[trigger] out@[j].pixels@[i] == (
                0u8,
                0u8,
                0u8,
                0u8,
            ) || palette@.contains(out@[j].pixels@[i]),
        decreases frames@.len() - k,
    {
        out.push(quantize_widget_frame(&frames[k], &palette));
        k += 1;
    }
    proof {
        let p = palette@;
        assert(chosen_palette(frames@, max_colors as int, p));
        assert forall|k: int, i: int|
            0 <= k < frames@.len() && 0 <= i < out@[k].pixels@.len() && (#[trigger] out@[k].pixels@[i]).3
                != 0 implies kept_colors(frames@, max_colors as int, p).contains(out@[k].pixels@[i]) by {
            let q = out@[k].pixels@[i];
            assert(q == (0u8, 0u8, 0u8, 0u8) || p.contains(q));
        }
    }
    out
}

// ---------------------------------------------------------------------------
// The widget mascot
// ---------------------------------------------------------------------------

/// The opaque pixels of several pixel rows, row by row.
pub open spec fn opaque_rows(rows: Seq<Seq<Rgba>>) -> Seq<Rgba>
    decreases rows.len(),
{
    if rows.len() == 0 {
        seq![]
    } else {
        opaque_rows(rows.drop_last()) + opaque_of(rows.last())
    }
}

/// The pixels of each frame after fitting them to `m` colors with `p`.
pub open spec fn fitted_rows(frames: Seq<PixelFrame>, m: int, p: Seq<Rgba>) -> Seq<Seq<Rgba>> {
    Seq::new(frames.len(), |k: int| fitted(frames[k].pixels@, frames, m, p))
}

/// `#rrggbbaa` of a color.
pub open spec fn hex_color(c: Rgba) -> Seq<char> {
    "#"@ + hex_fixed(c.0 as nat, 2) + hex_fixed(c.1 as nat, 2) + hex_fixed(c.2 as nat, 2) + hex_fixed(
        c.3 as nat,
        2,
    )
}

/// `w` shows the frames fitted to the alphabet with palette `p`: the
/// palette is the distinct opaque colors of the fitted frames in order of
/// first appearance, and each frame is a string of their symbols.
pub open spec fn widget_shows(w: WidgetMascot, frames: Seq<PixelFrame>, p: Seq<Rgba>) -> bool {
    let rows = fitted_rows(frames, 64, p);
    let pl = first_seen(opaque_rows(rows));
    &&& w.width == (if frames.len() > 0 {
        frames[0].width
    } else {
        0
    })
    &&& w.height == (if frames.len() > 0 {
        frames[0].height
    } else {
        0
    })
    &&& w.palette@.len() == pl.len()
    &&& forall|i: int| 0 <= i < pl.len() ==> (#[trigger] w.palette@[i])@ == hex_color(pl[i])
    &&& w.frames@.len() == frames.len()
    &&& forall|k: int|
        0 <= k < frames.len() ==> (#[trigger] w.frames@[k])@ == rows[k].map_values(
            |q: Rgba| pixel_symbol(q, pl),
        )
}

proof fn lemma_opaque_rows(frames: Seq<PixelFrame>, rows: Seq<Seq<Rgba>>)
    requires
        frames.len() == rows.len(),
        forall|k: int| 0 <= k < rows.len() ==> (#[trigger] frames[k]).pixels@ == rows[k],
    ensures
        opaque_pixels(frames) == opaque_rows(rows),
    decreases rows.len(),
{
    if rows.len() > 0 {
        lemma_opaque_rows(frames.drop_last(), rows.drop_last());
        assert(frames.last().pixels@ == rows.last());
    }
}

proof fn lemma_opaque_of_within(px: Seq<Rgba>, p: Seq<Rgba>)
    requires
        forall|i: int| 0 <= i < px.len() && (#[trigger] px[i]).3 != 0 ==> p.contains(px[i]),
    ensures
        forall|j: int| 0 <= j < opaque_of(px).len() ==> p.contains(#[trigger] opaque_of(px)[j]),
    decreases px.len(),
{
    if px.len() > 0 {
        lemma_opaque_of_within(px.drop_last(), p);
        let o = opaque_of(px.drop_last());
        assert(px.last() == px[px.len() - 1]);
        assert forall|j: int| 0 <= j < opaque_of(px).len() implies p.contains(
            #[trigger] opaque_of(px)[j],
        ) by {
            if j < o.len() {
                assert(opaque_of(px)[j] == o[j]);
            }
        }
    }
}

proof fn lemma_opaque_pixels_within(frames: Seq<PixelFrame>, p: Seq<Rgba>)
    requires
        forall|k: int, i: int|
            0 <= k < frames.len() && 0 <= i < frames[k].pixels@.len() && (#[trigger] frames[k].pixels@[i]).3
                != 0 ==> p.contains(frames[k].pixels@[i]),
    ensures
        forall|j: int|
            0 <= j < opaque_pixels(frames).len() ==> p.contains(#[trigger] opaque_pixels(frames)[j]),
    decreases frames.len(),
{
    if frames.len() > 0 {
        let n = frames.len() - 1;
        assert forall|k: int, i: int|
            0 <= k < frames.drop_last().len() && 0 <= i < frames.drop_last()[k].pixels@.len() && (
            #[trigger] frames.drop_last()[k].pixels@[i]).3 != 0 implies p.contains(
            frames.drop_last()[k].pixels@[i],
        ) by {
            assert(frames.drop_last()[k] == frames[k]);
        }
        lemma_opaque_pixels_within(frames.drop_last(), p);
        assert forall|i: int|
            0 <= i < frames.last().pixels@.len() && (#[trigger] frames.last().pixels@[i]).3 != 0 implies p.contains(
            frames.last().pixels@[i],
        ) by {
            assert(frames[n].pixels@[i] == frames.last().pixels@[i]);
        }
        lemma_opaque_of_within(frames.last().pixels@, p);
        let a = opaque_pixels(frames.drop_last());
        let b = opaque_of(frames.last().pixels@);
        assert forall|j: int| 0 <= j < opaque_pixels(frames).len() implies p.contains(
            #[trigger] opaque_pixels(frames)[j],
        ) by {
            if j < a.len() {
                assert(opaque_pixels(frames)[j] == a[j]);
            } else {
                assert(opaque_pixels(frames)[j] == b[j - a.len()]);
            }
        }
    }
}

proof fn lemma_first_seen_within(s: Seq<Rgba>, p: Seq<Rgba>)
    requires
        forall|j: int| 0 <= j < s.len() ==> p.contains(#[trigger] s[j]),
    ensures
        forall|j: int| 0 <= j < first_seen(s).len() ==> p.contains(#[trigger] first_seen(s)[j]),
    decreases s.len(),
{
    if s.len() > 0 {
        lemma_first_seen_within(s.drop_last(), p);
        let f = first_seen(s.drop_last());
        assert(s.last() == s[s.len() - 1]);
        assert(p.contains(s.last()));
        assert forall|j: int| 0 <= j < first_seen(s).len() implies p.contains(
            #[trigger] first_seen(s)[j],
        ) by {
            if j < f.len() {
                assert(first_seen(s)[j] == f[j]);
            }
        }
    }
}

/// A sequence without repeats drawn from `p` is no longer than `p`.
proof fn lemma_distinct_within(s: Seq<Rgba>, p: Seq<Rgba>)
    requires
        forall|i: int, j: int| 0 <= i < j < s.len() ==> s[i] != s[j],
        forall|j: int| 0 <= j < s.len() ==> p.contains(#[trigger] s[j]),
    ensures
        s.len() <= p.len(),
{
    assert(s.no_duplicates()) by {
        assert forall|i: int, j: int| 0 <= i < s.len() && 0 <= j < s.len() && i != j implies s[i]
            != s[j] by {
            if j < i {
                assert(s[j] != s[i]);
            }
        }
    }
    s.unique_seq_to_set();
    p.lemma_cardinality_of_set();
    vstd::seq_lib::seq_to_set_is_finite(p);
    assert(s.to_set().subset_of(p.to_set())) by {
        assert forall|x: Rgba| s.to_set().contains(x) implies p.to_set().contains(x) by {
            let j = choose|j: int| 0 <= j < s.len() && s[j] == x;
            assert(p.contains(s[j]));
        }
    }
    vstd::set_lib::lemma_len_subset(s.to_set(), p.to_set());
}

/// The widget mascot of the frames: fitted to the alphabet's 64 colors,
/// then written as a palette of `#rrggbbaa` strings and one string of
/// palette symbols per frame.
pub fn build_widget_mascot_from_frames(
    frames: &[PixelFrame],
    sequence: Vec<WidgetMascotSequenceStep>,
    spirit_hero_background: String,
) -> (w: WidgetMascot)
    requires
        forall|c: Rgba| #[trigger] occurrences(opaque_pixels(frames@), c) <= u32::MAX,
        frames@.len() > 0 ==> frames@[0].width <= u32::MAX && frames@[0].height <= u32::MAX,
    ensures
        w.frame_ms == MASCOT_FRAME_MS,
        w.spirit_hero_background@ == spirit_hero_background@,
        w.sequence@ == sequence@,
        exists|p: Seq<Rgba>| #[trigger] chosen_palette(frames@, 64, p) && widget_shows(w, frames@, p),
{
    let quantized = quantize_widget_frames(frames, 64);
    let ghost p = choose|p: Seq<Rgba>|
        {
            &&& #[trigger] chosen_palette(frames@, 64, p)
            &&& forall|k: int|
                0 <= k < frames@.len() ==> reshaped(
                    #[trigger] quantized@[k],
                    frames@[k],
                    fitted(frames@[k].pixels@, frames@, 64, p),
                )
            &&& forall|k: int, i: int|
                0 <= k < frames@.len() && 0 <= i < quantized@[k].pixels@.len() && (
                #[trigger] quantized@[k].pixels@[i]).3 != 0 ==> kept_colors(frames@, 64, p).contains(
                    quantized@[k].pixels@[i],
                )
        };
    let ghost rows = fitted_rows(frames@, 64, p);
    let ghost kept = kept_colors(frames@, 64, p);
    proof {
        lemma_opaque_rows(quantized@, rows);
        lemma_first_seen_distinct(opaque_pixels(frames@));
        lemma_opaque_pixels_within(quantized@, kept);
        lemma_first_seen_within(opaque_pixels(quantized@), kept);
        lemma_first_seen_distinct(opaque_pixels(quantized@));
        lemma_distinct_within(first_seen(opaque_pixels(quantized@)), kept);
    }
    let (width, height) = if quantized.len() > 0 {
        (quantized[0].width as u32, quantized[0].height as u32)
    } else {
        (0u32, 0u32)
    };
    let palette = build_widget_palette(&quantized);
    let ghost pl = palette@;
    let mut encoded: Vec<String> = Vec::new();
    let mut k: usize = 0;
    while k < quantized.len()
        invariant
            k <= quantized@.len(),
            quantized@.len() == frames@.len(),
            pl == palette@,
            pl == first_seen(opaque_pixels(quantized@)),
            pl.len() < 65,
            forall|j: int| 0 <= j < quantized@.len() ==> (#[trigger] quantized@[j]).pixels@ == rows[j],
            encoded@.len() == k,
            forall|j: int|
                0 <= j < k ==> (#[trigger] encoded@[j])@ == rows[j].map_values(
                    |q: Rgba| pixel_symbol(q, pl),
                ),
        decreases quantized@.len() - k,
    {
        proof {
            assert forall|i: int|
                0 <= i < quantized@[k as int].pixels@.len() && (
                #[trigger] quantized@[k as int].pixels@[i]).3 != 0 implies pl.contains(
                quantized@[k as int].pixels@[i],
            ) by {
                lemma_opaque_in_palette(quantized@, k as int, i);
            }
        }
        let f = build_widget_frame_string(&quantized[k], &palette);
        encoded.push(f);
        k += 1;
    }
    let mut hex: Vec<String> = Vec::new();
    let mut i: usize = 0;
    while i < palette.len()
        invariant
            i <= palette@.len(),
            hex@.len() == i,
            forall|j: int| 0 <= j < i ==> (#[trigger] hex@[j])@ == hex_color(palette@[j]),
        decreases palette@.len() - i,
    {
        let c = palette[i];
        hex.push(rgba_hex_raw(c.0, c.1, c.2, c.3));
        i += 1;
    }
    let w = WidgetMascot {
        width,
        height,
        frame_ms: MASCOT_FRAME_MS,
        spirit_hero_background,
        palette: hex,
        frames: encoded,
        sequence,
    };
    assert(widget_shows(w, frames@, p));
    w
}

// ---------------------------------------------------------------------------
// Animation sequence
// ---------------------------------------------------------------------------

/// Side of the square canvas that archived frames are scaled onto.
pub const ARCHIVE_OUTPUT_SIZE: u32 = 512;

/// The animation: (eye openness 0 to 10, tail state, repeats), in order.
pub open spec fn mascot_sequence_spec() -> Seq<(u8, i32, u8)> {
    seq![
        (10u8, 1i32, 7u8),
        (10u8, 0i32, 7u8),
        (10u8, 1i32, 7u8),
        (10u8, 0i32, 7u8),
        (10u8, 1i32, 2u8),
        (5u8, 1i32, 1u8),
        (0u8, 1i32, 4u8),
        (5u8, 0i32, 1u8),
        (10u8, 0i32, 6u8),
        (10u8, 1i32, 7u8),
        (10u8, 0i32, 7u8),
    ]
}

/// The steps of the mascot's animation.
pub fn mascot_sequence() -> (v: Vec<(u8, i32, u8)>)
    ensures
        v@ == mascot_sequence_spec(),
{
    let v: Vec<(u8, i32, u8)> = vec![
        (10, 1, 7),
        (10, 0, 7),
        (10, 1, 7),
        (10, 0, 7),
        (10, 1, 2),
        (5, 1, 1),
        (0, 1, 4),
        (5, 0, 1),
        (10, 0, 6),
        (10, 1, 7),
        (10, 0, 7),
    ];
    assert(v@ =~= mascot_sequence_spec());
    v
}

/// The distinct poses (eye openness, tail state) of the steps, in order of
/// first appearance.
pub open spec fn poses_of(steps: Seq<(u8, i32, u8)>) -> Seq<(u8, i32)>
    decreases steps.len(),
{
    if steps.len() == 0 {
        seq![]
    } else {
        let f = poses_of(steps.drop_last());
        let pose = (steps.last().0, steps.last().1);
        if f.contains(pose) {
            f
        } else {
            f.push(pose)
        }
    }
}

/// The first position of `pose` in `poses`.
pub open spec fn pose_index(poses: Seq<(u8, i32)>, pose: (u8, i32)) -> int {
    choose|i: int| 0 <= i < poses.len() && poses[i] == pose && forall|j: int| 0 <= j < i ==> poses[j] != pose
}

/// A pose that occurs has a first position.
proof fn lemma_first_pose(s: Seq<(u8, i32)>, q: (u8, i32), w: int)
    requires
        0 <= w < s.len(),
        s[w] == q,
    ensures
        exists|i: int| 0 <= i < s.len() && s[i] == q && forall|j: int| 0 <= j < i ==> s[j] != q,
    decreases w,
{
    if exists|j: int| 0 <= j < w && s[j] == q {
        let j = choose|j: int| 0 <= j < w && s[j] == q;
        lemma_first_pose(s, q, j);
    } else {
        assert(0 <= w < s.len() && s[w] == q && forall|j: int| 0 <= j < w ==> s[j] != q);
    }
}

/// Pose lists only grow at the end, so a pose keeps its position.
proof fn lemma_pose_step(before: Seq<(u8, i32)>, after: Seq<(u8, i32)>, pose: (u8, i32), idx: int)
    requires
        after == before || (after == before.push(pose) && !before.contains(pose)),
        0 <= idx < after.len(),
        after[idx] == pose,
        forall|j: int| 0 <= j < idx ==> after[j] != pose,
    ensures
        pose_index(after, pose) == idx,
        forall|q: (u8, i32)| #[trigger] before.contains(q) ==> after.contains(q) && pose_index(after, q)
            == pose_index(before, q),
{
    let i3 = pose_index(after, pose);
    assert(0 <= idx < after.len() && after[idx] == pose && forall|j: int| 0 <= j < idx ==> after[j]
        != pose);
    if i3 < idx {
    } else if idx < i3 {
    }
    assert forall|q: (u8, i32)| #[trigger] before.contains(q) implies after.contains(q) && pose_index(
        after,
        q,
    ) == pose_index(before, q) by {
        let w = choose|w: int| 0 <= w < before.len() && before[w] == q;
        assert(after[w] == before[w]);
        lemma_first_pose(before, q, w);
        lemma_first_pose(after, q, w);
        let i = pose_index(before, q);
        assert(0 <= i < before.len() && before[i] == q && forall|j: int| 0 <= j < i ==> before[j] != q);
        assert(after[i] == q);
        let i2 = pose_index(after, q);
        assert(0 <= i2 < after.len() && after[i2] == q && forall|j: int| 0 <= j < i2 ==> after[j] != q);
        if i2 < i {
            assert(before[i2] == after[i2]);
        } else if i < i2 {
            assert(after[i] == q);
        }
    }
}

/// The widget's sequence: the distinct poses of the steps, and for each
/// step the position of its pose among them (kept to its low byte) with its
/// repeat count.
pub fn widget_sequence(steps: &[(u8, i32, u8)]) -> (r: (Vec<(u8, i32)>, Vec<WidgetMascotSequenceStep>))
    ensures
        r.0@ == poses_of(steps@),
        r.1@.len() == steps@.len(),
        forall|k: int|
            0 <= k < steps@.len() ==> (#[trigger] r.1@[k]).repeat == steps@[k].2 && r.1@[k].frame == (
            pose_index(poses_of(steps@), (steps@[k].0, steps@[k].1)) as u8),
{
    let mut poses: Vec<(u8, i32)> = Vec::new();
    let mut out: Vec<WidgetMascotSequenceStep> = Vec::new();
    let mut k: usize = 0;
    assert(steps@.take(0) =~= Seq::<(u8, i32, u8)>::empty());
    while k < steps.len()
        invariant
            k <= steps@.len(),
            poses@ == poses_of(steps@.take(k as int)),
            out@.len() == k,
            forall|j: int| 0 <= j < k ==> poses@.contains((#[trigger] steps@[j].0, steps@[j].1)),
            forall|j: int|
                0 <= j < k ==> (#[trigger] out@[j]).repeat == steps@[j].2 && out@[j].frame == (
                pose_index(poses@, (steps@[j].0, steps@[j].1)) as u8),
        decreases steps@.len() - k,
    {
        let (eye, tail, repeat) = steps[k];
        let ghost before = poses@;
        let mut idx: usize = 0;
        while idx < poses.len()
            invariant
                idx <= poses@.len(),
                forall|j: int| 0 <= j < idx ==> poses@[j] != (eye, tail),
            ensures
                idx <= poses@.len(),
                forall|j: int| 0 <= j < idx ==> poses@[j] != (eye, tail),
                idx < poses@.len() ==> poses@[idx as int] == (eye, tail),
            decreases poses@.len() - idx,
        {
            let p = poses[idx];
            if p.0 == eye && p.1 == tail {
                break;
            }
            idx += 1;
        }
        if idx == poses.len() {
            poses.push((eye, tail));
        }
        proof {
            assert(steps@.take(k + 1).drop_last() =~= steps@.take(k as int));
            assert(steps@.take(k + 1).last() == steps@[k as int]);
            if idx == before.len() {
                assert(!before.contains((eye, tail)));
            }
            lemma_pose_step(before, poses@, (eye, tail), idx as int);
            assert forall|j: int| 0 <= j < k implies poses@.contains(
                (#[trigger] steps@[j].0, steps@[j].1),
            ) && pose_index(poses@, (steps@[j].0, steps@[j].1)) == pose_index(
                before,
                (steps@[j].0, steps@[j].1),
            ) by {
                assert(before.contains((steps@[j].0, steps@[j].1)));
            }
        }
        out.push(WidgetMascotSequenceStep { frame: idx as u8, repeat });
        proof {
            assert(poses@[idx as int] == (steps@[k as int].0, steps@[k as int].1));
        }
        k += 1;
    }
    assert(steps@.take(steps@.len() as int) =~= steps@);
    (poses, out)
}

/// How long each step of the animation shows: its repeats times the frame
/// time.
pub fn archive_delays(steps: &[(u8, i32, u8)]) -> (v: Vec<u64>)
    ensures
        v@.len() == steps@.len(),
        forall|k: int| 0 <= k < steps@.len() ==> #[trigger] v@[k] == steps@[k].2 * MASCOT_FRAME_MS,
{
    let mut v: Vec<u64> = Vec::new();
    let mut k: usize = 0;
    while k < steps.len()
        invariant
            k <= steps@.len(),
            v@.len() == k,
            forall|j: int| 0 <= j < k ==> #[trigger] v@[j] == steps@[j].2 * MASCOT_FRAME_MS,
        decreases steps@.len() - k,
    {
        v.push(steps[k].2 as u64 * MASCOT_FRAME_MS);
        k += 1;
    }
    v
}

/// Where archived frames go on the square canvas: scaled by a whole factor
/// as far as they fit, and centered.
pub struct ArchiveLayout {
    pub scale: u32,
    pub width: u32,
    pub height: u32,
    pub offset_x: u32,
    pub offset_y: u32,
}

/// The layout of frames `frame_width` by `frame_height` on the archive
/// canvas; an error for an empty frame or one larger than the canvas.
pub fn archive_layout(frame_width: u32, frame_height: u32) -> (r: Result<ArchiveLayout, String>)
    ensures
        ({
            let max_dim = if frame_width > frame_height {
                frame_width
            } else {
                frame_height
            };
            match r {
                Ok(l) => {
                    &&& max_dim > 0
                    &&& l.scale == ARCHIVE_OUTPUT_SIZE / max_dim
                    &&& l.scale > 0
                    &&& l.width == frame_width * l.scale
                    &&& l.height == frame_height * l.scale
                    &&& l.offset_x == (ARCHIVE_OUTPUT_SIZE - l.width) / 2
                    &&& l.offset_y == (ARCHIVE_OUTPUT_SIZE - l.height) / 2
                },
                Err(e) => if max_dim == 0 {
                    e@ == "archive frame has zero size"@
                } else {
                    &&& ARCHIVE_OUTPUT_SIZE / max_dim == 0
                    &&& e@ == "archive frame "@ + decimal(frame_width as nat) + "x"@ + decimal(
                        frame_height as nat,
                    ) + " exceeds 512x512"@
                },
            }
        }),
{
    let max_dim = if frame_width > frame_height { frame_width } else { frame_height };
    if max_dim == 0 {
        return Err(String::from_str("archive frame has zero size"));
    }
    let scale = ARCHIVE_OUTPUT_SIZE / max_dim;
    if scale == 0 {
        let mut e = String::from_str("archive frame ");
        push_str(&mut e, decimal_u64(frame_width as u64).as_str());
        push_str(&mut e, "x");
        push_str(&mut e, decimal_u64(frame_height as u64).as_str());
        push_str(&mut e, " exceeds 512x512");
        return Err(e);
    }
    proof {
        assert(frame_width * scale <= max_dim * scale) by (nonlinear_arith)
            requires
                frame_width <= max_dim,
        ;
        assert(frame_height * scale <= max_dim * scale) by (nonlinear_arith)
            requires
                frame_height <= max_dim,
        ;
        assert(max_dim * scale <= ARCHIVE_OUTPUT_SIZE) by (nonlinear_arith)
            requires
                scale == ARCHIVE_OUTPUT_SIZE / max_dim,
                max_dim > 0,
        ;
    }
    let width = frame_width * scale;
    let height = frame_height * scale;
    Ok(
        ArchiveLayout {
            scale,
            width,
            height,
            offset_x: (ARCHIVE_OUTPUT_SIZE - width) / 2,
            offset_y: (ARCHIVE_OUTPUT_SIZE - height) / 2,
        },
    )
}

// ---------------------------------------------------------------------------
// Terminal lines
// ---------------------------------------------------------------------------

/// The lines that show a frame in `area_height` terminal rows: blank lines
/// (empty) above to center it, its rows, then blank lines to fill the area.
pub fn render_tui_lines(frame: &TuiMascotFrame, area_height: u16) -> (lines: Vec<Vec<TuiMascotCell>>)
    ensures
        ({
            let n = frame.rows@.len() as int;
            let top = if area_height > n {
                (area_height - n) / 2
            } else {
                0
            };
            let total = if top + n < area_height {
                area_height as int
            } else {
                top + n
            };
            &&& lines@.len() == total
            &&& forall|i: int| 0 <= i < top ==> (#[trigger] lines@[i])@.len() == 0
            &&& forall|i: int| 0 <= i < n ==> (#[trigger] lines@[top + i])@ == frame.rows@[i]@
            &&& forall|i: int| top + n <= i < total ==> (#[trigger] lines@[i])@.len() == 0
        }),
{
    let target = area_height as usize;
    let n = frame.rows.len();
    let top = if target > n { (target - n) / 2 } else { 0 };
    let mut lines: Vec<Vec<TuiMascotCell>> = Vec::new();
    let mut i: usize = 0;
    while i < top
        invariant
            i <= top,
            lines@.len() == i,
            forall|j: int| 0 <= j < i ==> (#[trigger] lines@[j])@.len() == 0,
        decreases top - i,
    {
        lines.push(Vec::new());
        i += 1;
    }
    let mut r: usize = 0;
    while r < n
        invariant
            n == frame.rows@.len(),
            r <= n,
            top <= target,
            lines@.len() == top + r,
            forall|j: int| 0 <= j < top ==> (#[trigger] lines@[j])@.len() == 0,
            forall|j: int| 0 <= j < r ==> (#[trigger] lines@[top + j])@ == frame.rows@[j]@,
        decreases n - r,
    {
        lines.push(copy_cells(&frame.rows[r]));
        r += 1;
    }
    while lines.len() < target
        invariant
            n == frame.rows@.len(),
            lines@.len() >= top + n,
            forall|j: int| 0 <= j < top ==> (#[trigger] lines@[j])@.len() == 0,
            forall|j: int| 0 <= j < n ==> (#[trigger] lines@[top + j])@ == frame.rows@[j]@,
            forall|j: int| top + n <= j < lines@.len() ==> (#[trigger] lines@[j])@.len() == 0,
            lines@.len() <= if top + n < target { target as int } else { top + n },
        decreases target - lines@.len(),
    {
        lines.push(Vec::new());
    }
    lines
}

/// A copy of a row of cells.
fn copy_cells(row: &Vec<TuiMascotCell>) -> (r: Vec<TuiMascotCell>)
    ensures
        r@ == row@,
{
    let mut r: Vec<TuiMascotCell> = Vec::new();
    let mut i: usize = 0;
    while i < row.len()
        invariant
            i <= row@.len(),
            r@ == row@.take(i as int),
        decreases row@.len() - i,
    {
        r.push(row[i]);
        assert(row@.take(i + 1) =~= row@.take(i as int).push(row@[i as int]));
        i += 1;
    }
    assert(row@.take(row@.len() as int) =~= row@);
    r
}

// ---------------------------------------------------------------------------
// What the contracts pin down
// ---------------------------------------------------------------------------

/// The bounds of the opaque pixels of a frame are determined by the frame.
pub proof fn lemma_frame_bounds_unique(
    f: PixelFrame,
    b1: (usize, usize, usize, usize),
    b2: (usize, usize, usize, usize),
)
    requires
        frame_bounds_are(f, b1),
        frame_bounds_are(f, b2),
    ensures
        b1 == b2,
{
    let y0 = choose|y: int| opaque_at(f, b2.0 as int, y);
    let y1 = choose|y: int| opaque_at(f, b1.0 as int, y);
    let y2 = choose|y: int| opaque_at(f, b2.2 as int, y);
    let y3 = choose|y: int| opaque_at(f, b1.2 as int, y);
    let x0 = choose|x: int| opaque_at(f, x, b2.1 as int);
    let x1 = choose|x: int| opaque_at(f, x, b1.1 as int);
    let x2 = choose|x: int| opaque_at(f, x, b2.3 as int);
    let x3 = choose|x: int| opaque_at(f, x, b1.3 as int);
    assert(opaque_at(f, b2.0 as int, y0) && opaque_at(f, b1.0 as int, y1));
    assert(opaque_at(f, b2.2 as int, y2) && opaque_at(f, b1.2 as int, y3));
    assert(opaque_at(f, x0, b2.1 as int) && opaque_at(f, x1, b1.1 as int));
    assert(opaque_at(f, x2, b2.3 as int) && opaque_at(f, x3, b1.3 as int));
}

/// The bounds of the opaque pixels of several frames are determined by the
/// frames.
pub proof fn lemma_bounds_of_all_unique(
    frames: Seq<PixelFrame>,
    b1: (usize, usize, usize, usize),
    b2: (usize, usize, usize, usize),
)
    requires
        bounds_of_all(frames, b1),
        bounds_of_all(frames, b2),
    ensures
        b1 == b2,
{
    let (k0, y0) = choose|k: int, y: int| 0 <= k < frames.len() && opaque_at(frames[k], b2.0 as int, y);
    let (k1, y1) = choose|k: int, y: int| 0 <= k < frames.len() && opaque_at(frames[k], b1.0 as int, y);
    let (k2, y2) = choose|k: int, y: int| 0 <= k < frames.len() && opaque_at(frames[k], b2.2 as int, y);
    let (k3, y3) = choose|k: int, y: int| 0 <= k < frames.len() && opaque_at(frames[k], b1.2 as int, y);
    let (k4, x4) = choose|k: int, x: int| 0 <= k < frames.len() && opaque_at(frames[k], x, b2.1 as int);
    let (k5, x5) = choose|k: int, x: int| 0 <= k < frames.len() && opaque_at(frames[k], x, b1.1 as int);
    let (k6, x6) = choose|k: int, x: int| 0 <= k < frames.len() && opaque_at(frames[k], x, b2.3 as int);
    let (k7, x7) = choose|k: int, x: int| 0 <= k < frames.len() && opaque_at(frames[k], x, b1.3 as int);
    assert(opaque_at(frames[k0], b2.0 as int, y0) && opaque_at(frames[k1], b1.0 as int, y1));
    assert(opaque_at(frames[k2], b2.2 as int, y2) && opaque_at(frames[k3], b1.2 as int, y3));
    assert(opaque_at(frames[k4], x4, b2.1 as int) && opaque_at(frames[k5], x5, b1.1 as int));
    assert(opaque_at(frames[k6], x6, b2.3 as int) && opaque_at(frames[k7], x7, b1.3 as int));
}

/// The colors a fitting keeps are determined: two palettes that both hold
/// the `m` best ranked colors, best first, are the same.
pub proof fn lemma_top_colors_unique(
    p1: Seq<Rgba>,
    p2: Seq<Rgba>,
    d: Seq<Rgba>,
    all: Seq<Rgba>,
    m: int,
)
    requires
        top_colors(p1, d, all, m),
        top_colors(p2, d, all, m),
    ensures
        p1 == p2,
{
    assert forall|i: int| 0 <= i < m implies p1[i] == p2[i] by {
        lemma_top_colors_agree(p1, p2, d, all, m, i);
    }
    assert(p1 =~= p2);
}

proof fn lemma_top_colors_agree(
    p1: Seq<Rgba>,
    p2: Seq<Rgba>,
    d: Seq<Rgba>,
    all: Seq<Rgba>,
    m: int,
    i: int,
)
    requires
        top_colors(p1, d, all, m),
        top_colors(p2, d, all, m),
        0 <= i < m,
    ensures
        p1[i] == p2[i],
    decreases i,
{
    if i > 0 {
        lemma_top_colors_agree(p1, p2, d, all, m, i - 1);
    }
    assert forall|j: int| 0 <= j < i implies p1[j] == p2[j] by {
        lemma_top_colors_agree(p1, p2, d, all, m, j);
    }
    let a = p1[i];
    let b = p2[i];
    if a != b {
        if ranks_before(all, a, b) {
            lemma_first_ranked_in(p2, p1, d, all, m, i);
        } else {
            assert(ranks_before(all, b, a));
            lemma_first_ranked_in(p1, p2, d, all, m, i);
        }
    }
}

/// Where palettes that hold the best ranked colors agree before position
/// `i`, the color at `i` of one does not rank before that of the other.
proof fn lemma_first_ranked_in(
    p: Seq<Rgba>,
    q: Seq<Rgba>,
    d: Seq<Rgba>,
    all: Seq<Rgba>,
    m: int,
    i: int,
)
    requires
        top_colors(p, d, all, m),
        top_colors(q, d, all, m),
        0 <= i < m,
        forall|j: int| 0 <= j < i ==> p[j] == q[j],
    ensures
        !ranks_before(all, q[i], p[i]),
{
    let a = q[i];
    assert(d.contains(a));
    if ranks_before(all, a, p[i]) {
        if p.contains(a) {
            let k = choose|k: int| 0 <= k < p.len() && p[k] == a;
            if k < i {
                assert(q[k] == a);
                assert(ranks_before(all, q[k], q[i]));
            } else if k > i {
                assert(ranks_before(all, p[i], p[k]));
            }
        } else {
            assert(ranks_before(all, p[i], a));
        }
    }
}

} // verus!
