use catdesk::mascot::{
    archive_delays, archive_layout, build_widget_mascot_from_frames, crop_frame, crop_frames,
    crop_visible_bounds, extract_alpha_mask, frame_bounds, line_mask_from_exact_colors,
    mascot_sequence, quantize_widget_frame, quantize_widget_frames, render_tui_lines,
    set_alpha_channel, subtract_masks, visible_bounds, widget_sequence, WidgetMascotSequenceStep,
    build_tui_cell, build_tui_frame, build_widget_frame_string, build_widget_palette,
    check_archived_folder_name, color_distance, folder_not_found_message,
    mascot_headwear_preference, mascot_use_spirit, mt_key_from_seed, nearest_widget_color,
    required_trait, rgba_hex_raw, seed_hex, MascotPack, PixelFrame, TuiMascotFrame,
};

#[test]
fn spirit_is_one_seed_in_a_hundred() {
    assert!(mascot_use_spirit(0));
    assert!(!mascot_use_spirit(1));
    assert!(mascot_use_spirit(200));
    assert_eq!(mascot_headwear_preference(true), "none");
    assert_eq!(mascot_headwear_preference(false), "random");
}

#[test]
fn seeds_as_text_and_key() {
    assert_eq!(seed_hex(255), "00000000000000ff");
    assert_eq!(mt_key_from_seed(5), vec![5]);
    assert_eq!(mt_key_from_seed(0x1_0000_0002), vec![2, 1]);
    assert_eq!(rgba_hex_raw(255, 0, 16, 1), "#ff001001");
}

#[test]
fn terminal_cells_use_half_blocks() {
    let clear = (0, 0, 0, 0);
    let red = (255, 0, 0, 255);
    let blue = (0, 0, 255, 255);
    assert_eq!(build_tui_cell(clear, clear).glyph, ' ');
    let top = build_tui_cell(red, clear);
    assert_eq!(top.glyph, '\u{2580}');
    assert_eq!(top.fg, Some((255, 0, 0)));
    assert_eq!(build_tui_cell(clear, blue).glyph, '\u{2584}');
    assert_eq!(build_tui_cell(red, red).glyph, '\u{2588}');
    let both = build_tui_cell(red, blue);
    assert_eq!(both.glyph, '\u{2580}');
    assert_eq!(both.bg, Some((0, 0, 255)));
}

#[test]
fn terminal_frame_pairs_rows() {
    let red = (255, 0, 0, 255);
    let frame = PixelFrame { width: 1, height: 3, pixels: vec![red, red, red] };
    let t = build_tui_frame(&frame);
    assert_eq!(t.rows.len(), 2);
    assert_eq!(t.rows[0][0].glyph, '\u{2588}');
    assert_eq!(t.rows[1][0].glyph, '\u{2580}');
}

#[test]
fn frames_loop_at_frame_rate() {
    let pack = MascotPack {
        frame_ms: 100,
        tui_frames: vec![
            TuiMascotFrame { rows: vec![] },
            TuiMascotFrame { rows: vec![vec![]] },
        ],
    };
    assert_eq!(pack.current_tui_frame(50).rows.len(), 0);
    assert_eq!(pack.current_tui_frame(150).rows.len(), 1);
    assert_eq!(pack.current_tui_frame(250).rows.len(), 0);
}

#[test]
fn palette_and_frame_symbols() {
    let red = (255, 0, 0, 255);
    let blue = (0, 0, 255, 255);
    let clear = (9, 9, 9, 0);
    let frame = PixelFrame { width: 4, height: 1, pixels: vec![red, clear, blue, red] };
    let palette = build_widget_palette(std::slice::from_ref(&frame));
    assert_eq!(palette, vec![red, blue]);
    assert_eq!(build_widget_frame_string(&frame, &palette), "0.10");
    assert_eq!(color_distance(red, blue), 2 * 255 * 255);
    assert_eq!(nearest_widget_color((250, 0, 10, 255), &palette), red);
}

#[test]
fn archive_folder_names() {
    assert!(check_archived_folder_name("abc").is_ok());
    assert_eq!(
        check_archived_folder_name(".."),
        Err("binagotchy folder name must not be empty or traversal-only".to_string())
    );
    assert_eq!(
        check_archived_folder_name("a/b"),
        Err("binagotchy folder name must be a single path segment".to_string())
    );
    assert_eq!(folder_not_found_message("x"), "binagotchy archive folder not found: x");
    let traits = vec![("headwear".to_string(), "cap".to_string())];
    assert_eq!(required_trait(&traits, "headwear"), Ok("cap".to_string()));
    assert_eq!(
        required_trait(&traits, "body"),
        Err("missing mascot trait: body".to_string())
    );
}

fn frame(width: usize, height: usize, pixels: Vec<(u8, u8, u8, u8)>) -> PixelFrame {
    PixelFrame { width, height, pixels }
}

const CLEAR: (u8, u8, u8, u8) = (0, 0, 0, 0);
const INK: (u8, u8, u8, u8) = (10, 10, 10, 255);

#[test]
fn bounds_cover_opaque_pixels() {
    let f = frame(4, 3, vec![
        CLEAR, CLEAR, CLEAR, CLEAR,
        CLEAR, INK, CLEAR, CLEAR,
        CLEAR, CLEAR, INK, CLEAR,
    ]);
    assert_eq!(frame_bounds(&f), Some((1, 1, 2, 2)));
    let empty = frame(2, 2, vec![CLEAR; 4]);
    assert_eq!(frame_bounds(&empty), None);
    let g = frame(4, 3, vec![
        INK, CLEAR, CLEAR, CLEAR,
        CLEAR, CLEAR, CLEAR, CLEAR,
        CLEAR, CLEAR, CLEAR, CLEAR,
    ]);
    assert_eq!(visible_bounds(&[f, empty, g]), Some((0, 0, 2, 2)));
}

#[test]
fn crop_keeps_inside_the_frame() {
    let f = frame(3, 2, vec![(1, 0, 0, 1), (2, 0, 0, 1), (3, 0, 0, 1), (4, 0, 0, 1), (5, 0, 0, 1), (6, 0, 0, 1)]);
    let c = crop_frame(&f, 1, 0, 5, 1);
    assert_eq!((c.width, c.height), (2, 1));
    assert_eq!(c.pixels, vec![(2, 0, 0, 1), (3, 0, 0, 1)]);
    let outside = crop_frame(&f, 9, 9, 2, 2);
    assert_eq!((outside.width, outside.height), (0, 0));
}

#[test]
fn crop_frames_pads_by_two_within_the_first_frame() {
    let mut pixels = vec![CLEAR; 64];
    pixels[4 * 8 + 5] = INK;
    let f = frame(8, 8, pixels);
    let out = crop_frames(&[f]);
    assert_eq!(out.len(), 1);
    // opaque at (5, 4): window from (3, 2) to (7, 6)
    assert_eq!((out[0].width, out[0].height), (5, 5));
    assert_eq!(out[0].pixels[2 * 5 + 2], INK);
    let blank = frame(2, 1, vec![CLEAR, CLEAR]);
    let same = crop_frames(&[blank]);
    assert_eq!((same[0].width, same[0].height), (2, 1));
    assert!(crop_frames(&[]).is_empty());
}

#[test]
fn crop_visible_bounds_uses_padding() {
    let mut pixels = vec![CLEAR; 25];
    pixels[2 * 5 + 2] = INK;
    let f = frame(5, 5, pixels);
    let tight = crop_visible_bounds(&f, 0);
    assert_eq!((tight.width, tight.height), (1, 1));
    assert_eq!(tight.pixels, vec![INK]);
    let padded = crop_visible_bounds(&f, 1);
    assert_eq!((padded.width, padded.height), (3, 3));
    let wide = crop_visible_bounds(&f, 9);
    assert_eq!((wide.width, wide.height), (5, 5));
}

#[test]
fn masks_from_alpha_and_outline() {
    let f = frame(3, 1, vec![(10, 10, 10, 7), (35, 35, 40, 255), (35, 35, 41, 255)]);
    let alpha = extract_alpha_mask(&f);
    assert_eq!(alpha.pixels, vec![(7, 7, 7, 255), (255, 255, 255, 255), (255, 255, 255, 255)]);
    let lines = line_mask_from_exact_colors(&f);
    assert_eq!(lines.pixels, vec![(255, 255, 255, 255), (255, 255, 255, 255), CLEAR]);
    let hidden = frame(1, 1, vec![(10, 10, 10, 0)]);
    assert_eq!(line_mask_from_exact_colors(&hidden).pixels, vec![CLEAR]);
}

#[test]
fn subtracting_masks_floors_at_black() {
    let a = frame(2, 1, vec![(200, 0, 0, 255), (10, 0, 0, 255)]);
    let b = frame(3, 1, vec![(50, 0, 0, 255), (90, 0, 0, 255), (0, 0, 0, 0)]);
    let d = subtract_masks(&a, &b);
    assert_eq!(d.pixels, vec![(150, 150, 150, 255), (0, 0, 0, 255)]);
}

#[test]
fn alpha_channel_comes_from_mask_level() {
    let mut img = frame(2, 1, vec![(1, 2, 3, 4), (5, 6, 7, 8)]);
    let mask = frame(2, 1, vec![(9, 0, 0, 0), (200, 0, 0, 0)]);
    set_alpha_channel(&mut img, &mask);
    assert_eq!(img.pixels, vec![(1, 2, 3, 9), (5, 6, 7, 200)]);
}

#[test]
fn quantizing_takes_most_frequent_colors() {
    let a = (100, 0, 0, 255);
    let b = (0, 100, 0, 255);
    let c = (0, 0, 100, 255);
    let f = frame(6, 1, vec![a, a, a, b, b, c]);
    let out = quantize_widget_frames(&[f], 2);
    assert_eq!(out.len(), 1);
    // c is nearer to... equally near a and b; the first palette entry (a) wins
    assert_eq!(out[0].pixels, vec![a, a, a, b, b, a]);
    let g = frame(2, 1, vec![b, a]);
    let tie = quantize_widget_frames(&[g], 1);
    // a and b occur once each: the smaller, b = (0, 100, 0, 255), ranks first
    assert_eq!(tie[0].pixels, vec![b, b]);
    let h = frame(2, 1, vec![a, CLEAR]);
    let kept = quantize_widget_frames(&[h], 4);
    assert_eq!(kept[0].pixels, vec![a, CLEAR]);
    let q = quantize_widget_frame(&frame(2, 1, vec![(90, 10, 0, 255), (1, 2, 3, 0)]), &[a, b]);
    assert_eq!(q.pixels, vec![a, CLEAR]);
}

#[test]
fn widget_mascot_from_frames_encodes_palette_and_frames() {
    let a = (255, 0, 0, 255);
    let b = (0, 0, 255, 128);
    let f1 = frame(2, 1, vec![a, CLEAR]);
    let f2 = frame(2, 1, vec![b, a]);
    let steps = vec![WidgetMascotSequenceStep { frame: 0, repeat: 3 }];
    let w = build_widget_mascot_from_frames(&[f1, f2], steps, String::from("bg"));
    assert_eq!((w.width, w.height), (2, 1));
    assert_eq!(w.frame_ms, 50);
    assert_eq!(w.palette, vec!["#ff0000ff".to_string(), "#0000ff80".to_string()]);
    assert_eq!(w.frames, vec!["0.".to_string(), "10".to_string()]);
    assert_eq!(w.spirit_hero_background, "bg");
    assert_eq!(w.sequence.len(), 1);
    let empty = build_widget_mascot_from_frames(&[], vec![], String::new());
    assert_eq!((empty.width, empty.height), (0, 0));
    assert!(empty.palette.is_empty());
}

#[test]
fn widget_sequence_reuses_poses() {
    let steps = mascot_sequence();
    assert_eq!(steps.len(), 11);
    let (poses, seq) = widget_sequence(&steps);
    assert_eq!(poses, vec![(10, 1), (10, 0), (5, 1), (0, 1), (5, 0)]);
    let frames: Vec<u8> = seq.iter().map(|s| s.frame).collect();
    assert_eq!(frames, vec![0, 1, 0, 1, 0, 2, 3, 4, 1, 0, 1]);
    let repeats: Vec<u8> = seq.iter().map(|s| s.repeat).collect();
    assert_eq!(repeats, vec![7, 7, 7, 7, 2, 1, 4, 1, 6, 7, 7]);
    assert_eq!(archive_delays(&steps)[0], 350);
    assert_eq!(archive_delays(&steps)[5], 50);
}

#[test]
fn archive_layout_scales_and_centers() {
    let l = archive_layout(40, 32).ok().unwrap();
    assert_eq!(l.scale, 12);
    assert_eq!((l.width, l.height), (480, 384));
    assert_eq!((l.offset_x, l.offset_y), (16, 64));
    assert_eq!(archive_layout(0, 0).err().unwrap(), "archive frame has zero size");
    assert_eq!(archive_layout(600, 20).err().unwrap(), "archive frame 600x20 exceeds 512x512");
    let exact = archive_layout(512, 1).ok().unwrap();
    assert_eq!((exact.scale, exact.offset_x, exact.offset_y), (1, 0, 255));
}

#[test]
fn tui_lines_center_and_fill() {
    let red = (255, 0, 0, 255);
    let t = build_tui_frame(&frame(1, 4, vec![red; 4]));
    let lines = render_tui_lines(&t, 7);
    assert_eq!(lines.len(), 7);
    assert!(lines[0].is_empty());
    assert!(lines[1].is_empty());
    assert_eq!(lines[2].len(), 1);
    assert_eq!(lines[3].len(), 1);
    assert!(lines[4].is_empty());
    assert!(lines[6].is_empty());
    let short = render_tui_lines(&t, 1);
    assert_eq!(short.len(), 2);
    assert_eq!(short[0][0].glyph, '\u{2588}');
}
