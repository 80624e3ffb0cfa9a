use mterm::terminal::{Terminal, TerminalConfig};
use mterm::registry::Registry;

fn u32_le(b: &[u8]) -> u32 {
    u32::from_le_bytes([b[0], b[1], b[2], b[3]])
}

#[test]
fn take_event_title_roundtrip() {
    let mut r = Registry::new();
    let h = r.init_term(80, 24);
    r.write(h, b"\x1b]0;hello world\x07");
    let mut buf = [0u8; 256];
    let n = r.take_event(h, &mut buf);
    assert_eq!(n, 8 + 11);
    assert_eq!(u32_le(&buf[0..4]), 1, "type Title");
    assert_eq!(u32_le(&buf[4..8]), 11);
    assert_eq!(&buf[8..8 + 11], b"hello world");

    let n = r.take_event(h, &mut buf);
    assert_eq!(n, 0, "queue empty");
    r.destroy(h);
}

#[test]
fn take_event_bell() {
    let mut r = Registry::new();
    let h = r.init_term(80, 24);
    r.write(h, b"\x07");
    let mut buf = [0u8; 64];
    let n = r.take_event(h, &mut buf);
    assert_eq!(n, 8);
    assert_eq!(u32_le(&buf[0..4]), 2, "type Bell");
    assert_eq!(u32_le(&buf[4..8]), 0);
    r.destroy(h);
}

#[test]
fn take_event_mouse_split_feed() {
    let mut r = Registry::new();
    let h = r.init_term(80, 24);
    r.write(h, b"\x1b");
    for b in b"[?1000h" {
        r.write(h, &[*b]);
    }
    let mut buf = [0u8; 64];
    let n = r.take_event(h, &mut buf);
    assert_eq!(n, 9, "the event comes out though the feed was split");
    assert_eq!(u32_le(&buf[0..4]), 3, "type Mouse");
    assert_eq!(buf[8], 1, "tracking on");
    r.destroy(h);
}

#[test]
fn take_event_mouse() {
    let mut r = Registry::new();
    let h = r.init_term(80, 24);
    r.write(h, b"\x1b[?1000h");
    let mut buf = [0u8; 64];
    let n = r.take_event(h, &mut buf);
    assert_eq!(n, 9);
    assert_eq!(u32_le(&buf[0..4]), 3, "type Mouse");
    assert_eq!(buf[8], 1, "tracking on");

    r.write(h, b"\x1b[?1000l");
    let n = r.take_event(h, &mut buf);
    assert_eq!(n, 9, "mouse off event");
    assert_eq!(u32_le(&buf[0..4]), 3, "type Mouse");
    assert_eq!(buf[8], 0, "tracking off");
    r.destroy(h);
}

#[test]
fn take_event_small_buffer_keeps_event() {
    let mut r = Registry::new();
    let h = r.init_term(80, 24);
    r.write(h, b"\x1b]0;hello world\x07");
    let mut small = [0u8; 4];
    assert_eq!(r.take_event(h, &mut small), -1, "buffer too small");
    let mut big = [0u8; 128];
    let n = r.take_event(h, &mut big);
    assert_eq!(n, 8 + 11, "event kept, the retry works");
    r.destroy(h);
}

#[test]
fn cell_at_returns_rgb_bytes() {
    let mut r = Registry::new();
    let h = r.init_term(80, 24);
    r.write(h, b"\x1b[31mR");
    let (fg, _bg, ch) = r.cell_at(h, 0, 0).expect("cell exists");
    assert_eq!(ch, 'R' as u32);
    assert_eq!((fg >> 24) & 0xFF, 0xFF, "opaque alpha for a set color");
    assert!(fg != 0, "fg not zero for an explicit color");
    r.destroy(h);
}

#[test]
fn fast_path_marks_and_consumes_dirty() {
    let mut r = Registry::new();
    let h = r.init_term(80, 24);
    r.write(h, b"BANNER-MTERM\n");
    assert!(r.dirty(h), "ASCII feed marks dirty");
    assert!(!r.dirty(h), "dirty lasts one read");

    r.write(h, b"\x1b[31mR");
    assert!(r.dirty(h));
    assert!(!r.dirty(h));

    r.write(h, b"\x1b[2J");
    assert!(r.dirty(h));
    assert!(!r.dirty(h));
    r.write(h, b"AB\x1b[K");
    assert!(r.dirty(h));
    assert!(!r.dirty(h));
    r.destroy(h);
}

#[test]
fn boundary_out_of_range_is_safe() {
    let mut r = Registry::new();
    assert_eq!(r.cell_at(99_999, 0, 0), None, "no such handle");
    assert_eq!(r.take_event(99_999, &mut [0u8; 8]), -1);
    assert!(!r.dirty(99_999));

    let h = r.init_term(80, 24);
    assert_eq!(r.cell_at(h, 80, 0), None);
    assert_eq!(r.cell_at(h, 0, 24), None);
    assert_eq!(r.cell_at(h, -1, 0), None);
    assert_eq!(r.cell_at(h, 0, -5), None);
    assert_eq!(r.cell_at(h, 100_000, 100_000), None);
    r.destroy(h);
}

#[test]
fn negative_and_huge_dims_are_clamped() {
    let mut r = Registry::new();
    let h = r.init_term(-10, -10);
    r.write(h, b"a");
    assert_eq!(r.cell_at(h, 0, 0).map(|c| c.2), Some('a' as u32));
    assert_eq!(r.terms[h as usize].cols(), 1);
    assert_eq!(r.terms[h as usize].rows(), 1);

    let h2 = r.init_term(i32::MAX, i32::MAX);
    let (c2, r2) = (r.terms[h2 as usize].cols(), r.terms[h2 as usize].rows());
    assert!(c2 <= 1024 && r2 <= 512, "capped against OOM");
    r.destroy(h);
    r.destroy(h2);
}

#[test]
fn scroll_offset_moves_cell_at_into_history() {
    let mut r = Registry::new();
    let h = r.init_term(10, 4);
    r.write(h, b"l1\r\nl2\r\nl3\r\nl4\r\nl5\r\nl6\r\n");
    let max = r.scroll_max(h);
    assert!(max >= 2, "there is scrollback, max={max}");

    assert_eq!(r.cell_at(h, 0, 0).map(|c| c.2), Some('l' as u32), "bottom view");
    r.set_scroll_offset(h, max);
    let first = r.cell_at(h, 0, 0).map(|c| c.2 as u8 as char);
    assert_eq!(first, Some('l'), "scrolled fully: history first");
    let second = r.cell_at(h, 1, 0).map(|c| c.2 as u8 as char);
    assert_eq!(second, Some('1'), "first history line = l1");

    r.set_scroll_offset(h, 99_999);
    assert!(r.scroll_max(h) >= 0, "clamped");
    r.destroy(h);
}

#[test]
fn scroll_max_grows_with_output() {
    let mut r = Registry::new();
    let h = r.init_term(8, 3);
    r.write(h, b"a\r\nb\r\nc\r\n");
    let m1 = r.scroll_max(h);
    r.write(h, b"d\r\ne\r\nf\r\n");
    let m2 = r.scroll_max(h);
    assert!(m2 >= m1, "scrollback grows: {m1} -> {m2}");
    r.destroy(h);
}

#[test]
fn sgr_mouse_roundtrip_after_mode_enabled() {
    let mut r = Registry::new();
    let h = r.init_term(80, 24);
    let mut out = [0u8; 16];
    assert_eq!(r.sgr_mouse(h, 1, 0, false, 3, 2, &mut out), 0, "mode off");

    r.write(h, b"\x1b[?1000h\x1b[?1006h");
    let n = r.sgr_mouse(h, 1, 0, false, 3, 2, &mut out);
    assert!(n > 0, "SGR encoding works: {n}");
    let seq = String::from_utf8_lossy(&out[..n as usize]).into_owned();
    assert!(seq.contains("1;3;2"), "1-based coordinates (middle at 3,2): {seq}");
    assert!(seq.ends_with('M'), "press = M: {seq}");

    let n2 = r.sgr_mouse(h, 1, 0, true, 3, 2, &mut out);
    let seq2 = String::from_utf8_lossy(&out[..n2.max(0) as usize]).into_owned();
    assert!(seq2.ends_with('m'), "release = m: {seq2}");
    r.destroy(h);
}

fn snapshot_of(t: &mterm::terminal::Terminal) -> mterm::terminal::Snapshot {
    mterm::terminal::Snapshot {
        config: t.config,
        grid: t.grid.clone(),
        cursor: t.cursor,
        mode: t.mode,
        alt_screen: t.alt_screen.clone(),
        scroll_offset: t.scroll_offset,
        current_hyperlink: t.current_hyperlink,
        hyperlinks: t.hyperlinks.clone(),
        next_hyperlink: t.next_hyperlink,
        mouse_tracking: t.mouse_tracking,
        sgr_mouse: t.sgr_mouse,
    }
}

#[test]
fn restore_keeps_grid_cursor_scrollback_and_adopts() {
    let mut t = Terminal::new(TerminalConfig { cols: 10, rows: 3, scrollback_cap: 100 });
    t.feed_str("l1\r\nl2\r\nl3\r\nl4\r\n\x1b[?1000h");
    let back = Terminal::restore(snapshot_of(&t)).expect("consistent snapshot");
    assert_eq!(back.cursor, t.cursor);
    assert_eq!(back.grid.scrollback.lines.len(), t.grid.scrollback.lines.len());
    assert!(back.mouse_tracking);
    assert!(back.events.is_empty());
    assert_eq!(back.dirty_rect, None);
    let mut r = Registry::new();
    let h0 = r.init_term(5, 5);
    let h = r.adopt(back);
    assert_eq!(h, h0 + 1);
    let text: String = r.grid_text(h).into_iter().collect();
    assert!(text.starts_with("l3"), "{text}");

    let mut bad = snapshot_of(&t);
    bad.cursor.y = 3;
    assert!(Terminal::restore(bad).is_none());
    let mut bad = snapshot_of(&t);
    bad.config.cols = 11;
    assert!(Terminal::restore(bad).is_none());
    let mut bad = snapshot_of(&t);
    bad.scroll_offset = 99;
    assert!(Terminal::restore(bad).is_none());
}
