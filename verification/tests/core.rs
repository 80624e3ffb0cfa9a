use mterm::grid::{indexed_to_rgb, text_width, Cell, CellAttrs, Color, Line, Scrollback};
use mterm::kitty::{b64_decode, parse_apc, KittyAction, KittyFormat};
use mterm::mouse::{
    encode, BTN_LEFT, BTN_MIDDLE, BTN_RIGHT, MOD_CTRL, MOD_SHIFT, MOTION, WHEEL_DOWN,
};
use mterm::terminal::{Terminal, TerminalConfig, TerminalEvent};

// ── grid ──────────────────────────────────────────────────────────────────

#[test]
fn text_width_handles_wide() {
    assert_eq!(text_width('a'), 1);
    assert_eq!(text_width('中'), 2);
    assert_eq!(text_width('🚀'), 2);
}

#[test]
fn scrollback_ring_respects_cap() {
    let mut sb = Scrollback::new(3);
    for _ in 0..5 {
        sb.push(Line::new(1));
    }
    assert_eq!(sb.len(), 3);
}

#[test]
fn scrollback_push_evicts_oldest_and_keeps_dirty_flag() {
    let mut sb = Scrollback::new(2);
    for w in 1..=3usize {
        let mut l = Line::new(w);
        l.dirty = w != 3;
        sb.push(l);
    }
    let kept: Vec<(usize, bool)> = sb.iter().map(|l| (l.cells.len(), l.dirty)).collect();
    assert_eq!(kept, vec![(2, true), (3, false)]);
}

#[test]
fn scrollback_of_no_capacity_keeps_nothing() {
    let mut sb = Scrollback::new(0);
    sb.push(Line::new(4));
    assert!(sb.is_empty());
}

#[test]
fn cell_default_is_empty() {
    let c = Cell::new(' ', CellAttrs::default());
    assert!(c.is_empty());
}

// ── kitty ─────────────────────────────────────────────────────────────────

#[test]
fn b64_roundtrip() {
    for (raw, enc) in [
        (b"hello".as_slice(), "aGVsbG8=".as_bytes()),
        (b"a".as_slice(), "YQ==".as_bytes()),
        (&[], &[] as &[u8]),
        (
            b"\x89PNG\r\n\x1a\n\x00\x00\x00\rIHDR".as_slice(),
            b"iVBORw0KGgoAAAANSUhEUg==",
        ),
    ] {
        assert_eq!(b64_decode(enc).unwrap(), raw);
    }
}

#[test]
fn parse_transmit_t() {
    let apc = "a=t,t=f,f=100,s=64,v=64,m=1;aGVsbG8=";
    let cmd = parse_apc(apc.as_bytes());
    assert_eq!(cmd.action, KittyAction::Transmit);
    assert_eq!(cmd.format, KittyFormat::Png);
    assert_eq!(cmd.width_px, 64);
    assert_eq!(cmd.height_px, 64);
    assert_eq!(cmd.more, 1);
    assert_eq!(cmd.payload, b"hello");
}

#[test]
fn parse_transmit_and_place_no_payload() {
    let cmd = parse_apc(b"a=p,q=7,c=2,r=2");
    assert_eq!(cmd.action, KittyAction::Place);
    assert_eq!(cmd.image_id, Some(7));
    assert_eq!(cmd.cols, 2);
    assert_eq!(cmd.rows, 2);
}

#[test]
fn parse_delete_without_payload() {
    let cmd = parse_apc(b"a=d,i=-1");
    assert_eq!(cmd.action, KittyAction::Delete);
    assert_eq!(cmd.image_no, Some(-1));
}

#[test]
fn parse_png_format_number() {
    let cmd = parse_apc(b"a=t,t=f,f=100;eA==");
    assert_eq!(cmd.format, KittyFormat::Png);
    assert_eq!(cmd.payload, b"x");
}

#[test]
fn parse_unknown_action_ignored() {
    let cmd = parse_apc(b"a=zzz,o=1");
    assert_eq!(cmd.action, KittyAction::Ignore);
}

// ── mouse ─────────────────────────────────────────────────────────────────

fn enc(code: u8, mods: u8, release: bool, x: usize, y: usize) -> String {
    let mut v = Vec::new();
    encode(code, mods, release, x, y, &mut v);
    String::from_utf8(v).unwrap()
}

#[test]
fn press_left() {
    assert_eq!(enc(BTN_LEFT, 0, false, 3, 2), "\x1b[<0;3;2M");
}

#[test]
fn release_left_adds_three() {
    assert_eq!(enc(BTN_LEFT, 0, true, 3, 2), "\x1b[<3;3;2m");
}

#[test]
fn right_click_has_code_two() {
    assert_eq!(enc(BTN_RIGHT, 0, false, 1, 1), "\x1b[<2;1;1M");
}

#[test]
fn modifiers_are_orred() {
    assert_eq!(enc(BTN_LEFT, MOD_CTRL, false, 5, 5), "\x1b[<16;5;5M");
    assert_eq!(enc(BTN_MIDDLE, MOD_SHIFT, false, 5, 5), "\x1b[<5;5;5M");
}

#[test]
fn motion_uses_bit_32() {
    assert_eq!(enc(BTN_LEFT, MOTION, false, 7, 9), "\x1b[<32;7;9M");
}

#[test]
fn wheel_down() {
    assert_eq!(enc(WHEEL_DOWN, 0, false, 4, 4), "\x1b[<65;4;4M");
}

#[test]
fn zero_coords_clamped() {
    assert_eq!(enc(BTN_LEFT, 0, false, 0, 0), "\x1b[<0;1;1M");
}

#[test]
fn large_coords_ok() {
    assert_eq!(enc(BTN_LEFT, 0, false, 200, 50), "\x1b[<0;200;50M");
}

// ── terminal ──────────────────────────────────────────────────────────────

fn term_2x2() -> Terminal {
    Terminal::new(TerminalConfig {
        cols: 2,
        rows: 2,
        scrollback_cap: 10,
    })
}

fn feed(t: &mut Terminal, s: &str) {
    t.feed_str(s);
}

#[test]
fn prints_chars_and_wraps() {
    let mut t = term_2x2();
    feed(&mut t, "abcd");
    assert_eq!(t.grid.line(0).cells[0].ch, 'a');
    assert_eq!(t.grid.line(0).cells[1].ch, 'b');
    assert_eq!(t.grid.line(1).cells[0].ch, 'c');
    assert_eq!(t.grid.line(1).cells[1].ch, 'd');
}

#[test]
fn cursor_movement_csi() {
    let mut t = term_2x2();
    feed(&mut t, "\x1b[2;1HX");
    assert_eq!(t.grid.line(1).cells[0].ch, 'X');
}

#[test]
fn clear_screen_j2() {
    let mut t = term_2x2();
    feed(&mut t, "ab");
    feed(&mut t, "\x1b[2J");
    for y in 0..2 {
        for x in 0..2 {
            assert!(t.grid.line(y).cells[x].is_empty());
        }
    }
}

#[test]
fn title_via_osc() {
    let mut t = term_2x2();
    feed(&mut t, "\x1b]0;hello\x07");
    assert_eq!(t.take_event(), Some(TerminalEvent::Title("hello".into())));
    assert_eq!(t.take_event(), None);
}

#[test]
fn bell_emits_event() {
    let mut t = term_2x2();
    feed(&mut t, "\x07");
    assert_eq!(t.take_event(), Some(TerminalEvent::Bell));
}

#[test]
fn events_fifo_order() {
    let mut t = term_2x2();
    feed(&mut t, "\x1b]0;first\x07\x07\x1b]0;second\x07");
    assert_eq!(t.take_event(), Some(TerminalEvent::Title("first".into())));
    assert_eq!(t.take_event(), Some(TerminalEvent::Bell));
    assert_eq!(t.take_event(), Some(TerminalEvent::Title("second".into())));
    assert_eq!(t.take_event(), None);
}

#[test]
fn big_scroll_does_not_panic() {
    let mut t = term_2x2();
    let mut buf = String::new();
    for _ in 0..10_000 {
        buf.push_str("line\n");
    }
    feed(&mut t, &buf);
    assert_eq!(t.rows(), 2);
}

#[test]
fn alternate_screen_isolated() {
    let mut t = term_2x2();
    feed(&mut t, "ab");
    assert!(t.alt_screen.is_none());

    feed(&mut t, "\x1b[1049h");
    assert!(t.alt_screen.is_some());
    assert!(t.grid.line(0).cells[0].is_empty(), "alt screen starts blank");

    feed(&mut t, "XY");
    assert_eq!(t.grid.line(0).cells[0].ch, 'X');
    assert_eq!(t.grid.line(0).cells[1].ch, 'Y');

    feed(&mut t, "\x1b[1049l");
    assert!(t.alt_screen.is_none(), "alt screen dropped");
    assert_eq!(t.grid.line(0).cells[0].ch, 'a', "main screen back");
    assert_eq!(t.grid.line(0).cells[1].ch, 'b');
    assert_eq!((t.cursor.x, t.cursor.y), (2, 0), "saved cursor restored");
}

#[test]
fn alternate_screen_47() {
    let mut t = term_2x2();
    feed(&mut t, "ab");
    feed(&mut t, "\x1b[47h");
    assert!(t.alt_screen.is_some());
    feed(&mut t, "\x1b[47l");
    assert!(t.alt_screen.is_none());
    assert_eq!(t.grid.line(0).cells[0].ch, 'a');
}

#[test]
fn osc8_hyperlink_attached_to_cells() {
    let mut t = term_2x2();
    feed(&mut t, "\x1b]8;;https://example.com/a%20b\x07hi");
    let id = t.grid.line(0).cells[0]
        .attrs
        .hyperlink
        .expect("cell carries the link");
    assert_eq!(
        t.hyperlink_uri(id),
        Some("https://example.com/a b"),
        "URI unescaped"
    );
    assert_eq!(t.grid.line(0).cells[1].attrs.hyperlink, Some(id));

    feed(&mut t, "\x1b]8;;\x07!");
    assert_eq!(
        t.grid.line(1).cells[0].attrs.hyperlink,
        None,
        "empty URI closes the link"
    );
}

#[test]
fn osc8_hyperlink_uses_persistent_id() {
    let mut t = term_2x2();
    feed(&mut t, "\x1b]8;id=tab1;https://a.dev\x07XY");
    let x_id = t.grid.line(0).cells[0].attrs.hyperlink.unwrap();
    feed(&mut t, "\x1b[2;1H");
    feed(&mut t, "\x1b]8;id=tab1;https://a.dev\x07Z");
    let z_id = t.grid.line(1).cells[0].attrs.hyperlink.unwrap();
    assert_eq!(x_id, 1);
    assert_eq!(z_id, 2);
    assert_eq!(t.hyperlink_uri(x_id), Some("https://a.dev"));
    assert_eq!(t.hyperlink_uri(z_id), Some("https://a.dev"));
}

#[test]
fn sgr_256_color_roundtrip() {
    let mut t = term_2x2();
    feed(&mut t, "\x1b[38;5;196mR");
    assert_eq!(t.grid.line(0).cells[0].attrs.fg, Color::Indexed(196));
    feed(&mut t, "\x1b[38;2;1;2;3mQ");
    assert_eq!(t.grid.line(0).cells[1].attrs.fg, Color::Rgb(1, 2, 3));
}

#[test]
fn alternate_screen_private_mode_questionmark() {
    let mut t = term_2x2();
    feed(&mut t, "ab");
    feed(&mut t, "\x1b[?1049h");
    assert!(t.alt_screen.is_some(), "?1049h enters the alternate screen");
    feed(&mut t, "\x1b[?1049l");
    assert!(t.alt_screen.is_none(), "?1049l leaves it");
    assert_eq!(t.grid.line(0).cells[0].ch, 'a', "main screen back");
}

#[test]
fn mouse_tracking_toggles_event() {
    let mut t = term_2x2();
    feed(&mut t, "\x1b[?1000h");
    assert!(t.mouse_tracking);
    assert_eq!(t.take_event(), Some(TerminalEvent::Mouse(true)));

    feed(&mut t, "\x1b[?1000l");
    assert!(!t.mouse_tracking);
    assert_eq!(t.take_event(), Some(TerminalEvent::Mouse(false)));

    feed(&mut t, "\x1b[?1003h");
    assert!(t.mouse_tracking);
}

#[test]
fn sgr_1006_toggles_and_gates_encode() {
    let mut t = term_2x2();

    let mut out = Vec::new();
    assert!(!t.sgr_mouse_seq(BTN_LEFT, 0, false, 1, 1, &mut out));
    assert!(out.is_empty());

    feed(&mut t, "\x1b[?1006h");
    assert!(t.sgr_mouse, "?1006h turns SGR on");
    assert!(t.sgr_mouse_seq(BTN_LEFT, 0, false, 3, 2, &mut out));
    assert_eq!(out, b"\x1b[<0;3;2M");

    feed(&mut t, "\x1b[?1006l");
    assert!(!t.sgr_mouse, "?1006l turns SGR off");

    let mut t2 = term_2x2();
    feed(&mut t2, "\x1b[?1000h");
    assert!(!t2.sgr_mouse, "1000h alone leaves SGR off");
}

#[test]
fn fuzz_no_panic_invariants_hold() {
    let cfg = TerminalConfig {
        cols: 40,
        rows: 12,
        ..Default::default()
    };
    let mut t = Terminal::new(cfg);
    let mut rng = 0x9E37_79B9u32;
    let mut buf = vec![0u8; 32 * 1024];
    for round in 0..100 {
        for b in buf.iter_mut() {
            rng = rng.wrapping_mul(1664525).wrapping_add(1013904223);
            *b = (rng >> 24) as u8;
        }
        if round % 3 == 0 {
            let real = [
                b"\x1b[31;1mcolor\x1b[0m".as_slice(),
                b"\x1b]8;;https://a.dev\x07link\x1b]8;;\x07".as_slice(),
                b"\x1b[?1006h".as_slice(),
                b"\x1b]0;title\x07".as_slice(),
                b"\x1b(P\xB0".as_slice(),
            ];
            let s = real[round % real.len()];
            t.feed_bytes(&s[..(rng as usize) % s.len()]);
        }
        t.feed_bytes(&buf);
        t.feed_bytes(b"\r\n\x1b[2J\x1b[H");
        assert_invariants(&t);
    }
}

fn assert_invariants(t: &Terminal) {
    assert!(t.cursor.x < t.cols());
    assert!(t.cursor.y < t.rows());
    for y in 0..t.grid.rows() {
        let line = t.grid.line(y);
        assert_eq!(line.cells.len(), t.grid.cols());
    }
    assert!(t.grid.rows() <= 12);
}

#[test]
fn indexed_256_color_map() {
    assert_eq!(indexed_to_rgb(196), (255, 0, 0));
    assert_eq!(indexed_to_rgb(16), (0, 0, 0));
    assert_eq!(indexed_to_rgb(231), (255, 255, 255));
    assert_eq!(indexed_to_rgb(232), (8, 8, 8));
    assert_eq!(indexed_to_rgb(255), (238, 238, 238));
    assert_eq!(Color::Indexed(196).to_rgb24(), Some((255, 0, 0)));
    assert_eq!(Color::Default.to_rgb24(), None);
}

// ── kitty graphics on the terminal ────────────────────────────────────────

fn fixture_png() -> Vec<u8> {
    vec![0x89, b'P', b'N', b'G', 0x0d, 0x0a, 0x1a, 0x0a, 0, 0, 0, 0]
}

fn b64(png: &[u8]) -> String {
    const ALPHA: &[u8] = b"ABCDEFGHIJKLMNOPQRSTUVWXYZabcdefghijklmnopqrstuvwxyz0123456789+/";
    let mut out = String::new();
    for chunk in png.chunks(3) {
        let b = [
            chunk[0],
            *chunk.get(1).unwrap_or(&0),
            *chunk.get(2).unwrap_or(&0),
        ];
        let n = (b[0] as u32) << 16 | (b[1] as u32) << 8 | b[2] as u32;
        out.push(ALPHA[(n >> 18) as usize] as char);
        out.push(ALPHA[((n >> 12) & 63) as usize] as char);
        if chunk.len() >= 2 {
            out.push(ALPHA[((n >> 6) & 63) as usize] as char);
        } else {
            out.push('=');
        }
        if chunk.len() >= 3 {
            out.push(ALPHA[(n & 63) as usize] as char);
        } else {
            out.push('=');
        }
    }
    out
}

#[test]
fn kitty_transmit_then_place() {
    let mut t = Terminal::new(TerminalConfig::default());
    let png = fixture_png();
    let apc = format!("\x1b_Ga=t,t=f,f=100,s=10,v=10,m=0;{}\x1b\\", b64(&png));
    t.feed_str(&apc);
    let mut got_image = None;
    let mut got_placed = None;
    while let Some(ev) = t.take_event() {
        match ev {
            TerminalEvent::KittyImage {
                id,
                format,
                width_px,
                height_px,
                data,
            } => {
                got_image = Some((id, format, width_px, height_px, data));
            }
            TerminalEvent::KittyPlaced {
                id,
                x,
                y,
                cols,
                rows,
            } => {
                got_placed = Some((id, x, y, cols, rows));
            }
            _ => {}
        }
    }
    let (id, format, w, h, data) = got_image.expect("image event");
    assert_eq!(format, 1, "png");
    assert_eq!((w, h), (10, 10));
    assert_eq!(*data, png);
    assert!(got_placed.is_none(), "a=t does not place");
    assert!(t.images.contains_key(&id));

    let apc = format!("\x1b_Ga=p,q={id},X=2,Y=1,c=2,r=1\x1b\\");
    t.feed_str(&apc);
    let ev = t.take_event().expect("placed event");
    match ev {
        TerminalEvent::KittyPlaced {
            id: pid,
            x,
            y,
            cols,
            rows,
        } => {
            assert_eq!((pid, x, y, cols, rows), (id, 1, 0, 2, 1));
        }
        _ => panic!("wrong event: {ev:?}"),
    }
    assert_eq!(t.grid.line(0).cells[1].attrs.image, Some(id));
    assert_eq!(t.grid.line(0).cells[2].attrs.image, Some(id));
    assert_eq!(t.grid.line(0).cells[3].attrs.image, None);
}

#[test]
fn kitty_transmit_and_place_t() {
    let mut t = Terminal::new(TerminalConfig::default());
    let png = fixture_png();
    let apc = format!("\x1b_Ga=T,f=100,s=8,v=8,m=0;{}\x1b\\", b64(&png));
    t.feed_str(&apc);
    let mut placed = false;
    while let Some(ev) = t.take_event() {
        if matches!(ev, TerminalEvent::KittyPlaced { .. }) {
            placed = true;
        }
    }
    assert!(placed, "a=T places at the cursor");
    assert_eq!(t.grid.line(0).cells[0].attrs.image, Some(1));
}

#[test]
fn kitty_chunked_transmit_across_feeds() {
    let mut t = Terminal::new(TerminalConfig::default());
    let png = fixture_png();
    let full = b64(&png);
    let (mid, tail) = full.split_at(full.len() / 2);
    let c1 = format!("\x1b_Ga=t,f=100,m=1;{}\x1b\\", mid);
    let c2 = format!("\x1b_Gm=2;{}\x1b\\", "!".repeat(20));
    let c3 = format!("\x1b_Gm=0;{}\x1b\\", tail);
    t.feed_str(&c1);
    assert!(t.pending_chunk.is_some(), "chunk 1 pending");
    t.feed_str(&c2);
    t.feed_str(&c3);
    let mut got = None;
    while let Some(ev) = t.take_event() {
        if let TerminalEvent::KittyImage { id, data, .. } = ev {
            got = Some((id, data));
        }
    }
    let (id, data) = got.expect("complete image");
    assert_eq!(id, 1);
    assert_eq!(*data, png);
    assert!(t.images.contains_key(&id));
}

#[test]
fn kitty_apc_payload_truncated_buffered_next_feed() {
    let mut t = Terminal::new(TerminalConfig::default());
    let png = fixture_png();
    let full = b64(&png);
    let apc = format!("\x1b_Ga=t,f=100,s=4,v=4,m=0;{}\x1b\\", full).into_bytes();
    let cut = apc.len() - 3;
    let (head, tail) = apc.split_at(cut);
    t.feed_bytes(head);
    assert!(t.pending_apc.is_some(), "cut APC is buffered");
    t.feed_bytes(tail);
    let mut got = None;
    while let Some(ev) = t.take_event() {
        if let TerminalEvent::KittyImage { data, .. } = ev {
            got = Some(data);
        }
    }
    assert_eq!(*got.expect("image"), png, "APC completed by the next feed");
}

#[test]
fn kitty_delete_all_and_by_id() {
    let mut t = Terminal::new(TerminalConfig::default());
    let png = fixture_png();
    let apc1 = format!("\x1b_Ga=t,f=100,s=4,v=4,m=0;{}\x1b\\", b64(&png));
    let apc2 = format!("\x1b_Ga=t,q=99,f=100,s=4,v=4,m=0;{}\x1b\\", b64(&png));
    t.feed_str(&apc1);
    t.feed_str(&apc2);
    assert!(t.images.contains_key(&1));
    assert!(t.images.contains_key(&99));
    t.feed_str("\x1b_Ga=d\x1b\\");
    assert!(t.images.is_empty());
    let apc1 = format!("\x1b_Ga=t,q=7,f=100,m=0;{}\x1b\\", b64(&png));
    let apc2 = format!("\x1b_Ga=t,q=8,f=100,m=0;{}\x1b\\", b64(&png));
    t.feed_str(&apc1);
    t.feed_str(&apc2);
    t.feed_str("\x1b_Ga=d,q=7\x1b\\");
    assert!(!t.images.contains_key(&7));
    assert!(t.images.contains_key(&8));
}

#[test]
fn kitty_non_graphics_apc_ignored() {
    let mut t = Terminal::new(TerminalConfig::default());
    t.feed_str("\x1b_Ga=zzz,o=1;QQ==\x1b\\");
    assert!(t.images.is_empty());
    assert!(!t.has_event());
}

// ── viewport scrollback ───────────────────────────────────────────────────

fn feed_lines(t: &mut Terminal, lines: &[&str]) {
    for l in lines {
        t.feed_str(l);
        t.feed_str("\r\n");
    }
}

fn row_text(t: &Terminal, y: usize) -> String {
    t.view_line(y).cells.iter().take(2).map(|c| c.ch).collect()
}

#[test]
fn scroll_offset_reads_history_lines() {
    let mut t = Terminal::new(TerminalConfig {
        cols: 4,
        rows: 2,
        scrollback_cap: 100,
    });
    feed_lines(&mut t, &["l1", "l2", "l3", "l4", "l5"]);
    assert_eq!(t.scrollback_len(), 4, "4 lines in the scrollback");
    assert_eq!(t.scroll_offset(), 0);
    assert_eq!(row_text(&t, 0), "l5", "offset 0 = bottom (l5)");

    t.set_scroll_offset(99);
    assert_eq!(t.scroll_offset(), 4, "clamped to the scrollback");
    assert_eq!(row_text(&t, 0), "l1", "top = l1");
    assert_eq!(row_text(&t, 1), "l2", "second = l2");

    t.set_scroll_offset(2);
    assert_eq!(row_text(&t, 0), "l3");
    assert_eq!(row_text(&t, 1), "l4");
}

#[test]
fn scroll_offset_clamps_and_resets() {
    let mut t = Terminal::new(TerminalConfig {
        cols: 4,
        rows: 2,
        scrollback_cap: 2,
    });
    feed_lines(&mut t, &["a", "b", "c", "d"]);
    assert!(t.scrollback_len() <= 2);

    t.set_scroll_offset(99);
    assert_eq!(t.scroll_offset(), t.scrollback_len(), "clamped");

    t.set_scroll_offset(0);
    feed_lines(&mut t, &["e"]);
    t.resize(4, 3);
    assert!(t.scroll_offset() <= t.scrollback_len());
}

#[test]
fn scroll_dirty_marks_full_repaint() {
    let mut t = term_2x2();
    feed_lines(&mut t, &["x", "y", "z"]);
    t.set_scroll_offset(1);
    assert_eq!(t.dirty_rect, Some((0, 0, 2, 2)), "scroll: whole screen dirty");
    t.set_scroll_offset(1);
    assert_eq!(t.dirty_rect, Some((0, 0, 2, 2)), "same offset: dirty kept");
}

#[test]
fn alt_screen_resets_scroll_offset() {
    let mut t = term_2x2();
    feed_lines(&mut t, &["p", "q", "r"]);
    t.set_scroll_offset(1);
    assert_eq!(t.scroll_offset(), 1);
    t.feed_str("\x1b[?1049h");
    assert_eq!(t.scroll_offset(), 0, "alternate screen: offset 0");
    t.feed_str("\x1b[?1049l");
    assert_eq!(t.scroll_offset(), 0, "back on the main screen: still 0");
}

#[test]
fn grid_new_clamps_to_one() {
    let g = mterm::grid::Grid::new(0, 0, 4);
    assert_eq!(g.cols(), 1);
    assert_eq!(g.rows(), 1);
    assert_eq!(g.line(0).cells.len(), 1);
}

#[test]
fn modifiers_or_into_release_code() {
    assert_eq!(enc(BTN_MIDDLE, MOD_SHIFT, true, 1, 1), "\x1b[<4;1;1m");
    assert_eq!(enc(BTN_LEFT, MOD_SHIFT | MOD_CTRL, true, 1, 1), "\x1b[<23;1;1m");
}

#[test]
fn other_reset_modes_keep_alt_screen() {
    let mut t = Terminal::new(TerminalConfig { cols: 2, rows: 2, scrollback_cap: 10 });
    feed(&mut t, "ab");
    feed(&mut t, "\x1b[?1049h");
    feed(&mut t, "\x1b[?25l");
    assert!(t.alt_screen.is_some());
    assert!(t.grid.line(0).cells[0].is_empty());
    assert!(t.grid.line(0).cells[1].is_empty());
    feed(&mut t, "\x1b[?1049l");
    assert!(t.alt_screen.is_none());
    assert_eq!(t.grid.line(0).cells[0].ch, 'a');
}

#[test]
fn wide_glyph_takes_one_column() {
    let mut t = Terminal::new(TerminalConfig { cols: 4, rows: 2, scrollback_cap: 10 });
    feed(&mut t, "中");
    assert_eq!(t.grid.line(0).cells[0].ch, '中');
    assert_eq!(t.grid.line(0).cells[0].width, 1);
    assert_eq!((t.cursor.x, t.cursor.y), (1, 0));
    feed(&mut t, "中中中");
    assert!(t.cursor.x <= t.cols());
}

#[test]
fn b64_padding_optional_and_whitespace_ignored() {
    assert_eq!(b64_decode(b"aGk=").unwrap(), b"hi".to_vec());
    assert_eq!(b64_decode(b"aGk").unwrap(), b"hi".to_vec());
    assert_eq!(b64_decode(b"a G\nk=").unwrap(), b"hi".to_vec());
    assert_eq!(b64_decode(b"aGVsbG8=").unwrap(), b"hello".to_vec());
    assert_eq!(b64_decode(b"aGVs\r\nbG8").unwrap(), b"hello".to_vec());
}

fn fed_in_two(stream: &[u8], cut: usize) -> Terminal {
    let mut t = Terminal::new(TerminalConfig { cols: 20, rows: 6, scrollback_cap: 10 });
    t.feed_bytes(&stream[..cut]);
    t.feed_bytes(&stream[cut..]);
    t
}

fn screen_of(t: &Terminal) -> Vec<Vec<Cell>> {
    t.grid.lines.iter().map(|l| l.cells.clone()).collect()
}

fn events_of(t: &mut Terminal) -> Vec<TerminalEvent> {
    let mut v = Vec::new();
    while let Some(e) = t.take_event() {
        v.push(e);
    }
    v
}

#[test]
fn feed_cut_anywhere_is_feed_whole() {
    let stream: &[u8] =
        b"hi\x1b[31mred\x1b[0m\r\n\x1b]0;title\x07\x1b[?1000h\x1b[?1006h\x1b[3;4Hx\xc3\xa9\x1b[K\x1b_Ga=q,i=1;\x1b\\tail\x07";
    let mut whole = fed_in_two(stream, stream.len());
    let whole_screen = screen_of(&whole);
    let whole_events = events_of(&mut whole);
    for cut in 0..=stream.len() {
        if cut > 0 && cut < stream.len() && stream[cut - 1] == 0x1b && stream[cut] == b'_' {
            continue;
        }
        let mut t = fed_in_two(stream, cut);
        assert_eq!(screen_of(&t), whole_screen, "cut at {cut}");
        assert_eq!(t.cursor, whole.cursor, "cut at {cut}");
        assert_eq!(t.mouse_tracking, whole.mouse_tracking);
        assert_eq!(t.sgr_mouse, whole.sgr_mouse);
        assert_eq!(events_of(&mut t), whole_events, "cut at {cut}");
    }
}
