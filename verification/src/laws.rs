//! Properties of the terminal that span several operations.

use vstd::prelude::*;
use vstd::utf8::{decode_utf8, encode_utf8, valid_utf8};
use crate::dispatch::{csi_spec, next_id};
use crate::graphics::{apc_spec, format_code, CmdView};
use crate::kitty::{KittyAction, KittyFormat};
use crate::distro::{base_prefix, best_of, entry_version, latest_spec, split_pat};
use crate::terminal::Cursor;
use crate::feed::{apc_end, cut_ok, feed_run, feed_spec, is_apc_start, lemma_run_cut, vte_cut_invariant};
use crate::registry::event_record;
use crate::terminal::{
    put_fast, resize_spec, restorable, restored_view, set_scroll_offset_spec, snapshot_of, view_wf,
    EventView, ImageView, Terminal, TermView,
};
use crate::kitty::{b64_run, b64_step, b64_val, spec_b64_decode, B64State};
use crate::agent::{
    ask_begin_spec, data_dir, enc_char, is_alnum, join_path, lemma_slug_push, nib, slug, workspace_dir,
};
use crate::pkg::{
    chunks, concat_all, hex_char, hex_text, hex_value, is_hex_char, key_bytes, without, PART_SIZE,
};
use crate::render::{
    block_spec, find_char, find_stars, inline_from, inline_spec, is_ws, lines_of, md_fold, md_step, render_spec, starts, trim, trim_end,
    trim_start, MdState,
};
use crate::pidfile::{ascii_bytes, dec_text, digit_char, is_ascii, pid_of_text};
use crate::text::{all_digits, digits_value, utf8_lossy};

verus! {

/// Setting the viewport offset twice to the same value is setting it once.
pub proof fn law_scroll_offset_idempotent(s: TermView, k: usize)
    ensures
        set_scroll_offset_spec(set_scroll_offset_spec(s, k), k) == set_scroll_offset_spec(s, k),
{
}

/// The viewport offset never exceeds the scrollback.
pub proof fn law_scroll_offset_clamped(s: TermView, k: usize)
    ensures
        set_scroll_offset_spec(s, k).scroll_offset <= s.grid.history.len(),
        k <= s.grid.history.len() ==> set_scroll_offset_spec(s, k).scroll_offset == k,
{
}

/// After a resize the cursor is on the screen, which has the new size
/// (each dimension at least 1).
pub proof fn law_resize_cursor_inside(s: TermView, cols: usize, rows: usize)
    requires
        view_wf(s),
    ensures
        resize_spec(s, cols, rows).cursor.x < resize_spec(s, cols, rows).config.cols,
        resize_spec(s, cols, rows).cursor.y < resize_spec(s, cols, rows).config.rows,
        resize_spec(s, cols, rows).config.cols == (if cols < 1 {
            1
        } else {
            cols
        }),
        resize_spec(s, cols, rows).config.rows == (if rows < 1 {
            1
        } else {
            rows
        }),
        resize_spec(s, cols, rows).grid.screen.len() == resize_spec(s, cols, rows).config.rows,
{
}

/// Entering the alternate screen (`CSI ? 1049 h`) and leaving it
/// (`CSI ? 1049 l`) brings back the main screen and the cursor position.
pub proof fn law_alt_screen_roundtrip(s: TermView)
    requires
        view_wf(s),
        s.alt is None,
    ensures
        ({
            let t = csi_spec(
                csi_spec(s, seq![1049u16], seq![63u8], false, 'h'),
                seq![1049u16],
                seq![63u8],
                false,
                'l',
            );
            &&& t.grid == s.grid
            &&& t.alt is None
            &&& t.cursor.x == s.cursor.x
            &&& t.cursor.y == s.cursor.y
        }),
{
    let u = csi_spec(s, seq![1049u16], seq![63u8], false, 'h');
    assert(seq![1049u16][0] == 1049);
    assert(u.alt == Some(s.grid));
    assert(u.cursor.saved_x == s.cursor.x && u.cursor.saved_y == s.cursor.y);
    assert(u.config == s.config);
}

/// Writing a run of fast-path bytes in two pieces is writing it at once.
pub proof fn law_fast_split(s: TermView, a: Seq<u8>, b: Seq<u8>)
    ensures
        put_fast(put_fast(s, a), b) == put_fast(s, a + b),
    decreases b.len(),
{
    if b.len() == 0 {
        assert(a + b =~= a);
    } else {
        law_fast_split(s, a, b.drop_last());
        assert((a + b).drop_last() =~= a + b.drop_last());
        assert((a + b).last() == b.last());
    }
}

/// A kitty APC cut into two feeds has the effect of the whole APC fed at
/// once: the first piece waits for the rest.
pub proof fn law_apc_split(s: TermView, a: Seq<u8>, b: Seq<u8>, del: Seq<Seq<u32>>)
    requires
        s.pending_apc is None,
        is_apc_start(a, 0),
        apc_end(a) < 0,
    ensures
        ({
            let t = TermView { pending_apc: Some(a), ..s };
            &&& feed_spec(s, a, Seq::empty()) == Some(t)
            &&& feed_spec(t, b, del) == feed_spec(s, a + b, del)
        }),
{
    reveal(feed_run);
    assert(TermView { pending_apc: None, ..TermView { pending_apc: Some(a), ..s } } == s);
    if b.len() == 0 {
        assert(a + b =~= a);
    }
}

/// How the PTY output is cut into feeds does not matter: feeding `a` and
/// then `b` is feeding `a + b`, the delete-all orders of the two feeds taken
/// in turn. The cut must not fall between the two bytes of an APC
/// introducer (after an APC left pending, if any). When `b` starts with an
/// APC introducer this holds whatever the VT parser does; elsewhere it holds
/// as long as the parser itself reports for input cut in two what it
/// reports for the input whole (`vte_cut_invariant`).
pub proof fn law_feed_cut(s: TermView, a: Seq<u8>, b: Seq<u8>, d1: Seq<Seq<u32>>, d2: Seq<Seq<u32>>)
    requires
        vte_cut_invariant() || b.len() == 0 || is_apc_start(b, 0),
        cut_ok(
            match s.pending_apc {
                Some(p) => p + a,
                None => a,
            },
            b,
        ),
        feed_spec(s, a, d1) is Some,
    ensures
        feed_spec(feed_spec(s, a, d1)->0, b, d2) == feed_spec(s, a + b, d1 + d2),
{
    let s0 = TermView { pending_apc: None, ..s };
    let x = match s.pending_apc {
        Some(p) => p + a,
        None => a,
    };
    match s.pending_apc {
        Some(p) => {
            assert(p + (a + b) =~= x + b);
        },
        None => {
            assert(s0 == s);
        },
    }
    lemma_run_cut(s0, x, b, d1, d2);
}

/// A window title set through OSC 0 comes back from the bridge's event
/// record as the same bytes.
pub proof fn law_title_bytes_roundtrip(title: Seq<u8>)
    requires
        valid_utf8(title),
    ensures
        event_record(EventView::Title(decode_utf8(title))) == Some((1u32, title)),
{
    vstd::utf8::decode_utf8_encode_utf8(title);
}

/// A question that is accepted adds exactly one message, so taking the
/// last message back (what a failed model call does) restores the
/// conversation.
pub proof fn law_ask_rollback(ms: Seq<(Seq<char>, Seq<char>)>, text: Seq<char>)
    requires
        ask_begin_spec(ms, text) is Some,
    ensures
        ask_begin_spec(ms, text)->0.drop_last() == ms,
        ask_begin_spec(ms, text)->0.len() == ms.len() + 1,
{
    assert(ms.push(("user"@, trim(text))).drop_last() =~= ms);
}

proof fn lemma_hex_text_shape(b: Seq<u8>)
    ensures
        hex_text(b).len() == 2 * b.len(),
        forall|i: int|
            0 <= i < b.len() ==> hex_text(b)[2 * i] == hex_char(#[trigger] b[i] / 16)
                && hex_text(b)[2 * i + 1] == hex_char(b[i] % 16),
    decreases b.len(),
{
    if b.len() > 0 {
        lemma_hex_text_shape(b.drop_last());
        assert forall|i: int| 0 <= i < b.len() implies hex_text(b)[2 * i] == hex_char(
            #[trigger] b[i] / 16,
        ) && hex_text(b)[2 * i + 1] == hex_char(b[i] % 16) by {
            if i < b.len() - 1 {
                assert(b.drop_last()[i] == b[i]);
            }
        }
    }
}

proof fn lemma_hex_char(v: u8)
    requires
        v < 16,
    ensures
        is_hex_char(hex_char(v)),
        hex_value(hex_char(v)) == v,
        !is_ws(hex_char(v)),
{
    if v < 10 {
        assert(((48 + v) as char) as u32 == 48 + v);
    } else {
        assert(((97 + v - 10) as char) as u32 == 97 + v - 10);
    }
}

proof fn lemma_trim_unchanged(t: Seq<char>)
    requires
        t.len() > 0,
        !is_ws(t[0]),
        !is_ws(t.last()),
    ensures
        trim(t) == t,
{
}

/// The hexadecimal text of a 32-byte key reads back as the same key.
pub proof fn law_key_hex_roundtrip(k: Seq<u8>)
    requires
        k.len() == 32,
    ensures
        key_bytes(trim(hex_text(k))) == Some(k),
{
    let t = hex_text(k);
    lemma_hex_text_shape(k);
    assert forall|i: int| 0 <= i < 64 implies #[trigger] is_hex_char(t[i]) && !is_ws(t[i]) by {
        let j = i / 2;
        assert(0 <= j < 32);
        if i % 2 == 0 {
            assert(i == 2 * j);
            lemma_hex_char(k[j] / 16);
        } else {
            assert(i == 2 * j + 1);
            lemma_hex_char(k[j] % 16);
        }
    }
    lemma_hex_char(k[0] / 16);
    lemma_hex_char(k[31] % 16);
    assert(t[0] == hex_char(k[0] / 16));
    assert(t[63] == hex_char(k[31] % 16));
    lemma_trim_unchanged(t);
    assert forall|i: int| 0 <= i < 32 implies ((hex_value(t[2 * i]) * 16 + hex_value(t[2 * i + 1]))
        as u8) == #[trigger] k[i] by {
        lemma_hex_char(k[i] / 16);
        lemma_hex_char(k[i] % 16);
    }
    assert(key_bytes(t)->0 =~= k);
}

proof fn lemma_concat_front(x: Seq<u8>, rest: Seq<Seq<u8>>)
    ensures
        concat_all(seq![x] + rest) == x + concat_all(rest),
    decreases rest.len(),
{
    if rest.len() == 0 {
        assert(seq![x] + rest =~= seq![x]);
        assert(seq![x].drop_last() =~= Seq::<Seq<u8>>::empty());
        assert(x + Seq::<u8>::empty() =~= x);
        assert(Seq::<u8>::empty() + x =~= x);
        assert(concat_all(seq![x]) == concat_all(Seq::<Seq<u8>>::empty()) + x);
    } else {
        lemma_concat_front(x, rest.drop_last());
        assert((seq![x] + rest).drop_last() =~= seq![x] + rest.drop_last());
        assert(x + concat_all(rest.drop_last()) + rest.last() =~= x + (concat_all(rest.drop_last())
            + rest.last()));
    }
}

/// An archive cut into parts is the parts put back together; every part
/// is non-empty and at most [`PART_SIZE`] bytes long.
pub proof fn law_parts_reassemble(data: Seq<u8>)
    ensures
        concat_all(chunks(data)) == data,
        forall|i: int|
            0 <= i < chunks(data).len() ==> 0 < (#[trigger] chunks(data)[i]).len() <= PART_SIZE,
    decreases data.len(),
{
    if data.len() == 0 {
        assert(data =~= Seq::<u8>::empty());
    } else if data.len() <= PART_SIZE {
        assert(seq![data].drop_last() =~= Seq::<Seq<u8>>::empty());
        assert(Seq::<u8>::empty() + data =~= data);
        assert(concat_all(seq![data]) == concat_all(Seq::<Seq<u8>>::empty()) + data);
    } else {
        let rest = data.skip(PART_SIZE as int);
        law_parts_reassemble(rest);
        lemma_concat_front(data.take(PART_SIZE as int), chunks(rest));
        assert(data.take(PART_SIZE as int) + rest =~= data);
        assert(chunks(data) == seq![data.take(PART_SIZE as int)] + chunks(rest));
        assert forall|i: int| 0 <= i < chunks(data).len() implies 0 < (
        #[trigger] chunks(data)[i]).len() <= PART_SIZE by {
            if i > 0 {
                assert(chunks(data)[i] == chunks(rest)[i - 1]);
            }
        }
    }
}

proof fn lemma_without_twice(ms: Seq<(Seq<char>, Seq<char>)>, name: Seq<char>)
    ensures
        without(without(ms, name), name) == without(ms, name),
        forall|i: int| 0 <= i < without(ms, name).len() ==> (#[trigger] without(ms, name)[i]).0 != name,
    decreases ms.len(),
{
    if ms.len() > 0 {
        lemma_without_twice(ms.drop_last(), name);
        let w = without(ms.drop_last(), name);
        if ms.last().0 != name {
            assert(w.push(ms.last()).drop_last() =~= w);
            assert forall|i: int| 0 <= i < w.len() + 1 implies (#[trigger] w.push(ms.last())[i]).0 != name by {
                if i < w.len() {
                    assert(w.push(ms.last())[i] == w[i]);
                }
            }
        }
    }
}

/// Removing a mirror right after adding it under the same name is removing
/// it from the list as it was; and no mirror of that name is left.
pub proof fn law_mirror_add_remove(
    ms: Seq<(Seq<char>, Seq<char>)>,
    name: Seq<char>,
    url: Seq<char>,
)
    ensures
        without(without(ms, name).push((name, url)), name) == without(ms, name),
        forall|i: int| 0 <= i < without(ms, name).len() ==> (#[trigger] without(ms, name)[i]).0 != name,
{
    lemma_without_twice(ms, name);
    assert(without(ms, name).push((name, url)).drop_last() =~= without(ms, name));
}

proof fn lemma_dec_text(n: nat)
    ensures
        dec_text(n).len() > 0,
        forall|i: int|
            0 <= i < dec_text(n).len() ==> 48 <= (#[trigger] dec_text(n)[i] as u32) <= 57,
        digits_value(ascii_bytes(dec_text(n))) == n,
    decreases n,
{
    if n < 10 {
        assert((digit_char(n) as u32) == 48 + n);
        let b = ascii_bytes(dec_text(n));
        assert(b.drop_last() =~= Seq::<u8>::empty());
        assert(digits_value(b.drop_last()) == 0);
        assert(b.last() == 48 + n);
        assert(digits_value(b) == digits_value(b.drop_last()) * 10 + (b.last() - 48) as nat);
    } else {
        lemma_dec_text(n / 10);
        let d = n % 10;
        let s = dec_text(n / 10);
        assert((digit_char(d) as u32) == 48 + d);
        assert forall|i: int| 0 <= i < s.push(digit_char(d)).len() implies 48 <= (
        #[trigger] s.push(digit_char(d))[i] as u32) <= 57 by {
            if i < s.len() {
                assert(s.push(digit_char(d))[i] == s[i]);
            }
        }
        let b = ascii_bytes(s.push(digit_char(d)));
        assert(b.drop_last() =~= ascii_bytes(s));
        assert(b.last() == 48 + d);
        assert(digits_value(b) == digits_value(b.drop_last()) * 10 + (b.last() - 48) as nat);
        assert((n / 10) * 10 + d == n);
        assert(s.push(digit_char(d)) == dec_text(n));
    }
}

/// What a PID file is written for a process id reads back as that id.
pub proof fn law_pid_file_roundtrip(pid: u32)
    ensures
        pid_of_text(dec_text(pid as nat)) == Some(pid),
{
    let s = dec_text(pid as nat);
    lemma_dec_text(pid as nat);
    assert(48 <= (s[0] as u32) <= 57);
    assert(48 <= (s[s.len() - 1] as u32) <= 57);
    assert(trim(s) == s);
    assert(is_ascii(s));
    let b = ascii_bytes(s);
    assert(b[0] == (s[0] as u32) as u8);
    assert(b[0] != 43);
    assert(all_digits(b)) by {
        assert forall|i: int| 0 <= i < b.len() implies 48 <= #[trigger] b[i] <= 57 by {
            assert(48 <= (s[i] as u32) <= 57);
        }
    }
}

/// A terminal's saved part always restores, and restores to the same
/// screen, scrollback, cursor, modes and hyperlinks, with no events, no
/// dirty region, no images and nothing pending.
pub proof fn law_snapshot_restores(t: Terminal)
    requires
        t.wf(),
    ensures
        restorable(snapshot_of(t)),
        restored_view(snapshot_of(t)) == (TermView {
            events: Seq::empty(),
            dirty_rect: None,
            images: Map::<u32, ImageView>::empty(),
            next_image: 0,
            pending_chunk: None,
            pending_apc: None,
            parser_used: false,
            vt_fed: Seq::empty(),
            ..t@
        }),
{
}

proof fn lemma_hex_char_inj(a: u8, b: u8)
    requires
        a < 16,
        b < 16,
        hex_char(a) == hex_char(b),
    ensures
        a == b,
{
    let ua: u32 = if a < 10 { (48 + a) as u32 } else { (97 + a - 10) as u32 };
    let ub: u32 = if b < 10 { (48 + b) as u32 } else { (97 + b - 10) as u32 };
    if a < 10 {
        assert(((48 + a) as char) as u32 == 48 + a);
    } else {
        assert(((97 + a - 10) as char) as u32 == 97 + a - 10);
    }
    if b < 10 {
        assert(((48 + b) as char) as u32 == 48 + b);
    } else {
        assert(((97 + b - 10) as char) as u32 == 97 + b - 10);
    }
    assert((hex_char(a) as u32) == ua);
    assert((hex_char(b) as u32) == ub);
}

proof fn lemma_nib_inj(a: char, b: char)
    requires
        nib(a, 20) == nib(b, 20),
        nib(a, 16) == nib(b, 16),
        nib(a, 12) == nib(b, 12),
        nib(a, 8) == nib(b, 8),
        nib(a, 4) == nib(b, 4),
        nib(a, 0) == nib(b, 0),
    ensures
        a == b,
{
    let x = a as u32;
    let y = b as u32;
    assert(x <= 0x10ffff && y <= 0x10ffff);
    assert(forall|v: u32, k: u32| #[trigger] ((v >> k) & 15) < 16) by (bit_vector);
    assert(x == y) by (bit_vector)
        requires
            x < 0x1000000,
            y < 0x1000000,
            (x >> 20) & 15 == (y >> 20) & 15,
            (x >> 16) & 15 == (y >> 16) & 15,
            (x >> 12) & 15 == (y >> 12) & 15,
            (x >> 8) & 15 == (y >> 8) & 15,
            (x >> 4) & 15 == (y >> 4) & 15,
            (x >> 0) & 15 == (y >> 0) & 15;
}

proof fn lemma_enc_first(c: char)
    ensures
        enc_char(c).len() >= 1,
        is_alnum(c) ==> enc_char(c) == seq![c] && c != '_',
        !is_alnum(c) ==> enc_char(c).len() == 7 && enc_char(c)[0] == '_',
{
}

/// Different workspaces get different agent directory names.
pub proof fn law_slug_injective(a: Seq<char>, b: Seq<char>)
    requires
        slug(a) == slug(b),
    ensures
        a == b,
    decreases a.len(),
{
    if a.len() == 0 {
        if b.len() > 0 {
            lemma_enc_first(b[0]);
            assert(slug(b) == enc_char(b[0]) + slug(b.drop_first()));
        }
        assert(a =~= b);
    } else if b.len() == 0 {
        lemma_enc_first(a[0]);
        assert(slug(a) == enc_char(a[0]) + slug(a.drop_first()));
    } else {
        let (a0, b0) = (a[0], b[0]);
        let (ra, rb) = (a.drop_first(), b.drop_first());
        lemma_enc_first(a0);
        lemma_enc_first(b0);
        let s = slug(a);
        assert(s == enc_char(a0) + slug(ra));
        assert(s == enc_char(b0) + slug(rb));
        if is_alnum(a0) {
            assert(s[0] == a0);
            assert(is_alnum(b0));
            assert(s[0] == b0);
            assert(slug(ra) =~= s.skip(1));
            assert(slug(rb) =~= s.skip(1));
        } else {
            assert(s[0] == enc_char(a0)[0]);
            assert(s[0] == enc_char(b0)[0]);
            assert(!is_alnum(b0));
            assert(forall|v: u32, k: u32| #[trigger] ((v >> k) & 15) < 16) by (bit_vector);
            assert forall|i: int| 1 <= i < 7 implies enc_char(a0)[i] == enc_char(b0)[i] by {
                assert(s[i] == enc_char(a0)[i]);
                assert(s[i] == enc_char(b0)[i]);
            }
            lemma_hex_char_inj(nib(a0, 20), nib(b0, 20));
            lemma_hex_char_inj(nib(a0, 16), nib(b0, 16));
            lemma_hex_char_inj(nib(a0, 12), nib(b0, 12));
            lemma_hex_char_inj(nib(a0, 8), nib(b0, 8));
            lemma_hex_char_inj(nib(a0, 4), nib(b0, 4));
            lemma_hex_char_inj(nib(a0, 0), nib(b0, 0));
            lemma_nib_inj(a0, b0);
            assert(slug(ra) =~= s.skip(7));
            assert(slug(rb) =~= s.skip(7));
        }
        law_slug_injective(ra, rb);
        assert(a =~= seq![a0] + ra);
        assert(b =~= seq![b0] + rb);
    }
}

proof fn lemma_slug_last(w: Seq<char>)
    requires
        w.len() > 0,
    ensures
        slug(w).len() > 0,
        slug(w).last() != '/',
{
    lemma_slug_push(w.drop_last(), w.last());
    assert(w.drop_last().push(w.last()) =~= w);
    let c = w.last();
    let e = enc_char(c);
    lemma_enc_first(c);
    assert(slug(w).last() == e.last());
    if is_alnum(c) {
        assert((c as u32) != 47);
    } else {
        assert(forall|v: u32, k: u32| #[trigger] ((v >> k) & 15) < 16) by (bit_vector);
        let v = nib(c, 0);
        if v < 10 {
            assert(((48 + v) as char) as u32 == 48 + v);
        } else {
            assert(((97 + v - 10) as char) as u32 == 97 + v - 10);
        }
        assert(e.last() == hex_char(v));
        assert((hex_char(v) as u32) != 47);
    }
}

proof fn lemma_data_dir(home: Seq<char>)
    ensures
        data_dir(home).len() > 0,
        data_dir(home).last() != '/',
{
    reveal_strlit("agent");
    let x = join_path(home, ".mterm"@);
    assert("agent"@.last() == 't');
    assert(join_path(x, "agent"@).last() == 't');
}

/// Agents of different workspaces have different sockets (and so do not
/// share a server, a pid file or a conversation).
pub proof fn law_socket_per_workspace(home: Seq<char>, w1: Seq<char>, w2: Seq<char>)
    requires
        w1 != w2,
    ensures
        join_path(workspace_dir(home, w1), "agent.sock"@) != join_path(
            workspace_dir(home, w2),
            "agent.sock"@,
        ),
{
    let d = data_dir(home);
    lemma_data_dir(home);
    let n = "agent.sock"@;
    let sep = seq!['/'];
    if join_path(workspace_dir(home, w1), n) == join_path(workspace_dir(home, w2), n) {
        let p = join_path(workspace_dir(home, w1), n);
        if w1.len() > 0 && w2.len() > 0 {
            lemma_slug_last(w1);
            lemma_slug_last(w2);
            let s1 = slug(w1);
            let s2 = slug(w2);
            assert(p == d + sep + s1 + sep + n);
            assert(p == d + sep + s2 + sep + n);
            assert(s1.len() == s2.len());
            assert(s1 =~= p.subrange(d.len() + 1 as int, d.len() + 1 + s1.len() as int));
            assert(s2 =~= p.subrange(d.len() + 1 as int, d.len() + 1 + s2.len() as int));
            law_slug_injective(w1, w2);
        } else if w1.len() == 0 && w2.len() == 0 {
            assert(w1 =~= w2);
        } else if w1.len() == 0 {
            lemma_slug_last(w2);
            assert(slug(w1) == Seq::<char>::empty());
            assert(workspace_dir(home, w1) =~= d + sep);
            assert(p.len() == d.len() + 1 + n.len());
            assert(p.len() == d.len() + 1 + slug(w2).len() + 1 + n.len());
        } else {
            lemma_slug_last(w1);
            assert(slug(w2) == Seq::<char>::empty());
            assert(workspace_dir(home, w2) =~= d + sep);
            assert(p.len() == d.len() + 1 + n.len());
            assert(p.len() == d.len() + 1 + slug(w1).len() + 1 + n.len());
        }
    }
}

/// The base64 character of a 6-bit value (RFC 4648 alphabet).
pub open spec fn b64_char(v: u8) -> u8 {
    if v < 26 {
        (65 + v) as u8
    } else if v < 52 {
        (97 + v - 26) as u8
    } else if v < 62 {
        (48 + v - 52) as u8
    } else if v == 62 {
        43
    } else {
        47
    }
}

/// Standard base64 of `x` without its `=` padding.
pub open spec fn b64_encode_bare(x: Seq<u8>) -> Seq<u8>
    decreases x.len(),
{
    if x.len() == 0 {
        Seq::empty()
    } else if x.len() == 1 {
        seq![b64_char(x[0] >> 2), b64_char(((x[0] & 3) << 4) as u8)]
    } else if x.len() == 2 {
        seq![
            b64_char(x[0] >> 2),
            b64_char((((x[0] & 3) << 4) | (x[1] >> 4)) as u8),
            b64_char(((x[1] & 15) << 2) as u8),
        ]
    } else {
        seq![
            b64_char(x[0] >> 2),
            b64_char((((x[0] & 3) << 4) | (x[1] >> 4)) as u8),
            b64_char((((x[1] & 15) << 2) | (x[2] >> 6)) as u8),
            b64_char(x[2] & 63),
        ] + b64_encode_bare(x.skip(3))
    }
}

/// Standard base64 of `x`, `=`-padded to a multiple of four characters.
pub open spec fn b64_encode(x: Seq<u8>) -> Seq<u8> {
    let e = b64_encode_bare(x);
    if x.len() % 3 == 1 {
        e + seq![61u8, 61u8]
    } else if x.len() % 3 == 2 {
        e + seq![61u8]
    } else {
        e
    }
}

/// The decoder run from state `st` over `d`.
pub open spec fn b64_from(st: B64State, d: Seq<u8>) -> B64State
    decreases d.len(),
{
    if d.len() == 0 {
        st
    } else {
        b64_step(b64_from(st, d.drop_last()), d.last())
    }
}

proof fn lemma_b64_from_concat(st: B64State, a: Seq<u8>, b: Seq<u8>)
    ensures
        b64_from(st, a + b) == b64_from(b64_from(st, a), b),
    decreases b.len(),
{
    if b.len() == 0 {
        assert(a + b =~= a);
    } else {
        lemma_b64_from_concat(st, a, b.drop_last());
        assert((a + b).drop_last() =~= a + b.drop_last());
        assert((a + b).last() == b.last());
    }
}

proof fn lemma_b64_run_from(d: Seq<u8>)
    ensures
        b64_run(d) == b64_from(B64State { buf: 0, bits: 0, out: Seq::empty(), done: false }, d),
    decreases d.len(),
{
    if d.len() > 0 {
        lemma_b64_run_from(d.drop_last());
    }
}

proof fn lemma_b64_char(v: u8)
    requires
        v < 64,
    ensures
        b64_val(b64_char(v)) == v,
        b64_char(v) != 61,
{
}

proof fn lemma_b64_step_one(st: B64State, v: u8)
    requires
        v < 64,
        !st.done,
    ensures
        b64_step(st, b64_char(v)) == ({
            let buf = ((st.buf << 6u32) | (v as u32)) as u32;
            let bits = (st.bits + 6) as u32;
            if bits >= 8 {
                B64State { buf, bits: (bits - 8) as u32, out: st.out.push((buf >> ((bits - 8) as u32)) as u8), done: false }
            } else {
                B64State { buf, bits, out: st.out, done: false }
            }
        }),
{
    lemma_b64_char(v);
}

proof fn lemma_b64_group(st: B64State, x: Seq<u8>)
    requires
        x.len() >= 1,
        !st.done,
        st.bits == 0,
    ensures
        ({
            let g = if x.len() >= 3 { 3int } else { x.len() as int };
            let e = b64_encode_bare(x).take(if x.len() >= 3 { 4int } else { x.len() + 1 as int });
            let r = b64_from(st, e);
            &&& r.out == st.out + x.take(g)
            &&& !r.done
            &&& (x.len() >= 3 ==> r.bits == 0)
        }),
{
    let x0 = x[0];
    let v1 = x0 >> 2;
    assert(v1 < 64) by (bit_vector)
        requires
            v1 == x0 >> 2;
    let enc = b64_encode_bare(x);
    let e0 = seq![b64_char(v1)];
    let s1 = b64_from(st, e0);
    assert(e0.drop_last() =~= Seq::<u8>::empty());
    assert(b64_from(st, e0.drop_last()) == st);
    lemma_b64_step_one(st, v1);
    let b0 = st.buf;
    let buf1 = ((b0 << 6u32) | (v1 as u32)) as u32;
    assert(s1 == B64State { buf: buf1, bits: 6, out: st.out, done: false });
    if x.len() == 1 {
        let v2 = ((x0 & 3) << 4) as u8;
        assert(v2 < 64) by (bit_vector)
            requires
                v2 == ((x0 & 3) << 4) as u8;
        lemma_b64_step_one(s1, v2);
        let e = enc.take(2);
        assert(e =~= e0.push(b64_char(v2)));
        assert(e.drop_last() =~= e0);
        assert(b64_from(st, e) == b64_step(s1, b64_char(v2)));
        let buf2 = ((buf1 << 6u32) | (v2 as u32)) as u32;
        assert((buf2 >> 4u32) as u8 == x0) by (bit_vector)
            requires
                v1 == x0 >> 2,
                v2 == ((x0 & 3) << 4) as u8,
                buf1 == ((b0 << 6u32) | (v1 as u32)) as u32,
                buf2 == ((buf1 << 6u32) | (v2 as u32)) as u32;
        assert(x.take(1) =~= seq![x0]);
        assert(b64_from(st, e).out =~= st.out + x.take(1));
    } else {
        let x1 = x[1];
        let v2 = (((x0 & 3) << 4) | (x1 >> 4)) as u8;
        assert(v2 < 64) by (bit_vector)
            requires
                v2 == (((x0 & 3) << 4) | (x1 >> 4)) as u8;
        lemma_b64_step_one(s1, v2);
        let buf2 = ((buf1 << 6u32) | (v2 as u32)) as u32;
        assert((buf2 >> 4u32) as u8 == x0) by (bit_vector)
            requires
                v1 == x0 >> 2,
                v2 == (((x0 & 3) << 4) | (x1 >> 4)) as u8,
                buf1 == ((b0 << 6u32) | (v1 as u32)) as u32,
                buf2 == ((buf1 << 6u32) | (v2 as u32)) as u32;
        let s2 = B64State { buf: buf2, bits: 4, out: st.out.push(x0), done: false };
        let e2 = seq![b64_char(v1), b64_char(v2)];
        assert(e2.drop_last() =~= e0);
        assert(b64_from(st, e2) == s2);
        if x.len() == 2 {
            let v3 = ((x1 & 15) << 2) as u8;
            assert(v3 < 64) by (bit_vector)
                requires
                    v3 == ((x1 & 15) << 2) as u8;
            lemma_b64_step_one(s2, v3);
            let buf3 = ((buf2 << 6u32) | (v3 as u32)) as u32;
            assert((buf3 >> 2u32) as u8 == x1) by (bit_vector)
                requires
                    v2 == (((x0 & 3) << 4) | (x1 >> 4)) as u8,
                    v3 == ((x1 & 15) << 2) as u8,
                    buf2 == ((buf1 << 6u32) | (v2 as u32)) as u32,
                    buf3 == ((buf2 << 6u32) | (v3 as u32)) as u32;
            let e = enc.take(3);
            assert(e =~= e2.push(b64_char(v3)));
            assert(e.drop_last() =~= e2);
            assert(b64_from(st, e) == b64_step(s2, b64_char(v3)));
            assert(x.take(2) =~= seq![x0, x1]);
            assert(b64_from(st, e).out =~= st.out + x.take(2));
        } else {
            let x2 = x[2];
            let v3 = (((x1 & 15) << 2) | (x2 >> 6)) as u8;
            let v4 = x2 & 63;
            assert(v3 < 64 && v4 < 64) by (bit_vector)
                requires
                    v3 == (((x1 & 15) << 2) | (x2 >> 6)) as u8,
                    v4 == x2 & 63;
            lemma_b64_step_one(s2, v3);
            let buf3 = ((buf2 << 6u32) | (v3 as u32)) as u32;
            assert((buf3 >> 2u32) as u8 == x1) by (bit_vector)
                requires
                    v2 == (((x0 & 3) << 4) | (x1 >> 4)) as u8,
                    v3 == (((x1 & 15) << 2) | (x2 >> 6)) as u8,
                    buf2 == ((buf1 << 6u32) | (v2 as u32)) as u32,
                    buf3 == ((buf2 << 6u32) | (v3 as u32)) as u32;
            let s3 = B64State { buf: buf3, bits: 2, out: st.out.push(x0).push(x1), done: false };
            let e3 = e2.push(b64_char(v3));
            assert(e3.drop_last() =~= e2);
            assert(b64_from(st, e3) == s3);
            lemma_b64_step_one(s3, v4);
            let buf4 = ((buf3 << 6u32) | (v4 as u32)) as u32;
            assert((buf4 >> 0u32) as u8 == x2) by (bit_vector)
                requires
                    v3 == (((x1 & 15) << 2) | (x2 >> 6)) as u8,
                    v4 == x2 & 63,
                    buf3 == ((buf2 << 6u32) | (v3 as u32)) as u32,
                    buf4 == ((buf3 << 6u32) | (v4 as u32)) as u32;
            let e = enc.take(4);
            assert(e =~= e3.push(b64_char(v4)));
            assert(e.drop_last() =~= e3);
            assert(b64_from(st, e) == b64_step(s3, b64_char(v4)));
            assert(x.take(3) =~= seq![x0, x1, x2]);
            assert(b64_from(st, e).out =~= st.out + x.take(3));
        }
    }
}

proof fn lemma_b64_bare(st: B64State, x: Seq<u8>)
    requires
        !st.done,
        st.bits == 0,
    ensures
        b64_from(st, b64_encode_bare(x)).out == st.out + x,
        !b64_from(st, b64_encode_bare(x)).done,
    decreases x.len(),
{
    if x.len() == 0 {
        assert(st.out + x =~= st.out);
    } else if x.len() < 3 {
        lemma_b64_group(st, x);
        assert(b64_encode_bare(x).take(x.len() + 1 as int) =~= b64_encode_bare(x));
        assert(x.take(x.len() as int) =~= x);
    } else {
        lemma_b64_group(st, x);
        let enc = b64_encode_bare(x);
        let head = enc.take(4);
        assert(enc =~= head + b64_encode_bare(x.skip(3)));
        lemma_b64_from_concat(st, head, b64_encode_bare(x.skip(3)));
        let mid = b64_from(st, head);
        lemma_b64_bare(mid, x.skip(3));
        assert(st.out + x.take(3) + x.skip(3) =~= st.out + x);
    }
}

proof fn lemma_b64_pad(st: B64State, n: nat)
    ensures
        b64_from(st, Seq::new(n, |i: int| 61u8)).out == st.out,
    decreases n,
{
    if n > 0 {
        lemma_b64_pad(st, (n - 1) as nat);
        assert(Seq::new(n, |i: int| 61u8).drop_last() =~= Seq::new((n - 1) as nat, |i: int| 61u8));
    }
}

/// Base64 decoding gives back what standard base64 encoded, with its `=`
/// padding or without it.
pub proof fn law_b64_roundtrip(x: Seq<u8>)
    ensures
        spec_b64_decode(b64_encode(x)) == x,
        spec_b64_decode(b64_encode_bare(x)) == x,
{
    let init = B64State { buf: 0, bits: 0, out: Seq::empty(), done: false };
    lemma_b64_run_from(b64_encode(x));
    lemma_b64_run_from(b64_encode_bare(x));
    lemma_b64_bare(init, x);
    assert(init.out + x =~= x);
    let e = b64_encode_bare(x);
    let k: nat = if x.len() % 3 == 1 { 2 } else if x.len() % 3 == 2 { 1 } else { 0 };
    let pads = Seq::new(k, |i: int| 61u8);
    assert(b64_encode(x) =~= e + pads);
    lemma_b64_from_concat(init, e, pads);
    lemma_b64_pad(b64_from(init, e), k);
}

/// A byte outside the base64 alphabet other than `=` (whitespace, a line
/// break) may stand anywhere in the text without changing what it decodes
/// to.
pub proof fn law_b64_skips_other_bytes(a: Seq<u8>, b: Seq<u8>, c: u8)
    requires
        b64_val(c) < 0,
        c != 61,
    ensures
        spec_b64_decode(a + seq![c] + b) == spec_b64_decode(a + b),
{
    let init = B64State { buf: 0, bits: 0, out: Seq::empty(), done: false };
    lemma_b64_run_from(a + seq![c] + b);
    lemma_b64_run_from(a + b);
    lemma_b64_from_concat(init, a + seq![c], b);
    lemma_b64_from_concat(init, a, b);
    lemma_b64_from_concat(init, a, seq![c]);
    assert(seq![c].drop_last() =~= Seq::<u8>::empty());
    let m = b64_from(init, a);
    assert(b64_from(m, seq![c].drop_last()) == m);
    assert(seq![c].last() == c);
    assert(b64_from(m, seq![c]) == m);
}

/// Cursor motion by CSI `A`/`B`/`C`/`D` (up, down, forward, back by `n`),
/// `G` (to column `n`), `d` (to row `n`) and `H`/`f` (to row `n`, column
/// `m`), where `n` and `m` are the first two parameters and an absent or
/// zero one counts as 1; positions are 1-based and the cursor stops at the
/// screen's edges. Nothing but the cursor's position changes.
pub proof fn law_csi_cursor_motion(s: TermView, list: Seq<u16>, c: char)
    requires
        view_wf(s),
        c == 'A' || c == 'B' || c == 'C' || c == 'D' || c == 'G' || c == 'd' || c == 'H' || c == 'f',
    ensures
        ({
            let n: int = if list.len() > 0 && list[0] > 0 {
                list[0] as int
            } else {
                1
            };
            let m: int = if list.len() > 1 && list[1] > 0 {
                list[1] as int
            } else {
                1
            };
            let x = s.cursor.x as int;
            let y = s.cursor.y as int;
            let last_x = s.config.cols - 1;
            let last_y = s.config.rows - 1;
            let t = csi_spec(s, list, Seq::empty(), false, c);
            &&& t == TermView { cursor: t.cursor, ..s }
            &&& t.cursor == Cursor { x: t.cursor.x, y: t.cursor.y, ..s.cursor }
            &&& c == 'A' ==> t.cursor.x == x && t.cursor.y == (if y >= n { y - n } else { 0 })
            &&& c == 'B' ==> t.cursor.x == x && t.cursor.y == (if y + n <= last_y { y + n } else { last_y })
            &&& c == 'C' ==> t.cursor.y == y && t.cursor.x == (if x + n <= last_x { x + n } else { last_x })
            &&& c == 'D' ==> t.cursor.y == y && t.cursor.x == (if x >= n { x - n } else { 0 })
            &&& c == 'G' ==> t.cursor.y == y && t.cursor.x == (if n - 1 <= last_x { n - 1 } else { last_x })
            &&& c == 'd' ==> t.cursor.x == x && t.cursor.y == (if n - 1 <= last_y { n - 1 } else { last_y })
            &&& (c == 'H' || c == 'f') ==> t.cursor.y == (if n - 1 <= last_y {
                n - 1
            } else {
                last_y
            }) && t.cursor.x == (if m - 1 <= last_x {
                m - 1
            } else {
                last_x
            })
        }),
{
}

/// A resize keeps the cursor where it is when it still fits on the new
/// screen; otherwise it goes to the last column (row). Sizes below 1 count
/// as 1.
pub proof fn law_resize_keeps_cursor(s: TermView, cols: usize, rows: usize)
    requires
        view_wf(s),
    ensures
        ({
            let c: int = if cols < 1 { 1 } else { cols as int };
            let r: int = if rows < 1 { 1 } else { rows as int };
            let t = resize_spec(s, cols, rows);
            &&& s.cursor.x < c ==> t.cursor.x == s.cursor.x
            &&& s.cursor.x >= c ==> t.cursor.x == c - 1
            &&& s.cursor.y < r ==> t.cursor.y == s.cursor.y
            &&& s.cursor.y >= r ==> t.cursor.y == r - 1
            &&& t.cursor.attrs == s.cursor.attrs
            &&& t.cursor.saved_x == s.cursor.saved_x
            &&& t.cursor.saved_y == s.cursor.saved_y
        }),
{
}

/// `a` is no later a version than `b`, comparing major, then minor, then
/// patch number.
pub open spec fn version_le(a: (u32, u32, u32), b: (u32, u32, u32)) -> bool {
    a.0 < b.0 || (a.0 == b.0 && (a.1 < b.1 || (a.1 == b.1 && a.2 <= b.2)))
}

proof fn lemma_best_of_max(pieces: Seq<Seq<u8>>, arch: Seq<u8>)
    ensures
        best_of(pieces, arch) is Some <==> exists|k: int|
            0 <= k < pieces.len() && (#[trigger] entry_version(pieces[k], arch)) is Some,
        best_of(pieces, arch) matches Some((v, _)) ==> (exists|k: int|
            0 <= k < pieces.len() && #[trigger] entry_version(pieces[k], arch) == Some(v)),
        best_of(pieces, arch) matches Some((v, _)) ==> (forall|k: int|
            0 <= k < pieces.len() && (#[trigger] entry_version(pieces[k], arch)) is Some
                ==> version_le(entry_version(pieces[k], arch)->0, v)),
    decreases pieces.len(),
{
    if pieces.len() > 0 {
        let q = pieces.drop_last();
        lemma_best_of_max(q, arch);
        assert forall|k: int| 0 <= k < q.len() implies #[trigger] q[k] == pieces[k] by {}
        let last = pieces.len() - 1;
        assert(pieces[last] == pieces.last());
        if best_of(pieces, arch) is Some {
            let bv = best_of(pieces, arch)->0;
            let v = bv.0;
            assert forall|k: int|
                0 <= k < pieces.len() && (#[trigger] entry_version(pieces[k], arch)) is Some implies
                version_le(entry_version(pieces[k], arch)->0, v) by {
                if k < last {
                    assert(q[k] == pieces[k]);
                }
            }
            if best_of(pieces, arch) != best_of(q, arch) {
                assert(entry_version(pieces[last], arch) == Some(v));
            } else {
                let k = choose|k: int| 0 <= k < q.len() && #[trigger] entry_version(q[k], arch) == Some(v);
                assert(entry_version(pieces[k], arch) == Some(v));
            }
        } else {
            assert forall|k: int| 0 <= k < pieces.len() implies !(
            #[trigger] entry_version(pieces[k], arch) is Some) by {
                if k < last {
                    assert(q[k] == pieces[k]);
                }
            }
        }
    }
}

/// The release picked from a listing is the newest of its entries for the
/// architecture, comparing major, then minor, then patch number: one of the
/// entries, and no entry is newer. There is one exactly when some entry
/// names the architecture.
pub proof fn law_latest_is_newest(listing: Seq<u8>, arch: Seq<u8>)
    ensures
        ({
            let entries = split_pat(utf8_lossy(listing), base_prefix()).drop_first();
            &&& latest_spec(listing, arch) is Some <==> exists|k: int|
                0 <= k < entries.len() && (#[trigger] entry_version(entries[k], arch)) is Some
            &&& latest_spec(listing, arch) matches Some((v, _, _)) ==> (exists|k: int|
                0 <= k < entries.len() && #[trigger] entry_version(entries[k], arch) == Some(v))
            &&& latest_spec(listing, arch) matches Some((v, _, _)) ==> (forall|k: int|
                0 <= k < entries.len() && (#[trigger] entry_version(entries[k], arch)) is Some
                    ==> version_le(entry_version(entries[k], arch)->0, v))
        }),
{
    let entries = split_pat(utf8_lossy(listing), base_prefix()).drop_first();
    lemma_best_of_max(entries, arch);
}

/// An image sent in one command (`m=0` or no `m=`, no transfer in
/// progress) is registered with that command's format, pixel size and
/// payload and announced by one event; without `i=` it gets the next
/// automatic id.
pub proof fn law_single_transmit(s: TermView, c: CmdView, o: Seq<u32>)
    requires
        s.pending_chunk is None,
        c.action == KittyAction::Transmit,
        c.more <= 0,
    ensures
        ({
            let t = apc_spec(s, c, o);
            let id = match c.image_id {
                Some(i) => i,
                None => next_id(s.next_image),
            };
            &&& t.images.contains_key(id)
            &&& t.images[id] == (ImageView {
                format: c.format,
                width_px: c.width_px,
                height_px: c.height_px,
                data: c.payload,
            })
            &&& t.pending_chunk is None
            &&& t.events == s.events.push(
                EventView::KittyImage {
                    id,
                    format: format_code(c.format),
                    width_px: c.width_px,
                    height_px: c.height_px,
                    data: c.payload,
                },
            )
        }),
{
}

/// An image sent in two chunks (`m=1`, then `m=0`, no id given) is
/// registered under the next automatic id with the two payloads joined, and
/// announced by one event. Format and pixel size come from the last chunk
/// where it gives them (`f=`, `s=`, `v=`), else from the first: a format
/// given only on the first chunk is kept.
pub proof fn law_chunked_transmit(s: TermView, c1: CmdView, c2: CmdView, o1: Seq<u32>, o2: Seq<u32>)
    requires
        s.pending_chunk is None,
        c1.action == KittyAction::Transmit,
        c2.action == KittyAction::Transmit,
        c1.image_id is None,
        c2.image_id is None,
        c1.more > 0,
        c2.more <= 0,
    ensures
        ({
            let t = apc_spec(apc_spec(s, c1, o1), c2, o2);
            let id = next_id(s.next_image);
            let f = t.images[id].format;
            let w = t.images[id].width_px;
            let h = t.images[id].height_px;
            &&& t.images.contains_key(id)
            &&& c2.format == KittyFormat::Unknown ==> f == c1.format
            &&& c2.format != KittyFormat::Unknown ==> f == c2.format
            &&& c2.width_px == 0 ==> w == c1.width_px
            &&& c2.width_px != 0 ==> w == c2.width_px
            &&& c2.height_px == 0 ==> h == c1.height_px
            &&& c2.height_px != 0 ==> h == c2.height_px
            &&& t.images[id].data == c1.payload + c2.payload
            &&& t.pending_chunk is None
            &&& t.events == s.events.push(
                EventView::KittyImage {
                    id,
                    format: format_code(f),
                    width_px: w,
                    height_px: h,
                    data: c1.payload + c2.payload,
                },
            )
        }),
{
}

proof fn lemma_no_newline(x: Seq<char>, i: int)
    requires
        0 <= i,
        forall|j: int| 0 <= j < x.len() ==> x[j] != '\n',
    ensures
        find_char(x, i, '\n') == -1,
    decreases x.len() - i,
{
    if i < x.len() {
        lemma_no_newline(x, i + 1);
    }
}

proof fn lemma_one_line(x: Seq<char>)
    requires
        x.len() > 0,
        forall|j: int| 0 <= j < x.len() ==> x[j] != '\n',
    ensures
        lines_of(x) == seq![x],
{
    lemma_no_newline(x, 0);
}

/// A list item `- text` (or `* text`) renders as a bullet followed by the
/// text with the inline markup (bold, italic, code, links) that the same
/// text gets as a paragraph: the rendering of `- text` is `"  • "` and the
/// paragraph's rendering of `text`, with one line break instead of the
/// paragraph's two. A quote `> text` is the same with a bar `"  │ "`, and
/// ends with a style reset.
pub proof fn law_list_item_inline(t: Seq<char>, marker: char)
    requires
        marker == '-' || marker == '*' || marker == '>',
        t.len() > 0,
        !is_ws(t[0]),
        !is_ws(t.last()),
        forall|j: int| 0 <= j < t.len() ==> t[j] != '\n',
        block_spec(t) is None,
        !starts(t, seq!['`', '`', '`']),
    ensures
        render_spec(t, true) == inline_spec(t) + seq!['\n', '\n'],
        marker != '>' ==> render_spec(seq![marker, ' '] + t, true) == seq![' ', ' ', '•', ' ']
            + render_spec(t, true).drop_last(),
        marker == '>' ==> render_spec(seq![marker, ' '] + t, true) == seq![' ', ' ', '│', ' ']
            + render_spec(t, true).drop_last().drop_last() + seq!['\x1b', '[', '0', 'm', '\n'],
{
    let st0 = MdState { out: Seq::empty(), para: Seq::empty(), fence: false };
    let x = seq![marker, ' '] + t;
    assert forall|j: int| 0 <= j < x.len() implies x[j] != '\n' by {
        if j >= 2 {
            assert(x[j] == t[j - 2]);
        }
    }
    lemma_one_line(t);
    lemma_one_line(x);
    assert(seq![t].drop_first() =~= Seq::<Seq<char>>::empty());
    assert(seq![x].drop_first() =~= Seq::<Seq<char>>::empty());
    assert(seq![t][0] == t);
    assert(seq![x][0] == x);
    assert(md_fold(md_step(st0, t), Seq::empty()) == md_step(st0, t));
    assert(md_fold(md_step(st0, x), Seq::empty()) == md_step(st0, x));
    assert(md_fold(st0, seq![t]) == md_step(st0, t));
    assert(md_fold(st0, seq![x]) == md_step(st0, x));
    assert(trim_end(t) == t);
    assert(trim_start(t) == t);
    assert(trim(t) == t);
    assert(x.last() == t.last());
    assert(trim_end(x) == x);
    assert(!is_ws(marker));
    assert(trim_start(x) == x);
    assert(x[0] == marker);
    assert(x.take(1)[0] == marker);
    assert(x.take(2)[0] == marker);
    assert(x.take(3)[0] == marker);
    assert(seq!['#'][0] == '#');
    assert(seq!['#', '#'][0] == '#');
    assert(seq!['#', '#', '#'][0] == '#');
    assert(seq!['`', '`', '`'][0] == '`');
    assert(!starts(x, seq!['`', '`', '`']));
    assert(!starts(x, seq!['#', '#', '#']));
    assert(!starts(x, seq!['#', '#']));
    assert(!starts(x, seq!['#']));
    let r = x.skip(1);
    assert(r =~= seq![' '] + t);
    assert(r.last() == t.last());
    assert(trim_end(r) == r);
    assert(is_ws(' '));
    assert(r.drop_first() =~= t);
    assert(trim_start(r) == trim_start(t));
    assert(trim(r) == t);
    assert(crate::render::join_nl(seq![t]) == t);
    assert(crate::render::join_nl(Seq::<Seq<char>>::empty()) == Seq::<char>::empty());
    assert(trim(Seq::<char>::empty()) == Seq::<char>::empty());
    assert(render_spec(t, true) =~= inline_spec(t) + seq!['\n', '\n']);
    assert((inline_spec(t) + seq!['\n', '\n']).drop_last() =~= inline_spec(t) + seq!['\n']);
    assert((inline_spec(t) + seq!['\n', '\n']).drop_last().drop_last() =~= inline_spec(t));
    if marker == '>' {
        assert(render_spec(x, true) =~= seq![' ', ' ', '│', ' '] + inline_spec(t) + seq![
            '\x1b',
            '[',
            '0',
            'm',
            '\n',
        ]);
    } else {
        assert(render_spec(x, true) =~= seq![' ', ' ', '•', ' '] + inline_spec(t) + seq!['\n']);
    }
}

/// No inline markup character (`` ` ``, `*`, `[`) in `s[i..j]`.
pub open spec fn plain_between(s: Seq<char>, i: int, j: int) -> bool {
    forall|k: int| i <= k < j ==> #[trigger] s[k] != '`' && s[k] != '*' && s[k] != '['
}

proof fn lemma_inline_plain(s: Seq<char>, i: int, j: int)
    requires
        0 <= i <= j <= s.len(),
        plain_between(s, i, j),
    ensures
        inline_from(s, i) == s.subrange(i, j) + inline_from(s, j),
    decreases j - i,
{
    if i < j {
        lemma_inline_plain(s, i + 1, j);
        assert(s.subrange(i, j) =~= seq![s[i]] + s.subrange(i + 1, j));
    } else {
        assert(s.subrange(i, j) =~= Seq::<char>::empty());
    }
}

proof fn lemma_find_stars_plain(s: Seq<char>, i: int, k: int)
    requires
        0 <= i <= k,
        k + 1 < s.len(),
        plain_between(s, i, k),
        s[k] == '*',
        s[k + 1] == '*',
    ensures
        find_stars(s, i) == k,
    decreases k - i,
{
    if i < k {
        lemma_find_stars_plain(s, i + 1, k);
    }
}

/// Inline markup: text without markup characters is written as it is, and
/// `**text**` is that text in bold (`ESC [1m` ... `ESC [0m`).
pub proof fn law_inline_bold(w: Seq<char>)
    requires
        plain_between(w, 0, w.len() as int),
    ensures
        inline_spec(w) == w,
        inline_spec(seq!['*', '*'] + w + seq!['*', '*']) == seq!['\x1b', '[', '1', 'm'] + w + seq![
            '\x1b',
            '[',
            '0',
            'm',
        ],
{
    lemma_inline_plain(w, 0, w.len() as int);
    assert(w.subrange(0, w.len() as int) =~= w);
    let s = seq!['*', '*'] + w + seq!['*', '*'];
    let k: int = w.len() as int + 2;
    assert forall|m: int| 2 <= m < k implies #[trigger] s[m] != '`' && s[m] != '*' && s[m] != '[' by {
        assert(s[m] == w[m - 2]);
    }
    assert(s[k] == '*' && s[k + 1] == '*');
    lemma_find_stars_plain(s, 2, k);
    assert(s.subrange(2, k) =~= w);
    assert(inline_from(s, k + 2) == Seq::<char>::empty());
    assert(s[0] == '*' && s[1] == '*');
}

} // verus!
