//! Feeding raw bytes (PTY output) into the terminal: kitty APCs are taken
//! out before the VT parser; until the parser is given its first byte, runs
//! of printable ASCII, CR and LF are written directly; everything else goes
//! through the parser, whose state persists between feeds.

use vstd::prelude::*;
use vstd::string::StringSliceAdditionalSpecFns;
use crate::dispatch::{
    apply_action, apply_actions, csi_spec, erase_display, erase_line, is_move, moved_cursor, osc_spec, param_or,
    reset_mode, set_mode, sgr_run,
};
use crate::graphics::{apc_command, apc_spec, order_ok};
use crate::kitty::KittyAction;
use crate::terminal::{
    execute, is_fast_byte, linefeed, min_us, print, put_char, put_fast, put_glyph, scroll_if_needed, with_cursor,
    wrap_if_needed, write_glyph, Cursor, Mode, TermView, Terminal,
};

use crate::text::slice_from;
use crate::vt::{advance, vte_actions, ActionView};

verus! {

/// An APC introducer (`ESC _`) at index `i`.
pub open spec fn is_apc_start(b: Seq<u8>, i: int) -> bool {
    0 <= i && i + 1 < b.len() && b[i] == 27 && b[i + 1] == 95
}

/// First index `k >= i` of a string terminator (`ESC \`), or -1.
pub open spec fn st_from(b: Seq<u8>, i: int) -> int
    decreases b.len() - i,
{
    if i < 0 || i + 1 >= b.len() {
        -1
    } else if b[i] == 27 && b[i + 1] == 92 {
        i
    } else {
        st_from(b, i + 1)
    }
}

/// Length of the APC at the start of `b`, terminator included, or -1 when
/// `b` does not start with a complete one.
pub open spec fn apc_end(b: Seq<u8>) -> int {
    if b.len() >= 3 && b[0] == 27 && b[1] == 95 {
        let k = st_from(b, 2);
        if k < 0 {
            -1
        } else {
            k + 2
        }
    } else {
        -1
    }
}

/// Content of the APC of length `len` at the start of `b`: after `ESC _`
/// and the command letter, before the terminator.
pub open spec fn apc_content(b: Seq<u8>, len: int) -> Seq<u8> {
    if len >= 5 {
        b.subrange(3, len - 2)
    } else {
        Seq::empty()
    }
}

/// End of the run of fast-path bytes starting at `i`.
pub open spec fn fast_end(b: Seq<u8>, i: int) -> int
    decreases b.len() - i,
{
    if i < 0 || i >= b.len() || !is_fast_byte(b[i]) {
        i
    } else {
        fast_end(b, i + 1)
    }
}

/// First APC introducer at or after `i`, or the end.
pub open spec fn seg_end(b: Seq<u8>, i: int) -> int
    decreases b.len() - i,
{
    if i < 0 || i >= b.len() || is_apc_start(b, i) {
        i
    } else {
        seg_end(b, i + 1)
    }
}

/// Whether a kitty command reports in an order of its own choosing (a
/// delete-all).
#[verifier::opaque]
pub open spec fn needs_order(content: Seq<u8>) -> bool {
    apc_command(content).action == KittyAction::Delete && apc_command(content).image_id is None
}

/// The APC with content `content` carried out, reporting in `order`.
#[verifier::opaque]
pub open spec fn apc_effect(s: TermView, content: Seq<u8>, order: Seq<u32>) -> TermView {
    apc_spec(s, apc_command(content), order)
}

/// Whether `order` is admissible for the APC with content `content`.
#[verifier::opaque]
pub open spec fn apc_order_ok(s: TermView, content: Seq<u8>, order: Seq<u32>) -> bool {
    order_ok(s, apc_command(content), order)
}

/// A segment given to the parser: the actions it reports for the segment,
/// after all it was given before, carried out.
#[verifier::opaque]
pub open spec fn parser_effect(s: TermView, seg: Seq<u8>) -> TermView {
    apply_actions(TermView { parser_used: true, vt_fed: s.vt_fed + seg, ..s }, vte_actions(s.vt_fed, seg))
}

/// A run of fast-path bytes written.
#[verifier::opaque]
pub open spec fn fast_effect(s: TermView, run: Seq<u8>) -> TermView {
    put_fast(s, run)
}

/// Bytes `b` fed from state `s`. `del` holds, in order, the report order of
/// each delete-all; `None` when it does not fit (too few or too many, or an
/// order that is not admissible).
#[verifier::opaque]
pub open spec fn feed_run(s: TermView, b: Seq<u8>, del: Seq<Seq<u32>>) -> Option<TermView>
    decreases b.len(),
{
    if b.len() == 0 {
        if del.len() == 0 {
            Some(s)
        } else {
            None
        }
    } else if is_apc_start(b, 0) {
        let e = apc_end(b);
        if e < 0 {
            if del.len() == 0 {
                Some(TermView { pending_apc: Some(b), ..s })
            } else {
                None
            }
        } else if e <= 0 || e > b.len() {
            None
        } else {
            let content = apc_content(b, e);
            if needs_order(content) {
                if del.len() == 0 || !apc_order_ok(s, content, del[0]) {
                    None
                } else {
                    feed_run(apc_effect(s, content, del[0]), b.skip(e), del.drop_first())
                }
            } else {
                feed_run(apc_effect(s, content, Seq::empty()), b.skip(e), del)
            }
        }
    } else if !s.parser_used && is_fast_byte(b[0]) {
        let n = fast_end(b, 0);
        if n <= 0 || n > b.len() {
            None
        } else {
            feed_run(fast_effect(s, b.take(n)), b.skip(n), del)
        }
    } else {
        let n = seg_end(b, 1);
        if n <= 0 || n > b.len() {
            None
        } else {
            feed_run(parser_effect(s, b.take(n)), b.skip(n), del)
        }
    }
}

/// A feed: an APC left incomplete by the previous feed is continued first.
pub open spec fn feed_spec(s: TermView, b: Seq<u8>, del: Seq<Seq<u32>>) -> Option<TermView> {
    match s.pending_apc {
        Some(p) => feed_run(TermView { pending_apc: None, ..s }, p + b, del),
        None => feed_run(s, b, del),
    }
}

fn find_st(b: &[u8], i: usize) -> (k: Option<usize>)
    ensures
        k == (if st_from(b@, i as int) < 0 {
            None
        } else {
            Some(st_from(b@, i as int) as usize)
        }),
        k matches Some(k) ==> i <= k && k + 1 < b@.len() && k as int == st_from(b@, i as int),
{
    let mut k = i;
    while k < b.len() && b.len() - k > 1
        invariant
            i <= k,
            st_from(b@, k as int) == st_from(b@, i as int),
        decreases b@.len() - k,
    {
        if b[k] == 27 && b[k + 1] == 92 {
            return Some(k);
        }
        k = k + 1;
    }
    None
}

/// Find the terminator of the APC at the start of `b`; the length of the
/// APC (terminator included).
fn find_apc_end(b: &[u8]) -> (r: Option<usize>)
    ensures
        r == (if apc_end(b@) < 0 {
            None
        } else {
            Some(apc_end(b@) as usize)
        }),
        r matches Some(e) ==> 4 <= e <= b@.len() && e as int == apc_end(b@),
{
    if b.len() >= 3 && b[0] == 27 && b[1] == 95 {
        match find_st(b, 2) {
            Some(k) => Some(k + 2),
            None => None,
        }
    } else {
        None
    }
}

fn fast_run_end(b: &[u8]) -> (n: usize)
    ensures
        n == fast_end(b@, 0),
        n <= b@.len(),
        b@.len() > 0 && is_fast_byte(b@[0]) ==> n >= 1,
        forall|j: int| 0 <= j < n ==> is_fast_byte(#[trigger] b@[j]),
{
    let mut k: usize = 0;
    while k < b.len() && (b[k] == 13 || b[k] == 10 || (0x20 <= b[k] && b[k] <= 0x7e))
        invariant
            k <= b@.len(),
            fast_end(b@, k as int) == fast_end(b@, 0),
            forall|j: int| 0 <= j < k ==> is_fast_byte(#[trigger] b@[j]),
        decreases b@.len() - k,
    {
        k = k + 1;
    }
    k
}

fn parser_seg_end(b: &[u8]) -> (n: usize)
    requires
        b@.len() >= 1,
    ensures
        n == seg_end(b@, 1),
        1 <= n <= b@.len(),
{
    let mut k: usize = 1;
    while k < b.len() && !(b[k] == 27 && b.len() - k > 1 && b[k + 1] == 95)
        invariant
            1 <= k <= b@.len(),
            seg_end(b@, k as int) == seg_end(b@, 1),
        decreases b@.len() - k,
    {
        k = k + 1;
    }
    k
}

/// `s` with the parser's part of the state replaced.
pub open spec fn with_parser(s: TermView, used: bool, fed: Seq<u8>) -> TermView {
    TermView { parser_used: used, vt_fed: fed, ..s }
}

/// From `s` a step leads to `r`, and from `s` with the parser's part
/// replaced by `used` and `fed` to `r2`: the step neither reads nor changes
/// that part, nor an APC left pending.
pub open spec fn parser_blind(s: TermView, r: TermView, r2: TermView, used: bool, fed: Seq<u8>) -> bool {
    &&& r2 == with_parser(r, used, fed)
    &&& r.parser_used == s.parser_used
    &&& r.vt_fed == s.vt_fed
    &&& r.pending_apc == s.pending_apc
}

proof fn lemma_cursor_blind(s: TermView, c: Cursor, used: bool, fed: Seq<u8>)
    ensures
        parser_blind(s, with_cursor(s, c), with_cursor(with_parser(s, used, fed), c), used, fed),
{
}

proof fn lemma_scroll_blind(s: TermView, used: bool, fed: Seq<u8>)
    ensures
        parser_blind(s, scroll_if_needed(s), scroll_if_needed(with_parser(s, used, fed)), used, fed),
{
}

proof fn lemma_linefeed_blind(s: TermView, used: bool, fed: Seq<u8>)
    ensures
        parser_blind(s, linefeed(s), linefeed(with_parser(s, used, fed)), used, fed),
{
    let c = Cursor { y: min_us((s.cursor.y + 1) as usize, s.config.rows), ..s.cursor };
    lemma_cursor_blind(s, c, used, fed);
    lemma_scroll_blind(with_cursor(s, c), used, fed);
}

proof fn lemma_glyph_blind(s: TermView, ch: char, used: bool, fed: Seq<u8>)
    ensures
        parser_blind(s, put_glyph(s, ch), put_glyph(with_parser(s, used, fed), ch), used, fed),
{
    let w = with_parser(s, used, fed);
    if s.cursor.x >= s.config.cols && s.mode == Mode::Wrap {
        let c = Cursor { y: (s.cursor.y + 1) as usize, ..s.cursor };
        lemma_cursor_blind(s, c, used, fed);
        lemma_scroll_blind(with_cursor(s, c), used, fed);
        let t = scroll_if_needed(with_cursor(s, c));
        lemma_cursor_blind(t, Cursor { x: 0, ..t.cursor }, used, fed);
    } else if s.cursor.x >= s.config.cols {
        lemma_cursor_blind(s, Cursor { x: (s.config.cols - 1) as usize, ..s.cursor }, used, fed);
    }
    assert(parser_blind(s, wrap_if_needed(s), wrap_if_needed(w), used, fed));
    let t = wrap_if_needed(s);
    assert(parser_blind(t, write_glyph(t, ch), write_glyph(with_parser(t, used, fed), ch), used, fed));
}

proof fn lemma_print_blind(s: TermView, c: char, used: bool, fed: Seq<u8>)
    ensures
        parser_blind(s, print(s, c), print(with_parser(s, used, fed), c), used, fed),
{
    lemma_linefeed_blind(s, used, fed);
    lemma_glyph_blind(s, c, used, fed);
    assert(parser_blind(s, put_char(s, c), put_char(with_parser(s, used, fed), c), used, fed));
}

proof fn lemma_execute_blind(s: TermView, c: u8, used: bool, fed: Seq<u8>)
    ensures
        parser_blind(s, execute(s, c), execute(with_parser(s, used, fed), c), used, fed),
{
}

proof fn lemma_osc_blind(s: TermView, p: Seq<Seq<u8>>, used: bool, fed: Seq<u8>)
    ensures
        parser_blind(s, osc_spec(s, p), osc_spec(with_parser(s, used, fed), p), used, fed),
{
}

proof fn lemma_csi_blind(
    s: TermView,
    list: Seq<u16>,
    inter: Seq<u8>,
    ignore: bool,
    c: char,
    used: bool,
    fed: Seq<u8>,
)
    ensures
        parser_blind(
            s,
            csi_spec(s, list, inter, ignore, c),
            csi_spec(with_parser(s, used, fed), list, inter, ignore, c),
            used,
            fed,
        ),
{
    let w = with_parser(s, used, fed);
    if !(ignore || (inter.len() > 0 && inter != seq![63u8])) {
        let private = inter == seq![63u8];
        if is_move(c) {
            lemma_cursor_blind(s, moved_cursor(s.cursor, s.config.cols, s.config.rows, list, c), used, fed);
        } else if c == 'J' {
            lemma_erase_display_blind(s, param_or(list, 0, 0), used, fed);
        } else if c == 'K' {
            lemma_erase_line_blind(s, used, fed);
        } else if c == 'm' {
            lemma_cursor_blind(s, Cursor { attrs: sgr_run(s.cursor.attrs, list, 0), ..s.cursor }, used, fed);
        } else if c == 'h' {
            lemma_set_mode_blind(s, list, private, used, fed);
        } else if c == 'l' {
            lemma_reset_mode_blind(s, list, private, used, fed);
        }
    }
}

proof fn lemma_erase_display_blind(s: TermView, m: u16, used: bool, fed: Seq<u8>)
    ensures
        parser_blind(s, erase_display(s, m), erase_display(with_parser(s, used, fed), m), used, fed),
{
}

proof fn lemma_erase_line_blind(s: TermView, used: bool, fed: Seq<u8>)
    ensures
        parser_blind(s, erase_line(s), erase_line(with_parser(s, used, fed)), used, fed),
{
}

proof fn lemma_set_mode_blind(s: TermView, list: Seq<u16>, private: bool, used: bool, fed: Seq<u8>)
    ensures
        parser_blind(s, set_mode(s, list, private), set_mode(with_parser(s, used, fed), list, private), used, fed),
{
}

proof fn lemma_reset_mode_blind(s: TermView, list: Seq<u16>, private: bool, used: bool, fed: Seq<u8>)
    ensures
        parser_blind(
            s,
            reset_mode(s, list, private),
            reset_mode(with_parser(s, used, fed), list, private),
            used,
            fed,
        ),
{
}

/// A parser action neither reads nor changes the parser's part of the state,
/// nor an APC left pending.
proof fn lemma_action_blind(s: TermView, a: ActionView, used: bool, fed: Seq<u8>)
    ensures
        parser_blind(s, apply_action(s, a), apply_action(with_parser(s, used, fed), a), used, fed),
{
    match a {
        ActionView::Print(c) => lemma_print_blind(s, c, used, fed),
        ActionView::Execute(b) => lemma_execute_blind(s, b, used, fed),
        ActionView::Csi { params, intermediates, ignore, action } => lemma_csi_blind(
            s,
            params,
            intermediates,
            ignore,
            action,
            used,
            fed,
        ),
        ActionView::Osc { params } => lemma_osc_blind(s, params, used, fed),
    }
}

/// The same for a list of actions.
proof fn lemma_actions_blind(s: TermView, acts: Seq<ActionView>, used: bool, fed: Seq<u8>)
    ensures
        parser_blind(s, apply_actions(s, acts), apply_actions(with_parser(s, used, fed), acts), used, fed),
    decreases acts.len(),
{
    if acts.len() > 0 {
        lemma_actions_blind(s, acts.drop_last(), used, fed);
        lemma_action_blind(apply_actions(s, acts.drop_last()), acts.last(), used, fed);
    }
}

/// Actions of two lists, one after the other, are the actions of the joined
/// list.
proof fn lemma_actions_concat(s: TermView, a: Seq<ActionView>, b: Seq<ActionView>)
    ensures
        apply_actions(s, a + b) == apply_actions(apply_actions(s, a), b),
    decreases b.len(),
{
    if b.len() == 0 {
        assert(a + b =~= a);
    } else {
        lemma_actions_concat(s, a, b.drop_last());
        assert((a + b).drop_last() =~= a + b.drop_last());
        assert((a + b).last() == b.last());
    }
}

/// The VT parser reports for two pieces of input, given one after the
/// other, what it reports for them joined.
pub open spec fn vte_cut_invariant() -> bool {
    forall|fed: Seq<u8>, x: Seq<u8>, y: Seq<u8>|
        #[trigger] vte_actions(fed, x + y) == vte_actions(fed, x) + vte_actions(fed + x, y)
}

/// What the parser path does to the rest of the state.
proof fn lemma_parser_effect_frame(s: TermView, seg: Seq<u8>)
    ensures
        parser_effect(s, seg).parser_used,
        parser_effect(s, seg).vt_fed == s.vt_fed + seg,
        parser_effect(s, seg).pending_apc == s.pending_apc,
{
    reveal(parser_effect);
    let w = with_parser(s, true, s.vt_fed + seg);
    lemma_actions_blind(w, vte_actions(s.vt_fed, seg), true, s.vt_fed + seg);
}

/// Two segments given to the parser one after the other have the effect of
/// the joined segment.
proof fn lemma_parser_effect_concat(s: TermView, p: Seq<u8>, q: Seq<u8>)
    requires
        vte_cut_invariant(),
    ensures
        parser_effect(parser_effect(s, p), q) == parser_effect(s, p + q),
{
    reveal(parser_effect);
    let f = s.vt_fed;
    let fpq = f + (p + q);
    assert((f + p) + q =~= fpq);
    let a = vte_actions(f, p);
    let b = vte_actions(f + p, q);
    let w1 = with_parser(s, true, f + p);
    let w2 = with_parser(s, true, fpq);
    lemma_actions_blind(w1, a, true, fpq);
    assert(with_parser(w1, true, fpq) == w2);
    let u = apply_actions(w1, a);
    assert(u.vt_fed == f + p && u.parser_used);
    assert(with_parser(u, true, fpq) == apply_actions(w2, a));
    lemma_actions_concat(w2, a, b);
    assert(vte_actions(f, p + q) == a + b);
}

/// The fast path leaves the parser's part of the state and a pending APC
/// alone.
proof fn lemma_fast_frame(s: TermView, run: Seq<u8>)
    ensures
        put_fast(s, run).parser_used == s.parser_used,
        put_fast(s, run).vt_fed == s.vt_fed,
        put_fast(s, run).pending_apc == s.pending_apc,
    decreases run.len(),
{
    if run.len() > 0 {
        lemma_fast_frame(s, run.drop_last());
        let t = put_fast(s, run.drop_last());
        lemma_linefeed_blind(t, t.parser_used, t.vt_fed);
        lemma_print_blind(t, run.last() as char, t.parser_used, t.vt_fed);
    }
}

/// A kitty command leaves the parser's part of the state and a pending APC
/// alone.
proof fn lemma_apc_frame(s: TermView, content: Seq<u8>, order: Seq<u32>)
    ensures
        apc_effect(s, content, order).parser_used == s.parser_used,
        apc_effect(s, content, order).vt_fed == s.vt_fed,
        apc_effect(s, content, order).pending_apc == s.pending_apc,
{
    reveal(apc_effect);
}

/// Whether feeding `x` and then `y` may cut the input there: not between the
/// two bytes of an APC introducer.
pub open spec fn cut_ok(x: Seq<u8>, y: Seq<u8>) -> bool {
    !(x.len() > 0 && y.len() > 0 && x.last() == 27 && y[0] == 95)
}

proof fn lemma_st_from_extend(x: Seq<u8>, y: Seq<u8>, i: int)
    requires
        0 <= i,
        st_from(x, i) >= 0,
    ensures
        st_from(x + y, i) == st_from(x, i),
    decreases x.len() - i,
{
    if i + 1 < x.len() && !(x[i] == 27 && x[i + 1] == 92) {
        lemma_st_from_extend(x, y, i + 1);
    }
}

proof fn lemma_fast_end_shift(x: Seq<u8>, y: Seq<u8>, j: int)
    requires
        0 <= j <= y.len(),
    ensures
        fast_end(x + y, x.len() + j) == x.len() + fast_end(y, j),
    decreases y.len() - j,
{
    if j < y.len() && is_fast_byte(y[j]) {
        assert((x + y)[x.len() + j] == y[j]);
        lemma_fast_end_shift(x, y, j + 1);
    } else if j < y.len() {
        assert((x + y)[x.len() + j] == y[j]);
    }
}

proof fn lemma_fast_end_extend(x: Seq<u8>, y: Seq<u8>, i: int)
    requires
        0 <= i <= x.len(),
    ensures
        fast_end(x + y, i) == (if fast_end(x, i) < x.len() {
            fast_end(x, i)
        } else {
            x.len() + fast_end(y, 0)
        }),
    decreases x.len() - i,
{
    if i == x.len() {
        lemma_fast_end_shift(x, y, 0);
    } else {
        assert((x + y)[i] == x[i]);
        if is_fast_byte(x[i]) {
            lemma_fast_end_extend(x, y, i + 1);
        }
    }
}

proof fn lemma_cut_pieces(x: Seq<u8>, y: Seq<u8>, m: int)
    requires
        0 <= m <= y.len(),
    ensures
        (x + y).take(x.len() + m) == x + y.take(m),
        (x + y).skip(x.len() + m) == y.skip(m),
{
    assert((x + y).take(x.len() + m) =~= x + y.take(m));
    assert((x + y).skip(x.len() + m) =~= y.skip(m));
}

proof fn lemma_fast_end_bounds(b: Seq<u8>, i: int)
    requires
        0 <= i <= b.len(),
    ensures
        i <= fast_end(b, i) <= b.len(),
    decreases b.len() - i,
{
    if i < b.len() && is_fast_byte(b[i]) {
        lemma_fast_end_bounds(b, i + 1);
    }
}

proof fn lemma_seg_end_bounds(b: Seq<u8>, i: int)
    requires
        0 <= i <= b.len(),
    ensures
        i <= seg_end(b, i) <= b.len(),
    decreases b.len() - i,
{
    if i < b.len() && !is_apc_start(b, i) {
        lemma_seg_end_bounds(b, i + 1);
    }
}

proof fn lemma_seg_end_shift(x: Seq<u8>, y: Seq<u8>, j: int)
    requires
        0 <= j <= y.len(),
    ensures
        seg_end(x + y, x.len() + j) == x.len() + seg_end(y, j),
    decreases y.len() - j,
{
    if j < y.len() {
        assert((x + y)[x.len() + j] == y[j]);
        if j + 1 < y.len() {
            assert((x + y)[x.len() + j + 1] == y[j + 1]);
        }
        assert(is_apc_start(x + y, x.len() + j) == is_apc_start(y, j));
        if !is_apc_start(y, j) {
            lemma_seg_end_shift(x, y, j + 1);
        }
    }
}

proof fn lemma_seg_end_extend(x: Seq<u8>, y: Seq<u8>, i: int)
    requires
        0 <= i <= x.len(),
        cut_ok(x, y),
    ensures
        seg_end(x + y, i) == (if seg_end(x, i) < x.len() {
            seg_end(x, i)
        } else {
            x.len() + seg_end(y, 0)
        }),
    decreases x.len() - i,
{
    if i == x.len() {
        lemma_seg_end_shift(x, y, 0);
    } else {
        assert((x + y)[i] == x[i]);
        if i + 1 < x.len() {
            assert((x + y)[i + 1] == x[i + 1]);
        } else if y.len() > 0 {
            assert((x + y)[i + 1] == y[0]);
        }
        assert(is_apc_start(x + y, i) == is_apc_start(x, i));
        if !is_apc_start(x, i) {
            lemma_seg_end_extend(x, y, i + 1);
        }
    }
}

/// What is left to feed after `x` led to `t`, when `y` follows: an APC
/// that `x` left incomplete is continued by `y`.
pub open spec fn cut_rest(t: TermView, y: Seq<u8>, d2: Seq<Seq<u32>>) -> Option<TermView> {
    match t.pending_apc {
        Some(q) => feed_run(TermView { pending_apc: None, ..t }, q + y, d2),
        None => feed_run(t, y, d2),
    }
}

/// What feeding `x + y` is, from how feeding `x` ended: when `x` ends in an
/// incomplete APC, that APC is continued by `y`.
pub(crate) proof fn lemma_run_cut(s: TermView, x: Seq<u8>, y: Seq<u8>, d1: Seq<Seq<u32>>, d2: Seq<Seq<u32>>)
    requires
        vte_cut_invariant() || y.len() == 0 || is_apc_start(y, 0),
        cut_ok(x, y),
        s.pending_apc is None,
        feed_run(s, x, d1) is Some,
    ensures
        feed_run(s, x + y, d1 + d2) == cut_rest(feed_run(s, x, d1)->0, y, d2),
    decreases x.len(), 1int,
{
    if x.len() == 0 {
        reveal(feed_run);
        assert(x + y =~= y);
        assert(d1 + d2 =~= d2);
        return;
    }
    assert((x + y)[0] == x[0]);
    if x.len() >= 2 {
        assert((x + y)[1] == x[1]);
    } else if y.len() > 0 {
        assert((x + y)[1] == y[0]);
    }
    assert(is_apc_start(x + y, 0) == is_apc_start(x, 0));
    if is_apc_start(x, 0) {
        lemma_cut_apc(s, x, y, d1, d2);
    } else if !s.parser_used && is_fast_byte(x[0]) {
        lemma_cut_fast(s, x, y, d1, d2);
    } else {
        lemma_cut_parser(s, x, y, d1, d2);
    }
}

proof fn lemma_cut_apc(s: TermView, x: Seq<u8>, y: Seq<u8>, d1: Seq<Seq<u32>>, d2: Seq<Seq<u32>>)
    requires
        vte_cut_invariant() || y.len() == 0 || is_apc_start(y, 0),
        cut_ok(x, y),
        s.pending_apc is None,
        feed_run(s, x, d1) is Some,
        x.len() > 0,
        is_apc_start(x, 0),
        is_apc_start(x + y, 0),
    ensures
        feed_run(s, x + y, d1 + d2) == cut_rest(feed_run(s, x, d1)->0, y, d2),
    decreases x.len(), 0int,
{
    reveal(feed_run);
    let e = apc_end(x);
    if e < 0 {
        assert(d1 + d2 =~= d2);
        assert(TermView { pending_apc: None, ..TermView { pending_apc: Some(x), ..s } } == s);
    } else {
        lemma_st_from_extend(x, y, 2);
        assert(apc_end(x + y) == e);
        assert(apc_content(x + y, e) =~= apc_content(x, e));
        assert((x + y).skip(e) =~= x.skip(e) + y);
        let content = apc_content(x, e);
        if needs_order(content) {
            let t1 = apc_effect(s, content, d1[0]);
            lemma_apc_frame(s, content, d1[0]);
            assert((d1 + d2)[0] == d1[0]);
            assert((d1 + d2).drop_first() =~= d1.drop_first() + d2);
            lemma_run_cut(t1, x.skip(e), y, d1.drop_first(), d2);
        } else {
            let t1 = apc_effect(s, content, Seq::empty());
            lemma_apc_frame(s, content, Seq::empty());
            lemma_run_cut(t1, x.skip(e), y, d1, d2);
        }
    }
}

proof fn lemma_cut_fast(s: TermView, x: Seq<u8>, y: Seq<u8>, d1: Seq<Seq<u32>>, d2: Seq<Seq<u32>>)
    requires
        vte_cut_invariant() || y.len() == 0 || is_apc_start(y, 0),
        cut_ok(x, y),
        s.pending_apc is None,
        feed_run(s, x, d1) is Some,
        x.len() > 0,
        !is_apc_start(x, 0),
        !is_apc_start(x + y, 0),
        (x + y)[0] == x[0],
        !s.parser_used,
        is_fast_byte(x[0]),
    ensures
        feed_run(s, x + y, d1 + d2) == cut_rest(feed_run(s, x, d1)->0, y, d2),
    decreases x.len(), 0int,
{
    reveal(feed_run);
    let n = fast_end(x, 0);
    lemma_fast_end_extend(x, y, 0);
    lemma_fast_end_bounds(x, 0);
    let t1 = fast_effect(s, x.take(n));
    assert(fast_effect(s, x.take(n)) == put_fast(s, x.take(n))) by {
        reveal(fast_effect);
    }
    lemma_fast_frame(s, x.take(n));
    if n < x.len() {
        assert((x + y).take(n) =~= x.take(n));
        assert((x + y).skip(n) =~= x.skip(n) + y);
        lemma_run_cut(t1, x.skip(n), y, d1, d2);
    } else {
        assert(x.take(n) =~= x);
        assert(x.skip(n) =~= Seq::<u8>::empty());
        assert(d1 + d2 =~= d2);
        assert(feed_run(s, x, d1) == Some(t1));
        if y.len() > 0 && is_fast_byte(y[0]) {
            let m = fast_end(y, 0);
            lemma_fast_end_bounds(y, 1);
            assert(m == fast_end(y, 1));
            assert(!is_apc_start(y, 0));
            lemma_cut_pieces(x, y, m);
            crate::laws::law_fast_split(s, x, y.take(m));
            assert(fast_effect(t1, y.take(m)) == fast_effect(s, x + y.take(m))) by {
                reveal(fast_effect);
            }
        } else {
            assert(fast_end(y, 0) == 0);
            assert((x + y).take(n) =~= x);
            assert((x + y).skip(n) =~= y);
        }
    }
}

proof fn lemma_cut_parser(s: TermView, x: Seq<u8>, y: Seq<u8>, d1: Seq<Seq<u32>>, d2: Seq<Seq<u32>>)
    requires
        vte_cut_invariant() || y.len() == 0 || is_apc_start(y, 0),
        cut_ok(x, y),
        s.pending_apc is None,
        feed_run(s, x, d1) is Some,
        x.len() > 0,
        !is_apc_start(x, 0),
        !is_apc_start(x + y, 0),
        (x + y)[0] == x[0],
        !(!s.parser_used && is_fast_byte(x[0])),
    ensures
        feed_run(s, x + y, d1 + d2) == cut_rest(feed_run(s, x, d1)->0, y, d2),
    decreases x.len(), 0int,
{
    reveal(feed_run);
    let n = seg_end(x, 1);
    lemma_seg_end_extend(x, y, 1);
    lemma_seg_end_bounds(x, 1);
    let t1 = parser_effect(s, x.take(n));
    lemma_parser_effect_frame(s, x.take(n));
    if n < x.len() {
        assert((x + y).take(n) =~= x.take(n));
        assert((x + y).skip(n) =~= x.skip(n) + y);
        lemma_run_cut(t1, x.skip(n), y, d1, d2);
    } else {
        assert(x.take(n) =~= x);
        assert(x.skip(n) =~= Seq::<u8>::empty());
        assert(d1 + d2 =~= d2);
        assert(feed_run(s, x, d1) == Some(t1));
        if y.len() == 0 || is_apc_start(y, 0) {
            assert(seg_end(y, 0) == 0);
            assert((x + y).take(n) =~= x);
            assert((x + y).skip(n) =~= y);
        } else {
            let m = seg_end(y, 1);
            lemma_seg_end_bounds(y, 1);
            assert(seg_end(y, 0) == m);
            lemma_cut_pieces(x, y, m);
            lemma_parser_effect_concat(s, x, y.take(m));
        }
    }
}

/// One step of a feed: from `s`, the first `k` bytes of `b` lead to `t`,
/// taking the delete-all orders `delp`.
pub open spec fn step_ok(s: TermView, b: Seq<u8>, k: int, t: TermView, delp: Seq<Seq<u32>>) -> bool {
    forall|del2: Seq<Seq<u32>>|
        #![trigger feed_run(t, b.skip(k), del2)]
        feed_run(s, b, delp + del2) == feed_run(t, b.skip(k), del2)
}

/// Steps compose.
proof fn lemma_step_compose(
    s: TermView,
    b: Seq<u8>,
    i: int,
    t: TermView,
    del1: Seq<Seq<u32>>,
    k: int,
    u: TermView,
    del2: Seq<Seq<u32>>,
)
    requires
        0 <= i <= b.len(),
        0 <= k <= b.len() - i,
        step_ok(s, b, i, t, del1),
        step_ok(t, b.skip(i), k, u, del2),
    ensures
        step_ok(s, b, i + k, u, del1 + del2),
{
    assert(b.skip(i).skip(k) =~= b.skip(i + k));
    assert forall|del3: Seq<Seq<u32>>|
        #![trigger feed_run(u, b.skip(i + k), del3)]
        feed_run(s, b, (del1 + del2) + del3) == feed_run(u, b.skip(i + k), del3) by {
        assert((del1 + del2) + del3 =~= del1 + (del2 + del3));
        assert(feed_run(t, b.skip(i), del2 + del3) == feed_run(u, b.skip(i).skip(k), del3));
    }
}

impl Terminal {
    /// Feed raw bytes from the PTY (see [`feed_spec`]): exact but for the
    /// order in which a delete-all reports images.
    pub fn feed_bytes(&mut self, bytes: &[u8])
        requires
            old(self).wf(),
        ensures
            final(self).wf(),
            exists|del: Seq<Seq<u32>>|
                #![trigger feed_spec(old(self)@, bytes@, del)]
                feed_spec(old(self)@, bytes@, del) == Some(final(self)@),
    {
        let mut owned: Vec<u8> = Vec::new();
        let from_pending = match self.pending_apc.take() {
            Some(p) => {
                owned = p;
                owned.extend_from_slice(bytes);
                true
            },
            None => false,
        };
        let data: &[u8] = if from_pending {
            owned.as_slice()
        } else {
            bytes
        };
        let ghost start = self@;
        assert(start == (TermView { pending_apc: None, ..old(self)@ }));
        assert(from_pending ==> old(self)@.pending_apc is Some && data@ == old(self)@.pending_apc->0
            + bytes@);
        assert(!from_pending ==> old(self)@.pending_apc is None && data@ == bytes@ && start == old(
            self,
        )@);
        let del = self.feed_data(data);
        assert(feed_spec(old(self)@, bytes@, del@) == Some(self@));
    }

    /// Feed `s` (its UTF-8 bytes).
    pub fn feed_str(&mut self, s: &str)
        requires
            old(self).wf(),
        ensures
            final(self).wf(),
            exists|del: Seq<Seq<u32>>|
                #![trigger feed_spec(old(self)@, s.spec_bytes(), del)]
                feed_spec(old(self)@, s.spec_bytes(), del) == Some(final(self)@),
    {
        self.feed_bytes(s.as_bytes());
    }

    fn feed_data(&mut self, data: &[u8]) -> (r: Ghost<Seq<Seq<u32>>>)
        requires
            old(self).wf(),
        ensures
            final(self).wf(),
            feed_run(old(self)@, data@, r@) == Some(final(self)@),
    {
        let n = data.len();
        let mut i: usize = 0;
        let ghost mut del_used: Seq<Seq<u32>> = Seq::empty();
        assert(data@.skip(0) =~= data@);
        assert forall|del2: Seq<Seq<u32>>|
            #![trigger feed_run(self@, data@.skip(0), del2)]
            feed_run(old(self)@, data@, del_used + del2) == feed_run(self@, data@.skip(0), del2) by {
            assert(del_used + del2 =~= del2);
        }
        while i < n
            invariant
                self.wf(),
                i <= n,
                n == data@.len(),
                step_ok(old(self)@, data@, i as int, self@, del_used),
            decreases n - i,
        {
            let rest = slice_from(data, i);
            let ghost prev = self@;
            let (k, delp) = self.feed_one(rest);
            if k == 0 {
                assert(feed_run(prev, data@.skip(i as int), Seq::empty()) == Some(self@));
                assert(del_used + Seq::<Seq<u32>>::empty() =~= del_used);
                return Ghost(del_used);
            }
            proof {
                lemma_step_compose(old(self)@, data@, i as int, prev, del_used, k as int, self@, delp@);
                del_used = del_used + delp@;
            }
            i = i + k;
        }
        assert(data@.skip(i as int) =~= Seq::<u8>::empty());
        assert(feed_run(self@, data@.skip(i as int), Seq::empty()) == Some(self@)) by {
            reveal(feed_run);
        }
        assert(del_used + Seq::<Seq<u32>>::empty() =~= del_used);
        Ghost(del_used)
    }

    /// One step of a feed on the non-empty `rest`. `k == 0`: an incomplete
    /// APC was kept for the next feed, and nothing is left to do.
    fn feed_one(&mut self, rest: &[u8]) -> (r: (usize, Ghost<Seq<Seq<u32>>>))
        requires
            old(self).wf(),
            rest@.len() > 0,
        ensures
            final(self).wf(),
            r.0 <= rest@.len(),
            r.0 == 0 ==> feed_run(old(self)@, rest@, Seq::empty()) == Some(final(self)@),
            r.0 > 0 ==> step_ok(old(self)@, rest@, r.0 as int, final(self)@, r.1@),
    {
        if rest[0] == 27 && rest.len() > 1 && rest[1] == 95 {
            match find_apc_end(rest) {
                Some(e) => {
                    let delp = self.step_apc(rest, e);
                    (e, delp)
                },
                None => {
                    let ghost prev = self@;
                    self.pending_apc = Some(crate::vt::to_vec(rest));
                    assert(feed_run(prev, rest@, Seq::empty()) == Some(self@)) by {
                        reveal(feed_run);
                    }
                    (0, Ghost(Seq::empty()))
                },
            }
        } else if !self.parser_used && (rest[0] == 13 || rest[0] == 10 || (0x20 <= rest[0] && rest[0]
            <= 0x7e)) {
            let k = self.step_fast(rest);
            (k, Ghost(Seq::empty()))
        } else {
            let k = self.step_parser(rest);
            (k, Ghost(Seq::empty()))
        }
    }

    #[verifier::rlimit(40)]
    fn step_apc(&mut self, rest: &[u8], e: usize) -> (delp: Ghost<Seq<Seq<u32>>>)
        requires
            old(self).wf(),
            is_apc_start(rest@, 0),
            e as int == apc_end(rest@),
            4 <= e <= rest@.len(),
        ensures
            final(self).wf(),
            step_ok(old(self)@, rest@, e as int, final(self)@, delp@),
    {
        let content: &[u8] = if e >= 5 {
            let (head, _) = rest.split_at(e - 2);
            slice_from(head, 3)
        } else {
            let (none, _) = rest.split_at(0);
            none
        };
        assert(content@ =~= apc_content(rest@, e as int));
        let ghost prev = self@;
        self.apply_apc(content);
        let ghost c = apc_command(content@);
        let ghost o = choose|o: Seq<u32>| order_ok(prev, c, o) && self@ == apc_spec(prev, c, o);
        assert(apc_effect(prev, content@, o) == self@ && apc_order_ok(prev, content@, o)) by {
            reveal(apc_effect);
            reveal(apc_order_ok);
        }
        let ghost delp: Seq<Seq<u32>> = if needs_order(content@) {
            seq![o]
        } else {
            Seq::empty()
        };
        assert(!needs_order(content@) ==> apc_effect(prev, content@, Seq::empty()) == self@) by {
            reveal(apc_effect);
            reveal(needs_order);
            if !needs_order(content@) {
                assert(apc_spec(prev, c, o) == apc_spec(prev, c, Seq::empty()));
            }
        }
        assert forall|del2: Seq<Seq<u32>>|
            #![trigger feed_run(self@, rest@.skip(e as int), del2)]
            feed_run(prev, rest@, delp + del2) == feed_run(self@, rest@.skip(e as int), del2) by {
            reveal(feed_run);
            if needs_order(content@) {
                assert((delp + del2)[0] == o);
                assert((delp + del2).drop_first() =~= del2);
            } else {
                assert(delp + del2 =~= del2);
            }
        }
        Ghost(delp)
    }

    fn step_fast(&mut self, rest: &[u8]) -> (k: usize)
        requires
            old(self).wf(),
            rest@.len() > 0,
            !is_apc_start(rest@, 0),
            !old(self).parser_used,
            is_fast_byte(rest@[0]),
        ensures
            final(self).wf(),
            0 < k <= rest@.len(),
            step_ok(old(self)@, rest@, k as int, final(self)@, Seq::empty()),
    {
        let k = fast_run_end(rest);
        let (run, _) = rest.split_at(k);
        assert(run@ =~= rest@.take(k as int));
        let ghost prev = self@;
        self.put_fast(run);
        assert(fast_effect(prev, rest@.take(k as int)) == self@) by {
            reveal(fast_effect);
        }
        assert forall|del2: Seq<Seq<u32>>|
            #![trigger feed_run(self@, rest@.skip(k as int), del2)]
            feed_run(prev, rest@, Seq::empty() + del2) == feed_run(self@, rest@.skip(k as int), del2) by {
            reveal(feed_run);
            assert(Seq::<Seq<u32>>::empty() + del2 =~= del2);
        }
        k
    }

    fn step_parser(&mut self, rest: &[u8]) -> (k: usize)
        requires
            old(self).wf(),
            rest@.len() > 0,
            !is_apc_start(rest@, 0),
            !(!old(self).parser_used && is_fast_byte(rest@[0])),
        ensures
            final(self).wf(),
            0 < k <= rest@.len(),
            step_ok(old(self)@, rest@, k as int, final(self)@, Seq::empty()),
    {
        let k = parser_seg_end(rest);
        let (seg, _) = rest.split_at(k);
        assert(seg@ =~= rest@.take(k as int));
        let ghost prev = self@;
        let acts = advance(&mut self.parser, seg);
        self.parser_used = true;
        self.apply_actions(&acts);
        assert(parser_effect(prev, rest@.take(k as int)) == self@) by {
            reveal(parser_effect);
        }
        assert forall|del2: Seq<Seq<u32>>|
            #![trigger feed_run(self@, rest@.skip(k as int), del2)]
            feed_run(prev, rest@, Seq::empty() + del2) == feed_run(self@, rest@.skip(k as int), del2) by {
            reveal(feed_run);
            assert(Seq::<Seq<u32>>::empty() + del2 =~= del2);
        }
        k
    }
}

} // verus!
