//! A small markdown to ANSI renderer for agent output on the terminal.
//! Subset: headings, bold / italic / inline code, fenced code, lists,
//! block quotes, links `[t](u)` (the URL is dropped, the text kept).

use vstd::prelude::*;

verus! {

/// Unicode `White_Space` (what `char::is_whitespace` tests).
pub open spec fn is_ws(c: char) -> bool {
    let u = c as u32;
    (0x09 <= u <= 0x0d) || u == 0x20 || u == 0x85 || u == 0xa0 || u == 0x1680 || (0x2000 <= u
        <= 0x200a) || u == 0x2028 || u == 0x2029 || u == 0x202f || u == 0x205f || u == 0x3000
}

pub(crate) fn ws(c: char) -> (b: bool)
    ensures
        b == is_ws(c),
{
    let u = c as u32;
    (0x09 <= u && u <= 0x0d) || u == 0x20 || u == 0x85 || u == 0xa0 || u == 0x1680 || (0x2000 <= u
        && u <= 0x200a) || u == 0x2028 || u == 0x2029 || u == 0x202f || u == 0x205f || u == 0x3000
}

/// `s` without trailing whitespace.
pub open spec fn trim_end(s: Seq<char>) -> Seq<char>
    decreases s.len(),
{
    if s.len() > 0 && is_ws(s.last()) {
        trim_end(s.drop_last())
    } else {
        s
    }
}

/// `s` without leading whitespace.
pub open spec fn trim_start(s: Seq<char>) -> Seq<char>
    decreases s.len(),
{
    if s.len() > 0 && is_ws(s[0]) {
        trim_start(s.drop_first())
    } else {
        s
    }
}

/// `s` without leading and trailing whitespace.
pub open spec fn trim(s: Seq<char>) -> Seq<char> {
    trim_start(trim_end(s))
}

pub(crate) fn trim_end_vec(s: &[char]) -> (r: Vec<char>)
    ensures
        r@ == trim_end(s@),
{
    let mut n = s.len();
    assert(s@.take(n as int) =~= s@);
    while n > 0 && ws(s[n - 1])
        invariant
            n <= s@.len(),
            trim_end(s@.take(n as int)) == trim_end(s@),
        decreases n,
    {
        assert(s@.take(n as int).drop_last() =~= s@.take(n - 1));
        n = n - 1;
    }
    copy_range(s, 0, n)
}

pub(crate) fn trim_start_vec(s: &[char]) -> (r: Vec<char>)
    ensures
        r@ == trim_start(s@),
{
    let mut i: usize = 0;
    assert(s@.skip(0) =~= s@);
    while i < s.len() && ws(s[i])
        invariant
            i <= s@.len(),
            trim_start(s@.skip(i as int)) == trim_start(s@),
        decreases s@.len() - i,
    {
        assert(s@.skip(i as int).drop_first() =~= s@.skip(i + 1));
        i = i + 1;
    }
    let r = copy_range(s, i, s.len());
    assert(r@ =~= s@.skip(i as int));
    r
}

pub(crate) fn trim_vec(s: &[char]) -> (r: Vec<char>)
    ensures
        r@ == trim(s@),
{
    let e = trim_end_vec(s);
    trim_start_vec(e.as_slice())
}

/// A copy of `s[lo..hi]`.
pub(crate) fn copy_range(s: &[char], lo: usize, hi: usize) -> (r: Vec<char>)
    requires
        lo <= hi <= s@.len(),
    ensures
        r@ == s@.subrange(lo as int, hi as int),
{
    let mut r: Vec<char> = Vec::new();
    let mut i = lo;
    while i < hi
        invariant
            lo <= i <= hi <= s@.len(),
            r@ == s@.subrange(lo as int, i as int),
        decreases hi - i,
    {
        r.push(s[i]);
        assert(r@ =~= s@.subrange(lo as int, i + 1));
        i = i + 1;
    }
    r
}

pub(crate) fn push_all(out: &mut Vec<char>, s: &[char])
    ensures
        final(out)@ == old(out)@ + s@,
{
    let mut i: usize = 0;
    while i < s.len()
        invariant
            i <= s@.len(),
            out@ == old(out)@ + s@.take(i as int),
        decreases s@.len() - i,
    {
        out.push(s[i]);
        assert(out@ =~= old(out)@ + s@.take(i + 1));
        i = i + 1;
    }
    assert(s@.take(i as int) =~= s@);
}

/// Escape sequences: 0 inline code (green), 1 bold, 2 italic, 3 to 5
/// headings of level 1 to 3; `reset` ends a style.
pub open spec fn style(k: int) -> Seq<char> {
    if k == 0 {
        seq!['\x1b', '[', '3', '8', ';', '5', ';', '1', '4', '8', 'm']
    } else if k == 1 {
        seq!['\x1b', '[', '1', 'm']
    } else if k == 2 {
        seq!['\x1b', '[', '3', 'm']
    } else if k == 3 {
        seq!['\x1b', '[', '1', ';', '3', '2', 'm']
    } else if k == 4 {
        seq!['\x1b', '[', '1', ';', '3', '3', 'm']
    } else {
        seq!['\x1b', '[', '1', ';', '3', '6', 'm']
    }
}

pub open spec fn reset() -> Seq<char> {
    seq!['\x1b', '[', '0', 'm']
}

fn push_style(out: &mut Vec<char>, k: usize)
    ensures
        final(out)@ == old(out)@ + style(k as int),
{
    out.push('\x1b');
    out.push('[');
    if k == 0 {
        out.push('3');
        out.push('8');
        out.push(';');
        out.push('5');
        out.push(';');
        out.push('1');
        out.push('4');
        out.push('8');
    } else if k == 1 {
        out.push('1');
    } else if k == 2 {
        out.push('3');
    } else {
        out.push('1');
        out.push(';');
        out.push('3');
        out.push(
            if k == 3 {
                '2'
            } else if k == 4 {
                '3'
            } else {
                '6'
            },
        );
    }
    out.push('m');
    assert(out@ =~= old(out)@ + style(k as int));
}

fn push_reset(out: &mut Vec<char>)
    ensures
        final(out)@ == old(out)@ + reset(),
{
    out.push('\x1b');
    out.push('[');
    out.push('0');
    out.push('m');
    assert(out@ =~= old(out)@ + reset());
}

/// First index `j >= i` with `s[j] == c`, or -1.
pub open spec fn find_char(s: Seq<char>, i: int, c: char) -> int
    decreases s.len() - i,
{
    if i < 0 || i >= s.len() {
        -1
    } else if s[i] == c {
        i
    } else {
        find_char(s, i + 1, c)
    }
}

/// First index `j >= i` starting a `**`, or -1.
pub open spec fn find_stars(s: Seq<char>, i: int) -> int
    decreases s.len() - i,
{
    if i < 0 || i + 1 >= s.len() {
        -1
    } else if s[i] == '*' && s[i + 1] == '*' {
        i
    } else {
        find_stars(s, i + 1)
    }
}

pub(crate) fn find(s: &[char], i: usize, c: char) -> (j: Option<usize>)
    ensures
        j == (if find_char(s@, i as int, c) < 0 {
            None
        } else {
            Some(find_char(s@, i as int, c) as usize)
        }),
        j matches Some(j) ==> i <= j < s@.len() && j as int == find_char(s@, i as int, c),
{
    let mut k = i;
    while k < s.len()
        invariant
            i <= k,
            find_char(s@, k as int, c) == find_char(s@, i as int, c),
        decreases s@.len() - k,
    {
        if s[k] == c {
            return Some(k);
        }
        k = k + 1;
    }
    None
}

fn find2(s: &[char], i: usize) -> (j: Option<usize>)
    ensures
        j == (if find_stars(s@, i as int) < 0 {
            None
        } else {
            Some(find_stars(s@, i as int) as usize)
        }),
        j matches Some(j) ==> i <= j && j + 1 < s@.len() && j as int == find_stars(s@, i as int),
{
    let mut k = i;
    while k < s.len() && s.len() - k > 1
        invariant
            i <= k,
            find_stars(s@, k as int) == find_stars(s@, i as int),
        decreases s@.len() - k,
    {
        if s[k] == '*' && s[k + 1] == '*' {
            return Some(k);
        }
        k = k + 1;
    }
    None
}

/// Inline markup of `s` from index `i`: `` `code` ``, `**bold**`,
/// `*italic*` styled; `[text](url)` becomes `text`; unmatched markers stay
/// as they are.
pub open spec fn inline_from(s: Seq<char>, i: int) -> Seq<char>
    decreases s.len() - i,
{
    if i < 0 || i >= s.len() {
        Seq::empty()
    } else {
        let c = s[i];
        if c == '`' {
            let j = find_char(s, i + 1, '`');
            if i < j < s.len() {
                style(0) + s.subrange(i + 1, j) + reset() + inline_from(s, j + 1)
            } else {
                seq![c] + inline_from(s, i + 1)
            }
        } else if c == '*' && i + 1 < s.len() && s[i + 1] == '*' {
            let j = find_stars(s, i + 2);
            if i < j && j + 1 < s.len() {
                style(1) + s.subrange(i + 2, j) + reset() + inline_from(s, j + 2)
            } else {
                seq![c] + inline_from(s, i + 1)
            }
        } else if c == '*' {
            let j = find_char(s, i + 1, '*');
            if i < j < s.len() {
                style(2) + s.subrange(i + 1, j) + reset() + inline_from(s, j + 1)
            } else {
                seq![c] + inline_from(s, i + 1)
            }
        } else if c == '[' {
            let j = find_char(s, i + 1, ']');
            if i < j < s.len() {
                let p = if j + 1 < s.len() && s[j + 1] == '(' {
                    find_char(s, j + 2, ')')
                } else {
                    -1
                };
                if j < p < s.len() {
                    s.subrange(i + 1, j) + inline_from(s, p + 1)
                } else {
                    s.subrange(i + 1, j) + inline_from(s, j)
                }
            } else {
                seq![c] + inline_from(s, i + 1)
            }
        } else {
            seq![c] + inline_from(s, i + 1)
        }
    }
}

pub open spec fn inline_spec(s: Seq<char>) -> Seq<char> {
    inline_from(s, 0)
}

/// Inline markup (see [`inline_from`]).
pub fn inline(s: &[char]) -> (out: Vec<char>)
    ensures
        out@ == inline_spec(s@),
{
    let mut out: Vec<char> = Vec::new();
    let n = s.len();
    let mut i: usize = 0;
    while i < n
        invariant
            n == s@.len(),
            i <= n + 1,
            out@ + inline_from(s@, i as int) == inline_from(s@, 0),
        decreases n + 1 - i,
    {
        let c = s[i];
        let ghost o0 = out@;
        if c == '`' {
            match find(s, i + 1, '`') {
                Some(j) => {
                    push_style(&mut out, 0);
                    let body = copy_range(s, i + 1, j);
                    push_all(&mut out, body.as_slice());
                    push_reset(&mut out);
                    assert(out@ + inline_from(s@, j + 1) =~= o0 + inline_from(s@, i as int));
                    i = j + 1;
                },
                None => {
                    out.push(c);
                    assert(out@ + inline_from(s@, i + 1) =~= o0 + inline_from(s@, i as int));
                    i = i + 1;
                },
            }
        } else if c == '*' && i + 1 < n && s[i + 1] == '*' {
            match find2(s, i + 2) {
                Some(j) => {
                    push_style(&mut out, 1);
                    let body = copy_range(s, i + 2, j);
                    push_all(&mut out, body.as_slice());
                    push_reset(&mut out);
                    assert(out@ + inline_from(s@, j + 2) =~= o0 + inline_from(s@, i as int));
                    i = j + 2;
                },
                None => {
                    out.push(c);
                    assert(out@ + inline_from(s@, i + 1) =~= o0 + inline_from(s@, i as int));
                    i = i + 1;
                },
            }
        } else if c == '*' {
            match find(s, i + 1, '*') {
                Some(j) => {
                    push_style(&mut out, 2);
                    let body = copy_range(s, i + 1, j);
                    push_all(&mut out, body.as_slice());
                    push_reset(&mut out);
                    assert(out@ + inline_from(s@, j + 1) =~= o0 + inline_from(s@, i as int));
                    i = j + 1;
                },
                None => {
                    out.push(c);
                    assert(out@ + inline_from(s@, i + 1) =~= o0 + inline_from(s@, i as int));
                    i = i + 1;
                },
            }
        } else if c == '[' {
            match find(s, i + 1, ']') {
                Some(j) => {
                    let text = copy_range(s, i + 1, j);
                    push_all(&mut out, text.as_slice());
                    let p = if j + 1 < n && s[j + 1] == '(' {
                        find(s, j + 2, ')')
                    } else {
                        None
                    };
                    match p {
                        Some(p) => {
                            assert(out@ + inline_from(s@, p + 1) =~= o0 + inline_from(
                                s@,
                                i as int,
                            ));
                            i = p + 1;
                        },
                        None => {
                            assert(out@ + inline_from(s@, j as int) =~= o0 + inline_from(
                                s@,
                                i as int,
                            ));
                            i = j;
                        },
                    }
                },
                None => {
                    out.push(c);
                    assert(out@ + inline_from(s@, i + 1) =~= o0 + inline_from(s@, i as int));
                    i = i + 1;
                },
            }
        } else {
            out.push(c);
            assert(out@ + inline_from(s@, i + 1) =~= o0 + inline_from(s@, i as int));
            i = i + 1;
        }
    }
    assert(inline_from(s@, i as int) =~= Seq::<char>::empty());
    assert(out@ =~= inline_from(s@, 0));
    out
}

/// `s` starts with `p`.
pub open spec fn starts(s: Seq<char>, p: Seq<char>) -> bool {
    p.len() <= s.len() && s.take(p.len() as int) == p
}

pub open spec fn is_ascii_digit(c: char) -> bool {
    '0' <= c <= '9'
}

/// Number of leading ASCII digits of `s` from index `i`.
pub open spec fn digits_end(s: Seq<char>, i: int) -> int
    decreases s.len() - i,
{
    if i < 0 || i >= s.len() || !is_ascii_digit(s[i]) {
        i
    } else {
        digits_end(s, i + 1)
    }
}

pub open spec fn nl() -> Seq<char> {
    seq!['\n']
}

/// A heading line in style `k`.
pub open spec fn heading(body: Seq<char>, k: int) -> Seq<char> {
    style(k) + inline_spec(body) + reset() + nl()
}

pub open spec fn dashes(n: nat) -> Seq<char> {
    Seq::new(n, |i: int| '-')
}

/// Output of a block-level line (after trimming), or `None` for a line of
/// a paragraph: `#`/`##`/`###` headings, `-`/`*` list items (bullet),
/// `>` quotes, `1. ` numbered items (number dropped).
pub open spec fn block_spec(t: Seq<char>) -> Option<Seq<char>> {
    if starts(t, seq!['#', '#', '#']) {
        Some(heading(trim(t.skip(3)), 5))
    } else if starts(t, seq!['#', '#']) {
        Some(heading(trim(t.skip(2)), 4))
    } else if starts(t, seq!['#']) {
        Some(heading(trim(t.skip(1)), 3))
    } else if t.len() > 0 && (t[0] == '-' || t[0] == '*') {
        Some(seq![' ', ' ', '•', ' '] + inline_spec(trim(t.skip(1))) + nl())
    } else if t.len() > 0 && t[0] == '>' {
        Some(seq![' ', ' ', '│', ' '] + inline_spec(trim(t.skip(1))) + reset() + nl())
    } else if trim_end(t) == seq!['-', '-', '-'] || trim_end(t) == seq!['*', '*', '*'] {
        Some(dashes(48) + nl())
    } else if t.len() > 0 && is_ascii_digit(t[0]) {
        let r = t.skip(digits_end(t, 0));
        if r.len() >= 2 && r[0] == '.' && r[1] == ' ' {
            Some(seq![' ', ' '] + inline_spec(trim(r.skip(2))) + nl())
        } else {
            None
        }
    } else {
        None
    }
}

/// Paragraph lines joined by newlines.
pub open spec fn join_nl(ps: Seq<Seq<char>>) -> Seq<char>
    decreases ps.len(),
{
    if ps.len() == 0 {
        Seq::empty()
    } else if ps.len() == 1 {
        ps[0]
    } else {
        join_nl(ps.drop_last()) + nl() + ps.last()
    }
}

/// A finished paragraph: its trimmed text with inline markup and a blank
/// line; nothing for an empty paragraph.
pub open spec fn flush_text(ps: Seq<Seq<char>>) -> Seq<char> {
    let text = trim(join_nl(ps));
    if text.len() > 0 {
        inline_spec(text) + nl() + nl()
    } else {
        Seq::empty()
    }
}

/// Renderer state between lines.
pub struct MdState {
    pub out: Seq<char>,
    pub para: Seq<Seq<char>>,
    pub fence: bool,
}

/// One line: a fence marker flushes the paragraph and opens or closes a
/// code block; lines of a code block are styled as code; block lines are
/// written at once; other non-blank lines join the paragraph.
pub open spec fn md_step(st: MdState, raw: Seq<char>) -> MdState {
    let line = trim_end(raw);
    let t = trim(line);
    if starts(t, seq!['`', '`', '`']) {
        MdState { out: st.out + flush_text(st.para), para: Seq::empty(), fence: !st.fence }
    } else if st.fence {
        MdState { out: st.out + style(0) + t + reset() + nl(), ..st }
    } else {
        match block_spec(t) {
            Some(b) => MdState { out: st.out + b, ..st },
            None => if t.len() > 0 {
                MdState { para: st.para.push(line), ..st }
            } else {
                st
            },
        }
    }
}

pub open spec fn md_fold(st: MdState, ls: Seq<Seq<char>>) -> MdState
    decreases ls.len(),
{
    if ls.len() == 0 {
        st
    } else {
        md_fold(md_step(st, ls[0]), ls.drop_first())
    }
}

/// End of input: the last paragraph, and a newline after an open fence.
pub open spec fn md_finish(st: MdState) -> Seq<char> {
    st.out + flush_text(st.para) + (if st.fence {
        nl()
    } else {
        Seq::empty()
    })
}

/// A line without its `\r\n` / `\n` ending.
pub open spec fn strip_cr(l: Seq<char>) -> Seq<char> {
    if l.len() > 0 && l.last() == '\r' {
        l.drop_last()
    } else {
        l
    }
}

/// The lines of `s` (as `str::lines` gives them).
pub open spec fn lines_of(s: Seq<char>) -> Seq<Seq<char>>
    decreases s.len(),
{
    if s.len() == 0 {
        Seq::empty()
    } else {
        let i = find_char(s, 0, '\n');
        if 0 <= i < s.len() {
            seq![strip_cr(s.take(i))] + lines_of(s.skip(i + 1))
        } else {
            seq![s]
        }
    }
}

/// The rendering of `md`: unchanged without color.
pub open spec fn render_spec(md: Seq<char>, color: bool) -> Seq<char> {
    if !color {
        md
    } else {
        md_finish(md_fold(MdState { out: Seq::empty(), para: Seq::empty(), fence: false }, lines_of(md)))
    }
}

pub(crate) proof fn lemma_find_skip(s: Seq<char>, k: int, c: char, i: int)
    requires
        0 <= k <= i,
        k <= s.len(),
    ensures
        find_char(s.skip(k), i - k, c) == (if find_char(s, i, c) < 0 {
            -1
        } else {
            find_char(s, i, c) - k
        }),
    decreases s.len() - i,
{
    if i < s.len() {
        assert(s.skip(k)[i - k] == s[i]);
        lemma_find_skip(s, k, c, i + 1);
    }
}

pub(crate) proof fn lemma_find_bounds(s: Seq<char>, i: int, c: char)
    requires
        0 <= i,
    ensures
        find_char(s, i, c) == -1 || (i <= find_char(s, i, c) < s.len() && s[find_char(s, i, c)]
            == c),
    decreases s.len() - i,
{
    if i < s.len() {
        lemma_find_bounds(s, i + 1, c);
    }
}

pub(crate) fn starts_with(t: &[char], p: &[char]) -> (b: bool)
    ensures
        b == starts(t@, p@),
{
    if p.len() > t.len() {
        return false;
    }
    let mut i: usize = 0;
    while i < p.len()
        invariant
            p@.len() <= t@.len(),
            i <= p@.len(),
            forall|j: int| 0 <= j < i ==> t@[j] == p@[j],
        decreases p@.len() - i,
    {
        if t[i] != p[i] {
            assert(t@.take(p@.len() as int)[i as int] != p@[i as int]);
            return false;
        }
        i = i + 1;
    }
    assert(t@.take(p@.len() as int) =~= p@);
    true
}

pub(crate) fn skip_vec(t: &[char], k: usize) -> (r: Vec<char>)
    requires
        k <= t@.len(),
    ensures
        r@ == t@.skip(k as int),
{
    let r = copy_range(t, k, t.len());
    assert(r@ =~= t@.skip(k as int));
    r
}

pub(crate) fn eq_chars(a: &[char], b: &[char]) -> (r: bool)
    ensures
        r == (a@ == b@),
{
    if a.len() != b.len() {
        return false;
    }
    let mut i: usize = 0;
    while i < a.len()
        invariant
            a@.len() == b@.len(),
            i <= a@.len(),
            forall|j: int| 0 <= j < i ==> a@[j] == b@[j],
        decreases a@.len() - i,
    {
        if a[i] != b[i] {
            return false;
        }
        i = i + 1;
    }
    assert(a@ =~= b@);
    true
}

fn push_heading(out: &mut Vec<char>, t: &[char], k: usize, level: usize)
    requires
        k <= t@.len(),
    ensures
        final(out)@ == old(out)@ + heading(trim(t@.skip(k as int)), level as int),
{
    let body = trim_vec(skip_vec(t, k).as_slice());
    push_style(out, level);
    let b = inline(body.as_slice());
    push_all(out, b.as_slice());
    push_reset(out);
    out.push('\n');
    assert(out@ =~= old(out)@ + heading(trim(t@.skip(k as int)), level as int));
}

/// Write a block-level line (see [`block_spec`]); false for a paragraph line.
fn block(out: &mut Vec<char>, t: &[char]) -> (b: bool)
    ensures
        b == (block_spec(t@) is Some),
        final(out)@ == old(out)@ + (match block_spec(t@) {
            Some(x) => x,
            None => Seq::empty(),
        }),
{
    let h3: [char; 3] = ['#', '#', '#'];
    let h2: [char; 2] = ['#', '#'];
    let h1: [char; 1] = ['#'];
    assert(h3@ =~= seq!['#', '#', '#']);
    assert(h2@ =~= seq!['#', '#']);
    assert(h1@ =~= seq!['#']);
    if starts_with(t, &h3) {
        push_heading(out, t, 3, 5);
        return true;
    }
    if starts_with(t, &h2) {
        push_heading(out, t, 2, 4);
        return true;
    }
    if starts_with(t, &h1) {
        push_heading(out, t, 1, 3);
        return true;
    }
    if t.len() > 0 && (t[0] == '-' || t[0] == '*') {
        let body = trim_vec(skip_vec(t, 1).as_slice());
        let b = inline(body.as_slice());
        out.push(' ');
        out.push(' ');
        out.push('•');
        out.push(' ');
        push_all(out, b.as_slice());
        out.push('\n');
        assert(out@ =~= old(out)@ + block_spec(t@)->0);
        return true;
    }
    if t.len() > 0 && t[0] == '>' {
        let body = trim_vec(skip_vec(t, 1).as_slice());
        let b = inline(body.as_slice());
        out.push(' ');
        out.push(' ');
        out.push('│');
        out.push(' ');
        push_all(out, b.as_slice());
        push_reset(out);
        out.push('\n');
        assert(out@ =~= old(out)@ + block_spec(t@)->0);
        return true;
    }
    let te = trim_end_vec(t);
    let r1: [char; 3] = ['-', '-', '-'];
    let r2: [char; 3] = ['*', '*', '*'];
    assert(r1@ =~= seq!['-', '-', '-']);
    assert(r2@ =~= seq!['*', '*', '*']);
    if eq_chars(te.as_slice(), &r1) || eq_chars(te.as_slice(), &r2) {
        let mut k: usize = 0;
        let ghost o0 = out@;
        while k < 48
            invariant
                k <= 48,
                out@ == o0 + dashes(k as nat),
            decreases 48 - k,
        {
            out.push('-');
            assert(out@ =~= o0 + dashes((k + 1) as nat));
            k = k + 1;
        }
        out.push('\n');
        assert(out@ =~= old(out)@ + block_spec(t@)->0);
        return true;
    }
    if t.len() > 0 && '0' <= t[0] && t[0] <= '9' {
        let mut k: usize = 0;
        while k < t.len() && '0' <= t[k] && t[k] <= '9'
            invariant
                k <= t@.len(),
                digits_end(t@, k as int) == digits_end(t@, 0),
            decreases t@.len() - k,
        {
            k = k + 1;
        }
        let r = skip_vec(t, k);
        if r.len() >= 2 && r[0] == '.' && r[1] == ' ' {
            let body = trim_vec(skip_vec(r.as_slice(), 2).as_slice());
            let b = inline(body.as_slice());
            out.push(' ');
            out.push(' ');
            push_all(out, b.as_slice());
            out.push('\n');
            assert(out@ =~= old(out)@ + block_spec(t@)->0);
            return true;
        }
    }
    assert(out@ =~= old(out)@ + Seq::<char>::empty());
    false
}

pub open spec fn para_view(p: Seq<Vec<char>>) -> Seq<Seq<char>> {
    Seq::new(p.len(), |i: int| p[i]@)
}

fn flush(out: &mut Vec<char>, para: &Vec<Vec<char>>)
    ensures
        final(out)@ == old(out)@ + flush_text(para_view(para@)),
{
    let ghost pv = para_view(para@);
    let mut joined: Vec<char> = Vec::new();
    if para.len() > 0 {
        joined = copy_range(para[0].as_slice(), 0, para[0].len());
        assert(joined@ =~= para@[0]@);
        let mut k: usize = 1;
        assert(pv.take(1) =~= seq![pv[0]]);
        while k < para.len()
            invariant
                1 <= k <= para@.len(),
                pv == para_view(para@),
                joined@ == join_nl(pv.take(k as int)),
            decreases para@.len() - k,
        {
            joined.push('\n');
            push_all(&mut joined, para[k].as_slice());
            assert(pv.take(k + 1).drop_last() =~= pv.take(k as int));
            assert(joined@ =~= join_nl(pv.take(k + 1)));
            k = k + 1;
        }
        assert(pv.take(k as int) =~= pv);
    } else {
        assert(joined@ =~= join_nl(pv));
    }
    let text = trim_vec(joined.as_slice());
    if text.len() > 0 {
        let b = inline(text.as_slice());
        push_all(out, b.as_slice());
        out.push('\n');
        out.push('\n');
        assert(out@ =~= old(out)@ + flush_text(pv));
    } else {
        assert(out@ =~= old(out)@ + flush_text(pv));
    }
}

fn md_line(out: &mut Vec<char>, para: &mut Vec<Vec<char>>, fence: &mut bool, raw: &[char])
    ensures
        md_step(MdState { out: old(out)@, para: para_view(old(para)@), fence: *old(fence) }, raw@)
            == (MdState { out: final(out)@, para: para_view(final(para)@), fence: *final(fence) }),
{
    let line = trim_end_vec(raw);
    let t = trim_vec(line.as_slice());
    let tick: [char; 3] = ['`', '`', '`'];
    assert(tick@ =~= seq!['`', '`', '`']);
    if starts_with(t.as_slice(), &tick) {
        flush(out, para);
        para.clear();
        *fence = !*fence;
        assert(para_view(para@) =~= Seq::<Seq<char>>::empty());
    } else if *fence {
        push_style(out, 0);
        push_all(out, t.as_slice());
        push_reset(out);
        out.push('\n');
        assert(out@ =~= old(out)@ + style(0) + t@ + reset() + nl());
    } else if block(out, t.as_slice()) {
    } else if t.len() > 0 {
        para.push(line);
        assert(para_view(para@) =~= para_view(old(para)@).push(trim_end(raw@)));
    } else {
        assert(out@ =~= old(out)@);
    }
}

/// The line starting at `start` (not past the end) and where the next one
/// starts.
pub(crate) fn next_line(s: &[char], start: usize) -> (r: (Vec<char>, usize))
    requires
        start < s@.len(),
    ensures
        start < r.1 <= s@.len(),
        lines_of(s@.skip(start as int)) == seq![r.0@] + lines_of(s@.skip(r.1 as int)),
{
    let n = s.len();
    let ghost rest = s@.skip(start as int);
    proof {
        lemma_find_skip(s@, start as int, '\n', start as int);
        lemma_find_bounds(s@, start as int, '\n');
    }
    let (raw, next) = match find(s, start, '\n') {
        Some(i) => {
            let mut l = copy_range(s, start, i);
            if l.len() > 0 && l[l.len() - 1] == '\r' {
                l.pop();
            }
            assert(rest.take(i - start) =~= s@.subrange(start as int, i as int));
            assert(l@ =~= strip_cr(rest.take(i - start)));
            assert(rest.skip(i - start + 1) =~= s@.skip(i + 1));
            (l, i + 1)
        },
        None => {
            let l = copy_range(s, start, n);
            assert(l@ =~= rest);
            assert(s@.skip(n as int) =~= Seq::<char>::empty());
            (l, n)
        },
    };
    (raw, next)
}

/// Convert markdown to ANSI-styled text (see [`render_spec`]); without
/// color the text comes back unchanged.
pub fn markdown_to_ansi(md: &str, color: bool) -> (r: String)
    ensures
        r@ == render_spec(md@, color),
{
    broadcast use vstd::string::group_string_axioms;

    if !color {
        return md.to_string();
    }
    let mut s: Vec<char> = Vec::new();
    for c in it: md.chars()
        invariant
            s@.len() == it.index(),
            forall|j: int| 0 <= j < it.index() ==> s@[j] == it.seq()[j],
    {
        s.push(c);
    }
    assert(s@ =~= md@);
    let n = s.len();
    let mut out: Vec<char> = Vec::new();
    let mut para: Vec<Vec<char>> = Vec::new();
    let mut fence = false;
    let mut start: usize = 0;
    assert(s@.skip(0) =~= s@);
    assert(para_view(para@) =~= Seq::<Seq<char>>::empty());
    while start < n
        invariant
            n == s@.len(),
            start <= n,
            md_finish(
                md_fold(
                    MdState { out: out@, para: para_view(para@), fence },
                    lines_of(s@.skip(start as int)),
                ),
            ) == render_spec(s@, true),
        decreases n - start,
    {
        let (raw, next) = next_line(s.as_slice(), start);
        assert((seq![raw@] + lines_of(s@.skip(next as int))).drop_first() =~= lines_of(
            s@.skip(next as int),
        ));
        md_line(&mut out, &mut para, &mut fence, raw.as_slice());
        start = next;
    }
    flush(&mut out, &para);
    if fence {
        out.push('\n');
    }
    assert(out@ =~= render_spec(s@, true));
    crate::text::string_of(out.as_slice())
}

} // verus!
