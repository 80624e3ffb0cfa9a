//! Kitty graphics protocol, minimal subset: transmit, transmit+place, place,
//! delete, query (ignored). Parses the content of an APC `ESC _ G ... ESC \`.
//!
//! Supported:
//! - `a=t` (transmit, chunked with `m=1..m=0`, base64 payload)
//! - `a=T` (transmit + place at the cursor or `X`/`Y`)
//! - `a=p` (place an image already transmitted, `q=`)
//! - `a=d` (delete `q=<id>`, or all images when there is no id)
//! - `a=q` (query: ignored)
//!
//! Not supported: compression `o=`, frames `a=f`, animation; such data is
//! tagged and passed on as it is.

use std::sync::Arc;
use vstd::prelude::*;
use crate::text::{
    lossy_utf8_bytes, utf8_lossy,
    find_byte, first_index, lemma_first_index, parse_i32, parse_i32_bytes, parse_i8, parse_i8_bytes,
    parse_u32, parse_u32_bytes, slice_from, split_bytes, split_on, trim_end_crlf, trimmed_crlf_len, views,
};

verus! {

/// Image format announced by `f=`.
#[derive(Debug, Clone, Copy, PartialEq, Eq, Structural)]
pub enum KittyFormat {
    Png,
    Jpeg,
    Gif,
    Webp,
    Svg,
    Avif,
    Tiff,
    Rgba,
    Unknown,
}

/// Action requested by an APC.
#[derive(Debug, Clone, Copy, PartialEq, Eq, Structural)]
pub enum KittyAction {
    Transmit,
    TransmitAndPlace,
    Place,
    Delete,
    Query,
    Ignore,
}

/// Format named by an `f=` value: the classic kitty numbers or a name.
pub open spec fn format_of(v: Seq<u8>) -> KittyFormat {
    if v == seq![112u8, 110, 103] || v == seq![49u8, 48, 48] {
        KittyFormat::Png  // "png" | "100"
    } else if v == seq![106u8, 112, 101, 103] || v == seq![106u8, 112, 103] || v == seq![
        49u8,
        48,
        49,
    ] {
        KittyFormat::Jpeg  // "jpeg" | "jpg" | "101"
    } else if v == seq![103u8, 105, 102] || v == seq![49u8, 48, 50] {
        KittyFormat::Gif  // "gif" | "102"
    } else if v == seq![119u8, 101, 98, 112] || v == seq![49u8, 48, 51] {
        KittyFormat::Webp  // "webp" | "103"
    } else if v == seq![115u8, 118, 103] || v == seq![49u8, 48, 52] {
        KittyFormat::Svg  // "svg" | "104"
    } else if v == seq![97u8, 118, 105, 102] || v == seq![49u8, 48, 53] {
        KittyFormat::Avif  // "avif" | "105"
    } else if v == seq![116u8, 105, 102, 102] || v == seq![49u8, 48, 54] {
        KittyFormat::Tiff  // "tiff" | "106"
    } else if v == seq![114u8] || v == seq![114u8, 103, 98, 97] || v == seq![113u8] {
        KittyFormat::Rgba  // "r" | "rgba" | "q"
    } else {
        KittyFormat::Unknown
    }
}

/// Action named by an `a=` value; anything else is ignored.
pub open spec fn action_of(v: Seq<u8>) -> KittyAction {
    if v == seq![116u8] {
        KittyAction::Transmit  // "t"
    } else if v == seq![84u8] {
        KittyAction::TransmitAndPlace  // "T"
    } else if v == seq![112u8] {
        KittyAction::Place  // "p"
    } else if v == seq![100u8] {
        KittyAction::Delete  // "d"
    } else if v == seq![113u8] {
        KittyAction::Query  // "q"
    } else {
        KittyAction::Ignore
    }
}

/// Byte-wise equality.
pub fn eq_bytes(a: &[u8], b: &[u8]) -> (r: bool)
    ensures
        r == (a@ == b@),
{
    if a.len() != b.len() {
        return false;
    }
    let mut i: usize = 0;
    while i < a.len()
        invariant
            a@.len() == b@.len(),
            i <= a@.len(),
            forall|j: int| 0 <= j < i ==> a@[j] == b@[j],
        decreases a@.len() - i,
    {
        if a[i] != b[i] {
            return false;
        }
        i = i + 1;
    }
    assert(a@ =~= b@);
    true
}

/// `v` equals the one-byte string `a`.
fn eq1(v: &[u8], a: u8) -> (r: bool)
    ensures
        r == (v@ == seq![a]),
{
    let r = v.len() == 1 && v[0] == a;
    assert(r ==> v@ =~= seq![a]);
    r
}

/// `v` equals the three-byte string `abc`.
fn eq3(v: &[u8], a: u8, b: u8, c: u8) -> (r: bool)
    ensures
        r == (v@ == seq![a, b, c]),
{
    let r = v.len() == 3 && v[0] == a && v[1] == b && v[2] == c;
    assert(r ==> v@ =~= seq![a, b, c]);
    r
}

/// `v` equals the four-byte string `abcd`.
fn eq4(v: &[u8], a: u8, b: u8, c: u8, d: u8) -> (r: bool)
    ensures
        r == (v@ == seq![a, b, c, d]),
{
    let r = v.len() == 4 && v[0] == a && v[1] == b && v[2] == c && v[3] == d;
    assert(r ==> v@ =~= seq![a, b, c, d]);
    r
}

impl KittyFormat {
    /// Format for an `f=` header value (classic kitty numbers and names).
    pub fn from_header(v: &[u8]) -> (f: KittyFormat)
        ensures
            f == format_of(v@),
    {
        if eq3(v, 112, 110, 103) || eq3(v, 49, 48, 48) {
            KittyFormat::Png
        } else if eq4(v, 106, 112, 101, 103) || eq3(v, 106, 112, 103)
            || eq3(v, 49, 48, 49) {
            KittyFormat::Jpeg
        } else if eq3(v, 103, 105, 102) || eq3(v, 49, 48, 50) {
            KittyFormat::Gif
        } else if eq4(v, 119, 101, 98, 112) || eq3(v, 49, 48, 51) {
            KittyFormat::Webp
        } else if eq3(v, 115, 118, 103) || eq3(v, 49, 48, 52) {
            KittyFormat::Svg
        } else if eq4(v, 97, 118, 105, 102) || eq3(v, 49, 48, 53) {
            KittyFormat::Avif
        } else if eq4(v, 116, 105, 102, 102) || eq3(v, 49, 48, 54) {
            KittyFormat::Tiff
        } else if eq1(v, 114u8) || eq4(v, 114, 103, 98, 97) || eq1(v, 113u8) {
            KittyFormat::Rgba
        } else {
            KittyFormat::Unknown
        }
    }
}

fn action_from(v: &[u8]) -> (a: KittyAction)
    ensures
        a == action_of(v@),
{
    if eq1(v, 116u8) {
        KittyAction::Transmit
    } else if eq1(v, 84u8) {
        KittyAction::TransmitAndPlace
    } else if eq1(v, 112u8) {
        KittyAction::Place
    } else if eq1(v, 100u8) {
        KittyAction::Delete
    } else if eq1(v, 113u8) {
        KittyAction::Query
    } else {
        KittyAction::Ignore
    }
}

/// One parsed kitty APC.
#[derive(Debug, Clone)]
pub struct KittyCommand {
    pub action: KittyAction,
    /// `f=` format (for transmit).
    pub format: KittyFormat,
    /// `q=` image id (auto-assigned when absent).
    pub image_id: Option<u32>,
    /// `i=` image number (delete-all = -1).
    pub image_no: Option<i32>,
    /// `m=` more: 0 last chunk, 1 more follows, -1 direct (raw) payload.
    pub more: i8,
    /// `X=`/`Y=` placement (1-based, optional).
    pub x: Option<u32>,
    pub y: Option<u32>,
    /// `c=`/`r=` cells covered.
    pub cols: u32,
    pub rows: u32,
    /// `s=`/`v=` size in pixels (metadata).
    pub width_px: u32,
    pub height_px: u32,
    /// `A=1` asks for a reply.
    pub want_reply: bool,
    /// Payload after `;` (base64-decoded for transmit).
    pub payload: Vec<u8>,
}

/// The header fields of an APC (`k=v,...` before the first `;`).
pub struct KittyHeader {
    pub action: Option<KittyAction>,
    pub format: KittyFormat,
    pub image_id: Option<u32>,
    pub image_no: Option<i32>,
    pub more: i8,
    pub x: Option<u32>,
    pub y: Option<u32>,
    pub cols: u32,
    pub rows: u32,
    pub width_px: u32,
    pub height_px: u32,
    pub want_reply: bool,
}

pub open spec fn header_init() -> KittyHeader {
    KittyHeader {
        action: None,
        format: KittyFormat::Unknown,
        image_id: None,
        image_no: None,
        more: 0,
        x: None,
        y: None,
        cols: 0,
        rows: 0,
        width_px: 0,
        height_px: 0,
        want_reply: false,
    }
}

pub open spec fn at_least_1(n: u32) -> u32 {
    if n < 1 {
        1
    } else {
        n
    }
}

/// Header after one `k=v` item (items without `=` change nothing; the value
/// is everything after the first `=`).
pub open spec fn apply_kv(h: KittyHeader, item: Seq<u8>) -> KittyHeader {
    let e = first_index(item, 61);
    if e < 0 {
        h
    } else {
        let k = item.take(e);
        let v = item.skip(e + 1);
        if k == seq![97u8] {
            KittyHeader { action: Some(action_of(v)), ..h }  // a
        } else if k == seq![102u8] {
            KittyHeader { format: format_of(v), ..h }  // f
        } else if k == seq![113u8] {
            KittyHeader { image_id: parse_u32(v), ..h }  // q
        } else if k == seq![105u8] {
            KittyHeader { image_no: parse_i32(v), ..h }  // i
        } else if k == seq![109u8] {
            KittyHeader {
                more: match parse_i8(v) {
                    Some(m) => m,
                    None => 0,
                },
                ..h
            }  // m
        } else if k == seq![88u8] {
            KittyHeader { x: parse_u32(v), ..h }  // X
        } else if k == seq![89u8] {
            KittyHeader { y: parse_u32(v), ..h }  // Y
        } else if k == seq![99u8] {
            match parse_u32(v) {
                Some(n) => KittyHeader { cols: at_least_1(n), ..h },
                None => h,
            }  // c

        } else if k == seq![114u8] {
            match parse_u32(v) {
                Some(n) => KittyHeader { rows: at_least_1(n), ..h },
                None => h,
            }  // r

        } else if k == seq![115u8] {
            KittyHeader {
                width_px: match parse_u32(v) {
                    Some(n) => n,
                    None => 0,
                },
                ..h
            }  // s
        } else if k == seq![118u8] {
            KittyHeader {
                height_px: match parse_u32(v) {
                    Some(n) => n,
                    None => 0,
                },
                ..h
            }  // v
        } else if k == seq![65u8] {
            KittyHeader { want_reply: v == seq![49u8], ..h }  // A
        } else {
            h
        }
    }
}

/// Header after applying every item in order: later items override earlier.
pub open spec fn header_fold(items: Seq<Seq<u8>>) -> KittyHeader
    decreases items.len(),
{
    if items.len() == 0 {
        header_init()
    } else {
        apply_kv(header_fold(items.drop_last()), items.last())
    }
}

/// Value of a base64 character, -1 outside the alphabet.
pub open spec fn b64_val(c: u8) -> int {
    if 65 <= c <= 90 {
        c - 65
    } else if 97 <= c <= 122 {
        c - 97 + 26
    } else if 48 <= c <= 57 {
        c - 48 + 52
    } else if c == 43 {
        62
    } else if c == 47 {
        63
    } else {
        -1
    }
}

/// Base64 decoder state: bit accumulator, pending bit count, output so far,
/// and whether `=` ended the input.
pub struct B64State {
    pub buf: u32,
    pub bits: u32,
    pub out: Seq<u8>,
    pub done: bool,
}

/// One input byte: `=` ends decoding, bytes outside the alphabet are skipped,
/// each alphabet byte adds 6 bits and every full 8 bits become an output byte.
pub open spec fn b64_step(st: B64State, c: u8) -> B64State {
    if st.done {
        st
    } else if c == 61 {
        B64State { done: true, ..st }
    } else if b64_val(c) < 0 {
        st
    } else {
        let buf = ((st.buf << 6u32) | (b64_val(c) as u32)) as u32;
        let bits = (st.bits + 6) as u32;
        if bits >= 8 {
            let nb = (bits - 8) as u32;
            B64State { buf, bits: nb, out: st.out.push((buf >> nb) as u8), done: false }
        } else {
            B64State { buf, bits, out: st.out, done: false }
        }
    }
}

pub open spec fn b64_run(data: Seq<u8>) -> B64State
    decreases data.len(),
{
    if data.len() == 0 {
        B64State { buf: 0, bits: 0, out: Seq::empty(), done: false }
    } else {
        b64_step(b64_run(data.drop_last()), data.last())
    }
}

/// Bytes decoded from base64 text (padding optional, other bytes ignored).
pub open spec fn spec_b64_decode(data: Seq<u8>) -> Seq<u8> {
    b64_run(data).out
}

fn b64_value(c: u8) -> (v: i8)
    ensures
        v == b64_val(c),
{
    if 65 <= c && c <= 90 {
        (c - 65) as i8
    } else if 97 <= c && c <= 122 {
        (c - 97 + 26) as i8
    } else if 48 <= c && c <= 57 {
        (c - 48 + 52) as i8
    } else if c == 43 {
        62
    } else if c == 47 {
        63
    } else {
        -1
    }
}

/// Decode base64 (padding optional). Enough for image payloads.
///
/// Standard base64 text, padded or not, decodes back to the bytes it
/// encodes (`law_b64_roundtrip`), and whitespace or any other byte outside
/// the alphabet is skipped wherever it stands (`law_b64_skips_other_bytes`).
pub fn b64_decode(data: &[u8]) -> (r: Option<Vec<u8>>)
    ensures
        r is Some,
        r->0@ == spec_b64_decode(data@),
{
    let mut out: Vec<u8> = Vec::new();
    let mut buf: u32 = 0;
    let mut bits: u32 = 0;
    let mut done = false;
    let mut i: usize = 0;
    while i < data.len()
        invariant
            i <= data@.len(),
            b64_run(data@.take(i as int)) == (B64State { buf, bits, out: out@, done }),
            bits < 8,
        decreases data@.len() - i,
    {
        let c = data[i];
        assert(data@.take(i + 1).drop_last() =~= data@.take(i as int));
        if done {
        } else if c == 61 {
            done = true;
        } else {
            let v = b64_value(c);
            if v >= 0 {
                buf = (buf << 6u32) | (v as u32);
                bits = bits + 6;
                if bits >= 8 {
                    bits = bits - 8;
                    out.push((buf >> bits) as u8);
                }
            }
        }
        i = i + 1;
    }
    assert(data@.take(i as int) =~= data@);
    Some(out)
}

/// Header bytes of an APC: everything before the first `;`.
pub open spec fn apc_header(content: Seq<u8>) -> Seq<u8> {
    let s = first_index(content, 59);
    if s < 0 {
        content
    } else {
        content.take(s)
    }
}

/// Payload bytes of an APC: everything after the first `;`.
pub open spec fn apc_payload(content: Seq<u8>) -> Seq<u8> {
    let s = first_index(content, 59);
    if s < 0 {
        Seq::empty()
    } else {
        content.skip(s + 1)
    }
}

/// Action of the parsed command: with no payload the header's action (or
/// `Ignore`); a payload without `a=` is a continuation chunk (`Transmit`).
pub open spec fn apc_action(content: Seq<u8>) -> KittyAction {
    let h = header_fold(split_on(apc_header(content), 44));
    if apc_payload(content).len() == 0 {
        match h.action {
            Some(a) => a,
            None => KittyAction::Ignore,
        }
    } else {
        match h.action {
            Some(a) => a,
            None => KittyAction::Transmit,
        }
    }
}

/// Payload of the parsed command: for transmit actions the base64-decoded
/// payload (CR/LF at its end trimmed), or the raw (lossy UTF-8) payload when
/// `m=-1`; empty otherwise.
pub open spec fn apc_data(content: Seq<u8>) -> Seq<u8> {
    let h = header_fold(split_on(apc_header(content), 44));
    let p = apc_payload(content);
    let t = trim_end_crlf(p);
    if p.len() == 0 {
        Seq::empty()
    } else {
        match h.action {
            Some(KittyAction::Transmit) | Some(KittyAction::TransmitAndPlace) => if h.more == -1 {
                utf8_lossy(t)
            } else {
                spec_b64_decode(t)
            },
            None => spec_b64_decode(t),
            _ => Seq::empty(),
        }
    }
}

/// Parse the content of an APC (between `ESC _` and `ESC \`).
pub fn parse_apc(content: &[u8]) -> (cmd: KittyCommand)
    ensures
        ({
            let h = header_fold(split_on(apc_header(content@), 44));
            &&& cmd.format == h.format
            &&& cmd.image_id == h.image_id
            &&& cmd.image_no == h.image_no
            &&& cmd.more == h.more
            &&& cmd.x == h.x
            &&& cmd.y == h.y
            &&& cmd.cols == h.cols
            &&& cmd.rows == h.rows
            &&& cmd.width_px == h.width_px
            &&& cmd.height_px == h.height_px
            &&& cmd.want_reply == h.want_reply
        }),
        cmd.action == apc_action(content@),
        cmd.payload@ == apc_data(content@),
{
    let (header, payload): (&[u8], &[u8]) = match find_byte(content, 59) {
        Some(s) => {
            proof {
                lemma_first_index(content@, 59);
            }
            let (h, rest) = content.split_at(s);
            let p = slice_from(rest, 1);
            assert(h@ =~= content@.take(s as int));
            assert(p@ =~= content@.skip(s + 1));
            (h, p)
        },
        None => {
            let e = slice_from(content, content.len());
            assert(e@ =~= Seq::<u8>::empty());
            assert(content@ =~= apc_header(content@));
            (content, e)
        },
    };
    let items = split_bytes(header, 44);
    let mut cmd = KittyCommand {
        action: KittyAction::Ignore,
        format: KittyFormat::Unknown,
        image_id: None,
        image_no: None,
        more: 0,
        x: None,
        y: None,
        cols: 0,
        rows: 0,
        width_px: 0,
        height_px: 0,
        want_reply: false,
        payload: Vec::new(),
    };
    let mut action: Option<KittyAction> = None;
    let mut n: usize = 0;
    while n < items.len()
        invariant
            n <= items@.len(),
            views(items@) == split_on(header@, 44),
            ({
                let h = header_fold(views(items@).take(n as int));
                &&& action == h.action
                &&& cmd.format == h.format
                &&& cmd.image_id == h.image_id
                &&& cmd.image_no == h.image_no
                &&& cmd.more == h.more
                &&& cmd.x == h.x
                &&& cmd.y == h.y
                &&& cmd.cols == h.cols
                &&& cmd.rows == h.rows
                &&& cmd.width_px == h.width_px
                &&& cmd.height_px == h.height_px
                &&& cmd.want_reply == h.want_reply
            }),
            cmd.payload@.len() == 0,
        decreases items@.len() - n,
    {
        assert(views(items@).take(n + 1).drop_last() =~= views(items@).take(n as int));
        assert(views(items@).take(n + 1).last() == items@[n as int]@);
        let kv = items[n].as_slice();
        if let Some(e) = find_byte(kv, 61) {
            proof {
                lemma_first_index(kv@, 61);
            }
            let (k, rest) = kv.split_at(e);
            let v = slice_from(rest, 1);
            assert(k@ =~= kv@.take(e as int));
            assert(v@ =~= kv@.skip(e + 1));
            if eq1(k, 97u8) {
                action = Some(action_from(v));
            } else if eq1(k, 102u8) {
                cmd.format = KittyFormat::from_header(v);
            } else if eq1(k, 113u8) {
                cmd.image_id = parse_u32_bytes(v);
            } else if eq1(k, 105u8) {
                cmd.image_no = parse_i32_bytes(v);
            } else if eq1(k, 109u8) {
                cmd.more = match parse_i8_bytes(v) {
                    Some(m) => m,
                    None => 0,
                };
            } else if eq1(k, 88u8) {
                cmd.x = parse_u32_bytes(v);
            } else if eq1(k, 89u8) {
                cmd.y = parse_u32_bytes(v);
            } else if eq1(k, 99u8) {
                if let Some(c) = parse_u32_bytes(v) {
                    cmd.cols = if c < 1 { 1 } else { c };
                }
            } else if eq1(k, 114u8) {
                if let Some(r) = parse_u32_bytes(v) {
                    cmd.rows = if r < 1 { 1 } else { r };
                }
            } else if eq1(k, 115u8) {
                cmd.width_px = match parse_u32_bytes(v) {
                    Some(w) => w,
                    None => 0,
                };
            } else if eq1(k, 118u8) {
                cmd.height_px = match parse_u32_bytes(v) {
                    Some(w) => w,
                    None => 0,
                };
            } else if eq1(k, 65u8) {
                cmd.want_reply = eq1(v, 49u8);
            }
        }
        n = n + 1;
    }
    assert(views(items@).take(n as int) =~= split_on(apc_header(content@), 44));
    if payload.len() == 0 {
        cmd.action = match action {
            Some(a) => a,
            None => KittyAction::Ignore,
        };
        return cmd;
    }
    let tl = trimmed_crlf_len(payload);
    let (trimmed, _) = payload.split_at(tl);
    match action {
        Some(KittyAction::TransmitAndPlace) | Some(KittyAction::Transmit) => {
            cmd.action = match action {
                Some(a) => a,
                None => KittyAction::Transmit,
            };
            if cmd.more == -1 {
                cmd.payload = lossy_utf8_bytes(trimmed);
            } else {
                cmd.payload = match b64_decode(trimmed) {
                    Some(d) => d,
                    None => Vec::new(),
                };
            }
        },
        None => {
            cmd.action = KittyAction::Transmit;
            cmd.payload = match b64_decode(trimmed) {
                Some(d) => d,
                None => Vec::new(),
            };
        },
        Some(a) => {
            cmd.action = a;
        },
    }
    cmd
}

/// A half-transmitted image (chunks `m=1..m=0`).
#[derive(Debug, Clone)]
pub struct PendingChunk {
    pub bytes: Vec<u8>,
    pub format: KittyFormat,
    pub width_px: u32,
    pub height_px: u32,
    pub image_id: u32,
}

/// A complete image in the terminal's registry.
#[derive(Debug, Clone)]
pub struct KittyImage {
    pub format: KittyFormat,
    pub width_px: u32,
    pub height_px: u32,
    pub data: Arc<Vec<u8>>,
}

/// A finished transmission, on its way into the registry.
#[derive(Debug)]
pub struct Completed {
    pub id: u32,
    pub format: KittyFormat,
    pub width_px: u32,
    pub height_px: u32,
    pub bytes: Vec<u8>,
}

} // verus!
