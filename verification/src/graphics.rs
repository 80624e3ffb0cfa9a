//! Kitty graphics on the terminal: transmission (chunked) into the image
//! registry, placement over grid cells, deletion.

use std::sync::Arc;
use vstd::prelude::*;
use vstd::std_specs::hash::spec_keys_iter;
use crate::dispatch::next_id;
use crate::grid::{grid_place, grid_unplace, GridView};
use crate::kitty::{
    apc_action, apc_data, apc_header, header_fold, parse_apc, KittyAction, KittyCommand,
    KittyFormat, KittyImage, PendingChunk,
};
use crate::terminal::{
    dirty_with_range, max_us, min_us, sat_sub, ChunkView, EventView, ImageView, TermView,
    Terminal, TerminalEvent,
};
use crate::text::split_on;

verus! {

broadcast use vstd::std_specs::hash::group_hash_axioms;

/// Model of a parsed kitty command.
pub struct CmdView {
    pub action: KittyAction,
    pub format: KittyFormat,
    pub image_id: Option<u32>,
    pub more: i8,
    pub x: Option<u32>,
    pub y: Option<u32>,
    pub cols: u32,
    pub rows: u32,
    pub width_px: u32,
    pub height_px: u32,
    pub payload: Seq<u8>,
}

pub open spec fn cmd_view(c: KittyCommand) -> CmdView {
    CmdView {
        action: c.action,
        format: c.format,
        image_id: c.image_id,
        more: c.more,
        x: c.x,
        y: c.y,
        cols: c.cols,
        rows: c.rows,
        width_px: c.width_px,
        height_px: c.height_px,
        payload: c.payload@,
    }
}

/// The command an APC's content stands for (see `parse_apc`).
pub open spec fn apc_command(content: Seq<u8>) -> CmdView {
    let h = header_fold(split_on(apc_header(content), 44));
    CmdView {
        action: apc_action(content),
        format: h.format,
        image_id: h.image_id,
        more: h.more,
        x: h.x,
        y: h.y,
        cols: h.cols,
        rows: h.rows,
        width_px: h.width_px,
        height_px: h.height_px,
        payload: apc_data(content),
    }
}

/// Small number of a format, as events report it.
pub open spec fn format_code(f: KittyFormat) -> u8 {
    match f {
        KittyFormat::Png => 1,
        KittyFormat::Jpeg => 2,
        KittyFormat::Gif => 3,
        KittyFormat::Webp => 4,
        KittyFormat::Svg => 5,
        KittyFormat::Avif => 6,
        KittyFormat::Tiff => 7,
        KittyFormat::Rgba => 8,
        KittyFormat::Unknown => 0,
    }
}

fn format_tag(f: KittyFormat) -> (n: u8)
    ensures
        n == format_code(f),
{
    match f {
        KittyFormat::Png => 1,
        KittyFormat::Jpeg => 2,
        KittyFormat::Gif => 3,
        KittyFormat::Webp => 4,
        KittyFormat::Svg => 5,
        KittyFormat::Avif => 6,
        KittyFormat::Tiff => 7,
        KittyFormat::Rgba => 8,
        KittyFormat::Unknown => 0,
    }
}

/// Calls `Arc::clone`: another pointer to the same allocation, hence the
/// same value.
#[verifier::external_body]
fn share(a: &Arc<Vec<u8>>) -> (r: Arc<Vec<u8>>)
    ensures
        r == *a,
{
    Arc::clone(a)
}

/// A finished image entered into the registry, announced by an event
/// carrying its data.
pub open spec fn insert_image(
    s: TermView,
    id: u32,
    format: KittyFormat,
    w: u32,
    h: u32,
    data: Seq<u8>,
) -> TermView {
    TermView {
        images: s.images.insert(id, ImageView { format, width_px: w, height_px: h, data }),
        events: s.events.push(
            EventView::KittyImage { id, format: format_code(format), width_px: w, height_px: h, data },
        ),
        ..s
    }
}

/// Placement of image `id`: at `X`/`Y` (1-based) when both are given, else
/// at the cursor; `c` x `r` cells (at least 1), cut at the screen's edge.
/// The covered cells show the image, the region becomes dirty and an event
/// reports it. An unknown image, or no room, changes nothing.
pub open spec fn place_spec(
    s: TermView,
    id: u32,
    ix: Option<u32>,
    iy: Option<u32>,
    icols: u32,
    irows: u32,
) -> TermView {
    if !s.images.contains_key(id) {
        s
    } else {
        let (x, y, w, h) = placement(s.cursor.x, s.cursor.y, s.config.cols, s.config.rows, ix, iy, icols, irows);
        if w == 0 || h == 0 {
            s
        } else {
            placed(s, id, x, y, w, h)
        }
    }
}

/// Origin and size `(x, y, w, h)` of a placement (see [`place_spec`]).
pub open spec fn placement(
    cx: usize,
    cy: usize,
    cols: usize,
    rows: usize,
    ix: Option<u32>,
    iy: Option<u32>,
    icols: u32,
    irows: u32,
) -> (usize, usize, usize, usize) {
    let x: usize = match (ix, iy) {
        (Some(a), Some(b)) => min_us(sat_sub(a as usize, 1), (cols - 1) as usize),
        _ => cx,
    };
    let y: usize = match (ix, iy) {
        (Some(a), Some(b)) => min_us(sat_sub(b as usize, 1), (rows - 1) as usize),
        _ => min_us(cy, (rows - 1) as usize),
    };
    let w = min_us(max_us(icols as usize, 1), sat_sub(cols, x));
    let h = min_us(max_us(irows as usize, 1), sat_sub(rows, y));
    (x, y, w, h)
}

/// Image `id` shown over `w` x `h` cells from `(x, y)`.
pub open spec fn placed(s: TermView, id: u32, x: usize, y: usize, w: usize, h: usize) -> TermView {
    TermView {
        grid: grid_place(s.grid, x as int, x + w, y as int, y + h, id),
        dirty_rect: dirty_with_range(s, x, y, w, h),
        events: s.events.push(EventView::KittyPlaced { id, x, y, cols: w, rows: h }),
        ..s
    }
}

fn placement_of(
    cx: usize,
    cy: usize,
    cols: usize,
    rows: usize,
    ix: Option<u32>,
    iy: Option<u32>,
    icols: u32,
    irows: u32,
) -> (r: (usize, usize, usize, usize))
    requires
        cols >= 1,
        rows >= 1,
    ensures
        r == placement(cx, cy, cols, rows, ix, iy, icols, irows),
        r.2 > 0 ==> r.0 + r.2 <= cols,
        r.3 > 0 ==> r.1 + r.3 <= rows,
{
    let (x, y): (usize, usize) = match (ix, iy) {
        (Some(a), Some(b)) => {
            let a = a as usize;
            let b = b as usize;
            let a1 = if a >= 1 { a - 1 } else { 0 };
            let b1 = if b >= 1 { b - 1 } else { 0 };
            (if a1 <= cols - 1 { a1 } else { cols - 1 }, if b1 <= rows - 1 { b1 } else { rows - 1 })
        },
        _ => (cx, if cy <= rows - 1 { cy } else { rows - 1 }),
    };
    let c0 = icols as usize;
    let r0 = irows as usize;
    let want_w = if c0 >= 1 { c0 } else { 1 };
    let want_h = if r0 >= 1 { r0 } else { 1 };
    let room_w = if cols >= x { cols - x } else { 0 };
    let room_h = if rows >= y { rows - y } else { 0 };
    let w = if want_w <= room_w { want_w } else { room_w };
    let h = if want_h <= room_h { want_h } else { room_h };
    (x, y, w, h)
}

/// Id of a transmission: `q=`, else that of the chunked image in progress,
/// else the next automatic id.
pub open spec fn transmit_id(s: TermView, c: CmdView) -> u32 {
    match c.image_id {
        Some(i) => i,
        None => match s.pending_chunk {
            Some(pc) => pc.image_id,
            None => next_id(s.next_image),
        },
    }
}

/// Transmission of one chunk: appended to the chunk in progress (whose bytes
/// are dropped when its id differs), or starting one. The last chunk
/// (`m` <= 0) completes the image (format and size from this chunk when
/// given, else from the first); `a=T` also places it.
pub open spec fn transmit_spec(s: TermView, c: CmdView) -> TermView {
    let id = transmit_id(s, c);
    let s1 = TermView {
        next_image: if c.image_id is None && s.pending_chunk is None {
            next_id(s.next_image)
        } else {
            s.next_image
        },
        pending_chunk: None,
        ..s
    };
    let done = c.more <= 0;
    let s2 = match s.pending_chunk {
        Some(pc) => {
            let bytes = (if pc.image_id != id {
                Seq::empty()
            } else {
                pc.bytes
            }) + c.payload;
            if done {
                insert_image(
                    s1,
                    id,
                    if c.format != KittyFormat::Unknown {
                        c.format
                    } else {
                        pc.format
                    },
                    if c.width_px > 0 {
                        c.width_px
                    } else {
                        pc.width_px
                    },
                    if c.height_px > 0 {
                        c.height_px
                    } else {
                        pc.height_px
                    },
                    bytes,
                )
            } else {
                TermView { pending_chunk: Some(ChunkView { bytes, ..pc }), ..s1 }
            }
        },
        None => if done {
            insert_image(s1, id, c.format, c.width_px, c.height_px, c.payload)
        } else {
            TermView {
                pending_chunk: Some(
                    ChunkView {
                        bytes: c.payload,
                        format: c.format,
                        width_px: c.width_px,
                        height_px: c.height_px,
                        image_id: id,
                    },
                ),
                ..s1
            }
        },
    };
    if c.action == KittyAction::TransmitAndPlace {
        place_spec(s2, id, c.x, c.y, c.cols, c.rows)
    } else {
        s2
    }
}

/// Grid freed from each image of `ids`, in order.
pub open spec fn unplace_all(g: GridView, ids: Seq<u32>) -> GridView
    decreases ids.len(),
{
    if ids.len() == 0 {
        g
    } else {
        grid_unplace(unplace_all(g, ids.drop_last()), ids.last())
    }
}

pub open spec fn deleted_events(ids: Seq<u32>) -> Seq<EventView> {
    Seq::new(ids.len(), |i: int| EventView::KittyDeleted { id: ids[i] })
}

/// `order` lists each id of `dom` exactly once.
pub open spec fn is_enumeration(order: Seq<u32>, dom: Set<u32>) -> bool {
    order.no_duplicates() && order.to_set() == dom
}

/// Deletion: by id (when registered: its cells freed, an event), or of
/// every image, reported in `order`; any chunk in progress is dropped.
pub open spec fn delete_spec(s: TermView, image_id: Option<u32>, order: Seq<u32>) -> TermView {
    match image_id {
        Some(id) => if s.images.contains_key(id) {
            TermView {
                images: s.images.remove(id),
                grid: grid_unplace(s.grid, id),
                events: s.events.push(EventView::KittyDeleted { id }),
                pending_chunk: None,
                ..s
            }
        } else {
            TermView { pending_chunk: None, ..s }
        },
        None => TermView {
            images: Map::empty(),
            grid: unplace_all(s.grid, order),
            events: s.events + deleted_events(order),
            pending_chunk: None,
            ..s
        },
    }
}

/// Whether `order` is an admissible report order for command `c`: only a
/// delete-all reports, each registered image once.
pub open spec fn order_ok(s: TermView, c: CmdView, order: Seq<u32>) -> bool {
    c.action == KittyAction::Delete && c.image_id is None ==> is_enumeration(
        order,
        s.images.dom(),
    )
}

/// A kitty command. A place without `q=` uses the last automatic id;
/// queries and unknown actions change nothing.
pub open spec fn apc_spec(s: TermView, c: CmdView, order: Seq<u32>) -> TermView {
    match c.action {
        KittyAction::Transmit | KittyAction::TransmitAndPlace => transmit_spec(s, c),
        KittyAction::Place => place_spec(
            s,
            match c.image_id {
                Some(i) => i,
                None => s.next_image,
            },
            c.x,
            c.y,
            c.cols,
            c.rows,
        ),
        KittyAction::Delete => delete_spec(s, c.image_id, order),
        _ => s,
    }
}

impl Terminal {
    fn insert_done(&mut self, id: u32, format: KittyFormat, w: u32, h: u32, bytes: Vec<u8>)
        requires
            old(self).wf(),
        ensures
            final(self).wf(),
            final(self)@ == insert_image(old(self)@, id, format, w, h, bytes@),
    {
        let data = Arc::new(bytes);
        let img = KittyImage { format, width_px: w, height_px: h, data: share(&data) };
        self.images.insert(id, img);
        self.events.push_back(
            TerminalEvent::KittyImage { id, format: format_tag(format), width_px: w, height_px: h, data },
        );
        assert(self@.images =~= old(self)@.images.insert(
            id,
            ImageView { format, width_px: w, height_px: h, data: bytes@ },
        ));
        assert(self@.events =~= old(self)@.events.push(
            EventView::KittyImage {
                id,
                format: format_code(format),
                width_px: w,
                height_px: h,
                data: bytes@,
            },
        ));
    }

    fn mark_dirty_range(&mut self, x: usize, y: usize, cols: usize, rows: usize)
        requires
            old(self).wf(),
            x + cols <= usize::MAX,
            y + rows <= usize::MAX,
        ensures
            final(self).wf(),
            final(self)@ == (TermView {
                dirty_rect: dirty_with_range(old(self)@, x, y, cols, rows),
                ..old(self)@
            }),
    {
        let sc = self.cols();
        let sr = self.rows();
        let x1 = if x <= sc { x } else { sc };
        let y1 = if y <= sr { y } else { sr };
        let x2 = if x + cols <= sc { x + cols } else { sc };
        let y2 = if y + rows <= sr { y + rows } else { sr };
        self.mark_dirty(x1, y1);
        self.mark_dirty(if x2 == 0 { 0 } else { x2 - 1 }, if y2 == 0 { 0 } else { y2 - 1 });
    }

    /// Place image `id` (see [`place_spec`]).
    fn kitty_place_at(&mut self, id: u32, ix: Option<u32>, iy: Option<u32>, icols: u32, irows: u32)
        requires
            old(self).wf(),
        ensures
            final(self).wf(),
            final(self)@ == place_spec(old(self)@, id, ix, iy, icols, irows),
    {
        if !self.images.contains_key(&id) {
            return ;
        }
        let (x, y, w, h) = placement_of(
            self.cursor.x,
            self.cursor.y,
            self.cols(),
            self.rows(),
            ix,
            iy,
            icols,
            irows,
        );
        if w == 0 || h == 0 {
            return ;
        }
        self.show_image(id, x, y, w, h);
    }

    fn show_image(&mut self, id: u32, x: usize, y: usize, w: usize, h: usize)
        requires
            old(self).wf(),
            x + w <= old(self).config.cols,
            y + h <= old(self).config.rows,
        ensures
            final(self).wf(),
            final(self)@ == placed(old(self)@, id, x, y, w, h),
    {
        self.grid.place_image(x, x + w, y, y + h, id);
        self.mark_dirty_range(x, y, w, h);
        self.events.push_back(TerminalEvent::KittyPlaced { id, x, y, cols: w, rows: h });
        assert(self@.events =~= old(self)@.events.push(
            EventView::KittyPlaced { id, x, y, cols: w, rows: h },
        ));
    }
}

impl Terminal {
    /// Transmission of one chunk (see [`transmit_spec`]).
    fn kitty_transmit(&mut self, cmd: KittyCommand)
        requires
            old(self).wf(),
        ensures
            final(self).wf(),
            final(self)@ == transmit_spec(old(self)@, cmd_view(cmd)),
    {
        let ghost c = cmd_view(cmd);
        let id: u32 = match cmd.image_id {
            Some(i) => i,
            None => match &self.pending_chunk {
                Some(pc) => pc.image_id,
                None => {
                    self.next_image = if self.next_image == u32::MAX {
                        0
                    } else {
                        self.next_image + 1
                    };
                    self.next_image
                },
            },
        };
        let KittyCommand { action, format: fmt, more, x, y, cols, rows, width_px: w, height_px: h, payload, .. } = cmd;
        let done = more <= 0;
        let pending = self.pending_chunk.take();
        let ghost s1 = self@;
        assert(s1 == (TermView {
            next_image: if c.image_id is None && old(self)@.pending_chunk is None {
                next_id(old(self)@.next_image)
            } else {
                old(self)@.next_image
            },
            pending_chunk: None,
            ..old(self)@
        }));
        match pending {
            Some(pc) => {
                let PendingChunk { bytes, format, width_px, height_px, image_id } = pc;
                let mut bytes = if image_id != id {
                    Vec::new()
                } else {
                    bytes
                };
                let mut payload = payload;
                bytes.append(&mut payload);
                if done {
                    let f = if fmt != KittyFormat::Unknown {
                        fmt
                    } else {
                        format
                    };
                    let ww = if w > 0 {
                        w
                    } else {
                        width_px
                    };
                    let hh = if h > 0 {
                        h
                    } else {
                        height_px
                    };
                    self.insert_done(id, f, ww, hh, bytes);
                } else {
                    self.pending_chunk = Some(PendingChunk { bytes, format, width_px, height_px, image_id });
                }
            },
            None => {
                if done {
                    self.insert_done(id, fmt, w, h, payload);
                } else {
                    self.pending_chunk = Some(
                        PendingChunk { bytes: payload, format: fmt, width_px: w, height_px: h, image_id: id },
                    );
                }
            },
        }
        if action == KittyAction::TransmitAndPlace {
            self.kitty_place_at(id, x, y, cols, rows);
        }
    }

    /// Free the cells still showing image `id`.
    fn clear_image_cells(&mut self, id: u32)
        requires
            old(self).wf(),
        ensures
            final(self).wf(),
            final(self)@ == (TermView { grid: grid_unplace(old(self)@.grid, id), ..old(self)@ }),
    {
        self.grid.clear_image(id);
    }

    /// Delete image `image_id`, or every image (see [`delete_spec`]).
    fn kitty_delete(&mut self, image_id: Option<u32>)
        requires
            old(self).wf(),
        ensures
            final(self).wf(),
            exists|order: Seq<u32>|
                #![trigger delete_spec(old(self)@, image_id, order)]
                (image_id is None ==> is_enumeration(order, old(self)@.images.dom()))
                    && final(self)@ == delete_spec(old(self)@, image_id, order),
    {
        match image_id {
            Some(id) => {
                if self.images.remove(&id).is_some() {
                    self.clear_image_cells(id);
                    self.events.push_back(TerminalEvent::KittyDeleted { id });
                    assert(self@.events =~= old(self)@.events.push(EventView::KittyDeleted { id }));
                    assert(self@.images =~= old(self)@.images.remove(id));
                } else {
                    assert(self@.images =~= old(self)@.images);
                }
                self.pending_chunk = None;
                assert(self@ == delete_spec(old(self)@, image_id, Seq::empty()));
            },
            None => {
                let mut ids: Vec<u32> = Vec::new();
                for k in it: self.images.keys()
                    invariant
                        ids@.len() == it.index(),
                        forall|i: int| 0 <= i < it.index() ==> ids@[i] == *it.seq()[i],
                {
                    ids.push(*k);
                }
                let ghost keys = vstd::std_specs::iter::IteratorSpec::remaining(&spec_keys_iter(&old(self).images));
                assert(ids@ =~= keys.unref());
                assert(is_enumeration(ids@, old(self)@.images.dom())) by {
                    assert(old(self)@.images.dom() =~= old(self).images@.dom());
                };
                let mut i: usize = 0;
                while i < ids.len()
                    invariant
                        self.wf(),
                        i <= ids@.len(),
                        self@ == (TermView {
                            grid: unplace_all(old(self)@.grid, ids@.take(i as int)),
                            events: old(self)@.events + deleted_events(ids@.take(i as int)),
                            ..old(self)@
                        }),
                    decreases ids@.len() - i,
                {
                    let id = ids[i];
                    let ghost ev0 = self@.events;
                    self.clear_image_cells(id);
                    self.events.push_back(TerminalEvent::KittyDeleted { id });
                    assert(ids@.take(i + 1).drop_last() =~= ids@.take(i as int));
                    assert(deleted_events(ids@.take(i + 1)) =~= deleted_events(ids@.take(i as int)).push(
                        EventView::KittyDeleted { id },
                    ));
                    assert(self@.events =~= ev0.push(EventView::KittyDeleted { id }));
                    assert(self@.events =~= old(self)@.events + deleted_events(ids@.take(i + 1)));
                    i = i + 1;
                }
                self.images.clear();
                self.pending_chunk = None;
                assert(ids@.take(i as int) =~= ids@);
                assert(self@.images =~= Map::<u32, ImageView>::empty());
                assert(self@ == delete_spec(old(self)@, image_id, ids@));
            },
        }
    }

    /// An APC's content: parsed and carried out (see [`apc_spec`]).
    pub fn apply_apc(&mut self, content: &[u8])
        requires
            old(self).wf(),
        ensures
            final(self).wf(),
            exists|order: Seq<u32>|
                #![trigger apc_spec(old(self)@, apc_command(content@), order)]
                order_ok(old(self)@, apc_command(content@), order) && final(self)@ == apc_spec(
                    old(self)@,
                    apc_command(content@),
                    order,
                ),
    {
        let cmd = parse_apc(content);
        let ghost c = apc_command(content@);
        assert(cmd_view(cmd) == c);
        let action = cmd.action;
        if action == KittyAction::Transmit || action == KittyAction::TransmitAndPlace {
            self.kitty_transmit(cmd);
            assert(order_ok(old(self)@, c, Seq::empty()) && self@ == apc_spec(
                old(self)@,
                c,
                Seq::empty(),
            ));
        } else if action == KittyAction::Place {
            let id = match cmd.image_id {
                Some(i) => i,
                None => self.next_image,
            };
            self.kitty_place_at(id, cmd.x, cmd.y, cmd.cols, cmd.rows);
            assert(order_ok(old(self)@, c, Seq::empty()) && self@ == apc_spec(
                old(self)@,
                c,
                Seq::empty(),
            ));
        } else if action == KittyAction::Delete {
            self.kitty_delete(cmd.image_id);
            let ghost o = choose|o: Seq<u32>|
                (c.image_id is None ==> is_enumeration(o, old(self)@.images.dom())) && self@
                    == delete_spec(old(self)@, c.image_id, o);
            assert(order_ok(old(self)@, c, o) && self@ == apc_spec(old(self)@, c, o));
        } else {
            assert(order_ok(old(self)@, c, Seq::empty()) && self@ == apc_spec(
                old(self)@,
                c,
                Seq::empty(),
            ));
        }
    }
}

} // verus!
