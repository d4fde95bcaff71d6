//! A view that shows a pixmap centred in its rectangle, on white.
use vstd::prelude::*;
use vstd::view::View as _;
use crate::colour::{Colour, WHITE};
use crate::context::{clamp_i32, Context, Setting};
use crate::framebuffer::{
    framed, lemma_painted_on_refl, lemma_painted_on_trans, painted, painted_on, Pixmap, UpdateMode,
};
use crate::geom::{div_trunc, u32_as_i32, Point, Rectangle};
use crate::view::filler::clipped_render_rect;
use crate::view::renderer::{queued, RenderData, RenderQueue};
use crate::view::{following, lemma_sent_nothing, Bus, Event, Hub, Id, IdFeeder, View, ViewId, ViewState};

verus! {

pub struct Image {
    id: Id,
    rect: Rectangle,
    pixmap: Pixmap,
}

/// Where a pixmap of `width` by `height` pixels sits when centred in
/// `rect`: its left, top, right and bottom sides, each cut to 32 bits.
pub open spec fn spec_pixmap_box(rect: Rectangle, width: int, height: int) -> (int, int, int, int) {
    let x0 = clamp_i32(
        rect.min.x + div_trunc(u32_as_i32((rect.spec_width() - width) % 0x1_0000_0000), 2),
    );
    let y0 = clamp_i32(
        rect.min.y + div_trunc(u32_as_i32((rect.spec_height() - height) % 0x1_0000_0000), 2),
    );
    (x0, y0, clamp_i32(x0 + u32_as_i32(width)), clamp_i32(y0 + u32_as_i32(height)))
}

/// The four white bands around the pixmap box and the box itself: above
/// the box up to its right side, left of it down to the bottom, below it
/// from its left side, right of it from the top.
pub open spec fn image_bands(rect: Rectangle, x0: int, y0: int, x1: int, y1: int) -> Seq<Rectangle> {
    let r = |a: int, b: int, c: int, d: int|
        Rectangle {
            min: crate::geom::Point { x: a as i32, y: b as i32 },
            max: crate::geom::Point { x: c as i32, y: d as i32 },
        };
    seq![
        r(rect.min.x as int, rect.min.y as int, x1, y0),
        r(rect.min.x as int, y0, x0, rect.max.y as int),
        r(x0, y1, rect.max.x as int, rect.max.y as int),
        r(x1, rect.min.y as int, rect.max.x as int, y1),
        r(x0, y0, x1, y1),
    ]
}

/// The parts of the bands that fall inside `clip`, in order.
pub open spec fn clipped_bands(bands: Seq<Rectangle>, clip: Rectangle) -> Seq<Rectangle>
    decreases bands.len(),
{
    if bands.len() == 0 {
        Seq::empty()
    } else {
        let prev = clipped_bands(bands.drop_last(), clip);
        match bands.last().spec_intersection(clip) {
            Some(r) => prev.push(r),
            None => prev,
        }
    }
}

/// A rectangle moved by minus `p`.
pub open spec fn spec_translated(r: Rectangle, p: Point) -> Rectangle {
    Rectangle {
        min: Point { x: (r.min.x - p.x) as i32, y: (r.min.y - p.y) as i32 },
        max: Point { x: (r.max.x - p.x) as i32, y: (r.max.y - p.y) as i32 },
    }
}

/// The colours of `pixels` with each rectangle of `rects` painted with
/// `colour`, one after the other.
pub open spec fn paint_all(pixels: Map<(u32, u32), Colour>, rects: Seq<Rectangle>, colour: Colour) -> Map<
    (u32, u32),
    Colour,
>
    decreases rects.len(),
{
    if rects.len() == 0 {
        pixels
    } else {
        painted(paint_all(pixels, rects.drop_last(), colour), rects.last(), colour)
    }
}

/// The colours of `pixels` once an image of rectangle `own` showing
/// `pixmap` has drawn the part `clip`: the white bands within `clip`, then
/// the part of the pixmap within `clip` (when the pixmap holds all its
/// pixels).
pub open spec fn pictured(
    pixels: Map<(u32, u32), Colour>,
    own: Rectangle,
    pixmap: &Pixmap,
    clip: Rectangle,
) -> Map<(u32, u32), Colour> {
    let b = spec_pixmap_box(own, pixmap.width as int, pixmap.height as int);
    let bands = image_bands(own, b.0, b.1, b.2, b.3);
    let whites = paint_all(pixels, clipped_bands(bands.take(4), clip), Colour::Gray(WHITE));
    match bands[4].spec_intersection(clip) {
        Some(s) => if pixmap.is_wf() {
            framed(whites, pixmap, spec_translated(s, Point { x: b.0 as i32, y: b.1 as i32 }), s.min)
        } else {
            whites
        },
        None => whites,
    }
}

/// What drawing a pixmap of `width` by `height` pixels centred in `rect`
/// paints of `clip`: the white parts, and the part of the pixmap (in the
/// pixmap's coordinates) with where it goes on the screen.
pub fn image_regions(rect: &Rectangle, width: u32, height: u32, clip: &Rectangle) -> (r: (
    Vec<Rectangle>,
    Option<(Rectangle, Point)>,
))
    ensures
        ({
            let b = spec_pixmap_box(*rect, width as int, height as int);
            let bands = image_bands(*rect, b.0, b.1, b.2, b.3);
            &&& r.0@ == clipped_bands(bands.take(4), *clip)
            &&& r.1 == match bands[4].spec_intersection(*clip) {
                Some(s) => Some(
                    (spec_translated(s, Point { x: b.0 as i32, y: b.1 as i32 }), s.min),
                ),
                None => None,
            }
        }),
{
    let w = rect.width();
    let h = rect.height();
    let wi: i64 = if width <= 0x7fff_ffff { width as i64 } else { width as i64 - 0x1_0000_0000i64 };
    let hi: i64 = if height <= 0x7fff_ffff { height as i64 } else { height as i64 - 0x1_0000_0000i64 };
    let dx = wrap_half(w, width);
    let dy = wrap_half(h, height);
    let x0 = clamp(rect.min.x as i64 + dx);
    let y0 = clamp(rect.min.y as i64 + dy);
    let x1 = clamp(x0 as i64 + wi);
    let y1 = clamp(y0 as i64 + hi);
    let bands = [
        Rectangle::new(rect.min, Point::new(x1, y0)),
        Rectangle::new(Point::new(rect.min.x, y0), Point::new(x0, rect.max.y)),
        Rectangle::new(Point::new(x0, y1), rect.max),
        Rectangle::new(Point::new(x1, rect.min.y), Point::new(rect.max.x, y1)),
    ];
    let ghost sb = image_bands(*rect, x0 as int, y0 as int, x1 as int, y1 as int);
    assert(sb.len() == 5);
    assert(bands@ =~= sb.take(4));
    let mut whites: Vec<Rectangle> = Vec::new();
    let mut k: usize = 0;
    while k < 4
        invariant
            k <= 4,
            sb.len() == 5,
            bands@ == sb.take(4),
            whites@ == clipped_bands(sb.take(k as int), *clip),
        decreases 4 - k,
    {
        assert(sb.take(k + 1).drop_last() =~= sb.take(k as int));
        match bands[k].intersection(clip) {
            Some(r) => {
                whites.push(r);
            },
            None => {},
        }
        k = k + 1;
    }
    let pix = Rectangle::new(Point::new(x0, y0), Point::new(x1, y1));
    let part = match pix.intersection(clip) {
        Some(s) => {
            let frame = Rectangle::new(
                Point::new(
                    (s.min.x as i64 - x0 as i64) as i32,
                    (s.min.y as i64 - y0 as i64) as i32,
                ),
                Point::new((s.max.x as i64 - x0 as i64) as i32, (s.max.y as i64 - y0 as i64) as i32),
            );
            Some((frame, s.min))
        },
        None => None,
    };
    (whites, part)
}

/// Half of the difference of two 32-bit sizes, as `(a - b) as i32 / 2`
/// computes it.
fn wrap_half(a: u32, b: u32) -> (r: i64)
    ensures
        r == div_trunc(u32_as_i32((a - b) % 0x1_0000_0000), 2),
{
    let d: i64 = a as i64 - b as i64;
    let m: i64 = if d >= 0 { d } else { d + 0x1_0000_0000i64 };
    let s: i64 = if m <= 0x7fff_ffff { m } else { m - 0x1_0000_0000i64 };
    s / 2
}

fn clamp(v: i64) -> (r: i32)
    ensures
        r == clamp_i32(v as int),
{
    if v < i32::MIN as i64 {
        i32::MIN
    } else if v > i32::MAX as i64 {
        i32::MAX
    } else {
        v as i32
    }
}

/// Every pixel of the rectangle lies in exactly one of the five bands,
/// when the pixmap box lies inside it.
pub proof fn lemma_image_bands_tile(rect: Rectangle, x0: int, y0: int, x1: int, y1: int, p: Point)
    requires
        rect.min.x <= x0 <= x1 <= rect.max.x,
        rect.min.y <= y0 <= y1 <= rect.max.y,
        rect.spec_includes(p),
    ensures
        exists|i: int| 0 <= i < 5 && (#[trigger] image_bands(rect, x0, y0, x1, y1)[i]).spec_includes(p),
        forall|i: int, j: int|
            0 <= i < j < 5 ==> !((#[trigger] image_bands(rect, x0, y0, x1, y1)[i]).spec_includes(p)
                && (#[trigger] image_bands(rect, x0, y0, x1, y1)[j]).spec_includes(p)),
{
    let b = image_bands(rect, x0, y0, x1, y1);
    assert(b[0].spec_includes(p) || b[1].spec_includes(p) || b[2].spec_includes(p)
        || b[3].spec_includes(p) || b[4].spec_includes(p));
}

impl Image {
    pub closed spec fn spec_id(&self) -> Id {
        self.id
    }

    pub closed spec fn spec_rect(&self) -> Rectangle {
        self.rect
    }

    pub closed spec fn spec_pixmap(&self) -> &Pixmap {
        &self.pixmap
    }

    pub fn new(feeder: &mut IdFeeder, rect: Rectangle, pixmap: Pixmap) -> (i: Image)
        ensures
            i.spec_id() == old(feeder).spec_next(),
            final(feeder).spec_next() == following(old(feeder).spec_next()),
            i.spec_rect() == rect,
            *i.spec_pixmap() == pixmap,
    {
        Image { id: feeder.next(), rect, pixmap }
    }

    /// Shows another pixmap, and asks for the image to be drawn again.
    pub fn update(&mut self, pixmap: Pixmap, rq: &mut Option<RenderQueue>)
        ensures
            *final(self).spec_pixmap() == pixmap,
            final(self).spec_rect() == old(self).spec_rect(),
            final(self).spec_id() == old(self).spec_id(),
            queued(
                *old(rq),
                *final(rq),
                UpdateMode::Gui,
                true,
                Some(old(self).spec_id()),
                old(self).spec_rect(),
            ),
    {
        self.pixmap = pixmap;
        RenderQueue::add_redraw_req(rq, RenderData::new(self.id, self.rect, UpdateMode::Gui));
    }
}

impl View for Image {
    open spec fn spec_rect(&self) -> Rectangle {
        Image::spec_rect(self)
    }

    open spec fn spec_id(&self) -> Id {
        Image::spec_id(self)
    }

    closed spec fn spec_render_rect(&self, rect: Rectangle) -> Rectangle {
        clipped_render_rect(self.rect, rect)
    }

    open spec fn spec_state(&self) -> ViewState {
        ViewState::Image {
            id: Image::spec_id(self),
            rect: Image::spec_rect(self),
            width: self.spec_pixmap().width,
            height: self.spec_pixmap().height,
            samples: self.spec_pixmap().samples,
            data: self.spec_pixmap().data@,
        }
    }

    /// No event changes what the image holds.
    open spec fn spec_leads(&self, evt: Event, next: ViewState) -> bool {
        next == self.spec_state()
    }

    open spec fn spec_is_background(&self) -> bool {
        false
    }

    open spec fn spec_might_skip(&self, evt: Event) -> bool {
        false
    }

    open spec fn spec_captures(&self, evt: Event) -> bool {
        false
    }

    open spec fn spec_sends(&self, evt: Event) -> Seq<Event> {
        Seq::empty()
    }

    open spec fn spec_requests(&self, evt: Event) -> Seq<RenderData> {
        Seq::empty()
    }

    /// An image captures nothing and changes nothing.
    fn handle_event(
        &mut self,
        evt: &Event,
        hub: &Hub,
        bus: &mut Bus,
        rq: &mut Option<RenderQueue>,
        ctx: &mut Context,
    ) -> (captured: bool)
        ensures
            *final(self) == *old(self),
            final(bus)@ == old(bus)@,
            *final(rq) == *old(rq),
    {
        proof {
            lemma_sent_nothing(bus@);
        }
        false
    }

    /// White around the centred pixmap and the pixmap itself, within `rect`.
    open spec fn spec_drawn(
        &self,
        rect: Rectangle,
        pixels: Map<(u32, u32), Colour>,
        setting: Setting,
    ) -> Map<(u32, u32), Colour> {
        pictured(pixels, Image::spec_rect(self), self.spec_pixmap(), rect)
    }

    /// Paints white around the centred pixmap and the pixmap itself, within
    /// `rect`.
    fn render_view(&self, rect: &Rectangle, ctx: &mut Context) {
        let ghost p0 = ctx.fb.spec_pixels();
        let (whites, part) = image_regions(&self.rect, self.pixmap.width, self.pixmap.height, rect);
        let mut k: usize = 0;
        assert(whites@.take(0) =~= Seq::<Rectangle>::empty());
        proof {
            lemma_painted_on_refl(ctx.fb.spec_steps());
        }
        while k < whites.len()
            invariant
                k <= whites@.len(),
                ctx.dpi == old(ctx).dpi,
                ctx.font == old(ctx).font,
                ctx.fb.spec_updates() == old(ctx).fb.spec_updates(),
                painted_on(old(ctx).fb.spec_steps(), ctx.fb.spec_steps()),
                ctx.fb.spec_rounder() == old(ctx).fb.spec_rounder(),
                ctx.fb.spec_pixels() == paint_all(p0, whites@.take(k as int), Colour::Gray(WHITE)),
            decreases whites@.len() - k,
        {
            let ghost s1 = ctx.fb.spec_steps();
            ctx.fb.draw_rectangle(&whites[k], Colour::Gray(WHITE));
            proof {
                lemma_painted_on_trans(old(ctx).fb.spec_steps(), s1, ctx.fb.spec_steps());
            }
            assert(whites@.take(k + 1).drop_last() =~= whites@.take(k as int));
            k = k + 1;
        }
        assert(whites@.take(k as int) =~= whites@);
        match part {
            Some((frame, at)) => {
                if self.pixmap.check_wf() {
                    let ghost s1 = ctx.fb.spec_steps();
                    ctx.fb.draw_framed_pixmap(&self.pixmap, &frame, at);
                    proof {
                        lemma_painted_on_trans(old(ctx).fb.spec_steps(), s1, ctx.fb.spec_steps());
                    }
                }
            },
            None => {},
        }
    }

    fn rect(&self) -> (r: &Rectangle) {
        &self.rect
    }

    fn id(&self) -> (id: Id) {
        self.id
    }

    fn render_rect(&self, rect: &Rectangle) -> (r: Rectangle) {
        match rect.intersection(&self.rect) {
            Some(r) => r,
            None => self.rect,
        }
    }

    fn might_skip(&self, evt: &Event) -> (b: bool) {
        false
    }

    fn might_rotate(&self) -> (b: bool)
        ensures
            b,
    {
        true
    }

    fn resize(&mut self, rect: Rectangle, hub: &Hub, rq: &mut Option<RenderQueue>) {
        self.rect = rect;
    }

    fn is_background(&self) -> (b: bool) {
        false
    }

    fn view_id(&self) -> (v: Option<ViewId>)
        ensures
            v is None,
    {
        None
    }
}

} // verus!
