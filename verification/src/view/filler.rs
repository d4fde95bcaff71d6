//! A view that paints its rectangle with a plain colour.
use vstd::prelude::*;
use vstd::view::View as _;
use crate::colour::Colour;
use crate::context::{Context, Setting};
use crate::framebuffer::{lemma_painted_on_refl, painted};
use crate::geom::Rectangle;
use crate::view::renderer::{RenderData, RenderQueue};
use crate::view::{following, lemma_sent_nothing, Bus, Event, Hub, Id, IdFeeder, View, ViewId, ViewState};

verus! {

pub struct Filler {
    id: Id,
    pub rect: Rectangle,
    color: Colour,
}

impl Filler {
    pub closed spec fn spec_id(&self) -> Id {
        self.id
    }

    pub closed spec fn spec_rect(&self) -> Rectangle {
        self.rect
    }

    pub closed spec fn spec_color(&self) -> Colour {
        self.color
    }

    pub fn new(feeder: &mut IdFeeder, rect: Rectangle, color: Colour) -> (f: Filler)
        ensures
            f.spec_id() == old(feeder).spec_next(),
            final(feeder).spec_next() == following(old(feeder).spec_next()),
            f.spec_rect() == rect,
            f.spec_color() == color,
    {
        Filler { id: feeder.next(), rect, color }
    }
}

/// What a view that can draw any part of itself redraws when asked to draw
/// `rect`: the part of `rect` inside it, or all of it when they do not meet.
pub open spec fn clipped_render_rect(own: Rectangle, rect: Rectangle) -> Rectangle {
    match rect.spec_intersection(own) {
        Some(r) => r,
        None => own,
    }
}

/// The colours of `pixels` once a filler of rectangle `own` and colour
/// `colour` has drawn the part `rect`: the pixels of both rectangles take
/// the colour.
pub open spec fn filled(
    pixels: Map<(u32, u32), Colour>,
    own: Rectangle,
    rect: Rectangle,
    colour: Colour,
) -> Map<(u32, u32), Colour> {
    match own.spec_intersection(rect) {
        Some(r) => painted(pixels, r, colour),
        None => pixels,
    }
}

impl View for Filler {
    open spec fn spec_rect(&self) -> Rectangle {
        Filler::spec_rect(self)
    }

    open spec fn spec_id(&self) -> Id {
        Filler::spec_id(self)
    }

    closed spec fn spec_render_rect(&self, rect: Rectangle) -> Rectangle {
        clipped_render_rect(self.rect, rect)
    }

    open spec fn spec_state(&self) -> ViewState {
        ViewState::Filler {
            id: Filler::spec_id(self),
            rect: Filler::spec_rect(self),
            colour: self.spec_color(),
        }
    }

    /// No event changes what the filler holds.
    open spec fn spec_leads(&self, evt: Event, next: ViewState) -> bool {
        next == self.spec_state()
    }

    open spec fn spec_is_background(&self) -> bool {
        false
    }

    open spec fn spec_might_skip(&self, evt: Event) -> bool {
        false
    }

    open spec fn spec_captures(&self, evt: Event) -> bool {
        false
    }

    open spec fn spec_sends(&self, evt: Event) -> Seq<Event> {
        Seq::empty()
    }

    open spec fn spec_requests(&self, evt: Event) -> Seq<RenderData> {
        Seq::empty()
    }

    /// A filler captures nothing and changes nothing.
    fn handle_event(
        &mut self,
        evt: &Event,
        hub: &Hub,
        bus: &mut Bus,
        rq: &mut Option<RenderQueue>,
        ctx: &mut Context,
    ) -> (captured: bool)
        ensures
            *final(self) == *old(self),
            final(bus)@ == old(bus)@,
            *final(rq) == *old(rq),
    {
        proof {
            lemma_sent_nothing(bus@);
        }
        false
    }

    /// The part of `rect` inside the filler takes its colour.
    open spec fn spec_drawn(
        &self,
        rect: Rectangle,
        pixels: Map<(u32, u32), Colour>,
        setting: Setting,
    ) -> Map<(u32, u32), Colour> {
        filled(pixels, Filler::spec_rect(self), rect, self.spec_color())
    }

    /// Paints the part of `rect` inside the filler.
    fn render_view(&self, rect: &Rectangle, ctx: &mut Context) {
        proof {
            lemma_painted_on_refl(ctx.fb.spec_steps());
        }
        match self.rect.intersection(rect) {
            Some(r) => {
                ctx.fb.draw_rectangle(&r, self.color);
            },
            None => {},
        }
    }

    fn rect(&self) -> (r: &Rectangle) {
        &self.rect
    }

    fn id(&self) -> (id: Id) {
        self.id
    }

    fn render_rect(&self, rect: &Rectangle) -> (r: Rectangle) {
        match rect.intersection(&self.rect) {
            Some(r) => r,
            None => self.rect,
        }
    }

    fn might_skip(&self, evt: &Event) -> (b: bool) {
        false
    }

    fn might_rotate(&self) -> (b: bool)
        ensures
            b,
    {
        true
    }

    fn resize(&mut self, rect: Rectangle, hub: &Hub, rq: &mut Option<RenderQueue>) {
        self.rect = rect;
    }

    fn is_background(&self) -> (b: bool) {
        false
    }

    fn view_id(&self) -> (v: Option<ViewId>)
        ensures
            v is None,
    {
        None
    }
}

} // verus!
