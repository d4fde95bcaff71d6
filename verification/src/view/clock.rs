//! The clock of the top bar: it shows the local time and opens the clock
//! menu when tapped.
use vstd::prelude::*;
use std::fmt::Write;
use vstd::view::View as _;
use crate::colour::{Colour, BLACK, WHITE};
use crate::context::{clamp_i32, label_origin, text_origin, Context, Setting};
use crate::framebuffer::{lemma_painted_on_trans, painted};
use crate::framebuffer::UpdateMode;
use crate::geom::{wrap_i32, Point, Rectangle};
use crate::input::GestureEvent;
use crate::view::renderer::{lemma_queued_none, lemma_queued_one, queued, RenderData, RenderQueue};
use crate::view::{following, lemma_sent_nothing, lemma_sent_one, Bus, Event, Hub, Id, IdFeeder, View, ViewId, ViewState, witness};

verus! {

/// chrono's `Local::now`, written with the `strftime` pattern `format` by
/// `DateTime::format`: the time of day on this machine, or `None` when
/// chrono reports that it cannot write the pattern. Nothing is stated of the
/// text, which depends on when the call comes and on the machine's time
/// zone. chrono panics where the machine's time-zone data cannot place the
/// present time, which no argument of this call decides.
#[verifier::external_body]
fn local_time_text(format: &str) -> (text: Option<String>) {
    let mut text = String::new();
    match write!(text, "{}", chrono::Local::now().format(format)) {
        Ok(()) => Some(text),
        Err(_) => None,
    }
}

pub struct Clock {
    id: Id,
    rect: Rectangle,
    format: String,
    /// The time shown, written with the pattern.
    text: String,
}

impl Clock {
    pub closed spec fn spec_id(&self) -> Id {
        self.id
    }

    pub closed spec fn spec_rect(&self) -> Rectangle {
        self.rect
    }

    /// The time shown, as text.
    pub closed spec fn spec_text(&self) -> Seq<char> {
        self.text@
    }

    /// The `strftime` pattern the clock writes the time with.
    pub closed spec fn spec_format(&self) -> Seq<char> {
        self.format@
    }

    /// A clock showing `text`, the time now written with the `strftime`
    /// pattern `format` (the caller reads the clock), as wide as its text
    /// and an em, flush with the right side of `rect`; `rect` is narrowed
    /// to it.
    pub fn new(
        feeder: &mut IdFeeder,
        rect: &mut Rectangle,
        format: String,
        text: String,
        ctx: &mut Context,
    ) -> (c: Clock)
        ensures
            c.spec_id() == old(feeder).spec_next(),
            final(feeder).spec_next() == following(old(feeder).spec_next()),
            final(rect).max == old(rect).max,
            final(rect).min.y == old(rect).min.y,
            c.spec_rect() == *final(rect),
            c.spec_format() == format@,
            c.spec_text() == text@,
            final(rect).min.x == clamp_i32(
                old(rect).max.x - ((old(ctx).font.spec_planner())(c.spec_text(), None)
                    + old(ctx).font.spec_em()),
            ),
    {
        let width: i64 = ctx.font.plan_width(text.as_str(), None) as i64 + ctx.font.em() as i64;
        let x: i64 = rect.max.x as i64 - width;
        rect.min.x = if x < i32::MIN as i64 {
            i32::MIN
        } else if x > i32::MAX as i64 {
            i32::MAX
        } else {
            x as i32
        };
        Clock { id: feeder.next(), rect: *rect, format, text }
    }

    /// The `strftime` pattern the clock writes the time with.
    pub fn format(&self) -> (f: &str)
        ensures
            f@ == self.spec_format(),
    {
        self.format.as_str()
    }

    /// Shows `text`, the time read again and written with the clock's
    /// pattern, and asks for the clock to be drawn again.
    pub fn update(&mut self, text: String, rq: &mut Option<RenderQueue>)
        ensures
            final(self).spec_text() == text@,
            final(self).spec_id() == old(self).spec_id(),
            final(self).spec_rect() == old(self).spec_rect(),
            final(self).spec_format() == old(self).spec_format(),
            queued(
                *old(rq),
                *final(rq),
                UpdateMode::Gui,
                true,
                Some(old(self).spec_id()),
                old(self).spec_rect(),
            ),
    {
        self.text = text;
        RenderQueue::add_redraw_req(rq, RenderData::new(self.id, self.rect, UpdateMode::Gui));
    }
}

impl View for Clock {
    open spec fn spec_rect(&self) -> Rectangle {
        Clock::spec_rect(self)
    }

    open spec fn spec_id(&self) -> Id {
        Clock::spec_id(self)
    }

    closed spec fn spec_render_rect(&self, rect: Rectangle) -> Rectangle {
        self.rect
    }

    open spec fn spec_state(&self) -> ViewState {
        ViewState::Clock {
            id: Clock::spec_id(self),
            rect: Clock::spec_rect(self),
            format: self.spec_format(),
            text: self.spec_text(),
        }
    }

    /// A tick reads the time again, and the clock then shows it as the
    /// clock reads it, which depends on when the tick comes; no other event
    /// changes what the clock holds.
    open spec fn spec_leads(&self, evt: Event, next: ViewState) -> bool {
        if evt is ClockTick {
            match next {
                ViewState::Clock { id, rect, format, .. } => id == Clock::spec_id(self) && rect
                    == Clock::spec_rect(self) && format == self.spec_format(),
                _ => false,
            }
        } else {
            next == self.spec_state()
        }
    }

    open spec fn spec_is_background(&self) -> bool {
        false
    }

    open spec fn spec_might_skip(&self, evt: Event) -> bool {
        false
    }

    /// The clock captures its ticks and the taps inside it.
    open spec fn spec_captures(&self, evt: Event) -> bool {
        match evt {
            Event::ClockTick => true,
            Event::Gesture(GestureEvent::Tap(center)) => Clock::spec_rect(self).spec_includes(center),
            _ => false,
        }
    }

    /// A tick asks for the clock to be drawn again.
    open spec fn spec_requests(&self, evt: Event) -> Seq<RenderData> {
        if evt is ClockTick {
            seq![
                RenderData {
                    id: Some(Clock::spec_id(self)),
                    rect: Clock::spec_rect(self),
                    mode: UpdateMode::Gui,
                    wait: true,
                },
            ]
        } else {
            Seq::empty()
        }
    }

    /// A tap inside the clock asks for the clock menu near it.
    open spec fn spec_sends(&self, evt: Event) -> Seq<Event> {
        match evt {
            Event::Gesture(GestureEvent::Tap(center)) => if Clock::spec_rect(self).spec_includes(
                center,
            ) {
                seq![Event::ToggleNear(ViewId::ClockMenu, Clock::spec_rect(self))]
            } else {
                Seq::empty()
            },
            _ => Seq::empty(),
        }
    }

    /// A tick reads the time again, shows it (unless the pattern cannot be
    /// written, which keeps the time shown) and asks for the clock to be
    /// drawn again; a tap inside it asks the parent to toggle the clock
    /// menu near it. Nothing else changes the time shown.
    fn handle_event(
        &mut self,
        evt: &Event,
        hub: &Hub,
        bus: &mut Bus,
        rq: &mut Option<RenderQueue>,
        ctx: &mut Context,
    ) -> (captured: bool)
        ensures
            final(self).spec_id() == old(self).spec_id(),
            final(self).spec_rect() == old(self).spec_rect(),
            final(self).spec_format() == old(self).spec_format(),
            !(*evt is ClockTick) ==> final(self).spec_text() == old(self).spec_text(),
            match *evt {
                Event::ClockTick => {
                    &&& final(bus)@ == old(bus)@
                    &&& queued(
                        *old(rq),
                        *final(rq),
                        UpdateMode::Gui,
                        true,
                        Some(old(self).spec_id()),
                        old(self).spec_rect(),
                    )
                },
                Event::Gesture(GestureEvent::Tap(center)) => {
                    &&& *final(rq) == *old(rq)
                    &&& if old(self).spec_rect().spec_includes(center) {
                        final(bus)@ == old(bus)@.push(
                            Event::ToggleNear(ViewId::ClockMenu, old(self).spec_rect()),
                        )
                    } else {
                        final(bus)@ == old(bus)@
                    }
                },
                _ => final(bus)@ == old(bus)@ && *final(rq) == *old(rq),
            },
    {
        proof {
            lemma_sent_nothing(bus@);
            lemma_queued_none(*rq);
        }
        match *evt {
            Event::ClockTick => {
                match local_time_text(self.format.as_str()) {
                    Some(text) => {
                        self.text = text;
                    },
                    None => {},
                }
                let ghost rq0 = *rq;
                let d = RenderData::new(self.id, self.rect, UpdateMode::Gui);
                RenderQueue::add_redraw_req(rq, d);
                proof {
                    lemma_queued_one(rq0, *rq, d);
                }
                true
            },
            Event::Gesture(GestureEvent::Tap(center)) => {
                if self.rect.includes(center) {
                    proof {
                        lemma_sent_one(bus@, Event::ToggleNear(ViewId::ClockMenu, self.rect));
                    }
                    bus.push_back(Event::ToggleNear(ViewId::ClockMenu, self.rect));
                    true
                } else {
                    false
                }
            },
            _ => false,
        }
    }

    /// The whole clock painted white, then the time in black, centred.
    open spec fn spec_drawn(
        &self,
        rect: Rectangle,
        pixels: Map<(u32, u32), Colour>,
        setting: Setting,
    ) -> Map<(u32, u32), Colour> {
        let own = Clock::spec_rect(self);
        let plan = (setting.1)(self.spec_text(), None);
        (setting.4)(
            painted(pixels, own, Colour::Gray(WHITE)),
            Colour::Gray(BLACK),
            self.spec_text(),
            None,
            label_origin(own, plan, setting.3),
        )
    }

    /// Draws the time, centred, black on white.
    fn render_view(&self, rect: &Rectangle, ctx: &mut Context) {
        let plan_width = ctx.font.plan_width(self.text.as_str(), None);
        let x_height = wrap_i32(ctx.font.x_height());
        let width = wrap_i32(self.rect.width());
        let origin: Point = text_origin(&self.rect, 0, width, plan_width, x_height);
        let ghost s0 = ctx.fb.spec_steps();
        ctx.fb.draw_rectangle(&self.rect, Colour::Gray(WHITE));
        let ghost s1 = ctx.fb.spec_steps();
        ctx.font.render(&mut ctx.fb, Colour::Gray(BLACK), self.text.as_str(), None, origin);
        proof {
            lemma_painted_on_trans(s0, s1, ctx.fb.spec_steps());
        }
    }

    fn rect(&self) -> (r: &Rectangle) {
        &self.rect
    }

    fn id(&self) -> (id: Id) {
        self.id
    }

    fn render_rect(&self, rect: &Rectangle) -> (r: Rectangle) {
        self.rect
    }

    fn might_skip(&self, evt: &Event) -> (b: bool) {
        false
    }

    fn might_rotate(&self) -> (b: bool)
        ensures
            b,
    {
        true
    }

    fn resize(&mut self, rect: Rectangle, hub: &Hub, rq: &mut Option<RenderQueue>) {
        self.rect = rect;
    }

    fn is_background(&self) -> (b: bool) {
        false
    }

    fn view_id(&self) -> (v: Option<ViewId>)
        ensures
            v is None,
    {
        None
    }
}

/// A clock shows its time black on white: whatever part it is asked to
/// draw, its drawing is the font's rendering of its text, in black, on one
/// line, over the clock painted white.
pub proof fn lemma_clock_colours(
    clock: &Clock,
    rect: Rectangle,
    pixels: Map<(u32, u32), Colour>,
    setting: Setting,
)
    ensures
        exists|o: Point|
            #![trigger witness(o)]
            witness(o) && clock.spec_drawn(rect, pixels, setting) == (setting.4)(
                painted(pixels, clock.spec_rect(), Colour::Gray(WHITE)),
                Colour::Gray(BLACK),
                clock.spec_text(),
                None,
                o,
            ),
{
    let own = clock.spec_rect();
    let plan = (setting.1)(clock.spec_text(), None);
    assert(witness(label_origin(own, plan, setting.3)));
}

} // verus!
