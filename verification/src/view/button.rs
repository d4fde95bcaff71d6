//! A push button: it lights up while a finger presses it and sends its
//! event to its parent when tapped.
use vstd::prelude::*;
use vstd::view::View as _;
use crate::colour::{Colour, BLACK, GRAY06, GRAY08, WHITE};
use crate::context::{
    label_origin, scale_by_dpi, spec_scale_by_dpi, text_origin, Context, Setting,
};
use crate::framebuffer::{lemma_painted_on_trans, UpdateMode};
use crate::geom::{u32_as_i32, wrap_i32, Point, Rectangle};
use crate::input::{DeviceEvent, FingerStatus, GestureEvent};
use crate::view::renderer::{lemma_queued_none, lemma_queued_one, queued, RenderData, RenderQueue};
use crate::view::{following, lemma_sent_nothing, same_event, Bus, Event, Hub, Id, IdFeeder, View, ViewId, ViewState, witness};

verus! {

/// The corner radius of a button, in pixels at 300 DPI.
pub const BORDER_RADIUS_LARGE: u32 = 12;

/// The border thickness of a button, in pixels at 300 DPI.
pub const THICKNESS_MEDIUM: u32 = 2;

pub struct Button {
    id: Id,
    rect: Rectangle,
    event: Event,
    text: String,
    active: bool,
    pub disabled: bool,
}

impl Button {
    pub closed spec fn spec_id(&self) -> Id {
        self.id
    }

    pub closed spec fn spec_rect(&self) -> Rectangle {
        self.rect
    }

    pub closed spec fn spec_text(&self) -> Seq<char> {
        self.text@
    }

    /// The event the button sends to its parent when tapped.
    pub closed spec fn spec_event(&self) -> Event {
        self.event
    }

    pub closed spec fn spec_disabled(&self) -> bool {
        self.disabled
    }

    /// A finger presses the button.
    pub closed spec fn spec_active(&self) -> bool {
        self.active
    }

    pub fn new(feeder: &mut IdFeeder, rect: Rectangle, event: Event, text: String) -> (b: Button)
        ensures
            b.spec_id() == old(feeder).spec_next(),
            final(feeder).spec_next() == following(old(feeder).spec_next()),
            b.spec_rect() == rect,
            b.spec_text() == text@,
            b.spec_event() == event,
            !b.spec_active(),
            !b.spec_disabled(),
    {
        Button { id: feeder.next(), rect, event, text, active: false, disabled: false }
    }

    /// The same button, enabled or disabled.
    pub fn disabled(self, value: bool) -> (b: Button)
        ensures
            b.spec_disabled() == value,
            b.spec_id() == self.spec_id(),
            b.spec_rect() == self.spec_rect(),
            b.spec_text() == self.spec_text(),
            b.spec_event() == self.spec_event(),
            b.spec_active() == self.spec_active(),
    {
        let mut b = self;
        b.disabled = value;
        b
    }

    /// The background and the foreground of the button: inverted while it
    /// is pressed, with a gray foreground while it is disabled.
    pub open spec fn spec_colours(&self) -> (Colour, Colour) {
        let background = if self.spec_active() {
            Colour::Gray(BLACK)
        } else {
            Colour::Gray(WHITE)
        };
        let foreground = if self.spec_disabled() {
            if self.spec_active() {
                Colour::Gray(GRAY06)
            } else {
                Colour::Gray(GRAY08)
            }
        } else if self.spec_active() {
            Colour::Gray(WHITE)
        } else {
            Colour::Gray(BLACK)
        };
        (background, foreground)
    }

    pub fn colours(&self) -> (c: (Colour, Colour))
        ensures
            c == self.spec_colours(),
    {
        let scheme = if self.active {
            [Colour::Gray(BLACK), Colour::Gray(WHITE), Colour::Gray(GRAY06)]
        } else {
            [Colour::Gray(WHITE), Colour::Gray(BLACK), Colour::Gray(GRAY08)]
        };
        let foreground = if self.disabled {
            scheme[2]
        } else {
            scheme[1]
        };
        (scheme[0], foreground)
    }

    /// The button captures a finger going down inside it and the finger
    /// coming up after that, unless it is disabled, and any tap inside it.
    pub open spec fn spec_captures_event(&self, evt: Event) -> bool {
        match evt {
            Event::Device(DeviceEvent::Finger { status, position, .. }) => !self.spec_disabled() && match status {
                FingerStatus::Down => self.spec_rect().spec_includes(position),
                FingerStatus::Up => self.spec_active(),
                FingerStatus::Motion => false,
            },
            Event::Gesture(GestureEvent::Tap(center)) => self.spec_rect().spec_includes(center),
            _ => false,
        }
    }
}

/// The width a button's label is cut at: the button's width less an em,
/// cut to the 32-bit range.
pub open spec fn label_max_width(rect: Rectangle, em: u16) -> i32 {
    let w = u32_as_i32(rect.spec_width()) - em;
    if w >= i32::MIN {
        w as i32
    } else {
        i32::MIN
    }
}

impl View for Button {
    open spec fn spec_rect(&self) -> Rectangle {
        Button::spec_rect(self)
    }

    open spec fn spec_id(&self) -> Id {
        Button::spec_id(self)
    }

    closed spec fn spec_render_rect(&self, rect: Rectangle) -> Rectangle {
        self.rect
    }

    open spec fn spec_state(&self) -> ViewState {
        ViewState::Button {
            id: Button::spec_id(self),
            rect: Button::spec_rect(self),
            event: self.spec_event(),
            text: self.spec_text(),
            active: self.spec_active(),
            disabled: self.spec_disabled(),
        }
    }

    /// A finger going down inside the enabled button presses it; the
    /// finger coming up from the pressed button releases it.
    open spec fn spec_leads(&self, evt: Event, next: ViewState) -> bool {
        let active = match evt {
            Event::Device(DeviceEvent::Finger { status, position, .. }) => if !self.spec_disabled()
                && status == FingerStatus::Down && Button::spec_rect(self).spec_includes(position) {
                true
            } else if !self.spec_disabled() && status == FingerStatus::Up && self.spec_active() {
                false
            } else {
                self.spec_active()
            },
            _ => self.spec_active(),
        };
        next == ViewState::Button {
            id: Button::spec_id(self),
            rect: Button::spec_rect(self),
            event: self.spec_event(),
            text: self.spec_text(),
            active,
            disabled: self.spec_disabled(),
        }
    }

    open spec fn spec_is_background(&self) -> bool {
        false
    }

    open spec fn spec_might_skip(&self, evt: Event) -> bool {
        false
    }

    open spec fn spec_captures(&self, evt: Event) -> bool {
        self.spec_captures_event(evt)
    }

    /// A finger going down inside the enabled button asks for a fast
    /// redraw; the finger coming up from it asks for a regular one.
    open spec fn spec_requests(&self, evt: Event) -> Seq<RenderData> {
        match evt {
            Event::Device(DeviceEvent::Finger { status, position, .. }) => if !self.spec_disabled()
                && status == FingerStatus::Down && Button::spec_rect(self).spec_includes(position) {
                seq![
                    RenderData {
                        id: Some(Button::spec_id(self)),
                        rect: Button::spec_rect(self),
                        mode: UpdateMode::Fast,
                        wait: true,
                    },
                ]
            } else if !self.spec_disabled() && status == FingerStatus::Up && self.spec_active() {
                seq![
                    RenderData {
                        id: Some(Button::spec_id(self)),
                        rect: Button::spec_rect(self),
                        mode: UpdateMode::Gui,
                        wait: true,
                    },
                ]
            } else {
                Seq::empty()
            },
            _ => Seq::empty(),
        }
    }

    /// A tap inside the enabled button sends its event.
    open spec fn spec_sends(&self, evt: Event) -> Seq<Event> {
        match evt {
            Event::Gesture(GestureEvent::Tap(center)) => if Button::spec_rect(self).spec_includes(
                center,
            ) && !self.spec_disabled() {
                seq![self.spec_event()]
            } else {
                Seq::empty()
            },
            _ => Seq::empty(),
        }
    }

    /// A finger going down inside the enabled button presses it and asks
    /// for a fast redraw; the finger coming up releases it and asks for a
    /// regular one. A tap inside the enabled button sends its event to the
    /// parent.
    fn handle_event(
        &mut self,
        evt: &Event,
        hub: &Hub,
        bus: &mut Bus,
        rq: &mut Option<RenderQueue>,
        ctx: &mut Context,
    ) -> (captured: bool)
        ensures
            final(self).spec_id() == old(self).spec_id(),
            final(self).spec_rect() == old(self).spec_rect(),
            final(self).spec_text() == old(self).spec_text(),
            final(self).spec_disabled() == old(self).spec_disabled(),
            final(self).spec_event() == old(self).spec_event(),
            match *evt {
                Event::Device(DeviceEvent::Finger { status, position, .. }) => if !old(
                    self,
                ).spec_disabled() && status == FingerStatus::Down && old(self).spec_rect().spec_includes(
                    position,
                ) {
                    &&& final(self).spec_active()
                    &&& final(bus)@ == old(bus)@
                    &&& queued(
                        *old(rq),
                        *final(rq),
                        UpdateMode::Fast,
                        true,
                        Some(old(self).spec_id()),
                        old(self).spec_rect(),
                    )
                } else if !old(self).spec_disabled() && status == FingerStatus::Up
                    && old(self).spec_active() {
                    &&& !final(self).spec_active()
                    &&& final(bus)@ == old(bus)@
                    &&& queued(
                        *old(rq),
                        *final(rq),
                        UpdateMode::Gui,
                        true,
                        Some(old(self).spec_id()),
                        old(self).spec_rect(),
                    )
                } else {
                    &&& final(self).spec_active() == old(self).spec_active()
                    &&& final(bus)@ == old(bus)@
                    &&& *final(rq) == *old(rq)
                },
                Event::Gesture(GestureEvent::Tap(center)) => {
                    &&& final(self).spec_active() == old(self).spec_active()
                    &&& *final(rq) == *old(rq)
                    &&& if old(self).spec_rect().spec_includes(center) && !old(self).spec_disabled() {
                        &&& final(bus)@.len() == old(bus)@.len() + 1
                        &&& final(bus)@.drop_last() == old(bus)@
                        &&& same_event(old(self).spec_event(), final(bus)@.last())
                    } else {
                        final(bus)@ == old(bus)@
                    }
                },
                _ => {
                    &&& final(self).spec_active() == old(self).spec_active()
                    &&& final(bus)@ == old(bus)@
                    &&& *final(rq) == *old(rq)
                },
            },
    {
        proof {
            lemma_sent_nothing(bus@);
            lemma_queued_none(*rq);
        }
        match *evt {
            Event::Device(DeviceEvent::Finger { status, position, .. }) => {
                if self.disabled {
                    return false;
                }
                match status {
                    FingerStatus::Down => {
                        if self.rect.includes(position) {
                            self.active = true;
                            let ghost rq0 = *rq;
                            let d = RenderData::new(self.id, self.rect, UpdateMode::Fast);
                            RenderQueue::add_redraw_req(rq, d);
                            proof {
                                lemma_queued_one(rq0, *rq, d);
                            }
                            true
                        } else {
                            false
                        }
                    },
                    FingerStatus::Up => {
                        if self.active {
                            self.active = false;
                            let ghost rq0 = *rq;
                            let d = RenderData::new(self.id, self.rect, UpdateMode::Gui);
                            RenderQueue::add_redraw_req(rq, d);
                            proof {
                                lemma_queued_one(rq0, *rq, d);
                            }
                            true
                        } else {
                            false
                        }
                    },
                    FingerStatus::Motion => false,
                }
            },
            Event::Gesture(GestureEvent::Tap(center)) => {
                if self.rect.includes(center) {
                    if !self.disabled {
                        bus.push_back(self.event.clone());
                        assert(bus@.drop_last() =~= old(bus)@);
                        assert(bus@.take(old(bus)@.len() as int) =~= old(bus)@);
                        assert(bus@.skip(old(bus)@.len() as int) =~= seq![bus@.last()]);
                    }
                    true
                } else {
                    false
                }
            },
            _ => false,
        }
    }

    /// The rounded frame of the whole button, bordered with the foreground
    /// and filled with the background, then its label in the foreground,
    /// centred and cut at the width of the button less an em.
    open spec fn spec_drawn(
        &self,
        rect: Rectangle,
        pixels: Map<(u32, u32), Colour>,
        setting: Setting,
    ) -> Map<(u32, u32), Colour> {
        let (background, foreground) = self.spec_colours();
        let own = Button::spec_rect(self);
        let radius = spec_scale_by_dpi(BORDER_RADIUS_LARGE as int, setting.5 as int) as i32;
        let thickness = spec_scale_by_dpi(THICKNESS_MEDIUM as int, setting.5 as int) as u16;
        let frame = (setting.0)(pixels, own, radius, thickness, foreground, background);
        let max_width = label_max_width(own, setting.2);
        let plan = (setting.1)(self.spec_text(), Some(max_width));
        (setting.4)(
            frame,
            foreground,
            self.spec_text(),
            Some(max_width),
            label_origin(own, plan, setting.3),
        )
    }

    /// Draws the rounded frame of the button and its centered label.
    fn render_view(&self, rect: &Rectangle, ctx: &mut Context) {
        let (background, foreground) = self.colours();
        proof {
            assert(BORDER_RADIUS_LARGE * ctx.dpi <= 12 * 0xffff) by (nonlinear_arith)
                requires
                    ctx.dpi <= 0xffff,
                    BORDER_RADIUS_LARGE == 12,
            ;
            assert(THICKNESS_MEDIUM * ctx.dpi <= 2 * 0xffff) by (nonlinear_arith)
                requires
                    ctx.dpi <= 0xffff,
                    THICKNESS_MEDIUM == 2,
            ;
        }
        let border_radius = scale_by_dpi(BORDER_RADIUS_LARGE, ctx.dpi) as i32;
        let border_thickness = scale_by_dpi(THICKNESS_MEDIUM, ctx.dpi) as u16;
        let ghost s0 = ctx.fb.spec_steps();
        ctx.fb.draw_rounded_rectangle_with_border(
            &self.rect,
            border_radius,
            border_thickness,
            foreground,
            background,
        );
        let x_height = wrap_i32(ctx.font.x_height());
        let padding = ctx.font.em() as i32;
        let width = wrap_i32(self.rect.width());
        let max_width = if width as i64 - padding as i64 >= i32::MIN as i64 {
            width - padding
        } else {
            i32::MIN
        };
        let plan_width = ctx.font.plan_width(self.text.as_str(), Some(max_width));
        let origin = text_origin(&self.rect, 0, width, plan_width, x_height);
        let ghost s1 = ctx.fb.spec_steps();
        ctx.font.render(&mut ctx.fb, foreground, self.text.as_str(), Some(max_width), origin);
        proof {
            lemma_painted_on_trans(s0, s1, ctx.fb.spec_steps());
        }
    }

    fn rect(&self) -> (r: &Rectangle) {
        &self.rect
    }

    fn id(&self) -> (id: Id) {
        self.id
    }

    fn render_rect(&self, rect: &Rectangle) -> (r: Rectangle) {
        self.rect
    }

    fn might_skip(&self, evt: &Event) -> (b: bool) {
        false
    }

    fn might_rotate(&self) -> (b: bool)
        ensures
            b,
    {
        true
    }

    fn resize(&mut self, rect: Rectangle, hub: &Hub, rq: &mut Option<RenderQueue>) {
        self.rect = rect;
    }

    fn is_background(&self) -> (b: bool) {
        false
    }

    fn view_id(&self) -> (v: Option<ViewId>)
        ensures
            v is None,
    {
        None
    }
}

/// A button is drawn white with a black label, inverted while it is
/// pressed, and with a gray label while it is disabled: whatever part it
/// is asked to draw, its drawing is the font's rendering of its text, in
/// the label's colour, over its rounded frame drawn in the label's colour
/// around the background's.
pub proof fn lemma_button_colours(
    button: &Button,
    rect: Rectangle,
    pixels: Map<(u32, u32), Colour>,
    setting: Setting,
)
    ensures
        ({
            let background = if button.spec_active() {
                Colour::Gray(BLACK)
            } else {
                Colour::Gray(WHITE)
            };
            let label = if button.spec_disabled() && button.spec_active() {
                Colour::Gray(GRAY06)
            } else if button.spec_disabled() {
                Colour::Gray(GRAY08)
            } else if button.spec_active() {
                Colour::Gray(WHITE)
            } else {
                Colour::Gray(BLACK)
            };
            exists|a: (i32, u16, Option<i32>, Point)|
                #![trigger witness(a)]
                witness(a) && button.spec_drawn(rect, pixels, setting) == (setting.4)(
                    (setting.0)(pixels, button.spec_rect(), a.0, a.1, label, background),
                    label,
                    button.spec_text(),
                    a.2,
                    a.3,
                )
        }),
{
    let own = button.spec_rect();
    let radius = spec_scale_by_dpi(BORDER_RADIUS_LARGE as int, setting.5 as int) as i32;
    let thickness = spec_scale_by_dpi(THICKNESS_MEDIUM as int, setting.5 as int) as u16;
    let max_width = label_max_width(own, setting.2);
    let plan = (setting.1)(button.spec_text(), Some(max_width));
    assert(witness((radius, thickness, Some(max_width), label_origin(own, plan, setting.3))));
}

} // verus!
