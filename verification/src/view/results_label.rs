//! The label that counts the results of a search, gray until the search
//! has ended.
use vstd::prelude::*;
use vstd::view::View as _;
use vstd::string::StringExecFns;
use crate::colour::{Colour, BLACK, GRAY08, WHITE};
use crate::context::{clamp_i32, spec_text_origin, text_origin, Context, Setting};
use crate::framebuffer::{lemma_painted_on_trans, painted};
use crate::framebuffer::UpdateMode;
use crate::geom::{u32_as_i32, wrap_i32, Point, Rectangle};
use crate::view::renderer::{lemma_queued_none, lemma_queued_one, queued, RenderData, RenderQueue};
use crate::view::{following, lemma_sent_nothing, Bus, Event, Hub, Id, IdFeeder, View, ViewId, ViewState, witness};

verus! {

/// The decimal digit of a number below ten.
pub open spec fn digit(d: nat) -> char {
    (48 + d) as char
}

/// The decimal digits of a number, without leading zeros.
pub open spec fn decimal(n: nat) -> Seq<char>
    decreases n,
{
    if n < 10 {
        seq![digit(n)]
    } else {
        decimal(n / 10).push(digit(n % 10))
    }
}

/// The decimal digit of a number below ten, as text.
fn digit_str(d: usize) -> (s: &'static str)
    requires
        d < 10,
    ensures
        s@ == seq![digit(d as nat)],
{
    proof {
        reveal_strlit("0");
        reveal_strlit("1");
        reveal_strlit("2");
        reveal_strlit("3");
        reveal_strlit("4");
        reveal_strlit("5");
        reveal_strlit("6");
        reveal_strlit("7");
        reveal_strlit("8");
        reveal_strlit("9");
    }
    if d == 0 {
        "0"
    } else if d == 1 {
        "1"
    } else if d == 2 {
        "2"
    } else if d == 3 {
        "3"
    } else if d == 4 {
        "4"
    } else if d == 5 {
        "5"
    } else if d == 6 {
        "6"
    } else if d == 7 {
        "7"
    } else if d == 8 {
        "8"
    } else {
        "9"
    }
}

/// The number written in decimal digits, without leading zeros.
fn decimal_string(n: usize) -> (s: String)
    ensures
        s@ == decimal(n as nat),
    decreases n,
{
    if n < 10 {
        String::from_str(digit_str(n))
    } else {
        let mut s = decimal_string(n / 10);
        s.append(digit_str(n % 10));
        s
    }
}

pub struct ResultsLabel {
    id: Id,
    rect: Rectangle,
    count: usize,
    completed: bool,
}

/// "No results", "1 result", or the count followed by "results".
pub open spec fn results_text(count: nat) -> Seq<char> {
    let qualifier = if count != 1 {
        "results"@
    } else {
        "result"@
    };
    if count == 0 {
        "No "@ + qualifier
    } else {
        decimal(count) + " "@ + qualifier
    }
}

impl ResultsLabel {
    pub closed spec fn spec_id(&self) -> Id {
        self.id
    }

    pub closed spec fn spec_rect(&self) -> Rectangle {
        self.rect
    }

    pub closed spec fn spec_count(&self) -> usize {
        self.count
    }

    /// The search has ended.
    pub closed spec fn spec_completed(&self) -> bool {
        self.completed
    }

    pub fn new(feeder: &mut IdFeeder, rect: Rectangle, count: usize, completed: bool) -> (l: ResultsLabel)
        ensures
            l.spec_id() == old(feeder).spec_next(),
            final(feeder).spec_next() == following(old(feeder).spec_next()),
            l.spec_rect() == rect,
            l.spec_count() == count,
            l.spec_completed() == completed,
    {
        ResultsLabel { id: feeder.next(), rect, count, completed }
    }

    /// Shows another count, and asks for the label to be drawn again.
    pub fn update(&mut self, count: usize, rq: &mut Option<RenderQueue>)
        ensures
            final(self).spec_count() == count,
            final(self).spec_completed() == old(self).spec_completed(),
            final(self).spec_rect() == old(self).spec_rect(),
            final(self).spec_id() == old(self).spec_id(),
            queued(
                *old(rq),
                *final(rq),
                UpdateMode::Gui,
                true,
                Some(old(self).spec_id()),
                old(self).spec_rect(),
            ),
    {
        self.count = count;
        RenderQueue::add_redraw_req(rq, RenderData::new(self.id, self.rect, UpdateMode::Gui));
    }

    /// The text of the label.
    pub fn text(&self) -> (t: String)
        ensures
            t@ == results_text(self.spec_count() as nat),
    {
        let qualifier = if self.count != 1 {
            "results"
        } else {
            "result"
        };
        if self.count == 0 {
            let mut t = String::from_str("No ");
            t.append(qualifier);
            t
        } else {
            let mut t = decimal_string(self.count);
            t.append(" ");
            t.append(qualifier);
            t
        }
    }
}

/// The width the text of a label is cut at: the label's width less an em
/// (two paddings of half an em), or nothing left.
pub open spec fn results_max_width(rect: Rectangle, em: u16) -> i32 {
    let pads = 2 * (em / 2);
    u32_as_i32(
        if rect.spec_width() >= pads {
            rect.spec_width() - pads
        } else {
            0
        },
    ) as i32
}

impl View for ResultsLabel {
    open spec fn spec_rect(&self) -> Rectangle {
        ResultsLabel::spec_rect(self)
    }

    open spec fn spec_id(&self) -> Id {
        ResultsLabel::spec_id(self)
    }

    closed spec fn spec_render_rect(&self, rect: Rectangle) -> Rectangle {
        self.rect
    }

    open spec fn spec_state(&self) -> ViewState {
        ViewState::ResultsLabel {
            id: ResultsLabel::spec_id(self),
            rect: ResultsLabel::spec_rect(self),
            count: self.spec_count(),
            completed: self.spec_completed(),
        }
    }

    /// The end of the search completes the label.
    open spec fn spec_leads(&self, evt: Event, next: ViewState) -> bool {
        next == ViewState::ResultsLabel {
            id: ResultsLabel::spec_id(self),
            rect: ResultsLabel::spec_rect(self),
            count: self.spec_count(),
            completed: evt is EndOfSearch || self.spec_completed(),
        }
    }

    open spec fn spec_is_background(&self) -> bool {
        false
    }

    open spec fn spec_might_skip(&self, evt: Event) -> bool {
        false
    }

    open spec fn spec_captures(&self, evt: Event) -> bool {
        false
    }

    open spec fn spec_sends(&self, evt: Event) -> Seq<Event> {
        Seq::empty()
    }

    /// The end of the search asks for the label to be drawn again.
    open spec fn spec_requests(&self, evt: Event) -> Seq<RenderData> {
        if evt is EndOfSearch {
            seq![
                RenderData {
                    id: Some(ResultsLabel::spec_id(self)),
                    rect: ResultsLabel::spec_rect(self),
                    mode: UpdateMode::Gui,
                    wait: true,
                },
            ]
        } else {
            Seq::empty()
        }
    }

    /// The end of the search marks the label completed and asks for it to
    /// be drawn again; the label captures nothing.
    fn handle_event(
        &mut self,
        evt: &Event,
        hub: &Hub,
        bus: &mut Bus,
        rq: &mut Option<RenderQueue>,
        ctx: &mut Context,
    ) -> (captured: bool)
        ensures
            final(bus)@ == old(bus)@,
            final(self).spec_id() == old(self).spec_id(),
            final(self).spec_rect() == old(self).spec_rect(),
            final(self).spec_count() == old(self).spec_count(),
            *evt is EndOfSearch ==> {
                &&& final(self).spec_completed()
                &&& queued(
                    *old(rq),
                    *final(rq),
                    UpdateMode::Gui,
                    true,
                    Some(old(self).spec_id()),
                    old(self).spec_rect(),
                )
            },
            !(*evt is EndOfSearch) ==> {
                &&& final(self).spec_completed() == old(self).spec_completed()
                &&& *final(rq) == *old(rq)
            },
    {
        proof {
            lemma_sent_nothing(bus@);
            lemma_queued_none(*rq);
        }
        match *evt {
            Event::EndOfSearch => {
                self.completed = true;
                let ghost rq0 = *rq;
                let d = RenderData::new(self.id, self.rect, UpdateMode::Gui);
                RenderQueue::add_redraw_req(rq, d);
                proof {
                    lemma_queued_one(rq0, *rq, d);
                }
                false
            },
            _ => false,
        }
    }

    /// The whole label painted white, then its text centred between
    /// paddings of half an em, black once the search has ended and gray
    /// before.
    open spec fn spec_drawn(
        &self,
        rect: Rectangle,
        pixels: Map<(u32, u32), Colour>,
        setting: Setting,
    ) -> Map<(u32, u32), Colour> {
        let own = ResultsLabel::spec_rect(self);
        let text = results_text(self.spec_count() as nat);
        let padding = setting.2 / 2;
        let max_width = results_max_width(own, setting.2);
        let plan = (setting.1)(text, Some(max_width));
        let o = spec_text_origin(
            own,
            padding as int,
            max_width as int,
            plan as int,
            u32_as_i32(setting.3 as int),
        );
        let colour = if self.spec_completed() {
            Colour::Gray(BLACK)
        } else {
            Colour::Gray(GRAY08)
        };
        (setting.4)(
            painted(pixels, own, Colour::Gray(WHITE)),
            colour,
            text,
            Some(max_width),
            Point { x: clamp_i32(o.0) as i32, y: clamp_i32(o.1) as i32 },
        )
    }

    /// Draws the label on white, centred between paddings of half an em,
    /// black once the search has ended and gray before.
    fn render_view(&self, rect: &Rectangle, ctx: &mut Context) {
        let padding = (ctx.font.em() / 2) as i32;
        let width = self.rect.width();
        let pads = 2 * padding as u32;
        let max_width = wrap_i32(
            if width >= pads {
                width - pads
            } else {
                0
            },
        );
        let text = self.text();
        let plan_width = ctx.font.plan_width(text.as_str(), Some(max_width));
        let x_height = wrap_i32(ctx.font.x_height());
        let origin = text_origin(&self.rect, padding, max_width, plan_width, x_height);
        let ghost s0 = ctx.fb.spec_steps();
        ctx.fb.draw_rectangle(&self.rect, Colour::Gray(WHITE));
        let ghost s1 = ctx.fb.spec_steps();
        let colour = if self.completed {
            Colour::Gray(BLACK)
        } else {
            Colour::Gray(GRAY08)
        };
        ctx.font.render(&mut ctx.fb, colour, text.as_str(), Some(max_width), origin);
        proof {
            lemma_painted_on_trans(s0, s1, ctx.fb.spec_steps());
        }
    }

    fn rect(&self) -> (r: &Rectangle) {
        &self.rect
    }

    fn id(&self) -> (id: Id) {
        self.id
    }

    fn render_rect(&self, rect: &Rectangle) -> (r: Rectangle) {
        self.rect
    }

    fn might_skip(&self, evt: &Event) -> (b: bool) {
        false
    }

    fn might_rotate(&self) -> (b: bool)
        ensures
            b,
    {
        true
    }

    fn resize(&mut self, rect: Rectangle, hub: &Hub, rq: &mut Option<RenderQueue>) {
        self.rect = rect;
    }

    fn is_background(&self) -> (b: bool) {
        false
    }

    fn view_id(&self) -> (v: Option<ViewId>)
        ensures
            v is None,
    {
        None
    }
}

/// A results label draws its count black once the search has ended and
/// gray while it runs: whatever part it is asked to draw, its drawing is
/// the font's rendering of its count, in that colour, over the label
/// painted white.
pub proof fn lemma_results_label_colour(
    label: &ResultsLabel,
    rect: Rectangle,
    pixels: Map<(u32, u32), Colour>,
    setting: Setting,
)
    ensures
        exists|a: (Option<i32>, Point)|
            #![trigger witness(a)]
            witness(a) && label.spec_drawn(rect, pixels, setting) == (setting.4)(
                painted(pixels, label.spec_rect(), Colour::Gray(WHITE)),
                if label.spec_completed() {
                    Colour::Gray(BLACK)
                } else {
                    Colour::Gray(GRAY08)
                },
                results_text(label.spec_count() as nat),
                a.0,
                a.1,
            ),
{
    let own = label.spec_rect();
    let text = results_text(label.spec_count() as nat);
    let max_width = results_max_width(own, setting.2);
    let plan = (setting.1)(text, Some(max_width));
    let o = spec_text_origin(
        own,
        (setting.2 / 2) as int,
        max_width as int,
        plan as int,
        u32_as_i32(setting.3 as int),
    );
    assert(witness((Some(max_width), Point { x: clamp_i32(o.0) as i32, y: clamp_i32(o.1) as i32 })));
}

} // verus!
