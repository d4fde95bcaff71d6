//! Views are organized as a tree. A view might receive / send events and render itself.
//!
//! The z-level of the n-th child of a view is less or equal to the z-level of its n+1-th child.
//!
//! Events travel from the root to the leaves, only the leaf views will handle the root events, but
//! any view can send events to its parent. From the events it receives from its children, a view
//! resends the ones it doesn't handle to its own parent. Hence an event sent from a child might
//! bubble up to the root.
pub mod button;
pub mod clock;
pub mod filler;
pub mod image;
pub mod merge;
pub mod renderer;
pub mod results_label;

use vstd::prelude::*;
use vstd::view::View as _;
use crate::colour::Colour;
use crate::framebuffer::{painted_on, UpdateMode};
use crate::geom::{div_trunc, CycleDir, LinearDir, Rectangle};
use crate::input::{DeviceEvent, GestureEvent};
use std::collections::VecDeque;
use std::path::PathBuf;
use std::sync::mpsc::Sender;
use crate::context::{setting, Context, Setting};
use crate::view::renderer::{lemma_queued_chain, lemma_queued_none, queued_all, RenderData, RenderQueue};

verus! {

/// A file system path, carried through events and menu entries untouched.
#[verifier::external_type_specification]
#[verifier::external_body]
pub struct ExPathBuf(PathBuf);

/// `PathBuf::clone`, which copies the path: the copy is the same path.
pub assume_specification[ <PathBuf as Clone>::clone ](p: &PathBuf) -> (r: PathBuf)
    ensures
        r == *p,
;

/// The sending end of a channel, through which views post events to the
/// main loop; it is carried through untouched.
#[verifier::external_type_specification]
#[verifier::external_body]
#[verifier::reject_recursive_types(T)]
pub struct ExSender<T>(Sender<T>);

/// The identifier of a view.
pub type Id = u64;

/// The channel to the main loop.
pub type Hub = Sender<Event>;

/// The events that a view sends to its parent.
pub type Bus = VecDeque<Event>;

#[derive(Debug)]
pub enum Event {
    Device(DeviceEvent),
    Gesture(GestureEvent),
    Keyboard(KeyboardEvent),
    OpenHtml(String, Option<String>),
    LoadPixmap(usize),
    Update(UpdateMode),
    RefreshBookPreview(PathBuf, Option<PathBuf>),
    Invalid(PathBuf),
    Notify(String),
    Page(CycleDir),
    ResultsPage(CycleDir),
    GoTo(usize),
    ResultsGoTo(usize),
    Chapter(CycleDir),
    SelectDirectory(PathBuf),
    ToggleSelectDirectory(PathBuf),
    NavigationBarResized(i32),
    Focus(Option<ViewId>),
    Select(EntryId),
    PropagateSelect(EntryId),
    EditLanguages,
    Define(String),
    Submit(ViewId, String),
    ToggleNear(ViewId, Rectangle),
    ToggleInputHistoryMenu(ViewId, Rectangle),
    ToggleBookMenu(Rectangle, usize),
    TogglePresetMenu(Rectangle, usize),
    SubMenu(Rectangle, Vec<EntryKind>),
    History(CycleDir, bool),
    Toggle(ViewId),
    Show(ViewId),
    Close(ViewId),
    CloseSub(ViewId),
    Search(String),
    FetcherRemoveDocument(u32, PathBuf),
    CheckFetcher(u32),
    EndOfSearch,
    Finished,
    ClockTick,
    BatteryTick,
    ToggleFrontlight,
    Load(PathBuf),
    LoadPreset(usize),
    Scroll(i32),
    Save,
    Guess,
    SetWifi(bool),
    MightSuspend,
    PrepareSuspend,
    Suspend,
    Share,
    PrepareShare,
    Validate,
    Cancel,
    Reseed,
    SshUp(&'static str),
    Back,
    Quit,
    WakeUp,
}

/// `b` is a copy of the event `a`: the same event, with the menu entries
/// it carries copied one by one.
pub open spec fn same_event(a: Event, b: Event) -> bool {
    match a {
        Event::SubMenu(r, es) => match b {
            Event::SubMenu(r2, es2) => r2 == r && es2@.len() == es@.len() && forall|i: int|
                0 <= i < es@.len() ==> same_entry(es[i], #[trigger] es2[i]),
            _ => false,
        },
        _ => b == a,
    }
}

/// `b` holds copies of the events of `a`, in order.
pub open spec fn same_events(a: Seq<Event>, b: Seq<Event>) -> bool {
    &&& a.len() == b.len()
    &&& forall|i: int| 0 <= i < a.len() ==> same_event(a[i], #[trigger] b[i])
}

/// `after` is `before` followed by copies of the events of `sent`, in order.
pub open spec fn sent_on(before: Seq<Event>, after: Seq<Event>, sent: Seq<Event>) -> bool {
    &&& after.len() == before.len() + sent.len()
    &&& after.take(before.len() as int) == before
    &&& same_events(sent, after.skip(before.len() as int))
}

/// Sending nothing leaves a bus as it was.
pub proof fn lemma_sent_nothing(bus: Seq<Event>)
    ensures
        sent_on(bus, bus, Seq::empty()),
{
    assert(bus.take(bus.len() as int) =~= bus);
    assert(bus.skip(bus.len() as int) =~= Seq::<Event>::empty());
}

/// Sending one event that is not a sub-menu puts it at the end of a bus.
pub proof fn lemma_sent_one(bus: Seq<Event>, e: Event)
    requires
        !(e is SubMenu),
    ensures
        sent_on(bus, bus.push(e), seq![e]),
{
    assert(bus.push(e).take(bus.len() as int) =~= bus);
    assert(bus.push(e).skip(bus.len() as int) =~= seq![e]);
}

impl Clone for Event {
    fn clone(&self) -> (r: Self)
        ensures
            same_event(*self, r),
    {
        match self {
            Event::Device(a) => Event::Device(*a),
            Event::Gesture(a) => Event::Gesture(*a),
            Event::Keyboard(a) => Event::Keyboard(*a),
            Event::OpenHtml(a, b) => Event::OpenHtml(
                a.clone(),
                match b {
                    Some(t) => Some(t.clone()),
                    None => None,
                },
            ),
            Event::LoadPixmap(a) => Event::LoadPixmap(*a),
            Event::Update(a) => Event::Update(*a),
            Event::RefreshBookPreview(a, b) => Event::RefreshBookPreview(
                a.clone(),
                match b {
                    Some(t) => Some(t.clone()),
                    None => None,
                },
            ),
            Event::Invalid(a) => Event::Invalid(a.clone()),
            Event::Notify(a) => Event::Notify(a.clone()),
            Event::Page(a) => Event::Page(*a),
            Event::ResultsPage(a) => Event::ResultsPage(*a),
            Event::GoTo(a) => Event::GoTo(*a),
            Event::ResultsGoTo(a) => Event::ResultsGoTo(*a),
            Event::Chapter(a) => Event::Chapter(*a),
            Event::SelectDirectory(a) => Event::SelectDirectory(a.clone()),
            Event::ToggleSelectDirectory(a) => Event::ToggleSelectDirectory(a.clone()),
            Event::NavigationBarResized(a) => Event::NavigationBarResized(*a),
            Event::Focus(a) => Event::Focus(*a),
            Event::Select(a) => Event::Select(a.clone()),
            Event::PropagateSelect(a) => Event::PropagateSelect(a.clone()),
            Event::EditLanguages => Event::EditLanguages,
            Event::Define(a) => Event::Define(a.clone()),
            Event::Submit(a, b) => Event::Submit(*a, b.clone()),
            Event::ToggleNear(a, b) => Event::ToggleNear(*a, *b),
            Event::ToggleInputHistoryMenu(a, b) => Event::ToggleInputHistoryMenu(*a, *b),
            Event::ToggleBookMenu(a, b) => Event::ToggleBookMenu(*a, *b),
            Event::TogglePresetMenu(a, b) => Event::TogglePresetMenu(*a, *b),
            Event::SubMenu(a, b) => Event::SubMenu(*a, clone_entries(b)),
            Event::History(a, b) => Event::History(*a, *b),
            Event::Toggle(a) => Event::Toggle(*a),
            Event::Show(a) => Event::Show(*a),
            Event::Close(a) => Event::Close(*a),
            Event::CloseSub(a) => Event::CloseSub(*a),
            Event::Search(a) => Event::Search(a.clone()),
            Event::FetcherRemoveDocument(a, b) => Event::FetcherRemoveDocument(*a, b.clone()),
            Event::CheckFetcher(a) => Event::CheckFetcher(*a),
            Event::EndOfSearch => Event::EndOfSearch,
            Event::Finished => Event::Finished,
            Event::ClockTick => Event::ClockTick,
            Event::BatteryTick => Event::BatteryTick,
            Event::ToggleFrontlight => Event::ToggleFrontlight,
            Event::Load(a) => Event::Load(a.clone()),
            Event::LoadPreset(a) => Event::LoadPreset(*a),
            Event::Scroll(a) => Event::Scroll(*a),
            Event::Save => Event::Save,
            Event::Guess => Event::Guess,
            Event::SetWifi(a) => Event::SetWifi(*a),
            Event::MightSuspend => Event::MightSuspend,
            Event::PrepareSuspend => Event::PrepareSuspend,
            Event::Suspend => Event::Suspend,
            Event::Share => Event::Share,
            Event::PrepareShare => Event::PrepareShare,
            Event::Validate => Event::Validate,
            Event::Cancel => Event::Cancel,
            Event::Reseed => Event::Reseed,
            Event::SshUp(a) => Event::SshUp(*a),
            Event::Back => Event::Back,
            Event::Quit => Event::Quit,
            Event::WakeUp => Event::WakeUp,
        }
    }
}

/// What a view holds, by kind of view: all that its answers to events and
/// its drawing depend on.
pub enum ViewState {
    Button { id: Id, rect: Rectangle, event: Event, text: Seq<char>, active: bool, disabled: bool },
    Clock { id: Id, rect: Rectangle, format: Seq<char>, text: Seq<char> },
    Filler { id: Id, rect: Rectangle, colour: Colour },
    Image { id: Id, rect: Rectangle, width: u32, height: u32, samples: usize, data: Seq<u8> },
    ResultsLabel { id: Id, rect: Rectangle, count: usize, completed: bool },
}

/// A view: a part of the screen that handles events and draws itself.
///
/// The spec functions describe the view for the dispatch and rendering
/// passes; each method gives back what its spec function says.
pub trait View {
    /// The rectangle the view occupies.
    spec fn spec_rect(&self) -> Rectangle;

    /// The identifier of the view.
    spec fn spec_id(&self) -> Id;

    /// What the view redraws when asked to draw `rect`.
    spec fn spec_render_rect(&self, rect: Rectangle) -> Rectangle;

    /// The view is drawn before its children, as a background.
    spec fn spec_is_background(&self) -> bool;

    /// The view lets `evt` pass by its children without looking at it.
    spec fn spec_might_skip(&self, evt: Event) -> bool;

    /// The view, in its present state, captures `evt`.
    spec fn spec_captures(&self, evt: Event) -> bool;

    /// The events the view, in its present state, sends to its parent when
    /// it handles `evt`.
    spec fn spec_sends(&self, evt: Event) -> Seq<Event>;

    /// The requests to draw again that the view, in its present state,
    /// queues when it handles `evt`, in order.
    spec fn spec_requests(&self, evt: Event) -> Seq<RenderData>;

    /// What the view holds.
    spec fn spec_state(&self) -> ViewState;

    /// The view, in its present state, may hold `next` once it has handled
    /// `evt`.
    spec fn spec_leads(&self, evt: Event, next: ViewState) -> bool;

    /// Handles an event; returns true in order to capture it. Events for
    /// the parent go to the end of `bus`, requests to draw again to `rq`;
    /// `ctx` is the drawing context, for the views that measure text. The
    /// view keeps its place and identifier.
    fn handle_event(
        &mut self,
        evt: &Event,
        hub: &Hub,
        bus: &mut Bus,
        rq: &mut Option<RenderQueue>,
        ctx: &mut Context,
    ) -> (captured: bool)
        ensures
            captured == old(self).spec_captures(*evt),
            sent_on(old(bus)@, final(bus)@, old(self).spec_sends(*evt)),
            queued_all(*old(rq), *final(rq), old(self).spec_requests(*evt)),
            old(self).spec_leads(*evt, final(self).spec_state()),
            final(self).spec_rect() == old(self).spec_rect(),
            final(self).spec_id() == old(self).spec_id(),
    ;

    /// The colours of the pixels once the view has drawn the part `rect` of
    /// itself on a display holding `pixels`, with `setting`.
    spec fn spec_drawn(
        &self,
        rect: Rectangle,
        pixels: Map<(u32, u32), Colour>,
        setting: Setting,
    ) -> Map<(u32, u32), Colour>;

    /// Draws the part `rect` of the view: the display only sets pixels. The
    /// setting and the refreshes asked of the panel stay as they were.
    fn render_view(&self, rect: &Rectangle, ctx: &mut Context)
        ensures
            final(ctx).fb.spec_pixels() == self.spec_drawn(
                *rect,
                old(ctx).fb.spec_pixels(),
                setting(*old(ctx)),
            ),
            final(ctx).fb.spec_updates() == old(ctx).fb.spec_updates(),
            painted_on(old(ctx).fb.spec_steps(), final(ctx).fb.spec_steps()),
            setting(*final(ctx)) == setting(*old(ctx)),
    ;

    fn rect(&self) -> (r: &Rectangle)
        ensures
            *r == self.spec_rect(),
    ;

    fn id(&self) -> (id: Id)
        ensures
            id == self.spec_id(),
    ;

    fn render_rect(&self, rect: &Rectangle) -> (r: Rectangle)
        ensures
            r == self.spec_render_rect(*rect),
    ;

    fn might_skip(&self, evt: &Event) -> (b: bool)
        ensures
            b == self.spec_might_skip(*evt),
    ;

    fn might_rotate(&self) -> bool;

    /// Moves the view to `rect`.
    fn resize(&mut self, rect: Rectangle, hub: &Hub, rq: &mut Option<RenderQueue>)
        ensures
            final(self).spec_rect() == rect,
            final(self).spec_id() == old(self).spec_id(),
    ;

    fn is_background(&self) -> (b: bool)
        ensures
            b == self.spec_is_background(),
    ;

    fn view_id(&self) -> Option<ViewId>;
}

/// A view with the views it holds, from the lowest z-level to the highest.
pub struct ViewNode {
    pub view: Box<dyn View>,
    pub children: Vec<ViewNode>,
}

impl ViewNode {
    /// The number of children.
    pub fn len(&self) -> (n: usize)
        ensures
            n == self.children@.len(),
    {
        self.children.len()
    }

    pub fn child(&self, index: usize) -> (c: &ViewNode)
        requires
            index < self.children@.len(),
        ensures
            *c == self.children@[index as int],
    {
        &self.children[index]
    }

    pub fn child_mut(&mut self, index: usize) -> (c: &mut ViewNode)
        requires
            index < old(self).children@.len(),
        ensures
            *c == old(self).children@[index as int],
            final(self).view == old(self).view,
            final(self).children@ == old(self).children@.update(index as int, *final(c)),
    {
        &mut self.children[index]
    }
}

/// The number of levels of a tree of views.
pub open spec fn depth(n: ViewNode) -> nat
    decreases n, 1nat,
{
    1 + depth_seq(n.children@)
}

/// The largest number of levels among trees of views.
pub open spec fn depth_seq(s: Seq<ViewNode>) -> nat
    decreases s, 0nat,
{
    if s.len() == 0 {
        0
    } else {
        let a = depth(s.last());
        let b = depth_seq(s.drop_last());
        if a < b {
            b
        } else {
            a
        }
    }
}

proof fn lemma_depth_seq_bound(s: Seq<ViewNode>, i: int)
    requires
        0 <= i < s.len(),
    ensures
        depth(s[i]) <= depth_seq(s),
    decreases s.len(),
{
    if i < s.len() - 1 {
        lemma_depth_seq_bound(s.drop_last(), i);
    }
}

proof fn lemma_depth_seq_same(s: Seq<ViewNode>, t: Seq<ViewNode>)
    requires
        s.len() == t.len(),
        forall|i: int| 0 <= i < s.len() ==> depth(#[trigger] s[i]) == depth(t[i]),
    ensures
        depth_seq(s) == depth_seq(t),
    decreases s.len(),
{
    if s.len() > 0 {
        lemma_depth_seq_same(s.drop_last(), t.drop_last());
    }
}

/// The event is captured by the tree whatever the views do with the events
/// of their children: a leaf captures it, or a view that does not skip it
/// has a child that surely captures it.
pub open spec fn surely_captured(n: ViewNode, evt: Event) -> bool
    decreases n, 1nat,
{
    if n.children@.len() == 0 {
        n.view.spec_captures(evt)
    } else {
        !n.view.spec_might_skip(evt) && some_surely_captured(n.children@, evt)
    }
}

/// Some tree of the sequence surely captures the event.
pub open spec fn some_surely_captured(s: Seq<ViewNode>, evt: Event) -> bool
    decreases s, 0nat,
{
    if s.len() == 0 {
        false
    } else {
        surely_captured(s.last(), evt) || some_surely_captured(s.drop_last(), evt)
    }
}

proof fn lemma_some_surely_captured(s: Seq<ViewNode>, evt: Event)
    ensures
        some_surely_captured(s, evt) <==> exists|i: int|
            0 <= i < s.len() && surely_captured(#[trigger] s[i], evt),
    decreases s.len(),
{
    if s.len() > 0 {
        lemma_some_surely_captured(s.drop_last(), evt);
        if some_surely_captured(s.drop_last(), evt) {
            let i = choose|i: int|
                0 <= i < s.drop_last().len() && surely_captured(#[trigger] s.drop_last()[i], evt);
            assert(s[i] == s.drop_last()[i]);
        }
        if exists|i: int| 0 <= i < s.len() && surely_captured(#[trigger] s[i], evt) {
            let i = choose|i: int| 0 <= i < s.len() && surely_captured(#[trigger] s[i], evt);
            if i < s.len() - 1 {
                assert(s.drop_last()[i] == s[i]);
            }
        }
    }
}

/// Names a value, so that a proof can point at it as the witness of an
/// existential statement.
pub open spec fn witness<A>(a: A) -> bool {
    true
}

/// What a tree does with an event handed to it: whether it captures it,
/// the events `out` it sends up to its parent and the requests to draw
/// again `reqs` it queues, in order, and what the tree is after it (`after`).
///
/// A leaf answers as its view does, and its view ends in a state that
/// the event may lead it to. A view with children that skips the event does
/// nothing. Otherwise the children are visited from the highest z-level
/// down until one captures the event, which the tree then captures; each
/// visited child ends as its delivery left it, the others stay as they
/// were. The events they sent are offered to the view, and those it does
/// not capture go up, followed by what the view sent while handling them.
/// Only the leaves handle the event itself: the view of a tree with
/// children is, at the end, the view as the offered events left it.
pub open spec fn delivered(
    node: ViewNode,
    evt: Event,
    captured: bool,
    out: Seq<Event>,
    reqs: Seq<RenderData>,
    after: ViewNode,
) -> bool
    decreases node, 0nat,
{
    if node.children@.len() == 0 {
        &&& captured == node.view.spec_captures(evt)
        &&& same_events(node.view.spec_sends(evt), out)
        &&& reqs == node.view.spec_requests(evt)
        &&& after.children@.len() == 0
        &&& node.view.spec_leads(evt, after.view.spec_state())
        &&& after.view.spec_rect() == node.view.spec_rect()
        &&& after.view.spec_id() == node.view.spec_id()
    } else if node.view.spec_might_skip(evt) {
        &&& !captured
        &&& out.len() == 0
        &&& reqs.len() == 0
        &&& after == node
    } else {
        exists|
            cc: bool,
            evts: Seq<Event>,
            w: ViewNode,
            kept: Seq<Event>,
            sent: Seq<Event>,
            rv: Seq<RenderData>,
            ro: Seq<RenderData>,
        |
            #![trigger witness((cc, evts, w, kept, sent, rv, ro))]
            {
                &&& witness((cc, evts, w, kept, sent, rv, ro))
                &&& visit(
                    node.children@,
                    node.children@.len() as int,
                    evt,
                    cc,
                    evts,
                    rv,
                    after.children@,
                )
                &&& offered(node, w, evts, kept, sent, ro)
                &&& captured == cc
                &&& out == kept + sent
                &&& reqs == rv + ro
                &&& after.view == w.view
            }
    }
}

/// Visiting the trees `cs[0..i]` from the highest down with an event: some
/// tree captures it (and the visit stops there), or none does; `out` holds
/// what the visited trees sent up, and `reqs` what they queued, in the
/// order of the visit. Each visited tree ends as `after` holds it at its
/// place, as its delivery left it; the trees below the one that captures
/// stay in `after` as they were.
pub open spec fn visit(
    cs: Seq<ViewNode>,
    i: int,
    evt: Event,
    captured: bool,
    out: Seq<Event>,
    reqs: Seq<RenderData>,
    after: Seq<ViewNode>,
) -> bool
    decreases cs, i,
{
    if i <= 0 || i > cs.len() {
        !captured && out.len() == 0 && reqs.len() == 0
    } else {
        exists|c1: bool, o1: Seq<Event>, q1: Seq<RenderData>|
            #![trigger witness((c1, o1, q1))]
            delivered(cs[i - 1], evt, c1, o1, q1, after[i - 1]) && if c1 {
                &&& captured
                &&& out == o1
                &&& reqs == q1
                &&& forall|j: int| 0 <= j < i - 1 ==> after[j] == #[trigger] cs[j]
            } else {
                exists|rest: Seq<Event>, qr: Seq<RenderData>|
                    #![trigger witness((rest, qr))]
                    visit(cs, i - 1, evt, captured, rest, qr, after) && out == o1 + rest && reqs == q1
                        + qr
            }
    }
}

/// A view that starts as the view of `v` is offered the events `evts`,
/// one after the other, each leading it to a next state, and ends as the
/// view of `w`: `kept` holds those it
/// did not capture, `sent` what it sent, and `reqs` what it queued while
/// handling them, in order.
pub open spec fn offered(
    v: ViewNode,
    w: ViewNode,
    evts: Seq<Event>,
    kept: Seq<Event>,
    sent: Seq<Event>,
    reqs: Seq<RenderData>,
) -> bool
    decreases evts.len(),
{
    if evts.len() == 0 {
        v.view == w.view && kept.len() == 0 && sent.len() == 0 && reqs.len() == 0
    } else {
        exists|u: ViewNode, k1: Seq<Event>, s1: Seq<Event>, r1: Seq<RenderData>|
            #![trigger witness((u, k1, s1, r1))]
            witness((u, k1, s1, r1)) && offered(v, u, evts.drop_last(), k1, s1, r1) && {
                &&& u.view.spec_leads(evts.last(), w.view.spec_state())
                &&& w.view.spec_rect() == u.view.spec_rect()
                &&& w.view.spec_id() == u.view.spec_id()
                &&& kept == k1 + if u.view.spec_captures(evts.last()) {
                    Seq::empty()
                } else {
                    seq![evts.last()]
                }
                &&& sent.len() >= s1.len()
                &&& sent.take(s1.len() as int) == s1
                &&& same_events(u.view.spec_sends(evts.last()), sent.skip(s1.len() as int))
                &&& reqs == r1 + u.view.spec_requests(evts.last())
            }
    }
}

/// The views of `us` handle the events of `evts` in turn: `evts[k]` is
/// offered to the view of `us[k]`, which it may leave as the view of
/// `us[k + 1]`.
pub open spec fn led_through(us: Seq<ViewNode>, evts: Seq<Event>) -> bool {
    &&& us.len() == evts.len() + 1
    &&& forall|k: int|
        0 <= k < evts.len() ==> (#[trigger] us[k]).view.spec_leads(
            evts[k],
            us[k + 1].view.spec_state(),
        )
}

/// The events of `evts` that are not captured when each `evts[k]` is
/// offered to the view of `us[k]`, in order.
pub open spec fn not_captured(us: Seq<ViewNode>, evts: Seq<Event>) -> Seq<Event>
    decreases evts.len(),
{
    if evts.len() == 0 {
        Seq::empty()
    } else {
        let k = evts.len() - 1;
        let prev = not_captured(us, evts.drop_last());
        if us[k].view.spec_captures(evts[k]) {
            prev
        } else {
            prev.push(evts[k])
        }
    }
}

proof fn lemma_not_captured_push(us: Seq<ViewNode>, x: ViewNode, evts: Seq<Event>)
    requires
        evts.len() <= us.len(),
    ensures
        not_captured(us.push(x), evts) == not_captured(us, evts),
    decreases evts.len(),
{
    if evts.len() > 0 {
        lemma_not_captured_push(us, x, evts.drop_last());
        assert(us.push(x)[evts.len() - 1] == us[evts.len() - 1]);
    }
}

/// A view offered events in turn passes on exactly those it does not
/// capture, each in the state the events before it left it in.
proof fn lemma_offered_chain(
    v: ViewNode,
    w: ViewNode,
    evts: Seq<Event>,
    kept: Seq<Event>,
    sent: Seq<Event>,
    reqs: Seq<RenderData>,
)
    requires
        offered(v, w, evts, kept, sent, reqs),
    ensures
        exists|us: Seq<ViewNode>|
            #![trigger witness(us)]
            {
                &&& witness(us)
                &&& led_through(us, evts)
                &&& us[0].view == v.view
                &&& us.last().view == w.view
                &&& kept == not_captured(us, evts)
            },
    decreases evts.len(),
{
    if evts.len() == 0 {
        let us = seq![v];
        assert(witness(us));
    } else {
        let (u, k1, s1, r1) = choose|
            u: ViewNode,
            k1: Seq<Event>,
            s1: Seq<Event>,
            r1: Seq<RenderData>,
        |
            #![trigger witness((u, k1, s1, r1))]
            witness((u, k1, s1, r1)) && offered(v, u, evts.drop_last(), k1, s1, r1) && {
                &&& u.view.spec_leads(evts.last(), w.view.spec_state())
                &&& w.view.spec_rect() == u.view.spec_rect()
                &&& w.view.spec_id() == u.view.spec_id()
                &&& kept == k1 + if u.view.spec_captures(evts.last()) {
                    Seq::empty()
                } else {
                    seq![evts.last()]
                }
                &&& sent.len() >= s1.len()
                &&& sent.take(s1.len() as int) == s1
                &&& same_events(u.view.spec_sends(evts.last()), sent.skip(s1.len() as int))
                &&& reqs == r1 + u.view.spec_requests(evts.last())
            };
        lemma_offered_chain(v, u, evts.drop_last(), k1, s1, r1);
        let us1 = choose|us: Seq<ViewNode>|
            #![trigger witness(us)]
            {
                &&& witness(us)
                &&& led_through(us, evts.drop_last())
                &&& us[0].view == v.view
                &&& us.last().view == u.view
                &&& k1 == not_captured(us, evts.drop_last())
            };
        let n = evts.len();
        let us = us1.push(w);
        assert forall|k: int| 0 <= k < evts.len() implies (#[trigger] us[k]).view.spec_leads(
            evts[k],
            us[k + 1].view.spec_state(),
        ) by {
            if k < n - 1 {
                assert(us[k] == us1[k]);
                assert(us[k + 1] == us1[k + 1]);
                assert(evts[k] == evts.drop_last()[k]);
            } else {
                assert(us[k] == us1.last());
                assert(us[k + 1] == w);
            }
        }
        lemma_not_captured_push(us1, w, evts.drop_last());
        assert(us[n - 1] == us1.last());
        if u.view.spec_captures(evts.last()) {
            assert(kept =~= k1);
        } else {
            assert(kept =~= k1.push(evts.last()));
        }
        assert(not_captured(us, evts.drop_last()) == k1);
        assert(evts[n - 1] == evts.last());
        assert(witness(us));
    }
}

/// What a tree with children sends up for an event that its view does not
/// skip: the events its children sent (those that the visit gathered), less
/// those that its view captures, each in the state the events before it
/// left the view in, followed by what the view sent while handling them.
/// An event that the view captures never goes further up.
pub proof fn lemma_captured_stay_down(
    node: ViewNode,
    evt: Event,
    captured: bool,
    out: Seq<Event>,
    reqs: Seq<RenderData>,
    after: ViewNode,
)
    requires
        delivered(node, evt, captured, out, reqs, after),
        node.children@.len() > 0,
        !node.view.spec_might_skip(evt),
    ensures
        exists|t: (Seq<Event>, Seq<ViewNode>, Seq<Event>, Seq<RenderData>)|
            #![trigger witness(t)]
            {
                &&& witness(t)
                &&& visit(
                    node.children@,
                    node.children@.len() as int,
                    evt,
                    captured,
                    t.0,
                    t.3,
                    after.children@,
                )
                &&& led_through(t.1, t.0)
                &&& t.1[0].view == node.view
                &&& t.1.last().view == after.view
                &&& out == not_captured(t.1, t.0) + t.2
            },
{
    let (cc, evts, w, kept, sent, rv, ro) = choose|
        cc: bool,
        evts: Seq<Event>,
        w: ViewNode,
        kept: Seq<Event>,
        sent: Seq<Event>,
        rv: Seq<RenderData>,
        ro: Seq<RenderData>,
    |
        #![trigger witness((cc, evts, w, kept, sent, rv, ro))]
        {
            &&& witness((cc, evts, w, kept, sent, rv, ro))
            &&& visit(
                node.children@,
                node.children@.len() as int,
                evt,
                cc,
                evts,
                rv,
                after.children@,
            )
            &&& offered(node, w, evts, kept, sent, ro)
            &&& captured == cc
            &&& out == kept + sent
            &&& reqs == rv + ro
            &&& after.view == w.view
        };
    lemma_offered_chain(node, w, evts, kept, sent, ro);
    let us = choose|us: Seq<ViewNode>|
        #![trigger witness(us)]
        {
            &&& witness(us)
            &&& led_through(us, evts)
            &&& us[0].view == node.view
            &&& us.last().view == w.view
            &&& kept == not_captured(us, evts)
        };
    assert(witness((evts, us, sent, rv)));
}

proof fn lemma_visit_captured(
    cs: Seq<ViewNode>,
    i: int,
    evt: Event,
    o: Seq<Event>,
    q: Seq<RenderData>,
    after: Seq<ViewNode>,
)
    requires
        0 < i <= cs.len(),
        delivered(cs[i - 1], evt, true, o, q, after[i - 1]),
        forall|j: int| 0 <= j < i - 1 ==> after[j] == #[trigger] cs[j],
    ensures
        visit(cs, i, evt, true, o, q, after),
{
    assert(witness((true, o, q)));
}

proof fn lemma_visit_passed(
    cs: Seq<ViewNode>,
    i: int,
    evt: Event,
    o: Seq<Event>,
    q: Seq<RenderData>,
    after: Seq<ViewNode>,
    c: bool,
    r: Seq<Event>,
    qr: Seq<RenderData>,
)
    requires
        0 < i <= cs.len(),
        delivered(cs[i - 1], evt, false, o, q, after[i - 1]),
        visit(cs, i - 1, evt, c, r, qr, after),
    ensures
        visit(cs, i, evt, c, o + r, q + qr, after),
{
    assert(witness((false, o, q)));
    assert(witness((r, qr)));
}

proof fn lemma_offered_step(
    v: ViewNode,
    u: ViewNode,
    w: ViewNode,
    evts: Seq<Event>,
    k1: Seq<Event>,
    s1: Seq<Event>,
    r1: Seq<RenderData>,
    x: Event,
    kept: Seq<Event>,
    sent: Seq<Event>,
)
    requires
        offered(v, u, evts, k1, s1, r1),
        kept == k1 + if u.view.spec_captures(x) {
            Seq::<Event>::empty()
        } else {
            seq![x]
        },
        sent.len() >= s1.len(),
        sent.take(s1.len() as int) == s1,
        same_events(u.view.spec_sends(x), sent.skip(s1.len() as int)),
        u.view.spec_leads(x, w.view.spec_state()),
        w.view.spec_rect() == u.view.spec_rect(),
        w.view.spec_id() == u.view.spec_id(),
    ensures
        offered(v, w, evts.push(x), kept, sent, r1 + u.view.spec_requests(x)),
{
    assert(evts.push(x).drop_last() =~= evts);
    assert(witness((u, k1, s1, r1)));
}

/// Delivers an event to a tree of views.
///
/// The children are visited from the highest z-level down, and the first
/// one that captures the event stops the visit. The events that the
/// children send up are offered to the view; those it does not handle go
/// on to `parent_bus`, followed by the events the view sent while handling
/// them. Only the leaves handle the event itself: a view with children
/// captures it when one of them does.
///
/// `delivered` states all of this, and the requests to draw again queued
/// on the way, which `rq` receives in that order; besides, a view with
/// children that skips the event leaves everything as it was, an event
/// that some child surely captures is captured, and the children below
/// that one are left as they were.
#[verifier::rlimit(50)]
pub fn handle_event(
    node: &mut ViewNode,
    evt: &Event,
    hub: &Hub,
    parent_bus: &mut Bus,
    rq: &mut Option<RenderQueue>,
    ctx: &mut Context,
) -> (captured: bool)
    ensures
        old(parent_bus)@.is_prefix_of(final(parent_bus)@),
        final(parent_bus)@.take(old(parent_bus)@.len() as int) == old(parent_bus)@,
        exists|reqs: Seq<RenderData>|
            #![trigger queued_all(*old(rq), *final(rq), reqs)]
            {
                &&& delivered(
                    *old(node),
                    *evt,
                    captured,
                    final(parent_bus)@.skip(old(parent_bus)@.len() as int),
                    reqs,
                    *final(node),
                )
                &&& queued_all(*old(rq), *final(rq), reqs)
            },
        depth(*final(node)) == depth(*old(node)),
        final(node).children@.len() == old(node).children@.len(),
        old(node).children@.len() == 0 ==> captured == old(node).view.spec_captures(*evt),
        old(node).children@.len() > 0 && old(node).view.spec_might_skip(*evt) ==> {
            &&& !captured
            &&& *final(node) == *old(node)
            &&& final(parent_bus)@ == old(parent_bus)@
            &&& *final(rq) == *old(rq)
        },
        surely_captured(*old(node), *evt) ==> captured,
        forall|j: int, k: int|
            0 <= j < k < old(node).children@.len() && surely_captured(
                #[trigger] old(node).children@[k],
                *evt,
            ) ==> #[trigger] final(node).children@[j] == old(node).children@[j],
    decreases depth(*old(node)),
{
    let ghost b0 = parent_bus@;
    let ghost rq0 = *rq;
    let n = node.children.len();
    if n == 0 {
        let c = node.view.handle_event(evt, hub, parent_bus, rq, ctx);
        assert(parent_bus@.take(b0.len() as int) =~= b0);
        return c;
    }
    if node.view.might_skip(evt) {
        assert(parent_bus@.take(b0.len() as int) =~= b0);
        proof {
            lemma_queued_none(*rq);
        }
        return false;
    }
    let ghost c0 = node.children@;
    let ghost v0 = node.view;
    let ghost mut rv: Seq<RenderData> = Seq::empty();
    let mut child_bus: Bus = VecDeque::with_capacity(1);
    let mut captured = false;
    let mut i = n;
    proof {
        lemma_queued_none(*rq);
        assert forall|c: bool, r: Seq<Event>, q: Seq<RenderData>, a: Seq<ViewNode>| #[trigger]
            visit(c0, n as int, *evt, c, r, q, a) implies visit(
            c0,
            n as int,
            *evt,
            c,
            child_bus@ + r,
            rv + q,
            a,
        ) by {
            assert(child_bus@ + r =~= r);
            assert(rv + q =~= q);
        }
    }
    while i > 0
        invariant_except_break
            forall|j: int| i <= j < n ==> !surely_captured(#[trigger] c0[j], *evt),
            !captured,
            forall|c: bool, r: Seq<Event>, q: Seq<RenderData>, a: Seq<ViewNode>|
                #![trigger visit(c0, i as int, *evt, c, r, q, a)]
                (forall|j: int| i <= j < n ==> a[j] == #[trigger] node.children@[j]) && visit(
                    c0,
                    i as int,
                    *evt,
                    c,
                    r,
                    q,
                    a,
                ) ==> visit(c0, n as int, *evt, c, child_bus@ + r, rv + q, a),
            i == 0 ==> visit(c0, n as int, *evt, false, child_bus@, rv, node.children@),
        invariant
            i <= n,
            n == node.children@.len(),
            node.view == v0,
            forall|j: int| 0 <= j < n ==> depth(#[trigger] node.children@[j]) == depth(c0[j]),
            forall|j: int| 0 <= j < i ==> #[trigger] node.children@[j] == c0[j],
            depth(*old(node)) == 1 + depth_seq(c0),
            c0.len() == n,
            queued_all(rq0, *rq, rv),
        ensures
            i <= n,
            n == node.children@.len(),
            node.view == v0,
            forall|j: int| 0 <= j < n ==> depth(#[trigger] node.children@[j]) == depth(c0[j]),
            forall|j: int| 0 <= j < i ==> #[trigger] node.children@[j] == c0[j],
            !captured ==> i == 0 && forall|j: int|
                0 <= j < n ==> !surely_captured(#[trigger] c0[j], *evt),
            captured ==> i < n && forall|j: int|
                i < j < n ==> !surely_captured(#[trigger] c0[j], *evt),
            visit(c0, n as int, *evt, captured, child_bus@, rv, node.children@),
            queued_all(rq0, *rq, rv),
        decreases i,
    {
        i = i - 1;
        proof {
            lemma_depth_seq_bound(c0, i as int);
        }
        let ghost e0 = child_bus@;
        let ghost rqb = *rq;
        let ghost rv0 = rv;
        let ghost cb = node.children@;
        let c = handle_event(&mut node.children[i], evt, hub, &mut child_bus, rq, ctx);
        let ghost o = child_bus@.skip(e0.len() as int);
        proof {
            assert(child_bus@ =~= e0 + o);
            let q = choose|q: Seq<RenderData>|
                #![trigger queued_all(rqb, *rq, q)]
                {
                    &&& delivered(c0[i as int], *evt, c, o, q, node.children@[i as int])
                    &&& queued_all(rqb, *rq, q)
                };
            lemma_queued_chain(rq0, rqb, *rq, rv0, q);
            rv = rv0 + q;
            let cn = node.children@;
            assert(forall|j: int| 0 <= j < n && j != i ==> cn[j] == cb[j]);
            if c {
                lemma_visit_captured(c0, (i + 1) as int, *evt, o, q, cn);
                assert(visit(c0, n as int, *evt, true, e0 + o, rv0 + q, cn));
            } else {
                assert forall|cx: bool, r: Seq<Event>, qx: Seq<RenderData>, a: Seq<ViewNode>|
                    (forall|j: int| i <= j < n ==> a[j] == #[trigger] cn[j]) && #[trigger] visit(
                        c0,
                        i as int,
                        *evt,
                        cx,
                        r,
                        qx,
                        a,
                    ) implies visit(c0, n as int, *evt, cx, child_bus@ + r, rv + qx, a) by {
                    assert(a[i as int] == cn[i as int]);
                    lemma_visit_passed(c0, (i + 1) as int, *evt, o, q, a, cx, r, qx);
                    assert(forall|j: int| i + 1 <= j < n ==> a[j] == #[trigger] cb[j]) by {
                        assert forall|j: int| i + 1 <= j < n implies a[j] == #[trigger] cb[j] by {
                            assert(a[j] == cn[j]);
                        }
                    }
                    assert(e0 + (o + r) =~= child_bus@ + r);
                    assert(rv0 + (q + qx) =~= rv + qx);
                }
                if i == 0 {
                    assert(visit(c0, 0int, *evt, false, Seq::empty(), Seq::empty(), cn));
                    assert(visit(
                        c0,
                        n as int,
                        *evt,
                        false,
                        child_bus@ + Seq::<Event>::empty(),
                        rv + Seq::<RenderData>::empty(),
                        cn,
                    ));
                    assert(child_bus@ + Seq::<Event>::empty() =~= child_bus@);
                    assert(rv + Seq::<RenderData>::empty() =~= rv);
                }
            }
        }
        if c {
            captured = true;
            break;
        }
    }
    proof {
        lemma_depth_seq_same(node.children@, c0);
        lemma_some_surely_captured(c0, *evt);
        assert forall|j: int, k: int|
            0 <= j < k < n && surely_captured(#[trigger] c0[k], *evt) implies #[trigger] node.children@[j]
            == c0[j] by {
            assert(captured);
            assert(k <= i);
        }
    }
    let ghost c1 = node.children@;
    let ghost evts = child_bus@;
    let ghost rq1 = *rq;
    let ghost mut ro: Seq<RenderData> = Seq::empty();
    let mut temp_bus: Bus = VecDeque::with_capacity(1);
    let mut kept: Bus = VecDeque::new();
    let ghost mut m: int = 0;
    proof {
        assert(evts.take(0) =~= Seq::<Event>::empty());
        assert(evts.skip(0) =~= evts);
        assert(node.view == v0);
        assert(kept@.len() == 0 && temp_bus@.len() == 0);
        assert(offered(*old(node), *node, evts.take(0), kept@, temp_bus@, ro));
        lemma_queued_none(*rq);
    }
    while child_bus.len() > 0
        invariant
            0 <= m <= evts.len(),
            child_bus@ == evts.skip(m),
            offered(*old(node), *node, evts.take(m), kept@, temp_bus@, ro),
            queued_all(rq1, *rq, ro),
            node.children@ == c1,
            forall|j: int, k: int|
                0 <= j < k < n && surely_captured(#[trigger] c0[k], *evt) ==> #[trigger] c1[j]
                    == c0[j],
            depth(*old(node)) == 1 + depth_seq(c1),
            surely_captured(*old(node), *evt) ==> captured,
        decreases child_bus@.len(),
    {
        let ghost u = *node;
        let ghost k1 = kept@;
        let ghost s1 = temp_bus@;
        let ghost r1 = ro;
        let ghost rqb = *rq;
        let child_evt = child_bus.pop_front().unwrap();
        assert(child_evt == evts[m]);
        let taken = node.view.handle_event(&child_evt, hub, &mut temp_bus, rq, ctx);
        if !taken {
            kept.push_back(child_evt);
        }
        proof {
            assert(evts.take(m + 1).drop_last() =~= evts.take(m));
            assert(evts.take(m + 1).last() == child_evt);
            if taken {
                assert(kept@ =~= k1 + Seq::<Event>::empty());
            } else {
                assert(kept@ =~= k1 + seq![child_evt]);
            }
            assert(evts.take(m + 1) =~= evts.take(m).push(child_evt));
            lemma_offered_step(
                *old(node),
                u,
                *node,
                evts.take(m),
                k1,
                s1,
                r1,
                child_evt,
                kept@,
                temp_bus@,
            );
            lemma_queued_chain(rq1, rqb, *rq, r1, u.view.spec_requests(child_evt));
            ro = r1 + u.view.spec_requests(child_evt);
            m = m + 1;
            assert(child_bus@ =~= evts.skip(m));
        }
    }
    proof {
        assert(m == evts.len());
        assert(evts.take(m) =~= evts);
        lemma_queued_chain(rq0, rq1, *rq, rv, ro);
    }
    let ghost w = *node;
    let ghost kept_evts = kept@;
    let ghost sent_evts = temp_bus@;
    let ghost ks = kept@ + temp_bus@;
    parent_bus.append(&mut kept);
    parent_bus.append(&mut temp_bus);
    let ghost b1 = parent_bus@;
    proof {
        assert(b1 =~= b0 + ks);
    }
    let result = captured;
    proof {
        let out = parent_bus@.skip(b0.len() as int);
        assert(parent_bus@.take(b1.len() as int) =~= b1);
        assert(parent_bus@.take(b0.len() as int) =~= b0);
        assert(out =~= ks);
        assert(visit(c0, c0.len() as int, *evt, captured, evts, rv, c1));
        assert(witness((captured, evts, w, kept_evts, sent_evts, rv, ro)));
        assert(offered(*old(node), w, evts, kept_evts, sent_evts, ro));
    }
    result
}

#[derive(Debug, PartialEq, Eq)]
pub enum AppCmd {
    Sketch,
    Calculator,
    Dictionary { query: String, language: String },
    TouchEvents,
    RotationValues,
}

impl Clone for AppCmd {
    fn clone(&self) -> (r: Self)
        ensures
            r == *self,
    {
        match self {
            AppCmd::Sketch => AppCmd::Sketch,
            AppCmd::Calculator => AppCmd::Calculator,
            AppCmd::Dictionary { query, language } => AppCmd::Dictionary {
                query: query.clone(),
                language: language.clone(),
            },
            AppCmd::TouchEvents => AppCmd::TouchEvents,
            AppCmd::RotationValues => AppCmd::RotationValues,
        }
    }
}

#[derive(Debug, Copy, Clone, Hash, Eq, PartialEq, Structural)]
pub enum ViewId {
    Home,
    Reader,
    SortMenu,
    MainMenu,
    TitleMenu,
    SelectionMenu,
    AnnotationMenu,
    BatteryMenu,
    ClockMenu,
    SearchTargetMenu,
    InputHistoryMenu,
    KeyboardLayoutMenu,
    Frontlight,
    Dictionary,
    FontSizeMenu,
    TextAlignMenu,
    FontFamilyMenu,
    MarginWidthMenu,
    ContrastExponentMenu,
    ContrastGreyMenu,
    LineHeightMenu,
    DirectoryMenu,
    BookMenu,
    LibraryMenu,
    PageMenu,
    PresetMenu,
    MarginCropperMenu,
    SearchMenu,
    SketchMenu,
    RenameDocument,
    RenameDocumentInput,
    GoToPage,
    GoToPageInput,
    GoToResultsPage,
    GoToResultsPageInput,
    NamePage,
    NamePageInput,
    EditNote,
    EditNoteInput,
    EditLanguages,
    EditLanguagesInput,
    HomeSearchInput,
    ReaderSearchInput,
    DictionarySearchInput,
    CalculatorInput,
    SearchBar,
    AddressBar,
    AddressBarInput,
    Keyboard,
    AboutDialog,
    ShareDialog,
    MarginCropper,
    TopBottomBars,
    TableOfContents,
    MessageNotif(Id),
    SubMenu(u8),
}

#[derive(Debug, Copy, Clone, Eq, PartialEq, Structural)]
pub enum SliderId {
    FontSize,
    LightIntensity,
    LightWarmth,
    ContrastExponent,
    ContrastGrey,
}

impl SliderId {
    /// The text shown beside the slider.
    pub open spec fn spec_label(self) -> Seq<char> {
        match self {
            SliderId::LightIntensity => "Intensity"@,
            SliderId::LightWarmth => "Warmth"@,
            SliderId::FontSize => "Font Size"@,
            SliderId::ContrastExponent => "Contrast Exponent"@,
            SliderId::ContrastGrey => "Contrast Grey"@,
        }
    }

    pub fn label(self) -> (s: String)
        ensures
            s@ == self.spec_label(),
    {
        match self {
            SliderId::LightIntensity => "Intensity".to_string(),
            SliderId::LightWarmth => "Warmth".to_string(),
            SliderId::FontSize => "Font Size".to_string(),
            SliderId::ContrastExponent => "Contrast Exponent".to_string(),
            SliderId::ContrastGrey => "Contrast Grey".to_string(),
        }
    }
}

#[derive(Debug, Clone, Copy, PartialEq, Eq, Structural)]
pub enum Align {
    Left(i32),
    Right(i32),
    Center,
}

impl Align {
    /// Where an item of the given width starts inside its container.
    pub open spec fn spec_offset(self, width: int, container_width: int) -> int {
        match self {
            Align::Left(dx) => dx as int,
            Align::Right(dx) => container_width - width - dx,
            Align::Center => div_trunc(container_width - width, 2),
        }
    }

    pub fn offset(&self, width: i32, container_width: i32) -> (o: i32)
        requires
            !(*self is Left) ==> i32::MIN <= container_width - width <= i32::MAX,
            *self matches Align::Right(dx) ==> i32::MIN <= container_width - width - dx
                <= i32::MAX,
        ensures
            o == self.spec_offset(width as int, container_width as int),
    {
        match *self {
            Align::Left(dx) => dx,
            Align::Right(dx) => container_width - width - dx,
            Align::Center => (container_width - width) / 2,
        }
    }
}

#[derive(Debug, Copy, Clone, PartialEq, Eq, Structural)]
pub enum KeyboardEvent {
    Append(char),
    Partial(char),
    Move { target: TextKind, dir: LinearDir },
    Delete { target: TextKind, dir: LinearDir },
    Submit,
}

#[derive(Debug, Copy, Clone, PartialEq, Eq, Structural)]
pub enum TextKind {
    Char,
    Word,
    Extremum,
}

#[derive(Debug)]
pub enum EntryKind {
    Message(String, Option<String>),
    Command(String, EntryId),
    CheckBox(String, EntryId, bool),
    RadioButton(String, EntryId, bool),
    SubMenu(String, Vec<EntryKind>),
    More(Vec<EntryKind>),
    Separator,
}

#[derive(Debug, Eq, PartialEq)]
pub enum EntryId {
    About,
    SystemInfo,
    LoadLibrary(usize),
    Load(PathBuf),
    Flush,
    Save,
    Import,
    CleanUp,
    ReverseOrder,
    EmptyTrash,
    Rename(PathBuf),
    Remove(PathBuf),
    CopyTo(PathBuf, usize),
    MoveTo(PathBuf, usize),
    AddDirectory(PathBuf),
    SelectDirectory(PathBuf),
    ToggleSelectDirectory(PathBuf),
    SearchAuthor(String),
    RemovePreset(usize),
    ThumbnailPreviews,
    RemoveCroppings,
    SetPageName,
    RemovePageName,
    HighlightSelection,
    AnnotateSelection,
    DefineSelection,
    SearchForSelection,
    AdjustSelection,
    Annotations,
    Bookmarks,
    GoTo(usize),
    GoToSelectedPageName,
    SearchDirection(LinearDir),
    SetFontFamily(String),
    SetFontSize(i32),
    SetMarginWidth(i32),
    SetLineHeight(i32),
    SetContrastExponent(i32),
    SetContrastGrey(i32),
    SetSearchTarget(Option<String>),
    SetInputText(ViewId, String),
    SetKeyboardLayout(String),
    ToggleShowHidden,
    ToggleFuzzy,
    ToggleInverted,
    ToggleDocumentInverted,
    ToggleDithered,
    ToggleWifi,
    ToggleSSH,
    Rotate(i8),
    Launch(AppCmd),
    SetPenSize(i32),
    SetPenColor(Colour),
    TogglePenDynamism,
    ReloadDictionaries,
    New,
    Refresh,
    TakeScreenshot,
    RestartApp,
    Reboot,
    Quit,
}

impl Clone for EntryId {
    fn clone(&self) -> (r: Self)
        ensures
            r == *self,
    {
        match self {
            EntryId::About => EntryId::About,
            EntryId::SystemInfo => EntryId::SystemInfo,
            EntryId::LoadLibrary(a) => EntryId::LoadLibrary(*a),
            EntryId::Load(a) => EntryId::Load(a.clone()),
            EntryId::Flush => EntryId::Flush,
            EntryId::Save => EntryId::Save,
            EntryId::Import => EntryId::Import,
            EntryId::CleanUp => EntryId::CleanUp,
            EntryId::ReverseOrder => EntryId::ReverseOrder,
            EntryId::EmptyTrash => EntryId::EmptyTrash,
            EntryId::Rename(a) => EntryId::Rename(a.clone()),
            EntryId::Remove(a) => EntryId::Remove(a.clone()),
            EntryId::CopyTo(a, b) => EntryId::CopyTo(a.clone(), *b),
            EntryId::MoveTo(a, b) => EntryId::MoveTo(a.clone(), *b),
            EntryId::AddDirectory(a) => EntryId::AddDirectory(a.clone()),
            EntryId::SelectDirectory(a) => EntryId::SelectDirectory(a.clone()),
            EntryId::ToggleSelectDirectory(a) => EntryId::ToggleSelectDirectory(a.clone()),
            EntryId::SearchAuthor(a) => EntryId::SearchAuthor(a.clone()),
            EntryId::RemovePreset(a) => EntryId::RemovePreset(*a),
            EntryId::ThumbnailPreviews => EntryId::ThumbnailPreviews,
            EntryId::RemoveCroppings => EntryId::RemoveCroppings,
            EntryId::SetPageName => EntryId::SetPageName,
            EntryId::RemovePageName => EntryId::RemovePageName,
            EntryId::HighlightSelection => EntryId::HighlightSelection,
            EntryId::AnnotateSelection => EntryId::AnnotateSelection,
            EntryId::DefineSelection => EntryId::DefineSelection,
            EntryId::SearchForSelection => EntryId::SearchForSelection,
            EntryId::AdjustSelection => EntryId::AdjustSelection,
            EntryId::Annotations => EntryId::Annotations,
            EntryId::Bookmarks => EntryId::Bookmarks,
            EntryId::GoTo(a) => EntryId::GoTo(*a),
            EntryId::GoToSelectedPageName => EntryId::GoToSelectedPageName,
            EntryId::SearchDirection(a) => EntryId::SearchDirection(*a),
            EntryId::SetFontFamily(a) => EntryId::SetFontFamily(a.clone()),
            EntryId::SetFontSize(a) => EntryId::SetFontSize(*a),
            EntryId::SetMarginWidth(a) => EntryId::SetMarginWidth(*a),
            EntryId::SetLineHeight(a) => EntryId::SetLineHeight(*a),
            EntryId::SetContrastExponent(a) => EntryId::SetContrastExponent(*a),
            EntryId::SetContrastGrey(a) => EntryId::SetContrastGrey(*a),
            EntryId::SetSearchTarget(a) => EntryId::SetSearchTarget(
                match a {
                    Some(t) => Some(t.clone()),
                    None => None,
                },
            ),
            EntryId::SetInputText(a, b) => EntryId::SetInputText(*a, b.clone()),
            EntryId::SetKeyboardLayout(a) => EntryId::SetKeyboardLayout(a.clone()),
            EntryId::ToggleShowHidden => EntryId::ToggleShowHidden,
            EntryId::ToggleFuzzy => EntryId::ToggleFuzzy,
            EntryId::ToggleInverted => EntryId::ToggleInverted,
            EntryId::ToggleDocumentInverted => EntryId::ToggleDocumentInverted,
            EntryId::ToggleDithered => EntryId::ToggleDithered,
            EntryId::ToggleWifi => EntryId::ToggleWifi,
            EntryId::ToggleSSH => EntryId::ToggleSSH,
            EntryId::Rotate(a) => EntryId::Rotate(*a),
            EntryId::Launch(a) => EntryId::Launch(a.clone()),
            EntryId::SetPenSize(a) => EntryId::SetPenSize(*a),
            EntryId::SetPenColor(a) => EntryId::SetPenColor(*a),
            EntryId::TogglePenDynamism => EntryId::TogglePenDynamism,
            EntryId::ReloadDictionaries => EntryId::ReloadDictionaries,
            EntryId::New => EntryId::New,
            EntryId::Refresh => EntryId::Refresh,
            EntryId::TakeScreenshot => EntryId::TakeScreenshot,
            EntryId::RestartApp => EntryId::RestartApp,
            EntryId::Reboot => EntryId::Reboot,
            EntryId::Quit => EntryId::Quit,
        }
    }
}

/// `b` is a copy of the menu entry `a`: the same kind, text, identifier
/// and state, and nested entries that are copies of those of `a`, one by
/// one.
pub open spec fn same_entry(a: EntryKind, b: EntryKind) -> bool
    decreases a,
{
    match a {
        EntryKind::SubMenu(s, es) => match b {
            EntryKind::SubMenu(s2, es2) => s2 == s && es2@.len() == es@.len() && forall|i: int|
                0 <= i < es@.len() ==> same_entry(es[i], #[trigger] es2[i]),
            _ => false,
        },
        EntryKind::More(es) => match b {
            EntryKind::More(es2) => es2@.len() == es@.len() && forall|i: int|
                0 <= i < es@.len() ==> same_entry(es[i], #[trigger] es2[i]),
            _ => false,
        },
        _ => b == a,
    }
}

/// A copy of a menu entry, with its nested entries copied in turn.
fn clone_entry(entry: &EntryKind) -> (r: EntryKind)
    ensures
        same_entry(*entry, r),
    decreases entry,
{
    match entry {
        EntryKind::Message(s, t) => EntryKind::Message(
            s.clone(),
            match t {
                Some(u) => Some(u.clone()),
                None => None,
            },
        ),
        EntryKind::Command(s, id) => EntryKind::Command(s.clone(), id.clone()),
        EntryKind::CheckBox(s, id, v) => EntryKind::CheckBox(s.clone(), id.clone(), *v),
        EntryKind::RadioButton(s, id, v) => EntryKind::RadioButton(s.clone(), id.clone(), *v),
        EntryKind::SubMenu(s, entries) => EntryKind::SubMenu(s.clone(), clone_entries(entries)),
        EntryKind::More(entries) => EntryKind::More(clone_entries(entries)),
        EntryKind::Separator => EntryKind::Separator,
    }
}

/// A copy of a list of menu entries.
fn clone_entries(entries: &Vec<EntryKind>) -> (r: Vec<EntryKind>)
    ensures
        r@.len() == entries@.len(),
        forall|i: int| 0 <= i < entries@.len() ==> same_entry(entries[i], #[trigger] r[i]),
    decreases entries,
{
    let mut r: Vec<EntryKind> = Vec::new();
    let mut i: usize = 0;
    while i < entries.len()
        invariant
            i <= entries@.len(),
            r@.len() == i,
            forall|j: int| 0 <= j < i ==> same_entry(entries[j], #[trigger] r[j]),
        decreases entries@.len() - i,
    {
        r.push(clone_entry(&entries[i]));
        i = i + 1;
    }
    r
}

impl Clone for EntryKind {
    fn clone(&self) -> (r: Self)
        ensures
            same_entry(*self, r),
    {
        clone_entry(self)
    }
}

impl EntryKind {
    pub open spec fn spec_is_separator(&self) -> bool {
        *self is Separator
    }

    pub fn is_separator(&self) -> (b: bool)
        ensures
            b == self.spec_is_separator(),
    {
        match *self {
            EntryKind::Separator => true,
            _ => false,
        }
    }

    /// The label of the entry: its own text, "More" for the overflow
    /// entry, nothing for a separator.
    pub open spec fn spec_text(&self) -> Seq<char> {
        match *self {
            EntryKind::Message(s, _) => s@,
            EntryKind::Command(s, _) => s@,
            EntryKind::CheckBox(s, _, _) => s@,
            EntryKind::RadioButton(s, _, _) => s@,
            EntryKind::SubMenu(s, _) => s@,
            EntryKind::More(_) => "More"@,
            EntryKind::Separator => ""@,
        }
    }

    pub fn text(&self) -> (t: &str)
        ensures
            t@ == self.spec_text(),
    {
        match self {
            EntryKind::Message(s, _) => s.as_str(),
            EntryKind::Command(s, _) => s.as_str(),
            EntryKind::CheckBox(s, _, _) => s.as_str(),
            EntryKind::RadioButton(s, _, _) => s.as_str(),
            EntryKind::SubMenu(s, _) => s.as_str(),
            EntryKind::More(_) => "More",
            EntryKind::Separator => "",
        }
    }

    /// The state of a check box or a radio button; nothing for other entries.
    pub open spec fn spec_get(&self) -> Option<bool> {
        match *self {
            EntryKind::CheckBox(_, _, v) => Some(v),
            EntryKind::RadioButton(_, _, v) => Some(v),
            _ => None,
        }
    }

    pub fn get(&self) -> (v: Option<bool>)
        ensures
            v == self.spec_get(),
    {
        match *self {
            EntryKind::CheckBox(_, _, v) => Some(v),
            EntryKind::RadioButton(_, _, v) => Some(v),
            _ => None,
        }
    }

    /// The entry with the state of a check box or a radio button set to
    /// `value`; other entries as they are.
    pub open spec fn spec_set(self, value: bool) -> EntryKind {
        match self {
            EntryKind::CheckBox(s, id, _) => EntryKind::CheckBox(s, id, value),
            EntryKind::RadioButton(s, id, _) => EntryKind::RadioButton(s, id, value),
            _ => self,
        }
    }

    /// Sets the state of a check box or a radio button; other entries stay
    /// as they are.
    pub fn set(&mut self, value: bool)
        ensures
            *final(self) == old(self).spec_set(value),
    {
        match self {
            EntryKind::CheckBox(_, _, v) => {
                *v = value;
            },
            EntryKind::RadioButton(_, _, v) => {
                *v = value;
            },
            _ => {},
        }
    }
}

/// Setting an entry then reading it gives the value set for a check box
/// or a radio button and nothing for other entries, and keeps its label.
pub proof fn lemma_entry_set_get(e: EntryKind, value: bool)
    ensures
        e.spec_set(value).spec_get() == if e.spec_get() is Some {
            Some(value)
        } else {
            None
        },
        e.spec_set(value).spec_text() == e.spec_text(),
        e.spec_set(value).spec_is_separator() == e.spec_is_separator(),
{
}

/// Hands out view identifiers one after the other, from a first one on
/// (wrapping around after the largest).
pub struct IdFeeder {
    next: Id,
}

/// The identifier that follows `id`.
pub open spec fn following(id: Id) -> Id {
    if id == u64::MAX {
        0
    } else {
        (id + 1) as u64
    }
}

impl IdFeeder {
    /// The identifier the feeder hands out next.
    pub closed spec fn spec_next(&self) -> Id {
        self.next
    }

    /// A feeder whose first identifier is `id`.
    pub fn new(id: Id) -> (f: IdFeeder)
        ensures
            f.spec_next() == id,
    {
        IdFeeder { next: id }
    }

    /// The next identifier; the feeder moves on to the one after it.
    pub fn next(&mut self) -> (id: Id)
        ensures
            id == old(self).spec_next(),
            final(self).spec_next() == following(id),
    {
        let id = self.next;
        self.next = if id == u64::MAX {
            0
        } else {
            id + 1
        };
        id
    }
}

/// The identifier a feeder hands out `k` identifiers after `id`.
pub open spec fn handed_after(id: Id, k: nat) -> Id
    decreases k,
{
    if k == 0 {
        id
    } else {
        following(handed_after(id, (k - 1) as nat))
    }
}

proof fn lemma_handed_after_mod(id: Id, k: nat)
    ensures
        handed_after(id, k) as int == (id + k) % 0x1_0000_0000_0000_0000,
    decreases k,
{
    if k > 0 {
        lemma_handed_after_mod(id, (k - 1) as nat);
        let p = handed_after(id, (k - 1) as nat) as int;
        assert(p == (id + k - 1) % 0x1_0000_0000_0000_0000);
        if p == u64::MAX {
            assert((id + k) % 0x1_0000_0000_0000_0000 == 0) by (nonlinear_arith)
                requires
                    p == (id + k - 1) % 0x1_0000_0000_0000_0000,
                    p == 0xffff_ffff_ffff_ffff,
            ;
        } else {
            assert((id + k) % 0x1_0000_0000_0000_0000 == p + 1) by (nonlinear_arith)
                requires
                    p == (id + k - 1) % 0x1_0000_0000_0000_0000,
                    p < 0xffff_ffff_ffff_ffff,
                    id + k >= 1,
            ;
        }
    }
}

/// A feeder hands out no identifier twice until it has handed out every
/// identifier once.
pub proof fn lemma_ids_fresh(id: Id, j: nat, k: nat)
    requires
        j < k < 0x1_0000_0000_0000_0000,
    ensures
        handed_after(id, j) != handed_after(id, k),
{
    lemma_handed_after_mod(id, j);
    lemma_handed_after_mod(id, k);
    assert((id + j) % 0x1_0000_0000_0000_0000 != (id + k) % 0x1_0000_0000_0000_0000) by (
    nonlinear_arith)
        requires
            j < k < 0x1_0000_0000_0000_0000,
            0 <= id,
    ;
}

} // verus!
