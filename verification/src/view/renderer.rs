//! Rendering requests: views ask for parts of the screen to be drawn again,
//! the requests are grouped by how the panel should refresh them, and a
//! rendering pass draws the views concerned and updates the panel.
use vstd::prelude::*;
use vstd::view::View as _;
use fxhash::FxHashMap;
use std::time::Instant;
use crate::context::{setting, Context, Setting};
use crate::colour::Colour;
use crate::framebuffer::{
    all_pixels, answer, painted_on, waits_of, Framebuffer, PixelMap, Refresh, Step, UpdateMode,
};
use crate::fxmap::{fx_map_drain, fx_map_get, fx_map_insert, fx_map_new, fx_map_remove, lists_entries};
use crate::geom::Rectangle;
use crate::view::merge::{
    covers_all, lemma_covers_all_concat, lemma_covers_all_trans, lemma_merge_covers, merge_all,
    merge_rects,
};
use crate::view::{depth, depth_seq, lemma_depth_seq_bound, Id, View, ViewNode};

verus! {

/// A moment of the monotonic clock.
#[verifier::external_type_specification]
#[verifier::external_body]
pub struct ExInstant(Instant);

/// `Instant::elapsed`, converted to whole milliseconds. It reads the clock:
/// nothing is stated of it.
#[verifier::external_body]
fn elapsed_millis(time: &Instant) -> u128 {
    time.elapsed().as_millis()
}

/// `Instant::now`. It reads the clock: nothing is stated of it.
#[verifier::external_body]
pub(crate) fn instant_now() -> Instant {
    Instant::now()
}

/// How long the panel may take to carry out an update, in milliseconds.
pub const MAX_UPDATE_DELAY_MS: u128 = 600;

/// An update of the panel under way.
#[derive(Clone, Copy)]
pub struct UpdateData {
    pub token: u32,
    pub time: Instant,
    pub rect: Rectangle,
}

/// Whether an update started `elapsed_ms` milliseconds ago has had the
/// time to complete.
pub fn completed_after(elapsed_ms: u128) -> (b: bool)
    ensures
        b == (elapsed_ms >= MAX_UPDATE_DELAY_MS),
{
    elapsed_ms >= MAX_UPDATE_DELAY_MS
}

impl UpdateData {
    /// Whether the update has had the time to complete: that is
    /// `completed_after` of the milliseconds elapsed since it started,
    /// which the clock decides.
    pub fn has_completed(&self) -> bool {
        completed_after(elapsed_millis(&self.time))
    }
}

/// A request to draw a part of the screen again: the view `id` (or, with no
/// id, every view) over `rect`, refreshed with `mode`; `wait` asks to wait
/// for the updates under way over the same pixels first.
pub struct RenderData {
    pub id: Option<Id>,
    pub rect: Rectangle,
    pub mode: UpdateMode,
    pub wait: bool,
}

impl RenderData {
    pub fn new(id: Id, rect: Rectangle, mode: UpdateMode) -> (d: RenderData)
        ensures
            d.id == Some(id),
            d.rect == rect,
            d.mode == mode,
            d.wait,
    {
        RenderData { id: Some(id), rect, mode, wait: true }
    }

    pub fn no_wait(id: Id, rect: Rectangle, mode: UpdateMode) -> (d: RenderData)
        ensures
            d.id == Some(id),
            d.rect == rect,
            d.mode == mode,
            !d.wait,
    {
        RenderData { id: Some(id), rect, mode, wait: false }
    }

    pub fn expose(rect: Rectangle, mode: UpdateMode) -> (d: RenderData)
        ensures
            d.id.is_none(),
            d.rect == rect,
            d.mode == mode,
            d.wait,
    {
        RenderData { id: None, rect, mode, wait: true }
    }

    pub fn rect(&self) -> (r: Rectangle)
        ensures
            r == self.rect,
    {
        self.rect
    }
}

/// The number of an update mode.
pub open spec fn mode_code(mode: UpdateMode) -> u64 {
    match mode {
        UpdateMode::Gui => 0,
        UpdateMode::Partial => 1,
        UpdateMode::Full => 2,
        UpdateMode::Fast => 3,
        UpdateMode::FastMono => 4,
    }
}

/// The update mode of a number below 5.
pub open spec fn code_mode(code: u64) -> UpdateMode {
    if code == 0 {
        UpdateMode::Gui
    } else if code == 1 {
        UpdateMode::Partial
    } else if code == 2 {
        UpdateMode::Full
    } else if code == 3 {
        UpdateMode::Fast
    } else {
        UpdateMode::FastMono
    }
}

/// The key under which the queue keeps the requests of a mode and a wait flag.
pub open spec fn group_key(mode: UpdateMode, wait: bool) -> u64 {
    (mode_code(mode) * 2 + if wait {
        1int
    } else {
        0int
    }) as u64
}

/// The mode and the wait flag of a key below 10.
pub open spec fn key_group(key: u64) -> (UpdateMode, bool) {
    (code_mode(key / 2), key % 2 == 1)
}

pub fn group_key_of(mode: UpdateMode, wait: bool) -> (k: u64)
    ensures
        k == group_key(mode, wait),
        k < 10,
        key_group(k) == (mode, wait),
{
    let m: u64 = match mode {
        UpdateMode::Gui => 0,
        UpdateMode::Partial => 1,
        UpdateMode::Full => 2,
        UpdateMode::Fast => 3,
        UpdateMode::FastMono => 4,
    };
    m * 2 + if wait {
        1
    } else {
        0
    }
}

pub fn key_group_of(key: u64) -> (g: (UpdateMode, bool))
    requires
        key < 10,
    ensures
        g == key_group(key),
        group_key(g.0, g.1) == key,
{
    let code = key / 2;
    let mode = if code == 0 {
        UpdateMode::Gui
    } else if code == 1 {
        UpdateMode::Partial
    } else if code == 2 {
        UpdateMode::Full
    } else if code == 3 {
        UpdateMode::Fast
    } else {
        UpdateMode::FastMono
    };
    (mode, key % 2 == 1)
}

/// One queued request: the view (or none, for every view) and the rectangle.
pub type Request = (Option<Id>, Rectangle);

/// The rendering requests not yet carried out, grouped by update mode and
/// wait flag, each group in the order of arrival.
pub struct RenderQueue(FxHashMap<u64, Vec<Request>>);

impl RenderQueue {
    #[verifier::type_invariant]
    spec fn keys_valid(self) -> bool {
        forall|k: u64| #[trigger] self.0@.contains_key(k) ==> k < 10
    }

    /// The queued requests of each group.
    pub closed spec fn groups(self) -> Map<(UpdateMode, bool), Seq<Request>> {
        Map::new(
            |g: (UpdateMode, bool)| self.0@.contains_key(group_key(g.0, g.1)),
            |g: (UpdateMode, bool)| self.0@[group_key(g.0, g.1)]@,
        )
    }

    /// The requests queued for a group, in order; none if it has none.
    pub open spec fn group(self, mode: UpdateMode, wait: bool) -> Seq<Request> {
        if self.groups().contains_key((mode, wait)) {
            self.groups()[(mode, wait)]
        } else {
            Seq::empty()
        }
    }

    /// An empty queue.
    pub fn new() -> (q: RenderQueue)
        ensures
            q.groups() == Map::<(UpdateMode, bool), Seq<Request>>::empty(),
    {
        let q = RenderQueue(fx_map_new());
        assert(q.groups() =~= Map::<(UpdateMode, bool), Seq<Request>>::empty());
        q
    }

    /// The requests queued for a group, in the order they came.
    pub fn requests(&self, mode: UpdateMode, wait: bool) -> (r: Vec<Request>)
        ensures
            r@ == self.group(mode, wait),
    {
        proof {
            use_type_invariant(self);
        }
        let key = group_key_of(mode, wait);
        let mut r: Vec<Request> = Vec::new();
        match fx_map_get(&self.0, key) {
            Some(v) => {
                let mut k: usize = 0;
                while k < v.len()
                    invariant
                        k <= v@.len(),
                        r@ == v@.take(k as int),
                    decreases v@.len() - k,
                {
                    r.push(v[k]);
                    k = k + 1;
                }
                assert(v@.take(v@.len() as int) =~= v@);
            },
            None => {},
        }
        r
    }

    /// Queues a request, when there is a queue: it goes to the end of the
    /// group of its mode and wait flag.
    pub fn add_redraw_req(rq: &mut Option<Self>, data: RenderData)
        ensures
            queued(*old(rq), *final(rq), data.mode, data.wait, data.id, data.rect),
    {
        match rq {
            Some(q) => {
                q.push_request(data);
            },
            None => {},
        }
    }

    fn push_request(&mut self, data: RenderData)
        ensures
            final(self).groups() == old(self).groups().insert(
                (data.mode, data.wait),
                old(self).group(data.mode, data.wait).push((data.id, data.rect)),
            ),
    {
        proof {
            use_type_invariant(&*self);
        }
        let ghost before = *self;
        let key = group_key_of(data.mode, data.wait);
        let mut map = fx_map_new();
        std::mem::swap(&mut map, &mut self.0);
        let mut group = match fx_map_remove(&mut map, key) {
            Some(v) => v,
            None => Vec::new(),
        };
        group.push((data.id, data.rect));
        fx_map_insert(&mut map, key, group);
        self.0 = map;
        proof {
            let g = (data.mode, data.wait);
            assert(before.group(data.mode, data.wait) == if before.0@.contains_key(key) {
                before.0@[key]@
            } else {
                Seq::<Request>::empty()
            });
            assert forall|h: (UpdateMode, bool)| #[trigger]
                self.groups().contains_key(h) <==> before.groups().insert(
                    g,
                    before.group(data.mode, data.wait).push((data.id, data.rect)),
                ).contains_key(h) by {
                if h != g {
                    assert(group_key(h.0, h.1) != key) by {
                        assert(key_group(group_key(h.0, h.1)) == h);
                    }
                }
            }
            assert forall|h: (UpdateMode, bool)| #[trigger]
                self.groups().contains_key(h) implies self.groups()[h] == before.groups().insert(
                    g,
                    before.group(data.mode, data.wait).push((data.id, data.rect)),
                )[h] by {
                if h != g {
                    assert(group_key(h.0, h.1) != key) by {
                        assert(key_group(group_key(h.0, h.1)) == h);
                    }
                }
            }
            assert(self.groups() =~= before.groups().insert(
                g,
                before.group(data.mode, data.wait).push((data.id, data.rect)),
            ));
        }
    }
}

/// `after` is `before` with the request `(id, rect)` added to the end of the
/// group of `mode` and `wait`, when there is a queue; no queue stays none.
pub open spec fn queued(
    before: Option<RenderQueue>,
    after: Option<RenderQueue>,
    mode: UpdateMode,
    wait: bool,
    id: Option<Id>,
    rect: Rectangle,
) -> bool {
    match before {
        None => after is None,
        Some(q) => after matches Some(q2) && q2.groups() == q.groups().insert(
            (mode, wait),
            q.group(mode, wait).push((id, rect)),
        ),
    }
}

impl Default for RenderQueue {
    fn default() -> (q: Self)
        ensures
            q.groups() == Map::<(UpdateMode, bool), Seq<Request>>::empty(),
    {
        RenderQueue::new()
    }
}


/// The groups `groups` with the requests `reqs` added, one after the
/// other, each to the end of the group of its mode and wait flag.
pub open spec fn with_requests(
    groups: Map<(UpdateMode, bool), Seq<Request>>,
    reqs: Seq<RenderData>,
) -> Map<(UpdateMode, bool), Seq<Request>>
    decreases reqs.len(),
{
    if reqs.len() == 0 {
        groups
    } else {
        let g = with_requests(groups, reqs.drop_last());
        let r = reqs.last();
        g.insert(
            (r.mode, r.wait),
            if g.contains_key((r.mode, r.wait)) {
                g[(r.mode, r.wait)]
            } else {
                Seq::empty()
            }.push((r.id, r.rect)),
        )
    }
}

/// `after` is `before` with the requests `reqs` added, one after the other,
/// when there is a queue; no queue stays none.
pub open spec fn queued_all(
    before: Option<RenderQueue>,
    after: Option<RenderQueue>,
    reqs: Seq<RenderData>,
) -> bool {
    match before {
        None => after is None,
        Some(q) => after matches Some(q2) && q2.groups() == with_requests(q.groups(), reqs),
    }
}

/// Adding one request is adding the sequence of that request.
pub proof fn lemma_queued_one(before: Option<RenderQueue>, after: Option<RenderQueue>, d: RenderData)
    requires
        queued(before, after, d.mode, d.wait, d.id, d.rect),
    ensures
        queued_all(before, after, seq![d]),
{
    assert(seq![d].drop_last() =~= Seq::<RenderData>::empty());
    assert(seq![d].last() == d);
    if let Some(q) = before {
        let g = with_requests(q.groups(), Seq::<RenderData>::empty());
        assert(g == q.groups());
        assert(with_requests(q.groups(), seq![d]) == g.insert(
            (d.mode, d.wait),
            if g.contains_key((d.mode, d.wait)) {
                g[(d.mode, d.wait)]
            } else {
                Seq::empty()
            }.push((d.id, d.rect)),
        ));
    }
}

/// Adding no request leaves a queue as it was.
pub proof fn lemma_queued_none(q: Option<RenderQueue>)
    ensures
        queued_all(q, q, Seq::empty()),
{
}

proof fn lemma_with_requests_append(
    groups: Map<(UpdateMode, bool), Seq<Request>>,
    r1: Seq<RenderData>,
    r2: Seq<RenderData>,
)
    ensures
        with_requests(with_requests(groups, r1), r2) == with_requests(groups, r1 + r2),
    decreases r2.len(),
{
    if r2.len() == 0 {
        assert(r1 + r2 =~= r1);
    } else {
        lemma_with_requests_append(groups, r1, r2.drop_last());
        assert((r1 + r2).drop_last() =~= r1 + r2.drop_last());
        assert((r1 + r2).last() == r2.last());
    }
}

/// Adding requests, then more, is adding them all in order.
pub proof fn lemma_queued_chain(
    a: Option<RenderQueue>,
    b: Option<RenderQueue>,
    c: Option<RenderQueue>,
    r1: Seq<RenderData>,
    r2: Seq<RenderData>,
)
    requires
        queued_all(a, b, r1),
        queued_all(b, c, r2),
    ensures
        queued_all(a, c, r1 + r2),
{
    if let Some(q) = a {
        lemma_with_requests_append(q.groups(), r1, r2);
    }
}

/// The parts of `rects` that fall inside `area`, in order.
pub open spec fn clip_all(rects: Seq<Rectangle>, area: Rectangle) -> Seq<Rectangle>
    decreases rects.len(),
{
    if rects.len() == 0 {
        Seq::empty()
    } else {
        let prev = clip_all(rects.drop_last(), area);
        match rects.last().spec_intersection(area) {
            Some(r) => prev.push(r),
            None => prev,
        }
    }
}

/// The rectangles a view is asked to draw: those requested for it, then
/// the parts of the exposed backgrounds that fall inside it.
pub open spec fn candidates(own: Seq<Rectangle>, bgs: Seq<Rectangle>, area: Rectangle) -> Seq<
    Rectangle,
> {
    own + clip_all(bgs, area)
}

/// What a view redraws for each candidate, in order, up to and including
/// the first time it redraws its whole rectangle: most views can't draw a
/// part of themselves.
pub open spec fn drawn_by(node: ViewNode, cands: Seq<Rectangle>) -> Seq<Rectangle>
    decreases cands.len(),
{
    if cands.len() == 0 {
        Seq::empty()
    } else {
        let r = node.view.spec_render_rect(cands[0]);
        if r == node.view.spec_rect() {
            seq![r]
        } else {
            seq![r] + drawn_by(node, cands.drop_first())
        }
    }
}

/// The rectangles requested for a view.
pub open spec fn requested(ids: Map<Id, Vec<Rectangle>>, id: Id) -> Seq<Rectangle> {
    if ids.contains_key(id) {
        ids[id]@
    } else {
        Seq::empty()
    }
}

/// A rendering pass over a tree, from bottom to top: the rectangles to
/// update, the exposed backgrounds, and what was drawn, in order.
///
/// A leaf or a background view draws its candidates; its drawings join the
/// rectangles to update. Another view only exposes its requested
/// rectangles as backgrounds for the views above it. Then come the
/// children, from the lowest z-level up.
pub open spec fn render_pass(
    node: ViewNode,
    ids: Map<Id, Vec<Rectangle>>,
    rects: Seq<Rectangle>,
    bgs: Seq<Rectangle>,
) -> (Seq<Rectangle>, Seq<Rectangle>, Seq<Rectangle>)
    decreases node, 1nat,
{
    let own = requested(ids, node.view.spec_id());
    let drawn = if node.children@.len() == 0 || node.view.spec_is_background() {
        drawn_by(node, candidates(own, bgs, node.view.spec_rect()))
    } else {
        Seq::empty()
    };
    let bgs1 = if node.children@.len() == 0 || node.view.spec_is_background() {
        bgs
    } else {
        bgs + own
    };
    let after = render_children(node.children@, ids, merge_all(rects, drawn), bgs1);
    (after.0, after.1, drawn + after.2)
}

/// A rendering pass over a sequence of trees, one after the other.
pub open spec fn render_children(
    nodes: Seq<ViewNode>,
    ids: Map<Id, Vec<Rectangle>>,
    rects: Seq<Rectangle>,
    bgs: Seq<Rectangle>,
) -> (Seq<Rectangle>, Seq<Rectangle>, Seq<Rectangle>)
    decreases nodes, 0nat,
{
    if nodes.len() == 0 {
        (rects, bgs, Seq::empty())
    } else {
        let before = render_children(nodes.drop_last(), ids, rects, bgs);
        let last = render_pass(nodes.last(), ids, before.0, before.1);
        (last.0, last.1, before.2 + last.2)
    }
}

/// The candidates a view draws, in order, up to and including the first
/// one for which it redraws its whole rectangle.
pub open spec fn drawn_cands(node: ViewNode, cands: Seq<Rectangle>) -> Seq<Rectangle>
    decreases cands.len(),
{
    if cands.len() == 0 {
        Seq::empty()
    } else if node.view.spec_render_rect(cands[0]) == node.view.spec_rect() {
        seq![cands[0]]
    } else {
        seq![cands[0]] + drawn_cands(node, cands.drop_first())
    }
}

/// The colours of `pixels` once the view of `node` has drawn each of
/// `parts`, one after the other.
pub open spec fn draw_all(
    node: ViewNode,
    parts: Seq<Rectangle>,
    pixels: Map<(u32, u32), Colour>,
    setting: Setting,
) -> Map<(u32, u32), Colour>
    decreases parts.len(),
{
    if parts.len() == 0 {
        pixels
    } else {
        node.view.spec_drawn(parts.last(), draw_all(node, parts.drop_last(), pixels, setting), setting)
    }
}

/// The colours of `pixels` after a rendering pass over a tree: a leaf or
/// a background view draws first, then its children, from the lowest
/// z-level up, each after all the drawings of the one below it.
pub open spec fn pass_pixels(
    node: ViewNode,
    ids: Map<Id, Vec<Rectangle>>,
    rects: Seq<Rectangle>,
    bgs: Seq<Rectangle>,
    pixels: Map<(u32, u32), Colour>,
    setting: Setting,
) -> Map<(u32, u32), Colour>
    decreases node, 1nat,
{
    let own = requested(ids, node.view.spec_id());
    let draws = node.children@.len() == 0 || node.view.spec_is_background();
    let parts = if draws {
        drawn_cands(node, candidates(own, bgs, node.view.spec_rect()))
    } else {
        Seq::empty()
    };
    let drawn = if draws {
        drawn_by(node, candidates(own, bgs, node.view.spec_rect()))
    } else {
        Seq::empty()
    };
    let bgs1 = if draws {
        bgs
    } else {
        bgs + own
    };
    children_pixels(
        node.children@,
        ids,
        merge_all(rects, drawn),
        bgs1,
        draw_all(node, parts, pixels, setting),
        setting,
    )
}

/// The colours of `pixels` after rendering passes over a sequence of
/// trees, one after the other.
pub open spec fn children_pixels(
    nodes: Seq<ViewNode>,
    ids: Map<Id, Vec<Rectangle>>,
    rects: Seq<Rectangle>,
    bgs: Seq<Rectangle>,
    pixels: Map<(u32, u32), Colour>,
    setting: Setting,
) -> Map<(u32, u32), Colour>
    decreases nodes, 0nat,
{
    if nodes.len() == 0 {
        pixels
    } else {
        let before = render_children(nodes.drop_last(), ids, rects, bgs);
        pass_pixels(
            nodes.last(),
            ids,
            before.0,
            before.1,
            children_pixels(nodes.drop_last(), ids, rects, bgs, pixels, setting),
            setting,
        )
    }
}

/// Some rectangle of `drawn` overlaps `rect`.
pub open spec fn overlaps_any(drawn: Seq<Rectangle>, rect: Rectangle) -> bool {
    exists|i: int| 0 <= i < drawn.len() && #[trigger] drawn[i].spec_overlaps(rect)
}

/// The updates whose rectangle overlaps none of `drawn`, in order.
pub open spec fn clear_of(updates: Seq<UpdateData>, drawn: Seq<Rectangle>) -> Seq<UpdateData>
    decreases updates.len(),
{
    if updates.len() == 0 {
        Seq::empty()
    } else {
        let prev = clear_of(updates.drop_last(), drawn);
        if overlaps_any(drawn, updates.last().rect) {
            prev
        } else {
            prev.push(updates.last())
        }
    }
}

proof fn lemma_clear_of_push(updates: Seq<UpdateData>, drawn: Seq<Rectangle>, r: Rectangle)
    ensures
        clear_of(clear_of(updates, drawn), seq![r]) == clear_of(updates, drawn.push(r)),
    decreases updates.len(),
{
    let d2 = drawn.push(r);
    if updates.len() > 0 {
        let u = updates.last();
        lemma_clear_of_push(updates.drop_last(), drawn, r);
        assert(overlaps_any(d2, u.rect) <==> overlaps_any(drawn, u.rect) || r.spec_overlaps(
            u.rect,
        )) by {
            if overlaps_any(drawn, u.rect) {
                let i = choose|i: int| 0 <= i < drawn.len() && #[trigger] drawn[i].spec_overlaps(u.rect);
                assert(d2[i] == drawn[i]);
            }
            if r.spec_overlaps(u.rect) {
                assert(d2[drawn.len() as int] == r);
            }
            if overlaps_any(d2, u.rect) {
                let i = choose|i: int| 0 <= i < d2.len() && #[trigger] d2[i].spec_overlaps(u.rect);
                if i < drawn.len() {
                    assert(drawn[i] == d2[i]);
                }
            }
        }
        assert(overlaps_any(seq![r], u.rect) <==> r.spec_overlaps(u.rect)) by {
            if r.spec_overlaps(u.rect) {
                assert(seq![r][0] == r);
            }
        }
        let c = clear_of(updates, drawn);
        if !overlaps_any(drawn, u.rect) {
            assert(c.drop_last() =~= clear_of(updates.drop_last(), drawn));
        }
    }
}

proof fn lemma_clear_of_empty(updates: Seq<UpdateData>)
    ensures
        clear_of(updates, Seq::empty()) == updates,
    decreases updates.len(),
{
    if updates.len() > 0 {
        lemma_clear_of_empty(updates.drop_last());
        assert(updates.drop_last().push(updates.last()) =~= updates);
    }
}

proof fn lemma_clear_of_append(updates: Seq<UpdateData>, d1: Seq<Rectangle>, d2: Seq<Rectangle>)
    ensures
        clear_of(clear_of(updates, d1), d2) == clear_of(updates, d1 + d2),
    decreases d2.len(),
{
    if d2.len() == 0 {
        lemma_clear_of_empty(clear_of(updates, d1));
        assert(d1 + d2 =~= d1);
        assert(d2 =~= Seq::<Rectangle>::empty());
    } else {
        let r = d2.last();
        let d2p = d2.drop_last();
        lemma_clear_of_append(updates, d1, d2p);
        lemma_clear_of_push(clear_of(updates, d1), d2p, r);
        lemma_clear_of_push(updates, d1 + d2p, r);
        assert(d2p.push(r) =~= d2);
        assert((d1 + d2p).push(r) =~= d1 + d2);
        assert(clear_of(clear_of(updates, d1), d2) == clear_of(
            clear_of(clear_of(updates, d1), d2p),
            seq![r],
        ));
        assert(clear_of(clear_of(clear_of(updates, d1), d2p), seq![r]) == clear_of(
            clear_of(updates, d1 + d2p),
            seq![r],
        ));
    }
}

/// The parts of `rects` that fall inside `area`, in order.
pub fn clip_rects(rects: &Vec<Rectangle>, area: &Rectangle, out: &mut Vec<Rectangle>)
    ensures
        final(out)@ == old(out)@ + clip_all(rects@, *area),
{
    let mut i: usize = 0;
    while i < rects.len()
        invariant
            i <= rects@.len(),
            out@ == old(out)@ + clip_all(rects@.take(i as int), *area),
        decreases rects@.len() - i,
    {
        assert(rects@.take(i + 1).drop_last() =~= rects@.take(i as int));
        match rects[i].intersection(area) {
            Some(r) => {
                out.push(r);
            },
            None => {},
        }
        i = i + 1;
    }
    assert(rects@.take(rects@.len() as int) =~= rects@);
}

/// `later` is `earlier` followed by more.
pub open spec fn grew<A>(later: Seq<A>, earlier: Seq<A>) -> bool {
    later.len() >= earlier.len() && later.take(earlier.len() as int) == earlier
}

/// The tokens of the updates of `updates` that overlap `rect` and had not
/// completed, in order; `done` says of each update whether it had
/// completed when the clock was read.
pub open spec fn pending_over(updates: Seq<UpdateData>, rect: Rectangle, done: Seq<bool>) -> Seq<u32>
    decreases updates.len(),
{
    if updates.len() == 0 {
        Seq::empty()
    } else {
        let prev = pending_over(updates.drop_last(), rect, done.drop_last());
        if rect.spec_overlaps(updates.last().rect) && !done.last() {
            prev.push(updates.last().token)
        } else {
            prev
        }
    }
}

/// The parts of `rects` drawn by the view of `node`, each with that node.
pub open spec fn own_parts(node: ViewNode, rects: Seq<Rectangle>) -> Seq<(ViewNode, Rectangle)> {
    rects.map_values(|r: Rectangle| (node, r))
}

/// The parts a rendering pass over a tree draws, in order, each with the
/// node whose view draws it.
pub open spec fn pass_parts(
    node: ViewNode,
    ids: Map<Id, Vec<Rectangle>>,
    rects: Seq<Rectangle>,
    bgs: Seq<Rectangle>,
) -> Seq<(ViewNode, Rectangle)>
    decreases node, 1nat,
{
    let own = requested(ids, node.view.spec_id());
    let draws = node.children@.len() == 0 || node.view.spec_is_background();
    let cands = candidates(own, bgs, node.view.spec_rect());
    let mine = if draws {
        own_parts(node, drawn_cands(node, cands))
    } else {
        Seq::empty()
    };
    let drawn = if draws {
        drawn_by(node, cands)
    } else {
        Seq::empty()
    };
    let bgs1 = if draws {
        bgs
    } else {
        bgs + own
    };
    mine + children_parts(node.children@, ids, merge_all(rects, drawn), bgs1)
}

/// The parts that rendering passes over a sequence of trees draw, one
/// tree after the other.
pub open spec fn children_parts(
    nodes: Seq<ViewNode>,
    ids: Map<Id, Vec<Rectangle>>,
    rects: Seq<Rectangle>,
    bgs: Seq<Rectangle>,
) -> Seq<(ViewNode, Rectangle)>
    decreases nodes, 0nat,
{
    if nodes.len() == 0 {
        Seq::empty()
    } else {
        let before = render_children(nodes.drop_last(), ids, rects, bgs);
        children_parts(nodes.drop_last(), ids, rects, bgs) + pass_parts(
            nodes.last(),
            ids,
            before.0,
            before.1,
        )
    }
}

/// `maps` holds the colours of the pixels before each drawing of `parts`
/// and after the last one: each view draws its part over the colours left
/// by the drawing before it.
pub open spec fn drawn_in_turn(
    parts: Seq<(ViewNode, Rectangle)>,
    maps: Seq<PixelMap>,
    setting: Setting,
) -> bool {
    &&& maps.len() == parts.len() + 1
    &&& forall|k: int|
        0 <= k < parts.len() ==> maps[k + 1] == (#[trigger] parts[k]).0.view.spec_drawn(
            parts[k].1,
            maps[k],
            setting,
        )
}

/// The steps of a rendering pass that drew `drawn`, in order. Before each
/// drawing, when `wait` is set, come the waits for the tokens of the
/// updates still under way that overlap it and had not completed, taken
/// while the pixels held the colours of `maps` before that drawing; then
/// come the drawing's own steps, of `segs`. `answers` holds, for each
/// drawing, whether each of those updates had completed when the clock was
/// read.
pub open spec fn pass_trace(
    updates: Seq<UpdateData>,
    drawn: Seq<Rectangle>,
    answers: Seq<Seq<bool>>,
    maps: Seq<PixelMap>,
    segs: Seq<Seq<Step>>,
    wait: bool,
) -> Seq<Step>
    decreases drawn.len(),
{
    if drawn.len() == 0 {
        Seq::empty()
    } else {
        let before = pass_trace(
            updates,
            drawn.drop_last(),
            answers.drop_last(),
            maps.drop_last(),
            segs.drop_last(),
            wait,
        );
        let waits = if wait {
            waits_of(
                pending_over(clear_of(updates, drawn.drop_last()), drawn.last(), answers.last()),
                maps[drawn.len() - 1],
            )
        } else {
            Seq::empty()
        };
        before + waits + segs.last()
    }
}

/// What a rendering pass leaves to be told apart from its drawings: the
/// clock's answers for each drawing, the colours of the pixels before each
/// drawing and after the last, and the steps of each drawing.
pub type Turns = (Seq<Seq<bool>>, Seq<PixelMap>, Seq<Seq<Step>>);

/// The steps went from `steps0` to `steps1`, and the pixels from
/// `pixels0` to `pixels1`, by a rendering pass that drew `drawn`, the
/// parts `parts`, over the updates under way `updates`, waiting before each
/// drawing when `wait` is set, with the turns `t`: each drawing sets only
/// pixels, and draws its part over the colours left by the one before.
pub open spec fn took_turns(
    steps0: Seq<Step>,
    steps1: Seq<Step>,
    pixels0: PixelMap,
    pixels1: PixelMap,
    updates: Seq<UpdateData>,
    drawn: Seq<Rectangle>,
    parts: Seq<(ViewNode, Rectangle)>,
    wait: bool,
    setting: Setting,
    t: Turns,
) -> bool {
    &&& t.0.len() == drawn.len()
    &&& t.2.len() == drawn.len()
    &&& t.1.len() == drawn.len() + 1
    &&& t.1[0] == pixels0
    &&& t.1.last() == pixels1
    &&& drawn_in_turn(parts, t.1, setting)
    &&& forall|k: int| 0 <= k < t.2.len() ==> all_pixels(#[trigger] t.2[k])
    &&& steps1 == steps0 + pass_trace(updates, drawn, t.0, t.1, t.2, wait)
}

proof fn lemma_pass_trace_append(
    updates: Seq<UpdateData>,
    d1: Seq<Rectangle>,
    d2: Seq<Rectangle>,
    a1: Seq<Seq<bool>>,
    a2: Seq<Seq<bool>>,
    m1: Seq<PixelMap>,
    m2: Seq<PixelMap>,
    s1: Seq<Seq<Step>>,
    s2: Seq<Seq<Step>>,
    wait: bool,
)
    requires
        a1.len() == d1.len(),
        s1.len() == d1.len(),
        m1.len() == d1.len() + 1,
        a2.len() == d2.len(),
        s2.len() == d2.len(),
        m2.len() == d2.len() + 1,
        m2[0] == m1.last(),
    ensures
        pass_trace(updates, d1 + d2, a1 + a2, m1.drop_last() + m2, s1 + s2, wait) == pass_trace(
            updates,
            d1,
            a1,
            m1,
            s1,
            wait,
        ) + pass_trace(clear_of(updates, d1), d2, a2, m2, s2, wait),
    decreases d2.len(),
{
    let m = m1.drop_last() + m2;
    if d2.len() == 0 {
        assert(d1 + d2 =~= d1);
        assert(a1 + a2 =~= a1);
        assert(s1 + s2 =~= s1);
        assert(m =~= m1);
        assert(pass_trace(updates, d1, a1, m1, s1, wait) + Seq::<Step>::empty() =~= pass_trace(
            updates,
            d1,
            a1,
            m1,
            s1,
            wait,
        ));
    } else {
        lemma_pass_trace_append(
            updates,
            d1,
            d2.drop_last(),
            a1,
            a2.drop_last(),
            m1,
            m2.drop_last(),
            s1,
            s2.drop_last(),
            wait,
        );
        lemma_clear_of_append(updates, d1, d2.drop_last());
        assert((d1 + d2).drop_last() =~= d1 + d2.drop_last());
        assert((a1 + a2).drop_last() =~= a1 + a2.drop_last());
        assert((s1 + s2).drop_last() =~= s1 + s2.drop_last());
        assert(m.drop_last() =~= m1.drop_last() + m2.drop_last());
        assert((d1 + d2).last() == d2.last());
        assert((a1 + a2).last() == a2.last());
        assert((s1 + s2).last() == s2.last());
        assert(m[(d1 + d2).len() - 1] == m2[d2.len() - 1]);
        let p = pass_trace(updates, d1, a1, m1, s1, wait);
        let q = pass_trace(
            clear_of(updates, d1),
            d2.drop_last(),
            a2.drop_last(),
            m2.drop_last(),
            s2.drop_last(),
            wait,
        );
        let w = if wait {
            waits_of(
                pending_over(
                    clear_of(clear_of(updates, d1), d2.drop_last()),
                    d2.last(),
                    a2.last(),
                ),
                m2[d2.len() - 1],
            )
        } else {
            Seq::empty()
        };
        assert((p + q) + w + s2.last() =~= p + (q + w + s2.last()));
    }
}

/// Without waits, what the updates under way are does not matter.
proof fn lemma_pass_trace_no_wait(
    u1: Seq<UpdateData>,
    u2: Seq<UpdateData>,
    drawn: Seq<Rectangle>,
    answers: Seq<Seq<bool>>,
    maps: Seq<PixelMap>,
    segs: Seq<Seq<Step>>,
)
    ensures
        pass_trace(u1, drawn, answers, maps, segs, false) == pass_trace(
            u2,
            drawn,
            answers,
            maps,
            segs,
            false,
        ),
    decreases drawn.len(),
{
    if drawn.len() > 0 {
        lemma_pass_trace_no_wait(
            u1,
            u2,
            drawn.drop_last(),
            answers.drop_last(),
            maps.drop_last(),
            segs.drop_last(),
        );
    }
}

/// Without waits, a rendering pass only sets pixels.
proof fn lemma_pass_trace_pixels(
    updates: Seq<UpdateData>,
    drawn: Seq<Rectangle>,
    answers: Seq<Seq<bool>>,
    maps: Seq<PixelMap>,
    segs: Seq<Seq<Step>>,
)
    requires
        segs.len() == drawn.len(),
        forall|k: int| 0 <= k < segs.len() ==> all_pixels(#[trigger] segs[k]),
    ensures
        all_pixels(pass_trace(updates, drawn, answers, maps, segs, false)),
    decreases drawn.len(),
{
    if drawn.len() > 0 {
        lemma_pass_trace_pixels(
            updates,
            drawn.drop_last(),
            answers.drop_last(),
            maps.drop_last(),
            segs.drop_last(),
        );
        let p = pass_trace(
            updates,
            drawn.drop_last(),
            answers.drop_last(),
            maps.drop_last(),
            segs.drop_last(),
            false,
        );
        let l = segs.last();
        assert(all_pixels(l)) by {
            assert(segs[segs.len() - 1] == l);
        }
        let t = pass_trace(updates, drawn, answers, maps, segs, false);
        assert(t =~= p + Seq::<Step>::empty() + l);
        assert forall|i: int| 0 <= i < t.len() implies (#[trigger] t[i]) is Pixel by {
            if i < p.len() {
                assert(t[i] == p[i]);
            } else {
                assert(t[i] == l[i - p.len()]);
            }
        }
    }
}

/// Drawings in turn, followed by more drawings in turn from where they
/// left the pixels, are drawings in turn.
proof fn lemma_drawn_in_turn_append(
    p1: Seq<(ViewNode, Rectangle)>,
    p2: Seq<(ViewNode, Rectangle)>,
    m1: Seq<PixelMap>,
    m2: Seq<PixelMap>,
    setting: Setting,
)
    requires
        drawn_in_turn(p1, m1, setting),
        drawn_in_turn(p2, m2, setting),
        m2[0] == m1.last(),
    ensures
        drawn_in_turn(p1 + p2, m1.drop_last() + m2, setting),
{
    let p = p1 + p2;
    let m = m1.drop_last() + m2;
    assert forall|k: int| 0 <= k < p.len() implies m[k + 1] == (#[trigger] p[k]).0.view.spec_drawn(
        p[k].1,
        m[k],
        setting,
    ) by {
        if k < p1.len() {
            assert(p[k] == p1[k]);
            assert(m[k] == m1[k]);
            if k + 1 < p1.len() {
                assert(m[k + 1] == m1[k + 1]);
            } else {
                assert(m[k + 1] == m2[0]);
            }
        } else {
            assert(p[k] == p2[k - p1.len()]);
            assert(m[k] == m2[k - p1.len()]);
            assert(m[k + 1] == m2[k + 1 - p1.len()]);
        }
    }
}

/// Waits for the updates under way whose rectangle overlaps `rect` and
/// that had not completed when the clock was read, and forgets all those
/// that overlap it.
fn wait_for_overlapping(ctx: &mut Context, updating: &mut Vec<UpdateData>, rect: &Rectangle)
    ensures
        final(updating)@ == clear_of(old(updating)@, seq![*rect]),
        exists|done: Seq<bool>|
            #![trigger pending_over(old(updating)@, *rect, done)]
            {
                &&& done.len() == old(updating)@.len()
                &&& final(ctx).fb.spec_steps() == old(ctx).fb.spec_steps() + waits_of(
                    pending_over(old(updating)@, *rect, done),
                    old(ctx).fb.spec_pixels(),
                )
            },
        final(ctx).fb.spec_pixels() == old(ctx).fb.spec_pixels(),
        final(ctx).fb.spec_updates() == old(ctx).fb.spec_updates(),
        setting(*final(ctx)) == setting(*old(ctx)),
{
    let ghost steps0 = ctx.fb.spec_steps();
    let ghost pixels0 = ctx.fb.spec_pixels();
    let ghost mut done: Seq<bool> = Seq::empty();
    let mut kept: Vec<UpdateData> = Vec::new();
    let mut i: usize = 0;
    proof {
        assert(updating@.take(0) =~= Seq::<UpdateData>::empty());
        assert(steps0 + waits_of(Seq::<u32>::empty(), pixels0) =~= steps0);
    }
    while i < updating.len()
        invariant
            i <= updating@.len(),
            updating@ == old(updating)@,
            done.len() == i,
            ctx.fb.spec_pixels() == pixels0,
            ctx.fb.spec_updates() == old(ctx).fb.spec_updates(),
            setting(*ctx) == setting(*old(ctx)),
            ctx.fb.spec_steps() == steps0 + waits_of(
                pending_over(updating@.take(i as int), *rect, done),
                pixels0,
            ),
            kept@ == clear_of(updating@.take(i as int), seq![*rect]),
        decreases updating@.len() - i,
    {
        let update = updating[i];
        assert(updating@.take(i + 1).drop_last() =~= updating@.take(i as int));
        let overlaps = rect.overlaps(&update.rect);
        assert(overlaps_any(seq![*rect], update.rect) <==> overlaps) by {
            if overlaps {
                assert(seq![*rect][0] == *rect);
            }
        }
        let mut completed = true;
        if overlaps {
            completed = update.has_completed();
        }
        if overlaps && !completed {
            let _ = ctx.fb.wait(update.token);
        }
        proof {
            let d = done;
            done = done.push(completed);
            assert(done.drop_last() =~= d);
            assert(updating@.take(i + 1).last() == update);
            assert(ctx.fb.spec_steps() =~= steps0 + waits_of(
                pending_over(updating@.take(i + 1), *rect, done),
                pixels0,
            ));
        }
        if !overlaps {
            kept.push(update);
        }
        i = i + 1;
    }
    assert(updating@.take(updating@.len() as int) =~= updating@);
    *updating = kept;
}

/// Draws a tree of views, from bottom to top. A leaf or a background view
/// draws the rectangles requested for it in `ids` and the parts of the
/// exposed backgrounds `bgs` that fall inside it, and nothing else; what it
/// draws joins `rects`, merged.
/// Another view adds its requested rectangles to `bgs`. When `wait` is
/// set, the updates under way over what is about to be drawn are waited
/// for, before that drawing and after the ones before it, and forgotten.
pub fn render(
    node: &ViewNode,
    wait: bool,
    ids: &FxHashMap<Id, Vec<Rectangle>>,
    rects: &mut Vec<Rectangle>,
    bgs: &mut Vec<Rectangle>,
    ctx: &mut Context,
    updating: &mut Vec<UpdateData>,
)
    ensures
        (final(rects)@, final(bgs)@) == ({
            let p = render_pass(*node, ids@, old(rects)@, old(bgs)@);
            (p.0, p.1)
        }),
        wait ==> final(updating)@ == clear_of(
            old(updating)@,
            render_pass(*node, ids@, old(rects)@, old(bgs)@).2,
        ),
        !wait ==> final(updating)@ == old(updating)@,
        final(ctx).fb.spec_pixels() == pass_pixels(
            *node,
            ids@,
            old(rects)@,
            old(bgs)@,
            old(ctx).fb.spec_pixels(),
            setting(*old(ctx)),
        ),
        final(ctx).fb.spec_updates() == old(ctx).fb.spec_updates(),
        setting(*final(ctx)) == setting(*old(ctx)),
        exists|t: Turns|
            #[trigger] took_turns(
                old(ctx).fb.spec_steps(),
                final(ctx).fb.spec_steps(),
                old(ctx).fb.spec_pixels(),
                final(ctx).fb.spec_pixels(),
                old(updating)@,
                render_pass(*node, ids@, old(rects)@, old(bgs)@).2,
                pass_parts(*node, ids@, old(rects)@, old(bgs)@),
                wait,
                setting(*old(ctx)),
                t,
            ),
    decreases depth(*node),
{
    let ghost st = setting(*ctx);
    let ghost pixels0 = ctx.fb.spec_pixels();
    let ghost updates0 = ctx.fb.spec_updates();
    let ghost steps0 = ctx.fb.spec_steps();
    let ghost mut answers0: Seq<Seq<bool>> = Seq::empty();
    let ghost mut maps0: Seq<PixelMap> = seq![pixels0];
    let ghost mut segs0: Seq<Seq<Step>> = Seq::empty();
    let ghost mut done: Seq<Rectangle> = Seq::empty();
    let ghost rects0 = rects@;
    let ghost bgs0 = bgs@;
    let ghost updating0 = updating@;
    let mut render_rects: Vec<Rectangle> = Vec::new();
    let id = node.view.id();
    let own = fx_map_get(ids, id);
    proof {
        lemma_clear_of_empty(updating0);
        assert(steps0 + Seq::<Step>::empty() =~= steps0);
    }
    if node.children.len() == 0 || node.view.is_background() {
        let area = *node.view.rect();
        let mut cands: Vec<Rectangle> = Vec::new();
        match own {
            Some(v) => {
                let mut k: usize = 0;
                while k < v.len()
                    invariant
                        k <= v@.len(),
                        cands@ == v@.take(k as int),
                    decreases v@.len() - k,
                {
                    cands.push(v[k]);
                    k = k + 1;
                }
                assert(v@.take(v@.len() as int) =~= v@);
            },
            None => {},
        }
        clip_rects(bgs, &area, &mut cands);
        let ghost all = cands@;
        assert(all == candidates(requested(ids@, id), bgs0, area));
        proof {
            assert(all.skip(0) =~= all);
            assert(Seq::<Rectangle>::empty() + all =~= all);
        }
        let mut k: usize = 0;
        proof {
            assert(drawn_cands(*node, all) == done + drawn_cands(*node, all.skip(0)));
        }
        while k < cands.len()
            invariant_except_break
                drawn_by(*node, all) == render_rects@ + drawn_by(*node, all.skip(k as int)),
                drawn_cands(*node, all) == done + drawn_cands(*node, all.skip(k as int)),
            invariant
                k <= cands@.len(),
                setting(*ctx) == st,
                ctx.fb.spec_updates() == updates0,
                ctx.fb.spec_pixels() == draw_all(*node, done, pixels0, st),
                cands@ == all,
                area == node.view.spec_rect(),
                wait ==> updating@ == clear_of(updating0, render_rects@),
                !wait ==> updating@ == updating0,
                answers0.len() == render_rects@.len(),
                segs0.len() == render_rects@.len(),
                done.len() == render_rects@.len(),
                maps0.len() == render_rects@.len() + 1,
                maps0[0] == pixels0,
                maps0.last() == ctx.fb.spec_pixels(),
                forall|j: int|
                    0 <= j < done.len() ==> maps0[j + 1] == node.view.spec_drawn(
                        #[trigger] done[j],
                        maps0[j],
                        st,
                    ),
                forall|j: int| 0 <= j < segs0.len() ==> all_pixels(#[trigger] segs0[j]),
                ctx.fb.spec_steps() == steps0 + pass_trace(
                    updating0,
                    render_rects@,
                    answers0,
                    maps0,
                    segs0,
                    wait,
                ),
            ensures
                drawn_by(*node, all) == render_rects@,
                drawn_cands(*node, all) == done,
                setting(*ctx) == st,
                ctx.fb.spec_updates() == updates0,
                ctx.fb.spec_pixels() == draw_all(*node, done, pixels0, st),
                wait ==> updating@ == clear_of(updating0, render_rects@),
                !wait ==> updating@ == updating0,
                answers0.len() == render_rects@.len(),
                segs0.len() == render_rects@.len(),
                done.len() == render_rects@.len(),
                maps0.len() == render_rects@.len() + 1,
                maps0[0] == pixels0,
                maps0.last() == ctx.fb.spec_pixels(),
                forall|j: int|
                    0 <= j < done.len() ==> maps0[j + 1] == node.view.spec_drawn(
                        #[trigger] done[j],
                        maps0[j],
                        st,
                    ),
                forall|j: int| 0 <= j < segs0.len() ==> all_pixels(#[trigger] segs0[j]),
                ctx.fb.spec_steps() == steps0 + pass_trace(
                    updating0,
                    render_rects@,
                    answers0,
                    maps0,
                    segs0,
                    wait,
                ),
            decreases cands@.len() - k,
        {
            let rect = cands[k];
            let render_rect = node.view.render_rect(&rect);
            let ghost sb = ctx.fb.spec_steps();
            let ghost pb = ctx.fb.spec_pixels();
            let ghost before_updating = updating@;
            let ghost ans_prev = answers0;
            let ghost mut waited: Seq<Step> = Seq::empty();
            if wait {
                proof {
                    lemma_clear_of_push(updating0, render_rects@, render_rect);
                }
                wait_for_overlapping(ctx, updating, &render_rect);
                proof {
                    let done_w = choose|d: Seq<bool>|
                        #![trigger pending_over(before_updating, render_rect, d)]
                        {
                            &&& d.len() == before_updating.len()
                            &&& ctx.fb.spec_steps() == sb + waits_of(
                                pending_over(before_updating, render_rect, d),
                                pb,
                            )
                        };
                    answers0 = answers0.push(done_w);
                    waited = waits_of(pending_over(before_updating, render_rect, done_w), pb);
                }
            } else {
                proof {
                    answers0 = answers0.push(Seq::empty());
                    assert(sb + waited =~= sb);
                }
            }
            let ghost sw = ctx.fb.spec_steps();
            node.view.render_view(&rect, ctx);
            let ghost prev = render_rects@;
            let ghost prev_done = done;
            proof {
                let sa = ctx.fb.spec_steps();
                let seg = sa.skip(sw.len() as int);
                assert(sa =~= sw + seg);
                let a = segs0;
                let m = maps0;
                segs0 = segs0.push(seg);
                maps0 = maps0.push(ctx.fb.spec_pixels());
                done = done.push(rect);
                assert(done.drop_last() =~= prev_done);
                assert(segs0.drop_last() =~= a);
                assert(maps0.drop_last() =~= m);
                assert(answers0.drop_last() =~= ans_prev);
                assert(sw =~= sb + waited);
                assert forall|j: int| 0 <= j < segs0.len() implies all_pixels(
                    #[trigger] segs0[j],
                ) by {
                    if j < a.len() {
                        assert(segs0[j] == a[j]);
                    }
                }
                assert forall|j: int| 0 <= j < done.len() implies maps0[j + 1]
                    == node.view.spec_drawn(#[trigger] done[j], maps0[j], st) by {
                    if j < prev_done.len() {
                        assert(done[j] == prev_done[j]);
                        assert(maps0[j] == m[j]);
                        assert(maps0[j + 1] == m[j + 1]);
                    } else {
                        assert(done[j] == rect);
                        assert(maps0[j] == m.last());
                    }
                }
                let nr = prev.push(render_rect);
                assert(nr.drop_last() =~= prev);
                assert(sa =~= steps0 + pass_trace(updating0, nr, answers0, maps0, segs0, wait));
            }
            render_rects.push(render_rect);
            assert(render_rects@ == prev.push(render_rect));
            assert(all.skip(k as int).drop_first() =~= all.skip(k + 1));
            assert(all.skip(k as int)[0] == rect);
            if *node.view.rect() == render_rect {
                assert(prev + seq![render_rect] =~= render_rects@);
                assert(prev_done + seq![rect] =~= done);
                break;
            }
            assert(prev + (seq![render_rect] + drawn_by(*node, all.skip(k + 1))) =~= render_rects@
                + drawn_by(*node, all.skip(k + 1)));
            assert(prev_done + (seq![rect] + drawn_cands(*node, all.skip(k + 1))) =~= done
                + drawn_cands(*node, all.skip(k + 1)));
            k = k + 1;
            proof {
                if k == cands.len() {
                    assert(all.skip(k as int) =~= Seq::<Rectangle>::empty());
                    assert(render_rects@ + Seq::<Rectangle>::empty() =~= render_rects@);
                    assert(done + Seq::<Rectangle>::empty() =~= done);
                }
            }
        }
    } else {
        match own {
            Some(v) => {
                let mut k: usize = 0;
                while k < v.len()
                    invariant
                        k <= v@.len(),
                        bgs@ == bgs0 + v@.take(k as int),
                    decreases v@.len() - k,
                {
                    bgs.push(v[k]);
                    k = k + 1;
                }
                assert(v@.take(v@.len() as int) =~= v@);
            },
            None => {
                assert(bgs0 + Seq::<Rectangle>::empty() =~= bgs0);
            },
        }
        assert(own_parts(*node, done) =~= Seq::<(ViewNode, Rectangle)>::empty());
    }
    let ghost mine = own_parts(*node, done);
    proof {
        assert(drawn_in_turn(mine, maps0, st)) by {
            assert forall|j: int| 0 <= j < mine.len() implies maps0[j + 1] == (
            #[trigger] mine[j]).0.view.spec_drawn(mine[j].1, maps0[j], st) by {
                assert(mine[j] == (*node, done[j]));
            }
        }
    }
    merge_rects(rects, &render_rects);
    let ghost pixels1 = ctx.fb.spec_pixels();
    let ghost drawn0 = render_rects@;
    let ghost rects1 = rects@;
    let ghost bgs1 = bgs@;
    let ghost updating1 = updating@;
    let ghost steps1 = ctx.fb.spec_steps();
    let ghost mut answers1: Seq<Seq<bool>> = Seq::empty();
    let ghost mut maps1: Seq<PixelMap> = seq![pixels1];
    let ghost mut segs1: Seq<Seq<Step>> = Seq::empty();
    let n = node.children.len();
    proof {
        assert(node.children@.take(0) =~= Seq::<ViewNode>::empty());
        lemma_clear_of_empty(updating1);
        assert(steps1 + Seq::<Step>::empty() =~= steps1);
    }
    let mut i: usize = 0;
    while i < n
        invariant
            i <= n,
            n == node.children@.len(),
            depth(*node) == 1 + depth_seq(node.children@),
            ({
                let c = render_children(node.children@.take(i as int), ids@, rects1, bgs1);
                &&& rects@ == c.0
                &&& bgs@ == c.1
                &&& wait ==> updating@ == clear_of(updating1, c.2)
                &&& !wait ==> updating@ == updating1
                &&& took_turns(
                    steps1,
                    ctx.fb.spec_steps(),
                    pixels1,
                    ctx.fb.spec_pixels(),
                    updating1,
                    c.2,
                    children_parts(node.children@.take(i as int), ids@, rects1, bgs1),
                    wait,
                    st,
                    (answers1, maps1, segs1),
                )
            }),
            wait ==> updating1 == clear_of(updating0, drawn0),
            !wait ==> updating1 == updating0,
            took_turns(
                steps0,
                steps1,
                pixels0,
                pixels1,
                updating0,
                drawn0,
                mine,
                wait,
                st,
                (answers0, maps0, segs0),
            ),
            setting(*ctx) == st,
            ctx.fb.spec_updates() == updates0,
            ctx.fb.spec_pixels() == children_pixels(
                node.children@.take(i as int),
                ids@,
                rects1,
                bgs1,
                pixels1,
                st,
            ),
        decreases n - i,
    {
        proof {
            lemma_depth_seq_bound(node.children@, i as int);
        }
        let ghost c = render_children(node.children@.take(i as int), ids@, rects1, bgs1);
        let ghost sb = ctx.fb.spec_steps();
        let ghost pb = ctx.fb.spec_pixels();
        let ghost ub = updating@;
        render(&node.children[i], wait, ids, rects, bgs, ctx, updating);
        proof {
            let child = node.children@[i as int];
            assert(node.children@.take(i + 1).drop_last() =~= node.children@.take(i as int));
            assert(node.children@.take(i + 1).last() == child);
            let cp = render_pass(child, ids@, c.0, c.1).2;
            let pp = pass_parts(child, ids@, c.0, c.1);
            let t = choose|t: Turns|
                #[trigger] took_turns(
                    sb,
                    ctx.fb.spec_steps(),
                    pb,
                    ctx.fb.spec_pixels(),
                    ub,
                    cp,
                    pp,
                    wait,
                    st,
                    t,
                );
            if !wait {
                lemma_pass_trace_no_wait(ub, clear_of(updating1, c.2), cp, t.0, t.1, t.2);
            }
            lemma_clear_of_append(updating1, c.2, cp);
            lemma_pass_trace_append(
                updating1,
                c.2,
                cp,
                answers1,
                t.0,
                maps1,
                t.1,
                segs1,
                t.2,
                wait,
            );
            lemma_drawn_in_turn_append(
                children_parts(node.children@.take(i as int), ids@, rects1, bgs1),
                pp,
                maps1,
                t.1,
                st,
            );
            let s = segs1;
            answers1 = answers1 + t.0;
            maps1 = maps1.drop_last() + t.1;
            segs1 = segs1 + t.2;
            assert forall|j: int| 0 <= j < segs1.len() implies all_pixels(
                #[trigger] segs1[j],
            ) by {
                if j < s.len() {
                    assert(segs1[j] == s[j]);
                } else {
                    assert(segs1[j] == t.2[j - s.len()]);
                }
            }
            assert(maps1[0] == pixels1);
            assert(maps1.last() == t.1.last());
            assert(ctx.fb.spec_steps() =~= steps1 + pass_trace(
                updating1,
                c.2 + cp,
                answers1,
                maps1,
                segs1,
                wait,
            ));
        }
        i = i + 1;
    }
    proof {
        assert(node.children@.take(n as int) =~= node.children@);
        let cs = render_children(node.children@, ids@, rects1, bgs1).2;
        let cparts = children_parts(node.children@, ids@, rects1, bgs1);
        if !wait {
            lemma_pass_trace_no_wait(updating1, clear_of(updating0, drawn0), cs, answers1, maps1, segs1);
        }
        lemma_clear_of_append(updating0, drawn0, cs);
        lemma_pass_trace_append(
            updating0,
            drawn0,
            cs,
            answers0,
            answers1,
            maps0,
            maps1,
            segs0,
            segs1,
            wait,
        );
        lemma_drawn_in_turn_append(mine, cparts, maps0, maps1, st);
        assert(rects1 == merge_all(rects0, drawn0));
        assert(render_pass(*node, ids@, rects0, bgs0).2 == drawn0 + cs);
        assert(pass_parts(*node, ids@, rects0, bgs0) == mine + cparts);
        let t = (answers0 + answers1, maps0.drop_last() + maps1, segs0 + segs1);
        assert forall|j: int| 0 <= j < t.2.len() implies all_pixels(#[trigger] t.2[j]) by {
            if j < segs0.len() {
                assert(t.2[j] == segs0[j]);
            } else {
                assert(t.2[j] == segs1[j - segs0.len()]);
            }
        }
        assert(t.1[0] == pixels0);
        assert(t.1.last() == maps1.last());
        assert(ctx.fb.spec_steps() =~= steps0 + pass_trace(
            updating0,
            drawn0 + cs,
            t.0,
            t.1,
            t.2,
            wait,
        ));
        assert(took_turns(
            steps0,
            ctx.fb.spec_steps(),
            pixels0,
            ctx.fb.spec_pixels(),
            updating0,
            drawn0 + cs,
            mine + cparts,
            wait,
            st,
            t,
        ));
    }
}


/// A rendering pass loses no pixel: every rectangle that was to be updated
/// and every rectangle that the pass drew is held by some rectangle to
/// update at its end.
pub proof fn lemma_render_pass_covers(
    node: ViewNode,
    ids: Map<Id, Vec<Rectangle>>,
    rects: Seq<Rectangle>,
    bgs: Seq<Rectangle>,
)
    ensures
        covers_all(render_pass(node, ids, rects, bgs).0, rects),
        covers_all(render_pass(node, ids, rects, bgs).0, render_pass(node, ids, rects, bgs).2),
    decreases node, 1nat,
{
    let own = requested(ids, node.view.spec_id());
    let drawn = if node.children@.len() == 0 || node.view.spec_is_background() {
        drawn_by(node, candidates(own, bgs, node.view.spec_rect()))
    } else {
        Seq::empty()
    };
    let bgs1 = if node.children@.len() == 0 || node.view.spec_is_background() {
        bgs
    } else {
        bgs + own
    };
    let rects1 = merge_all(rects, drawn);
    let after = render_children(node.children@, ids, rects1, bgs1);
    lemma_merge_covers(rects, drawn);
    lemma_render_children_covers(node.children@, ids, rects1, bgs1);
    lemma_covers_all_trans(after.0, rects1, rects);
    lemma_covers_all_trans(after.0, rects1, drawn);
    lemma_covers_all_concat(after.0, drawn, after.2);
}

/// A rendering pass over a sequence of trees loses no pixel either.
pub proof fn lemma_render_children_covers(
    nodes: Seq<ViewNode>,
    ids: Map<Id, Vec<Rectangle>>,
    rects: Seq<Rectangle>,
    bgs: Seq<Rectangle>,
)
    ensures
        covers_all(render_children(nodes, ids, rects, bgs).0, rects),
        covers_all(render_children(nodes, ids, rects, bgs).0, render_children(nodes, ids, rects, bgs).2),
    decreases nodes, 0nat,
{
    if nodes.len() == 0 {
        assert forall|i: int| 0 <= i < rects.len() implies crate::view::merge::covered_by(rects, #[trigger] rects[i]) by {
            assert(rects[i].spec_contains(rects[i]));
        }
    } else {
        let before = render_children(nodes.drop_last(), ids, rects, bgs);
        let last = render_pass(nodes.last(), ids, before.0, before.1);
        lemma_render_children_covers(nodes.drop_last(), ids, rects, bgs);
        lemma_render_pass_covers(nodes.last(), ids, before.0, before.1);
        lemma_covers_all_trans(last.0, before.0, rects);
        lemma_covers_all_trans(last.0, before.0, before.2);
        lemma_covers_all_concat(last.0, before.2, last.2);
    }
}


/// The rectangles of the requests for `id` (for every view, with none), in order.
pub open spec fn rects_for(pairs: Seq<Request>, id: Option<Id>) -> Seq<Rectangle>
    decreases pairs.len(),
{
    if pairs.len() == 0 {
        Seq::empty()
    } else {
        let prev = rects_for(pairs.drop_last(), id);
        if pairs.last().0 == id {
            prev.push(pairs.last().1)
        } else {
            prev
        }
    }
}

/// Splits the requests of a group, taken from the latest to the earliest,
/// into the rectangles requested for each view and those requested for
/// every view (the exposed backgrounds).
pub fn split_requests(pairs: &Vec<Request>) -> (r: (FxHashMap<Id, Vec<Rectangle>>, Vec<Rectangle>))
    ensures
        r.1@ == rects_for(pairs@.reverse(), None),
        forall|id: Id| #[trigger]
            r.0@.contains_key(id) <==> rects_for(pairs@.reverse(), Some(id)).len() > 0,
        forall|id: Id| #[trigger]
            r.0@.contains_key(id) ==> r.0@[id]@ == rects_for(pairs@.reverse(), Some(id)),
{
    let ghost rev = pairs@.reverse();
    let mut ids: FxHashMap<Id, Vec<Rectangle>> = fx_map_new();
    let mut bgs: Vec<Rectangle> = Vec::new();
    let n = pairs.len();
    let mut k: usize = 0;
    while k < n
        invariant
            k <= n,
            n == pairs@.len(),
            rev == pairs@.reverse(),
            bgs@ == rects_for(rev.take(k as int), None),
            forall|id: Id| #[trigger]
                ids@.contains_key(id) <==> rects_for(rev.take(k as int), Some(id)).len() > 0,
            forall|id: Id| #[trigger]
                ids@.contains_key(id) ==> ids@[id]@ == rects_for(rev.take(k as int), Some(id)),
        decreases n - k,
    {
        let pair = pairs[n - 1 - k];
        assert(rev[k as int] == pair);
        assert(rev.take(k + 1).drop_last() =~= rev.take(k as int));
        assert(rev.take(k + 1).last() == pair);
        match pair.0 {
            Some(id) => {
                let mut v = match fx_map_remove(&mut ids, id) {
                    Some(v) => v,
                    None => Vec::new(),
                };
                v.push(pair.1);
                fx_map_insert(&mut ids, id, v);
            },
            None => {
                bgs.push(pair.1);
            },
        }
        k = k + 1;
    }
    assert(rev.take(n as int) =~= rev);
    (ids, bgs)
}

/// `ids` holds the rectangles requested for each view among `reqs`, taken
/// from the latest request to the earliest.
pub open spec fn splits(ids: Map<Id, Vec<Rectangle>>, reqs: Seq<Request>) -> bool {
    &&& forall|id: Id| #[trigger]
        ids.contains_key(id) <==> rects_for(reqs.reverse(), Some(id)).len() > 0
    &&& forall|id: Id| #[trigger]
        ids.contains_key(id) ==> ids[id]@ == rects_for(reqs.reverse(), Some(id))
}

/// `log` asks a refresh of each of `rects`, in order, with `mode`.
pub open spec fn asked(log: Seq<Refresh>, rects: Seq<Rectangle>, mode: UpdateMode) -> bool {
    &&& log.len() == rects.len()
    &&& forall|i: int| 0 <= i < log.len() ==> (#[trigger] log[i]).0 == rects[i] && log[i].1 == mode
}

/// `added` holds, in order, an update under way for each refresh of `log`
/// that the panel took, with its region and the token the panel gave back.
pub open spec fn took(added: Seq<UpdateData>, log: Seq<Refresh>) -> bool
    decreases log.len(),
{
    if log.len() == 0 {
        added.len() == 0
    } else {
        match log.last().2 {
            Some(token) => {
                &&& added.len() > 0
                &&& added.last().token == token
                &&& added.last().rect == log.last().0
                &&& took(added.drop_last(), log.drop_last())
            },
            None => took(added, log.drop_last()),
        }
    }
}

/// What the views and the panel hold: the colours of the pixels, the
/// refreshes asked of the panel with their answers, the steps taken by the
/// display (pixels set and waits), and the updates under way.
pub type PanelState = (Map<(u32, u32), Colour>, Seq<Refresh>, Seq<Step>, Seq<UpdateData>);

/// `after` follows from `before` by the rendering pass for the requests
/// `reqs` of a group of mode `mode` and wait flag `wait`: the tree draws
/// them (those for every view being exposed backgrounds), one after the
/// other, waiting before each drawing, when `wait` is set, for the updates
/// under way over it; the
/// panel is asked to refresh each merged rectangle with `mode`; the updates
/// under way are those left by the pass followed by those the panel took,
/// with the tokens it gave back.
pub open spec fn group_step(
    node: ViewNode,
    mode: UpdateMode,
    wait: bool,
    reqs: Seq<Request>,
    st: Setting,
    before: PanelState,
    after: PanelState,
) -> bool {
    exists|ids: Map<Id, Vec<Rectangle>>|
        #[trigger] group_step_by(node, mode, wait, reqs, st, before, after, ids)
}

/// `group_step`, with the requests for each view in `ids`.
pub open spec fn group_step_by(
    node: ViewNode,
    mode: UpdateMode,
    wait: bool,
    reqs: Seq<Request>,
    st: Setting,
    before: PanelState,
    after: PanelState,
    ids: Map<Id, Vec<Rectangle>>,
) -> bool {
    let bgs = rects_for(reqs.reverse(), None);
    let pass = render_pass(node, ids, Seq::empty(), bgs);
    let base = if wait {
        clear_of(before.3, pass.2)
    } else {
        before.3
    };
    let log = after.1.skip(before.1.len() as int);
    &&& splits(ids, reqs)
    &&& after.0 == pass_pixels(node, ids, Seq::empty(), bgs, before.0, st)
    &&& grew(after.1, before.1)
    &&& asked(log, pass.0, mode)
    &&& exists|t: Turns|
        #[trigger] took_turns(
            before.2,
            after.2,
            before.0,
            after.0,
            before.3,
            pass.2,
            pass_parts(node, ids, Seq::empty(), bgs),
            wait,
            st,
            t,
        )
    &&& grew(after.3, base)
    &&& took(after.3.skip(base.len() as int), log)
}

/// Records a refresh of `rect` that the panel took with the token it gave
/// back; a refused one adds nothing.
pub fn note_update(result: Result<u32, String>, rect: Rectangle, updating: &mut Vec<UpdateData>)
    ensures
        match result {
            Ok(token) => {
                &&& final(updating)@.len() == old(updating)@.len() + 1
                &&& final(updating)@.drop_last() == old(updating)@
                &&& final(updating)@.last().token == token
                &&& final(updating)@.last().rect == rect
            },
            Err(_) => final(updating)@ == old(updating)@,
        },
{
    match result {
        Ok(token) => {
            updating.push(UpdateData { token, rect, time: instant_now() });
            assert(updating@.drop_last() =~= old(updating)@);
        },
        Err(_) => {},
    }
}

/// Renders the requests of one group, then asks the panel to refresh each
/// merged rectangle with the group's mode.
pub fn process_group(
    node: &ViewNode,
    mode: UpdateMode,
    wait: bool,
    reqs: &Vec<Request>,
    ctx: &mut Context,
    updating: &mut Vec<UpdateData>,
)
    ensures
        group_step(
            *node,
            mode,
            wait,
            reqs@,
            setting(*old(ctx)),
            (
                old(ctx).fb.spec_pixels(),
                old(ctx).fb.spec_updates(),
                old(ctx).fb.spec_steps(),
                old(updating)@,
            ),
            (
                final(ctx).fb.spec_pixels(),
                final(ctx).fb.spec_updates(),
                final(ctx).fb.spec_steps(),
                final(updating)@,
            ),
        ),
        setting(*final(ctx)) == setting(*old(ctx)),
{
    let ghost st = setting(*ctx);
    let ghost updates0 = ctx.fb.spec_updates();
    let ghost steps0 = ctx.fb.spec_steps();
    let ghost pixels0 = ctx.fb.spec_pixels();
    let ghost updating0 = updating@;
    let (ids, mut bgs) = split_requests(reqs);
    let ghost bgs0 = bgs@;
    let mut rects: Vec<Rectangle> = Vec::new();
    render(node, wait, &ids, &mut rects, &mut bgs, ctx, updating);
    let ghost pass = render_pass(*node, ids@, Seq::empty(), bgs0);
    let ghost base = updating@;
    let ghost pixels1 = ctx.fb.spec_pixels();
    let ghost steps1 = ctx.fb.spec_steps();
    let ghost turns = choose|t: Turns|
        #[trigger] took_turns(
            steps0,
            steps1,
            pixels0,
            pixels1,
            updating0,
            pass.2,
            pass_parts(*node, ids@, Seq::empty(), bgs0),
            wait,
            st,
            t,
        );
    proof {
        assert(updating@.skip(base.len() as int) =~= Seq::<UpdateData>::empty());
        assert(rects@.take(0) =~= Seq::<Rectangle>::empty());
        assert(updating@.take(base.len() as int) =~= base);
        assert(updates0.take(updates0.len() as int) =~= updates0);
        assert(updates0.skip(updates0.len() as int) =~= Seq::<Refresh>::empty());
    }
    let mut j: usize = 0;
    while j < rects.len()
        invariant
            j <= rects@.len(),
            rects@ == pass.0,
            setting(*ctx) == st,
            ctx.fb.spec_pixels() == pixels1,
            ctx.fb.spec_steps() == steps1,
            grew(ctx.fb.spec_updates(), updates0),
            asked(ctx.fb.spec_updates().skip(updates0.len() as int), rects@.take(j as int), mode),
            grew(updating@, base),
            took(updating@.skip(base.len() as int), ctx.fb.spec_updates().skip(updates0.len() as int)),
        decreases rects@.len() - j,
    {
        let rect = rects[j];
        let ghost log0 = ctx.fb.spec_updates();
        let result = ctx.fb.update(&rect, mode);
        let ghost prev = updating@;
        let ghost outcome = result;
        note_update(result, rect, updating);
        proof {
            let l = ctx.fb.spec_updates();
            assert(l.take(updates0.len() as int) =~= updates0);
            assert(l.skip(updates0.len() as int) =~= log0.skip(updates0.len() as int).push(
                (rect, mode, answer(outcome)),
            ));
            assert(l.skip(updates0.len() as int).drop_last() =~= log0.skip(updates0.len() as int));
            assert(rects@.take(j + 1) =~= rects@.take(j as int).push(rect));
            match outcome {
                Ok(_) => {
                    assert(updating@.take(base.len() as int) =~= base) by {
                        assert(prev.take(base.len() as int) =~= base);
                        assert forall|k: int| 0 <= k < base.len() implies updating@[k] == prev[k] by {
                            assert(updating@.drop_last()[k] == updating@[k]);
                        }
                    }
                    assert(updating@.skip(base.len() as int).drop_last() =~= prev.skip(
                        base.len() as int,
                    ));
                    assert(updating@.skip(base.len() as int).last() == updating@.last());
                },
                Err(_) => {},
            }
        }
        j = j + 1;
    }
    proof {
        assert(rects@.take(j as int) =~= rects@);
        assert(splits(ids@, reqs@));
        assert(wait ==> base == clear_of(updating0, pass.2));
        assert(took_turns(
            steps0,
            ctx.fb.spec_steps(),
            pixels0,
            ctx.fb.spec_pixels(),
            updating0,
            render_pass(*node, ids@, Seq::empty(), rects_for(reqs@.reverse(), None)).2,
            pass_parts(*node, ids@, Seq::empty(), rects_for(reqs@.reverse(), None)),
            wait,
            st,
            turns,
        ));
        let before: PanelState = (pixels0, updates0, steps0, updating0);
        let after: PanelState = (
            ctx.fb.spec_pixels(),
            ctx.fb.spec_updates(),
            ctx.fb.spec_steps(),
            updating@,
        );
        assert(before.2 == steps0 && after.2 == ctx.fb.spec_steps());
        assert(before.0 == pixels0 && after.0 == ctx.fb.spec_pixels() && before.3 == updating0);
        assert(group_step_by(*node, mode, wait, reqs@, st, before, after, ids@));
    }
}

/// `order` lists every group of `groups` once, in some order.
pub open spec fn lists_groups(
    order: Seq<((UpdateMode, bool), Seq<Request>)>,
    groups: Map<(UpdateMode, bool), Seq<Request>>,
) -> bool {
    &&& forall|i: int, j: int|
        0 <= i < j < order.len() ==> #[trigger] order[i].0 != #[trigger] order[j].0
    &&& forall|i: int|
        0 <= i < order.len() ==> groups.contains_key(#[trigger] order[i].0) && groups[order[i].0]
            == order[i].1
    &&& forall|g: (UpdateMode, bool)|
        groups.contains_key(g) ==> exists|i: int| 0 <= i < order.len() && #[trigger] order[i].0 == g
}

proof fn lemma_group_key_of_key(key: u64)
    requires
        key < 10,
    ensures
        group_key(key_group(key).0, key_group(key).1) == key,
{
    assert(key == 0 || key == 1 || key == 2 || key == 3 || key == 4 || key == 5 || key == 6
        || key == 7 || key == 8 || key == 9);
}

/// Renders the requests of the queue, group after group (in an order that
/// the map's hashes decide), and asks the panel to refresh the merged
/// rectangles of each group with its mode. The refreshes that the panel
/// takes join `updating`. The queue is left empty; an empty queue changes
/// nothing.
pub fn process_render_queue(
    node: &ViewNode,
    rq: &mut RenderQueue,
    ctx: &mut Context,
    updating: &mut Vec<UpdateData>,
)
    ensures
        final(rq).groups() == Map::<(UpdateMode, bool), Seq<Request>>::empty(),
        exists|order: Seq<((UpdateMode, bool), Seq<Request>)>, states: Seq<PanelState>|
            {
                &&& lists_groups(order, old(rq).groups())
                &&& states.len() == order.len() + 1
                &&& states[0] == (
                    old(ctx).fb.spec_pixels(),
                    old(ctx).fb.spec_updates(),
                    old(ctx).fb.spec_steps(),
                    old(updating)@,
                )
                &&& states.last() == (
                    final(ctx).fb.spec_pixels(),
                    final(ctx).fb.spec_updates(),
                    final(ctx).fb.spec_steps(),
                    final(updating)@,
                )
                &&& forall|i: int|
                    0 <= i < order.len() ==> #[trigger] group_step(
                        *node,
                        (order[i].0).0,
                        (order[i].0).1,
                        order[i].1,
                        setting(*old(ctx)),
                        states[i],
                        states[i + 1],
                    )
            },
        old(rq).groups() == Map::<(UpdateMode, bool), Seq<Request>>::empty() ==> {
            &&& final(ctx).fb.spec_pixels() == old(ctx).fb.spec_pixels()
            &&& final(ctx).fb.spec_updates() == old(ctx).fb.spec_updates()
            &&& final(ctx).fb.spec_steps() == old(ctx).fb.spec_steps()
            &&& final(updating)@ == old(updating)@
        },
        setting(*final(ctx)) == setting(*old(ctx)),
{
    proof {
        use_type_invariant(&*rq);
    }
    let ghost old_map = rq.0@;
    let ghost groups0 = rq.groups();
    let ghost st = setting(*ctx);
    let ghost s0: PanelState = (
        ctx.fb.spec_pixels(),
        ctx.fb.spec_updates(),
        ctx.fb.spec_steps(),
        updating@,
    );
    let mut hm: FxHashMap<Id, Vec<Request>> = fx_map_new();
    std::mem::swap(&mut hm, &mut rq.0);
    let entries = fx_map_drain(&mut hm);
    let ghost mut order: Seq<((UpdateMode, bool), Seq<Request>)> = Seq::empty();
    let ghost mut states: Seq<PanelState> = seq![s0];
    let mut i: usize = 0;
    while i < entries.len()
        invariant
            lists_entries(entries@, old_map),
            forall|k: u64| #[trigger] old_map.contains_key(k) ==> k < 10,
            i <= entries@.len(),
            setting(*ctx) == st,
            order.len() == i,
            forall|k: int|
                0 <= k < i ==> #[trigger] order[k] == (
                    key_group(entries@[k].0),
                    entries@[k].1@,
                ),
            states.len() == i + 1,
            states[0] == s0,
            states.last() == (
                ctx.fb.spec_pixels(),
                ctx.fb.spec_updates(),
                ctx.fb.spec_steps(),
                updating@,
            ),
            forall|k: int|
                0 <= k < i ==> #[trigger] group_step(
                    *node,
                    (order[k].0).0,
                    (order[k].0).1,
                    order[k].1,
                    st,
                    states[k],
                    states[k + 1],
                ),
        decreases entries@.len() - i,
    {
        let key = entries[i].0;
        assert(old_map.contains_key(entries@[i as int].0));
        let (mode, wait) = key_group_of(key);
        let ghost before = states.last();
        process_group(node, mode, wait, &entries[i].1, ctx, updating);
        proof {
            let ghost o = order;
            let ghost t = states;
            order = order.push(((mode, wait), entries@[i as int].1@));
            states = states.push(
                (ctx.fb.spec_pixels(), ctx.fb.spec_updates(), ctx.fb.spec_steps(), updating@),
            );
            assert forall|k: int|
                0 <= k < i + 1 implies #[trigger] group_step(
                    *node,
                    (order[k].0).0,
                    (order[k].0).1,
                    order[k].1,
                    st,
                    states[k],
                    states[k + 1],
                ) by {
                if k < i {
                    assert(order[k] == o[k]);
                    assert(states[k] == t[k]);
                    assert(states[k + 1] == t[k + 1]);
                } else {
                    assert(states[k] == before);
                }
            }
        }
        i = i + 1;
    }
    proof {
        assert forall|g: (UpdateMode, bool)| groups0.contains_key(g) implies exists|k: int|
            0 <= k < order.len() && #[trigger] order[k].0 == g by {
            let key = group_key(g.0, g.1);
            assert(old_map.contains_key(key));
            let k = choose|k: int| 0 <= k < entries@.len() && #[trigger] entries@[k].0 == key;
            assert(order[k].0 == key_group(key));
            assert(key_group(group_key(g.0, g.1)) == g);
        }
        assert forall|a: int, b: int| 0 <= a < b < order.len() implies #[trigger] order[a].0
            != #[trigger] order[b].0 by {
            lemma_group_key_of_key(entries@[a].0);
            lemma_group_key_of_key(entries@[b].0);
        }
        assert forall|k: int| 0 <= k < order.len() implies groups0.contains_key(#[trigger] order[k].0)
            && groups0[order[k].0] == order[k].1 by {
            lemma_group_key_of_key(entries@[k].0);
        }
        if groups0 == Map::<(UpdateMode, bool), Seq<Request>>::empty() {
            if entries@.len() > 0 {
                assert(old_map.contains_key(entries@[0].0));
                assert(groups0.contains_key(key_group(entries@[0].0))) by {
                    lemma_group_key_of_key(entries@[0].0);
                }
            }
        }
    }
    assert(lists_groups(order, groups0));
    assert(states.len() == order.len() + 1);
    assert(states[0] == s0);
    assert(rq.groups() =~= Map::<(UpdateMode, bool), Seq<Request>>::empty());
}

/// `ids` asks for the whole of the view of `node` and for nothing else.
pub open spec fn whole_request(ids: Map<Id, Vec<Rectangle>>, node: ViewNode) -> bool {
    &&& ids.dom() == set![node.view.spec_id()]
    &&& ids[node.view.spec_id()]@ == seq![node.view.spec_rect()]
}

/// Renders a view and its children at once, over the view's whole
/// rectangle, without waiting for the updates under way, and fully
/// refreshes the panel over the merged rectangles: for emergencies, not
/// worrying about the views in the queue. A refresh the panel refuses
/// stops nothing.
pub fn render_instantly(ctx: &mut Context, node: &ViewNode)
    ensures
        exists|ids: Map<Id, Vec<Rectangle>>|
            #![trigger whole_request(ids, *node)]
            {
                &&& whole_request(ids, *node)
                &&& final(ctx).fb.spec_pixels() == pass_pixels(
                    *node,
                    ids,
                    Seq::empty(),
                    Seq::empty(),
                    old(ctx).fb.spec_pixels(),
                    setting(*old(ctx)),
                )
                &&& grew(final(ctx).fb.spec_updates(), old(ctx).fb.spec_updates())
                &&& asked(
                    final(ctx).fb.spec_updates().skip(old(ctx).fb.spec_updates().len() as int),
                    render_pass(*node, ids, Seq::empty(), Seq::empty()).0,
                    UpdateMode::Full,
                )
            },
        painted_on(old(ctx).fb.spec_steps(), final(ctx).fb.spec_steps()),
        setting(*final(ctx)) == setting(*old(ctx)),
{
    let ghost updates0 = ctx.fb.spec_updates();
    let ghost steps0 = ctx.fb.spec_steps();
    let ghost pixels0 = ctx.fb.spec_pixels();
    let ghost st0 = setting(*ctx);
    let mut ids: FxHashMap<Id, Vec<Rectangle>> = fx_map_new();
    let mut whole: Vec<Rectangle> = Vec::new();
    whole.push(*node.view.rect());
    fx_map_insert(&mut ids, node.view.id(), whole);
    assert(ids@.dom() =~= set![node.view.spec_id()]);
    let mut rects: Vec<Rectangle> = Vec::new();
    let mut bgs: Vec<Rectangle> = Vec::new();
    let mut updating: Vec<UpdateData> = Vec::new();
    render(node, false, &ids, &mut rects, &mut bgs, ctx, &mut updating);
    let ghost st = setting(*ctx);
    let ghost pixels1 = ctx.fb.spec_pixels();
    let ghost steps1 = ctx.fb.spec_steps();
    proof {
        let t = choose|t: Turns|
            #[trigger] took_turns(
                steps0,
                steps1,
                pixels0,
                pixels1,
                Seq::empty(),
                render_pass(*node, ids@, Seq::empty(), Seq::empty()).2,
                pass_parts(*node, ids@, Seq::empty(), Seq::empty()),
                false,
                st0,
                t,
            );
        let drawn = render_pass(*node, ids@, Seq::empty(), Seq::empty()).2;
        lemma_pass_trace_pixels(Seq::empty(), drawn, t.0, t.1, t.2);
        let tr = pass_trace(Seq::empty(), drawn, t.0, t.1, t.2, false);
        assert(steps1.take(steps0.len() as int) =~= steps0);
        assert(steps1.skip(steps0.len() as int) =~= tr);
        assert(updates0.take(updates0.len() as int) =~= updates0);
        assert(updates0.skip(updates0.len() as int) =~= Seq::<Refresh>::empty());
        assert(rects@.take(0) =~= Seq::<Rectangle>::empty());
    }
    let mut j: usize = 0;
    while j < rects.len()
        invariant
            j <= rects@.len(),
            setting(*ctx) == st,
            ctx.fb.spec_pixels() == pixels1,
            ctx.fb.spec_steps() == steps1,
            grew(ctx.fb.spec_updates(), updates0),
            asked(
                ctx.fb.spec_updates().skip(updates0.len() as int),
                rects@.take(j as int),
                UpdateMode::Full,
            ),
        decreases rects@.len() - j,
    {
        let ghost log0 = ctx.fb.spec_updates();
        let _ = ctx.fb.update(&rects[j], UpdateMode::Full);
        proof {
            let l = ctx.fb.spec_updates();
            assert(l.take(updates0.len() as int) =~= updates0);
            assert(l.skip(updates0.len() as int) =~= log0.skip(updates0.len() as int).push(
                l.last(),
            ));
            assert(rects@.take(j + 1) =~= rects@.take(j as int).push(rects@[j as int]));
        }
        j = j + 1;
    }
    assert(rects@.take(j as int) =~= rects@);
    assert(whole_request(ids@, *node));
}

/// The tokens of the updates of `updates` that had not completed, in
/// order; `done` says of each whether it had completed when the clock was
/// read.
pub open spec fn pending(updates: Seq<UpdateData>, done: Seq<bool>) -> Seq<u32>
    decreases updates.len(),
{
    if updates.len() == 0 {
        Seq::empty()
    } else {
        let prev = pending(updates.drop_last(), done.drop_last());
        if !done.last() {
            prev.push(updates.last().token)
        } else {
            prev
        }
    }
}

/// Waits, in order, for each update under way that had not completed when
/// the clock was read, and forgets them all. Which had completed is the
/// clock's answer: the waits are those of `pending` for some answers.
pub fn wait_for_all<F: Framebuffer + ?Sized>(fb: &mut F, updating: &mut Vec<UpdateData>)
    ensures
        final(updating)@.len() == 0,
        exists|done: Seq<bool>|
            #![trigger pending(old(updating)@, done)]
            {
                &&& done.len() == old(updating)@.len()
                &&& final(fb).spec_steps() == old(fb).spec_steps() + waits_of(
                    pending(old(updating)@, done),
                    old(fb).spec_pixels(),
                )
            },
        final(fb).spec_pixels() == old(fb).spec_pixels(),
        final(fb).spec_updates() == old(fb).spec_updates(),
        final(fb).spec_rounder() == old(fb).spec_rounder(),
{
    let ghost steps0 = fb.spec_steps();
    let ghost pixels0 = fb.spec_pixels();
    let ghost mut done: Seq<bool> = Seq::empty();
    proof {
        assert(updating@.take(0) =~= Seq::<UpdateData>::empty());
        assert(steps0 + waits_of(Seq::<u32>::empty(), pixels0) =~= steps0);
    }
    let mut i: usize = 0;
    while i < updating.len()
        invariant
            i <= updating@.len(),
            updating@ == old(updating)@,
            done.len() == i,
            fb.spec_pixels() == old(fb).spec_pixels(),
            pixels0 == old(fb).spec_pixels(),
            fb.spec_updates() == old(fb).spec_updates(),
            fb.spec_rounder() == old(fb).spec_rounder(),
            fb.spec_steps() == steps0 + waits_of(pending(updating@.take(i as int), done), pixels0),
        decreases updating@.len() - i,
    {
        let update = updating[i];
        let completed = update.has_completed();
        if !completed {
            let _ = fb.wait(update.token);
        }
        proof {
            let d = done;
            done = done.push(completed);
            assert(done.drop_last() =~= d);
            assert(updating@.take(i + 1).drop_last() =~= updating@.take(i as int));
            assert(updating@.take(i + 1).last() == update);
            let p = pending(updating@.take(i as int), d);
            if !completed {
                assert(pending(updating@.take(i + 1), done) == p.push(update.token));
                assert(waits_of(p.push(update.token), pixels0) =~= waits_of(p, pixels0).push(
                    Step::Wait(update.token, pixels0),
                ));
            } else {
                assert(pending(updating@.take(i + 1), done) == p);
            }
            assert(fb.spec_steps() =~= steps0 + waits_of(pending(updating@.take(i + 1), done), pixels0));
        }
        i = i + 1;
    }
    assert(updating@.take(updating@.len() as int) =~= updating@);
    updating.clear();
}

/// Nothing of `rects` falls inside `area` when none of them overlaps it.
proof fn lemma_clip_all_empty(rects: Seq<Rectangle>, area: Rectangle)
    requires
        forall|i: int| 0 <= i < rects.len() ==> !(#[trigger] rects[i]).spec_overlaps(area),
    ensures
        clip_all(rects, area).len() == 0,
    decreases rects.len(),
{
    if rects.len() > 0 {
        assert(!rects[rects.len() - 1].spec_overlaps(area));
        lemma_clip_all_empty(rects.drop_last(), area);
    }
}

/// For a view to be drawn, it has to be requested or to meet one of the
/// exposed backgrounds: otherwise a rendering pass draws nothing of it.
pub proof fn lemma_render_needs_request(
    node: ViewNode,
    ids: Map<Id, Vec<Rectangle>>,
    bgs: Seq<Rectangle>,
)
    requires
        requested(ids, node.view.spec_id()).len() == 0,
        forall|i: int| 0 <= i < bgs.len() ==> !(#[trigger] bgs[i]).spec_overlaps(node.view.spec_rect()),
    ensures
        drawn_by(node, candidates(requested(ids, node.view.spec_id()), bgs, node.view.spec_rect())).len() == 0,
        drawn_cands(node, candidates(requested(ids, node.view.spec_id()), bgs, node.view.spec_rect())).len() == 0,
{
    lemma_clip_all_empty(bgs, node.view.spec_rect());
    let c = candidates(requested(ids, node.view.spec_id()), bgs, node.view.spec_rect());
    assert(c.len() == 0);
}

/// The updates kept after drawing are exactly those under way that no
/// drawn rectangle overlaps, in their order.
pub proof fn lemma_clear_of(updates: Seq<UpdateData>, drawn: Seq<Rectangle>)
    ensures
        clear_of(updates, drawn).len() <= updates.len(),
        forall|i: int|
            0 <= i < clear_of(updates, drawn).len() ==> !overlaps_any(
                drawn,
                (#[trigger] clear_of(updates, drawn)[i]).rect,
            ) && updates.contains(clear_of(updates, drawn)[i]),
        forall|j: int|
            0 <= j < updates.len() && !overlaps_any(drawn, (#[trigger] updates[j]).rect)
                ==> clear_of(updates, drawn).contains(updates[j]),
    decreases updates.len(),
{
    if updates.len() > 0 {
        let p = updates.drop_last();
        lemma_clear_of(p, drawn);
        let c = clear_of(updates, drawn);
        let cp = clear_of(p, drawn);
        assert forall|i: int| 0 <= i < c.len() implies !overlaps_any(drawn, (#[trigger] c[i]).rect)
            && updates.contains(c[i]) by {
            if i < cp.len() {
                assert(c[i] == cp[i]);
                let k = choose|k: int| 0 <= k < p.len() && p[k] == cp[i];
                assert(updates[k] == p[k]);
            } else {
                assert(c[i] == updates.last());
                assert(updates[updates.len() - 1] == updates.last());
            }
        }
        assert forall|j: int| 0 <= j < updates.len() && !overlaps_any(drawn, (#[trigger] updates[j]).rect)
            implies c.contains(updates[j]) by {
            if j < updates.len() - 1 {
                assert(p[j] == updates[j]);
                let k = choose|k: int| 0 <= k < cp.len() && cp[k] == p[j];
                assert(c[k] == cp[k]);
            } else {
                assert(c[c.len() - 1] == updates[j]);
            }
        }
    }
}

/// The waits for the updates under way are those the clock's answers call
/// for: the token of every update that had not completed is waited for,
/// and every token waited for is that of an update that had not completed.
pub proof fn lemma_pending_waits_for_each(updates: Seq<UpdateData>, done: Seq<bool>)
    requires
        done.len() == updates.len(),
    ensures
        forall|i: int|
            0 <= i < updates.len() && !done[i] ==> pending(updates, done).contains(
                (#[trigger] updates[i]).token,
            ),
        forall|j: int|
            #![trigger pending(updates, done)[j]]
            0 <= j < pending(updates, done).len() ==> exists|i: int|
                0 <= i < updates.len() && !done[i] && (#[trigger] updates[i]).token == pending(
                    updates,
                    done,
                )[j],
    decreases updates.len(),
{
    if updates.len() > 0 {
        let n = updates.len();
        let pu = updates.drop_last();
        let pd = done.drop_last();
        lemma_pending_waits_for_each(pu, pd);
        let p = pending(pu, pd);
        let q = pending(updates, done);
        assert forall|i: int| 0 <= i < n && !done[i] implies q.contains(
            (#[trigger] updates[i]).token,
        ) by {
            if i < n - 1 {
                assert(pu[i] == updates[i] && pd[i] == done[i]);
                let j = choose|j: int| 0 <= j < p.len() && p[j] == pu[i].token;
                assert(q[j] == p[j]);
            } else {
                assert(q[q.len() - 1] == updates[i].token);
            }
        }
        assert forall|j: int| #![trigger q[j]] 0 <= j < q.len() implies exists|i: int|
            0 <= i < n && !done[i] && (#[trigger] updates[i]).token == q[j] by {
            if j < p.len() {
                assert(q[j] == p[j]);
                let i = choose|i: int| 0 <= i < pu.len() && !pd[i] && (#[trigger] pu[i]).token == p[j];
                assert(updates[i] == pu[i] && done[i] == pd[i]);
            } else {
                assert(updates[n - 1] == updates.last());
                assert(done[n - 1] == done.last());
            }
        }
    }
}

/// Before a drawing, the waits are those the clock's answers call for
/// among the updates that overlap it: the token of every overlapping
/// update that had not completed is waited for, and every token waited for
/// is that of an overlapping update that had not completed.
pub proof fn lemma_pending_over_waits_for_each(
    updates: Seq<UpdateData>,
    rect: Rectangle,
    done: Seq<bool>,
)
    requires
        done.len() == updates.len(),
    ensures
        forall|i: int|
            0 <= i < updates.len() && !done[i] && rect.spec_overlaps((#[trigger] updates[i]).rect)
                ==> pending_over(updates, rect, done).contains(updates[i].token),
        forall|j: int|
            #![trigger pending_over(updates, rect, done)[j]]
            0 <= j < pending_over(updates, rect, done).len() ==> exists|i: int|
                0 <= i < updates.len() && !done[i] && rect.spec_overlaps(updates[i].rect) && (
                #[trigger] updates[i]).token == pending_over(updates, rect, done)[j],
    decreases updates.len(),
{
    if updates.len() > 0 {
        let n = updates.len();
        let pu = updates.drop_last();
        let pd = done.drop_last();
        lemma_pending_over_waits_for_each(pu, rect, pd);
        let p = pending_over(pu, rect, pd);
        let q = pending_over(updates, rect, done);
        assert forall|i: int|
            0 <= i < n && !done[i] && rect.spec_overlaps((#[trigger] updates[i]).rect) implies q.contains(
            updates[i].token,
        ) by {
            if i < n - 1 {
                assert(pu[i] == updates[i] && pd[i] == done[i]);
                let j = choose|j: int| 0 <= j < p.len() && p[j] == pu[i].token;
                assert(q[j] == p[j]);
            } else {
                assert(q[q.len() - 1] == updates[i].token);
            }
        }
        assert forall|j: int| #![trigger q[j]] 0 <= j < q.len() implies exists|i: int|
            0 <= i < n && !done[i] && rect.spec_overlaps(updates[i].rect) && (
            #[trigger] updates[i]).token == q[j] by {
            if j < p.len() {
                assert(q[j] == p[j]);
                let i = choose|i: int|
                    0 <= i < pu.len() && !pd[i] && rect.spec_overlaps(pu[i].rect) && (
                    #[trigger] pu[i]).token == p[j];
                assert(updates[i] == pu[i] && done[i] == pd[i]);
            } else {
                assert(updates[n - 1] == updates.last());
                assert(done[n - 1] == done.last());
            }
        }
    }
}

} // verus!
