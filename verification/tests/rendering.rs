use std::cell::RefCell;
use std::rc::Rc;
use std::time::{Duration, Instant};

use fxhash::FxHashMap;
use kaesar_view::canvas::{invert_rgb24_region, shift_rgb24_region};
use kaesar_view::colour::Colour;
use kaesar_view::context::{Context, Font};
use kaesar_view::framebuffer::{Framebuffer, UpdateMode};
use kaesar_view::geom::{Point, Rectangle};
use kaesar_view::view::filler::Filler;
use kaesar_view::view::renderer::{
    completed_after, process_render_queue, render, render_instantly, split_requests, wait_for_all,
    RenderData, RenderQueue, UpdateData, MAX_UPDATE_DELAY_MS,
};
use kaesar_view::view::{IdFeeder, View, ViewNode};

fn rect(x0: i32, y0: i32, x1: i32, y1: i32) -> Rectangle {
    Rectangle::new(Point::new(x0, y0), Point::new(x1, y1))
}

#[derive(Default)]
struct Log {
    pixels: Vec<(u32, u32, Colour)>,
    updates: Vec<(Rectangle, UpdateMode)>,
    waits: Vec<u32>,
}

struct RecordingFb(Rc<RefCell<Log>>);

impl Framebuffer for RecordingFb {
    fn set_pixel(&mut self, x: u32, y: u32, colour: Colour) {
        self.0.borrow_mut().pixels.push((x, y, colour));
    }
    fn update(&mut self, rect: &Rectangle, mode: UpdateMode) -> Result<u32, String> {
        let mut log = self.0.borrow_mut();
        log.updates.push((*rect, mode));
        Ok(log.updates.len() as u32)
    }
    fn wait(&mut self, token: u32) -> Result<i32, String> {
        self.0.borrow_mut().waits.push(token);
        Ok(1)
    }
    fn draw_rounded_rectangle_with_border(
        &mut self,
        _rect: &Rectangle,
        _corner_radius: i32,
        _border_thickness: u16,
        _border_colour: Colour,
        _fill: Colour,
    ) {
    }
}

struct NoFont;

impl Font for NoFont {
    fn plan_width(&mut self, _text: &str, _max_width: Option<i32>) -> i32 {
        0
    }
    fn em(&self) -> u16 {
        10
    }
    fn x_height(&self) -> u32 {
        5
    }
    fn render(
        &mut self,
        _fb: &mut Box<dyn Framebuffer>,
        _colour: Colour,
        _text: &str,
        _max_width: Option<i32>,
        _origin: Point,
    ) {
    }
}

fn recording_context() -> (Context, Rc<RefCell<Log>>) {
    let log = Rc::new(RefCell::new(Log::default()));
    let ctx = Context { fb: Box::new(RecordingFb(log.clone())), font: Box::new(NoFont), dpi: 300 };
    (ctx, log)
}

#[test]
fn render_data_constructors() {
    let r = rect(0, 0, 5, 5);
    let d = RenderData::new(3, r, UpdateMode::Gui);
    assert_eq!((d.id, d.rect(), d.mode, d.wait), (Some(3), r, UpdateMode::Gui, true));
    let d = RenderData::no_wait(3, r, UpdateMode::Fast);
    assert_eq!((d.id, d.rect(), d.mode, d.wait), (Some(3), r, UpdateMode::Fast, false));
    let d = RenderData::expose(r, UpdateMode::Full);
    assert_eq!((d.id, d.rect(), d.mode, d.wait), (None, r, UpdateMode::Full, true));
}

#[test]
fn the_queue_groups_requests_in_order() {
    let mut rq = Some(RenderQueue::default());
    RenderQueue::add_redraw_req(&mut rq, RenderData::new(1, rect(0, 0, 1, 1), UpdateMode::Gui));
    RenderQueue::add_redraw_req(&mut rq, RenderData::no_wait(2, rect(0, 0, 2, 2), UpdateMode::Gui));
    RenderQueue::add_redraw_req(&mut rq, RenderData::expose(rect(0, 0, 3, 3), UpdateMode::Gui));
    RenderQueue::add_redraw_req(&mut rq, RenderData::new(4, rect(0, 0, 4, 4), UpdateMode::Full));
    let q = rq.as_ref().unwrap();
    assert_eq!(
        q.requests(UpdateMode::Gui, true),
        vec![(Some(1), rect(0, 0, 1, 1)), (None, rect(0, 0, 3, 3))]
    );
    assert_eq!(q.requests(UpdateMode::Gui, false), vec![(Some(2), rect(0, 0, 2, 2))]);
    assert_eq!(q.requests(UpdateMode::Full, true), vec![(Some(4), rect(0, 0, 4, 4))]);
    assert!(q.requests(UpdateMode::Fast, true).is_empty());
}

#[test]
fn no_queue_takes_no_request() {
    let mut rq: Option<RenderQueue> = None;
    RenderQueue::add_redraw_req(&mut rq, RenderData::new(1, rect(0, 0, 1, 1), UpdateMode::Gui));
    assert!(rq.is_none());
}

#[test]
fn requests_split_latest_first() {
    let pairs = vec![
        (Some(1), rect(0, 0, 1, 1)),
        (None, rect(0, 0, 2, 2)),
        (Some(1), rect(0, 0, 3, 3)),
        (Some(2), rect(0, 0, 4, 4)),
        (None, rect(0, 0, 5, 5)),
    ];
    let (ids, bgs) = split_requests(&pairs);
    assert_eq!(bgs, vec![rect(0, 0, 5, 5), rect(0, 0, 2, 2)]);
    assert_eq!(ids.len(), 2);
    assert_eq!(ids.get(&1), Some(&vec![rect(0, 0, 3, 3), rect(0, 0, 1, 1)]));
    assert_eq!(ids.get(&2), Some(&vec![rect(0, 0, 4, 4)]));
}

#[test]
fn a_leaf_renders_the_part_requested() {
    let mut feeder = IdFeeder::new(1);
    let filler = Filler::new(&mut feeder, rect(0, 0, 4, 4), Colour::Gray(0));
    let id = filler.id();
    let tree = ViewNode { view: Box::new(filler), children: Vec::new() };
    let mut ids: FxHashMap<u64, Vec<Rectangle>> = FxHashMap::default();
    ids.insert(id, vec![rect(2, 2, 10, 10)]);
    let (mut ctx, log) = recording_context();
    let mut rects = Vec::new();
    let mut bgs = Vec::new();
    let mut updating = Vec::new();
    render(&tree, false, &ids, &mut rects, &mut bgs, &mut ctx, &mut updating);
    assert_eq!(rects, vec![rect(2, 2, 4, 4)]);
    assert!(bgs.is_empty());
    assert_eq!(log.borrow().pixels.len(), 4);
}

#[test]
fn a_container_exposes_its_requests_to_its_children() {
    let mut feeder = IdFeeder::new(1);
    let root = Filler::new(&mut feeder, rect(0, 0, 100, 100), Colour::Gray(255));
    let root_id = root.id();
    let child = Filler::new(&mut feeder, rect(0, 0, 10, 10), Colour::Gray(0));
    let tree = ViewNode {
        view: Box::new(root),
        children: vec![ViewNode { view: Box::new(child), children: Vec::new() }],
    };
    let mut ids: FxHashMap<u64, Vec<Rectangle>> = FxHashMap::default();
    ids.insert(root_id, vec![rect(5, 5, 20, 20)]);
    let (mut ctx, log) = recording_context();
    let mut rects = Vec::new();
    let mut bgs = Vec::new();
    let mut updating = Vec::new();
    render(&tree, false, &ids, &mut rects, &mut bgs, &mut ctx, &mut updating);
    assert_eq!(bgs, vec![rect(5, 5, 20, 20)]);
    assert_eq!(rects, vec![rect(5, 5, 10, 10)]);
    assert_eq!(log.borrow().pixels.len(), 25);
}

#[test]
fn rendering_with_wait_waits_for_overlapping_updates() {
    let mut feeder = IdFeeder::new(1);
    let filler = Filler::new(&mut feeder, rect(0, 0, 4, 4), Colour::Gray(0));
    let id = filler.id();
    let tree = ViewNode { view: Box::new(filler), children: Vec::new() };
    let mut ids: FxHashMap<u64, Vec<Rectangle>> = FxHashMap::default();
    ids.insert(id, vec![rect(0, 0, 4, 4)]);
    let (mut ctx, log) = recording_context();
    let now = Instant::now();
    let mut updating = vec![
        UpdateData { token: 7, time: now, rect: rect(1, 1, 2, 2) },
        UpdateData { token: 8, time: now, rect: rect(50, 50, 60, 60) },
    ];
    let mut rects = Vec::new();
    let mut bgs = Vec::new();
    render(&tree, true, &ids, &mut rects, &mut bgs, &mut ctx, &mut updating);
    assert_eq!(updating.len(), 1);
    assert_eq!(updating[0].token, 8);
    assert_eq!(log.borrow().waits, vec![7]);
}

#[test]
fn processing_the_queue_updates_the_panel() {
    let mut feeder = IdFeeder::new(1);
    let filler = Filler::new(&mut feeder, rect(0, 0, 4, 4), Colour::Gray(0));
    let id = filler.id();
    let tree = ViewNode { view: Box::new(filler), children: Vec::new() };
    let mut rq = Some(RenderQueue::default());
    RenderQueue::add_redraw_req(&mut rq, RenderData::new(id, rect(0, 0, 4, 4), UpdateMode::Partial));
    let mut queue = rq.unwrap();
    let (mut ctx, log) = recording_context();
    let mut updating = Vec::new();
    process_render_queue(&tree, &mut queue, &mut ctx, &mut updating);
    assert_eq!(log.borrow().updates, vec![(rect(0, 0, 4, 4), UpdateMode::Partial)]);
    assert_eq!(updating.len(), 1);
    assert_eq!(updating[0].rect, rect(0, 0, 4, 4));
    assert!(queue.requests(UpdateMode::Partial, true).is_empty());
}

#[test]
fn rendering_instantly_refreshes_fully() {
    let mut feeder = IdFeeder::new(1);
    let filler = Filler::new(&mut feeder, rect(0, 0, 3, 3), Colour::Gray(0));
    let tree = ViewNode { view: Box::new(filler), children: Vec::new() };
    let (mut ctx, log) = recording_context();
    render_instantly(&mut ctx, &tree);
    assert_eq!(log.borrow().updates, vec![(rect(0, 0, 3, 3), UpdateMode::Full)]);
    assert_eq!(log.borrow().pixels.len(), 9);
}

#[test]
fn waiting_for_all_forgets_every_update() {
    let log = Rc::new(RefCell::new(Log::default()));
    let mut fb = RecordingFb(log.clone());
    let now = Instant::now();
    let old = now - Duration::from_millis(5000);
    let mut updating = vec![
        UpdateData { token: 1, time: now, rect: rect(0, 0, 1, 1) },
        UpdateData { token: 2, time: old, rect: rect(0, 0, 1, 1) },
    ];
    wait_for_all(&mut fb, &mut updating);
    assert!(updating.is_empty());
    assert_eq!(log.borrow().waits, vec![1]);
}

#[test]
fn updates_complete_after_the_delay() {
    assert_eq!(MAX_UPDATE_DELAY_MS, 600);
    assert!(!completed_after(599));
    assert!(completed_after(600));
    let old = Instant::now() - Duration::from_millis(1000);
    assert!(UpdateData { token: 0, time: old, rect: rect(0, 0, 1, 1) }.has_completed());
}

#[test]
fn inverting_a_region_read_back() {
    let log = Rc::new(RefCell::new(Log::default()));
    let mut fb = RecordingFb(log.clone());
    let data: Vec<u8> = vec![0, 0, 0, 255, 255, 255];
    invert_rgb24_region(&mut fb, &rect(3, 4, 5, 5), &data);
    assert_eq!(
        log.borrow().pixels,
        vec![(3, 4, Colour::Rgb(255, 255, 255)), (4, 4, Colour::Rgb(0, 0, 0))]
    );
}

#[test]
fn a_view_neither_requested_nor_exposed_is_not_drawn() {
    let mut feeder = IdFeeder::new(1);
    let root = Filler::new(&mut feeder, rect(0, 0, 100, 100), Colour::Gray(255));
    let root_id = root.id();
    let child = Filler::new(&mut feeder, rect(50, 50, 60, 60), Colour::Gray(0));
    let tree = ViewNode {
        view: Box::new(root),
        children: vec![ViewNode { view: Box::new(child), children: Vec::new() }],
    };
    let mut ids: FxHashMap<u64, Vec<Rectangle>> = FxHashMap::default();
    ids.insert(root_id, vec![rect(0, 0, 10, 10)]);
    let (mut ctx, log) = recording_context();
    let mut rects = Vec::new();
    let mut bgs = Vec::new();
    let mut updating = Vec::new();
    render(&tree, false, &ids, &mut rects, &mut bgs, &mut ctx, &mut updating);
    assert!(rects.is_empty());
    assert!(log.borrow().pixels.is_empty());
}

#[test]
fn inverting_a_region_twice_gives_it_back() {
    let log = Rc::new(RefCell::new(Log::default()));
    let mut fb = RecordingFb(log.clone());
    let data: Vec<u8> = vec![10, 20, 30, 200, 100, 0];
    invert_rgb24_region(&mut fb, &rect(0, 0, 2, 1), &data);
    let again: Vec<u8> = log
        .borrow()
        .pixels
        .iter()
        .flat_map(|&(_, _, c)| c.rgb().to_vec())
        .collect();
    log.borrow_mut().pixels.clear();
    invert_rgb24_region(&mut fb, &rect(0, 0, 2, 1), &again);
    assert_eq!(
        log.borrow().pixels,
        vec![(0, 0, Colour::Rgb(10, 20, 30)), (1, 0, Colour::Rgb(200, 100, 0))]
    );
}

#[test]
fn shifting_a_region_lowers_its_colours() {
    let log = Rc::new(RefCell::new(Log::default()));
    let mut fb = RecordingFb(log.clone());
    let data: Vec<u8> = vec![10, 20, 30, 200, 100, 0];
    shift_rgb24_region(&mut fb, &rect(-1, 2, 1, 3), &data, 15);
    assert_eq!(
        log.borrow().pixels,
        vec![(u32::MAX, 2, Colour::Rgb(0, 5, 15)), (0, 2, Colour::Rgb(185, 85, 0))]
    );
}

#[test]
fn rendering_instantly_asks_full_refreshes_only() {
    let mut feeder = IdFeeder::new(1);
    let root = Filler::new(&mut feeder, rect(0, 0, 10, 10), Colour::Gray(255));
    let tree = ViewNode { view: Box::new(root), children: Vec::new() };
    let (mut ctx, log) = recording_context();
    render_instantly(&mut ctx, &tree);
    assert_eq!(log.borrow().updates, vec![(rect(0, 0, 10, 10), UpdateMode::Full)]);
    assert!(log.borrow().waits.is_empty());
    assert_eq!(log.borrow().pixels.len(), 100);
}

#[test]
fn an_empty_queue_changes_nothing() {
    let mut feeder = IdFeeder::new(1);
    let root = Filler::new(&mut feeder, rect(0, 0, 10, 10), Colour::Gray(255));
    let tree = ViewNode { view: Box::new(root), children: Vec::new() };
    let (mut ctx, log) = recording_context();
    let mut rq = RenderQueue::new();
    let mut updating: Vec<UpdateData> = Vec::new();
    process_render_queue(&tree, &mut rq, &mut ctx, &mut updating);
    assert!(log.borrow().updates.is_empty());
    assert!(log.borrow().pixels.is_empty());
    assert!(updating.is_empty());
}

#[test]
fn processing_the_queue_keeps_the_token_the_panel_gave() {
    let mut feeder = IdFeeder::new(1);
    let filler = Filler::new(&mut feeder, rect(0, 0, 4, 4), Colour::Gray(0));
    let id = filler.id();
    let tree = ViewNode { view: Box::new(filler), children: Vec::new() };
    let mut rq = Some(RenderQueue::default());
    RenderQueue::add_redraw_req(&mut rq, RenderData::new(id, rect(0, 0, 4, 4), UpdateMode::Gui));
    let mut queue = rq.unwrap();
    let (mut ctx, log) = recording_context();
    let mut updating = Vec::new();
    // The recording display answers each refresh with the number of refreshes so far.
    log.borrow_mut().updates.push((rect(9, 9, 10, 10), UpdateMode::Full));
    process_render_queue(&tree, &mut queue, &mut ctx, &mut updating);
    assert_eq!(updating.len(), 1);
    assert_eq!(updating[0].token, 2);
}

#[test]
fn a_view_neither_requested_nor_over_a_background_is_not_drawn() {
    let mut feeder = IdFeeder::new(1);
    let root = Filler::new(&mut feeder, rect(0, 0, 100, 100), Colour::Gray(255));
    let low = Filler::new(&mut feeder, rect(0, 0, 10, 10), Colour::Gray(0));
    let low_id = low.id();
    let high = Filler::new(&mut feeder, rect(0, 0, 10, 10), Colour::Gray(100));
    let tree = ViewNode {
        view: Box::new(root),
        children: vec![
            ViewNode { view: Box::new(low), children: Vec::new() },
            ViewNode { view: Box::new(high), children: Vec::new() },
        ],
    };
    let mut ids: FxHashMap<u64, Vec<Rectangle>> = FxHashMap::default();
    ids.insert(low_id, vec![rect(0, 0, 10, 10)]);
    let (mut ctx, log) = recording_context();
    let mut rects = Vec::new();
    let mut bgs = Vec::new();
    let mut updating = Vec::new();
    render(&tree, false, &ids, &mut rects, &mut bgs, &mut ctx, &mut updating);
    // Only the requested view drew: the one above it was not asked to.
    assert_eq!(log.borrow().pixels.len(), 100);
    assert!(log.borrow().pixels.iter().all(|&(_, _, c)| c == Colour::Gray(0)));
    assert!(log.borrow().waits.is_empty());
}
