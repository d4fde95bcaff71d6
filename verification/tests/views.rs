use std::collections::VecDeque;
use std::sync::mpsc::channel;

use kaesar_view::colour::Colour;
use kaesar_view::context::{Context, Font};
use kaesar_view::framebuffer::{Framebuffer, Pixmap, UpdateMode};
use kaesar_view::geom::{Point, Rectangle};
use kaesar_view::input::{DeviceEvent, FingerStatus, GestureEvent};
use kaesar_view::view::button::Button;
use kaesar_view::view::clock::Clock;
use kaesar_view::view::filler::Filler;
use kaesar_view::view::image::{image_regions, Image};
use kaesar_view::view::renderer::RenderQueue;
use kaesar_view::view::results_label::ResultsLabel;
use kaesar_view::view::{handle_event, Bus, Event, IdFeeder, View, ViewId, ViewNode};

fn rect(x0: i32, y0: i32, x1: i32, y1: i32) -> Rectangle {
    Rectangle::new(Point::new(x0, y0), Point::new(x1, y1))
}

struct NullFb;

impl Framebuffer for NullFb {
    fn set_pixel(&mut self, _x: u32, _y: u32, _colour: Colour) {}
    fn update(&mut self, _rect: &Rectangle, _mode: UpdateMode) -> Result<u32, String> {
        Ok(0)
    }
    fn wait(&mut self, _token: u32) -> Result<i32, String> {
        Ok(1)
    }
    fn draw_rounded_rectangle_with_border(
        &mut self,
        _rect: &Rectangle,
        _corner_radius: i32,
        _border_thickness: u16,
        _border_colour: Colour,
        _fill: Colour,
    ) {
    }
}

/// Ten pixels per character, ems of twenty pixels.
struct MonoFont;

impl Font for MonoFont {
    fn plan_width(&mut self, text: &str, max_width: Option<i32>) -> i32 {
        let w = 10 * text.chars().count() as i32;
        match max_width {
            Some(m) if m < w => m,
            _ => w,
        }
    }
    fn em(&self) -> u16 {
        20
    }
    fn x_height(&self) -> u32 {
        10
    }
    fn render(
        &mut self,
        _fb: &mut Box<dyn Framebuffer>,
        _colour: Colour,
        _text: &str,
        _max_width: Option<i32>,
        _origin: Point,
    ) {
    }
}

fn context() -> Context {
    Context { fb: Box::new(NullFb), font: Box::new(MonoFont), dpi: 300 }
}

fn tap(x: i32, y: i32) -> Event {
    Event::Gesture(GestureEvent::Tap(Point::new(x, y)))
}

fn finger(status: FingerStatus, x: i32, y: i32) -> Event {
    Event::Device(DeviceEvent::Finger { id: 0, status, position: Point::new(x, y) })
}

#[test]
fn button_lights_up_while_pressed() {
    let mut feeder = IdFeeder::new(1);
    let (hub, _rx) = channel();
    let mut bus: Bus = VecDeque::new();
    let mut rq = Some(RenderQueue::default());
    let mut button = Button::new(&mut feeder, rect(0, 0, 100, 50), Event::Save, "Save".to_string());
    assert_eq!(button.colours(), (Colour::Gray(255), Colour::Gray(0)));
    assert!(button.handle_event(&finger(FingerStatus::Down, 10, 10), &hub, &mut bus, &mut rq, &mut context()));
    assert_eq!(button.colours(), (Colour::Gray(0), Colour::Gray(255)));
    let fast = rq.as_ref().unwrap().requests(UpdateMode::Fast, true);
    assert_eq!(fast, vec![(Some(button.id()), rect(0, 0, 100, 50))]);
    assert!(button.handle_event(&finger(FingerStatus::Up, 500, 500), &hub, &mut bus, &mut rq, &mut context()));
    assert_eq!(button.colours(), (Colour::Gray(255), Colour::Gray(0)));
    let gui = rq.as_ref().unwrap().requests(UpdateMode::Gui, true);
    assert_eq!(gui.len(), 1);
    assert!(bus.is_empty());
}

#[test]
fn button_ignores_a_finger_outside_it() {
    let mut feeder = IdFeeder::new(1);
    let (hub, _rx) = channel();
    let mut bus: Bus = VecDeque::new();
    let mut rq = Some(RenderQueue::default());
    let mut button = Button::new(&mut feeder, rect(0, 0, 100, 50), Event::Save, "Save".to_string());
    assert!(!button.handle_event(&finger(FingerStatus::Down, 100, 10), &hub, &mut bus, &mut rq, &mut context()));
    assert!(!button.handle_event(&finger(FingerStatus::Up, 10, 10), &hub, &mut bus, &mut rq, &mut context()));
    assert!(rq.as_ref().unwrap().requests(UpdateMode::Fast, true).is_empty());
}

#[test]
fn tapping_a_button_sends_its_event() {
    let mut feeder = IdFeeder::new(1);
    let (hub, _rx) = channel();
    let mut bus: Bus = VecDeque::new();
    let mut rq = None;
    let mut button = Button::new(&mut feeder, rect(0, 0, 100, 50), Event::GoTo(7), "Go".to_string());
    assert!(button.handle_event(&tap(50, 25), &hub, &mut bus, &mut rq, &mut context()));
    assert_eq!(bus.len(), 1);
    assert!(matches!(bus[0], Event::GoTo(7)));
    assert!(rq.is_none());
}

#[test]
fn a_disabled_button_captures_taps_but_sends_nothing() {
    let mut feeder = IdFeeder::new(1);
    let (hub, _rx) = channel();
    let mut bus: Bus = VecDeque::new();
    let mut rq = Some(RenderQueue::default());
    let mut button =
        Button::new(&mut feeder, rect(0, 0, 100, 50), Event::Save, "Save".to_string()).disabled(true);
    assert_eq!(button.colours(), (Colour::Gray(255), Colour::Gray(0x88)));
    assert!(button.handle_event(&tap(50, 25), &hub, &mut bus, &mut rq, &mut context()));
    assert!(bus.is_empty());
    assert!(!button.handle_event(&finger(FingerStatus::Down, 10, 10), &hub, &mut bus, &mut rq, &mut context()));
}

#[test]
fn events_bubble_up_from_a_child() {
    let mut feeder = IdFeeder::new(1);
    let (hub, _rx) = channel();
    let mut parent_bus: Bus = VecDeque::new();
    let mut rq = Some(RenderQueue::default());
    let root = Filler::new(&mut feeder, rect(0, 0, 600, 800), Colour::Gray(255));
    let low = Button::new(&mut feeder, rect(0, 0, 100, 50), Event::Save, "Low".to_string());
    let high = Button::new(&mut feeder, rect(0, 0, 100, 50), Event::Quit, "High".to_string());
    let mut tree = ViewNode {
        view: Box::new(root),
        children: vec![
            ViewNode { view: Box::new(low), children: Vec::new() },
            ViewNode { view: Box::new(high), children: Vec::new() },
        ],
    };
    assert!(handle_event(&mut tree, &tap(10, 10), &hub, &mut parent_bus, &mut rq, &mut context()));
    // The highest child captured the tap: only its event went up.
    assert_eq!(parent_bus.len(), 1);
    assert!(matches!(parent_bus[0], Event::Quit));
}

#[test]
fn an_event_no_view_captures_is_not_captured() {
    let mut feeder = IdFeeder::new(1);
    let (hub, _rx) = channel();
    let mut parent_bus: Bus = VecDeque::new();
    let mut rq = None;
    let root = Filler::new(&mut feeder, rect(0, 0, 600, 800), Colour::Gray(255));
    let child = Button::new(&mut feeder, rect(0, 0, 100, 50), Event::Save, "Save".to_string());
    let mut tree = ViewNode {
        view: Box::new(root),
        children: vec![ViewNode { view: Box::new(child), children: Vec::new() }],
    };
    assert!(!handle_event(&mut tree, &tap(300, 300), &hub, &mut parent_bus, &mut rq, &mut context()));
    assert!(parent_bus.is_empty());
    assert_eq!(tree.len(), 1);
}

#[test]
fn clock_ticks_and_opens_its_menu() {
    let mut feeder = IdFeeder::new(1);
    let (hub, _rx) = channel();
    let mut ctx = context();
    let mut area = rect(0, 0, 600, 50);
    let mut clock = Clock::new(&mut feeder, &mut area, "%H:%M".to_string(), "12:34".to_string(), &mut ctx);
    // "HH:MM" is five characters: 50 pixels, plus an em.
    assert_eq!(area, rect(530, 0, 600, 50));
    assert_eq!(*clock.rect(), area);
    let mut bus: Bus = VecDeque::new();
    let mut rq = Some(RenderQueue::default());
    assert!(clock.handle_event(&Event::ClockTick, &hub, &mut bus, &mut rq, &mut context()));
    assert_eq!(rq.as_ref().unwrap().requests(UpdateMode::Gui, true), vec![(Some(clock.id()), area)]);
    assert!(clock.handle_event(&tap(550, 10), &hub, &mut bus, &mut rq, &mut context()));
    assert_eq!(bus.len(), 1);
    assert!(matches!(bus[0], Event::ToggleNear(ViewId::ClockMenu, r) if r == area));
    assert!(!clock.handle_event(&tap(10, 10), &hub, &mut bus, &mut rq, &mut context()));
    clock.render_view(&area, &mut ctx);
}

#[test]
fn results_label_text() {
    let mut feeder = IdFeeder::new(1);
    let mut label = ResultsLabel::new(&mut feeder, rect(0, 0, 200, 40), 0, false);
    assert_eq!(label.text(), "No results");
    let mut rq = Some(RenderQueue::default());
    label.update(1, &mut rq);
    assert_eq!(label.text(), "1 result");
    label.update(42, &mut rq);
    assert_eq!(label.text(), "42 results");
    label.update(1000, &mut rq);
    assert_eq!(label.text(), "1000 results");
    assert_eq!(rq.as_ref().unwrap().requests(UpdateMode::Gui, true).len(), 3);
}

#[test]
fn results_label_completes_at_the_end_of_search() {
    let mut feeder = IdFeeder::new(1);
    let (hub, _rx) = channel();
    let mut bus: Bus = VecDeque::new();
    let mut rq = Some(RenderQueue::default());
    let mut label = ResultsLabel::new(&mut feeder, rect(0, 0, 200, 40), 3, false);
    assert!(!label.handle_event(&Event::EndOfSearch, &hub, &mut bus, &mut rq, &mut context()));
    assert_eq!(rq.as_ref().unwrap().requests(UpdateMode::Gui, true).len(), 1);
    assert!(!label.handle_event(&Event::ClockTick, &hub, &mut bus, &mut rq, &mut context()));
    assert_eq!(rq.as_ref().unwrap().requests(UpdateMode::Gui, true).len(), 1);
    let mut ctx = context();
    label.render_view(&rect(0, 0, 200, 40), &mut ctx);
}

#[test]
fn image_regions_of_a_centred_pixmap() {
    let area = rect(0, 0, 100, 100);
    let (whites, part) = image_regions(&area, 50, 20, &area);
    assert_eq!(
        whites,
        vec![rect(0, 0, 75, 40), rect(0, 40, 25, 100), rect(25, 60, 100, 100), rect(75, 0, 100, 60)]
    );
    assert_eq!(part, Some((rect(0, 0, 50, 20), Point::new(25, 40))));
}

#[test]
fn image_regions_clipped() {
    let area = rect(0, 0, 100, 100);
    let clip = rect(30, 45, 40, 50);
    let (whites, part) = image_regions(&area, 50, 20, &clip);
    assert!(whites.is_empty());
    assert_eq!(part, Some((rect(5, 5, 15, 10), Point::new(30, 45))));
}

#[test]
fn image_regions_tile_the_rectangle() {
    let area = rect(10, 20, 110, 90);
    let (whites, part) = image_regions(&area, 30, 40, &area);
    let (frame, at) = part.unwrap();
    let pix = rect(at.x, at.y, at.x + frame.width() as i32, at.y + frame.height() as i32);
    for y in area.min.y..area.max.y {
        for x in area.min.x..area.max.x {
            let p = Point::new(x, y);
            let n = whites.iter().filter(|r| r.includes(p)).count() + pix.includes(p) as usize;
            assert_eq!(n, 1);
        }
    }
}

#[test]
fn image_update_asks_for_a_redraw() {
    let mut feeder = IdFeeder::new(1);
    let pixmap = Pixmap { width: 2, height: 2, samples: 1, data: vec![0; 4] };
    let mut image = Image::new(&mut feeder, rect(0, 0, 10, 10), pixmap);
    let mut rq = Some(RenderQueue::default());
    image.update(Pixmap { width: 1, height: 1, samples: 3, data: vec![1, 2, 3] }, &mut rq);
    assert_eq!(rq.as_ref().unwrap().requests(UpdateMode::Gui, true), vec![(Some(image.id()), rect(0, 0, 10, 10))]);
    assert_eq!(image.render_rect(&rect(5, 5, 20, 20)), rect(5, 5, 10, 10));
    assert_eq!(image.render_rect(&rect(50, 50, 60, 60)), rect(0, 0, 10, 10));
}

#[test]
fn filler_renders_the_part_asked() {
    let mut feeder = IdFeeder::new(1);
    let filler = Filler::new(&mut feeder, rect(0, 0, 10, 10), Colour::Gray(0));
    assert_eq!(filler.render_rect(&rect(5, 5, 20, 20)), rect(5, 5, 10, 10));
    assert_eq!(filler.render_rect(&rect(10, 10, 20, 20)), rect(0, 0, 10, 10));
    let mut ctx = context();
    filler.render_view(&rect(5, 5, 20, 20), &mut ctx);
}

#[test]
fn resizing_moves_a_view() {
    let mut feeder = IdFeeder::new(1);
    let (hub, _rx) = channel();
    let mut rq = None;
    let mut button = Button::new(&mut feeder, rect(0, 0, 100, 50), Event::Save, "Save".to_string());
    button.resize(rect(10, 10, 20, 20), &hub, &mut rq);
    assert_eq!(*button.rect(), rect(10, 10, 20, 20));
}

#[test]
fn a_higher_child_shields_the_lower_ones() {
    let mut feeder = IdFeeder::new(1);
    let (hub, _rx) = channel();
    let mut parent_bus: Bus = VecDeque::new();
    let mut rq = Some(RenderQueue::default());
    let root = Filler::new(&mut feeder, rect(0, 0, 600, 800), Colour::Gray(255));
    let low = Button::new(&mut feeder, rect(0, 0, 100, 50), Event::Save, "Low".to_string());
    let high = Button::new(&mut feeder, rect(0, 0, 100, 50), Event::Quit, "High".to_string());
    let high_id = high.id();
    let mut tree = ViewNode {
        view: Box::new(root),
        children: vec![
            ViewNode { view: Box::new(low), children: Vec::new() },
            ViewNode { view: Box::new(high), children: Vec::new() },
        ],
    };
    let down = finger(FingerStatus::Down, 10, 10);
    assert!(handle_event(&mut tree, &down, &hub, &mut parent_bus, &mut rq, &mut context()));
    assert_eq!(
        rq.as_ref().unwrap().requests(UpdateMode::Fast, true),
        vec![(Some(high_id), rect(0, 0, 100, 50))]
    );
    assert!(parent_bus.is_empty());
}

#[test]
fn only_leaves_handle_the_root_event() {
    let mut feeder = IdFeeder::new(1);
    let (hub, _rx) = channel();
    let mut parent_bus: Bus = VecDeque::new();
    let mut rq = Some(RenderQueue::default());
    let mut ctx = context();
    let mut area = rect(0, 0, 600, 50);
    let clock = Clock::new(&mut feeder, &mut area, "%H:%M".to_string(), "12:34".to_string(), &mut ctx);
    let child = Filler::new(&mut feeder, rect(0, 0, 10, 10), Colour::Gray(0));
    let mut tree = ViewNode {
        view: Box::new(clock),
        children: vec![ViewNode { view: Box::new(child), children: Vec::new() }],
    };
    // The clock would capture its tick, but it holds a child: the tick is
    // not handed to it.
    assert!(!handle_event(&mut tree, &Event::ClockTick, &hub, &mut parent_bus, &mut rq, &mut context()));
    assert!(rq.as_ref().unwrap().requests(UpdateMode::Gui, true).is_empty());
    assert!(parent_bus.is_empty());
}

#[test]
fn a_clock_with_no_text_is_an_em_wide() {
    let mut feeder = IdFeeder::new(1);
    let mut ctx = context();
    let mut area = rect(0, 0, 600, 50);
    let clock = Clock::new(&mut feeder, &mut area, "%".to_string(), String::new(), &mut ctx);
    // No text: only an em wide.
    assert_eq!(area, rect(580, 0, 600, 50));
    assert_eq!(*clock.rect(), area);
}
