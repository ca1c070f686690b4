use omabeam::output::{Output, OutputEvent, Outputs};
use omabeam::overlay::{draw_rows, overlay_frame, DirtyBox, Draw};
use omabeam::pixels::{BufferSpec, Format, Transform};
use omabeam::rect::{Rect, Region};
use omabeam::selector::{
    cursor_image, Error, Seat, Selector, CURSOR_CENTER, CURSOR_SIDE, KEY_ESCAPE, KEY_LEFT_SHIFT,
    KEY_SPACE, LEFT_BUTTON, SETUP_TIMEOUT,
};

const LEFT: u32 = 1;
const RIGHT: u32 = 2;
const SEAT: u32 = 7;
const RIGHT_BUTTON: u32 = 0x111;

fn output(name: &str, x: i32) -> Output {
    let mut output = Output::new();
    output.event(OutputEvent::Name { name: name.into() });
    output.event(OutputEvent::Geometry {
        x,
        y: 50,
        transform: Transform::Normal,
    });
    output.event(OutputEvent::Mode {
        current: true,
        width: 100,
        height: 80,
    });
    output
}

fn outputs() -> Outputs {
    let mut outputs = Outputs::new();
    outputs.insert(LEFT, output("LEFT", -100));
    outputs.insert(RIGHT, output("RIGHT", 0));
    outputs
}

fn selecting(outputs: &Outputs) -> Selector {
    let mut selector = Selector::start(outputs, true, true, 1).unwrap();
    assert_eq!(selector.configure(LEFT, 100, 80), None);
    assert_eq!(selector.configure(RIGHT, 100, 80), None);
    selector
}

fn on_left() -> Seat {
    let mut seat = Seat::new();
    seat.output = Some(LEFT);
    seat
}

fn press(selector: &mut Selector, outputs: &Outputs) {
    selector.move_pointer(outputs, SEAT, &on_left(), 10, 10);
    selector.button(outputs, SEAT, LEFT_BUTTON, true);
    selector.move_pointer(outputs, SEAT, &on_left(), 29, 24);
}

fn picked() -> Region {
    Region {
        output: "LEFT".into(),
        rect: Rect {
            x: 10,
            y: 10,
            width: 20,
            height: 15,
        },
    }
}

#[test]
fn drag_and_touch_selection_unmap_every_overlay_before_returning() {
    let outputs = outputs();
    let mut selector = selecting(&outputs);
    press(&mut selector, &outputs);
    assert_eq!(selector.poll(0), None);
    selector.button(&outputs, SEAT, LEFT_BUTTON, false);
    assert_eq!(selector.poll(0), Some(Ok(picked())));

    let mut selector = selecting(&outputs);
    let mut seat = Seat::new();
    selector.touch_down(&outputs, SEAT, &mut seat, Some(LEFT), 0, 10, 10);
    // Another finger of the seat is ignored.
    selector.touch_down(&outputs, SEAT, &mut seat, Some(LEFT), 1, 50, 50);
    selector.touch_motion(&outputs, SEAT, &seat, 1, 60, 60);
    selector.touch_motion(&outputs, SEAT, &seat, 0, 29, 24);
    selector.touch_up(&outputs, SEAT, &mut seat, 0);
    assert_eq!(selector.poll(0), Some(Ok(picked())));
    // Both overlays are still there to be unmapped.
    assert_eq!(selector.overlays.len(), 2);
}

#[test]
fn escape_and_right_click_cancel_and_unmap_every_overlay() {
    let outputs = outputs();
    let mut selector = selecting(&outputs);
    selector.key(&outputs, SEAT, KEY_ESCAPE, true);
    let cancelled = selector.poll(0).unwrap().unwrap_err();
    assert_eq!(cancelled, Error::Cancelled);
    assert!(cancelled.message().contains("cancelled"));

    let mut selector = selecting(&outputs);
    selector.move_pointer(&outputs, SEAT, &on_left(), 10, 10);
    selector.button(&outputs, SEAT, RIGHT_BUTTON, true);
    assert_eq!(selector.poll(0), Some(Err(Error::Cancelled)));
    assert_eq!(selector.overlays.len(), 2);
}

#[test]
fn queued_input_cannot_overwrite_a_completed_selection_or_cancellation() {
    let outputs = outputs();
    // Escape, then the button is released.
    let mut selector = selecting(&outputs);
    press(&mut selector, &outputs);
    selector.key(&outputs, SEAT, KEY_ESCAPE, true);
    selector.button(&outputs, SEAT, LEFT_BUTTON, false);
    assert_eq!(selector.poll(0), Some(Err(Error::Cancelled)));
    // A right click, then the release.
    let mut selector = selecting(&outputs);
    press(&mut selector, &outputs);
    selector.button(&outputs, SEAT, RIGHT_BUTTON, true);
    selector.button(&outputs, SEAT, LEFT_BUTTON, false);
    assert_eq!(selector.poll(0), Some(Err(Error::Cancelled)));
    // The touch is cancelled, then lifted.
    let mut selector = selecting(&outputs);
    let mut seat = Seat::new();
    selector.touch_down(&outputs, SEAT, &mut seat, Some(LEFT), 0, 10, 10);
    selector.touch_motion(&outputs, SEAT, &seat, 0, 29, 24);
    selector.cancel();
    selector.touch_up(&outputs, SEAT, &mut seat, 0);
    assert_eq!(selector.poll(0), Some(Err(Error::Cancelled)));
    // Confirmed, then Escape.
    let mut selector = selecting(&outputs);
    press(&mut selector, &outputs);
    selector.button(&outputs, SEAT, LEFT_BUTTON, false);
    selector.key(&outputs, SEAT, KEY_ESCAPE, true);
    assert_eq!(selector.poll(0), Some(Ok(picked())));
    assert_eq!(selector.overlays.len(), 2);
}

#[test]
fn selecting_needs_surfaces_seats_and_sizes() {
    let both = outputs();
    assert_eq!(
        Selector::start(&both, false, true, 1).unwrap_err(),
        Error::NoCompositor
    );
    assert_eq!(
        Selector::start(&both, true, false, 1).unwrap_err(),
        Error::NoLayerShell
    );
    assert_eq!(
        Selector::start(&both, true, true, 0).unwrap_err(),
        Error::NoSeat
    );
    assert_eq!(
        Selector::start(&Outputs::new(), true, true, 1).unwrap_err(),
        Error::NoOutputs
    );
    let mut selector = Selector::start(&both, true, true, 1).unwrap();
    assert_eq!(selector.configure(LEFT, 0, 80), Some(Error::EmptyOutput));
    assert_eq!(selector.poll(SETUP_TIMEOUT - 1), None);
    assert_eq!(selector.poll(SETUP_TIMEOUT), Some(Err(Error::NotReady)));
}

#[test]
fn space_moves_and_shift_squares_the_rectangle() {
    let outputs = outputs();
    let mut selector = selecting(&outputs);
    press(&mut selector, &outputs);
    selector.key(&outputs, SEAT, KEY_LEFT_SHIFT, true);
    let square = selector.drag.rect().unwrap();
    assert_eq!((square.width, square.height), (20, 20));
    selector.key(&outputs, SEAT, KEY_LEFT_SHIFT, false);
    selector.key(&outputs, SEAT, KEY_SPACE, true);
    selector.move_pointer(&outputs, SEAT, &on_left(), 34, 26);
    let moved = selector.drag.rect().unwrap();
    assert_eq!((moved.x, moved.y), (-85, 62));
    assert_eq!((moved.width, moved.height), (20, 15));
}

/// What an overlay's surface shows, composed from damage alone.
struct Surface {
    buffers: Vec<Vec<u8>>,
    current: Option<usize>,
    screen: Vec<u8>,
    commits: usize,
}

/// Draws one overlay as the compositor sees it.
fn show(selector: &mut Selector, at: usize, outputs: &Outputs, surface: &mut Surface) -> bool {
    let held: Vec<(bool, BufferSpec)> = selector.overlays[at]
        .buffers
        .iter()
        .map(|buffer| (buffer.busy, buffer.spec))
        .collect();
    let Draw::Commit {
        spec,
        frame,
        index,
        fresh,
        start,
        end,
        dirty,
        ..
    } = selector.draw(at, outputs).unwrap()
    else {
        return false;
    };
    surface.commits += 1;
    let len = spec.byte_len().unwrap();
    // Buffers of another size go once they are free.
    let mut kept = 0;
    for (old, (busy, shape)) in held.into_iter().enumerate() {
        if busy || shape == spec {
            surface.buffers.swap(kept, old);
            if surface.current == Some(old) {
                surface.current = Some(kept);
            }
            kept += 1;
        }
    }
    surface.buffers.truncate(kept);
    if fresh {
        assert_eq!(index, kept);
        surface.buffers.push(vec![0; len]);
    }
    let mut rows = Vec::new();
    draw_rows(spec, frame, start..end, &mut rows);
    let stride = spec.stride as usize;
    let buffer = &mut surface.buffers[index];
    buffer[start as usize * stride..end as usize * stride].copy_from_slice(&rows);
    let DirtyBox { x0, y0, x1, y1 } = dirty;
    if surface.screen.len() != len {
        surface.screen = vec![0; len];
    }
    for y in y0 as usize..y1 as usize {
        let span = y * stride + x0 as usize * 4..y * stride + x1 as usize * 4;
        surface.screen[span.clone()].copy_from_slice(&buffer[span]);
    }
    draw_rows(spec, frame, 0..spec.height, &mut rows);
    assert!(surface.screen == rows, "the damage composes to the frame");
    assert!(*buffer == rows, "the buffer holds the frame");
    // The compositor keeps the buffer until the next commit replaces it.
    if let Some(before) = surface.current.replace(index) {
        selector.overlays[at].released(before);
    }
    true
}

#[test]
fn selector_redraws_only_touched_overlays_once_per_frame_callback() {
    let outputs = outputs();
    let mut selector = selecting(&outputs);
    let left = usize::from(selector.overlays[0].output != LEFT);
    let right = 1 - left;
    let surface = || Surface {
        buffers: Vec::new(),
        current: None,
        screen: Vec::new(),
        commits: 0,
    };
    let (mut shown, mut other) = (surface(), surface());
    assert!(show(&mut selector, left, &outputs, &mut shown));
    assert!(show(&mut selector, right, &outputs, &mut other));
    selector.frame_done(RIGHT);
    selector.move_pointer(&outputs, SEAT, &on_left(), 10, 10);
    selector.button(&outputs, SEAT, LEFT_BUTTON, true);
    let mut callbacks = 0;
    for i in 1..=50 {
        let step = if i <= 30 { i } else { 60 - i };
        selector.move_pointer(&outputs, SEAT, &on_left(), 10 + 2 * step, 10 + step);
        // Without a callback nothing is committed.
        assert!(!show(&mut selector, left, &outputs, &mut shown));
        assert!(!show(&mut selector, right, &outputs, &mut other));
        if i % 10 == 0 {
            if i == 30 {
                // A new size mid-drag retires every buffer.
                assert_eq!(selector.configure(LEFT, 50, 40), None);
            }
            selector.frame_done(LEFT);
            callbacks += 1;
            assert!(show(&mut selector, left, &outputs, &mut shown));
        }
    }
    // Each overlay's first commit draws it; every later one needs a callback.
    assert_eq!(shown.commits, 1 + callbacks);
    assert!(shown.commits > 2);
    assert_eq!(other.commits, 1, "no rectangle touched it");
    selector.button(&outputs, SEAT, LEFT_BUTTON, false);
    let region = selector.poll(0).unwrap().unwrap();
    let rect = Rect {
        x: 10,
        y: 10,
        width: 21,
        height: 11,
    };
    assert_eq!(
        region,
        Region {
            output: "LEFT".into(),
            rect
        }
    );
    // The drag ends on LEFT resized to 50x40.
    let spec = BufferSpec::packed(50, 40, Format::Argb8888).unwrap();
    let bounds = Rect {
        x: -100,
        y: 50,
        width: 50,
        height: 40,
    };
    let selection = Rect {
        x: rect.x - 100,
        y: rect.y + 50,
        ..rect
    };
    let mut expected = Vec::new();
    let frame = overlay_frame(spec, bounds, Some(selection));
    draw_rows(spec, frame, 0..40, &mut expected);
    assert!(shown.screen == expected, "the damage composes to it");
    let current = shown.current.unwrap();
    assert!(shown.buffers[current] == expected, "the buffer holds it");
}

#[test]
fn the_cursor_is_a_white_cross_with_a_dark_edge() {
    let image = cursor_image();
    assert_eq!(image.len(), CURSOR_SIDE * CURSOR_SIDE * 4);
    let pixel = |x: usize, y: usize| &image[(y * CURSOR_SIDE + x) * 4..][..4];
    assert_eq!(pixel(0, 0), [0, 0, 0, 0]);
    assert_eq!(pixel(CURSOR_CENTER, 2), [255, 255, 255, 255]);
    assert_eq!(pixel(2, CURSOR_CENTER), [255, 255, 255, 255]);
    assert_eq!(pixel(2, CURSOR_CENTER + 1), [0, 0, 0, 255]);
}

#[test]
fn devices_are_bound_when_they_appear_and_released_when_they_go() {
    let mut seat = Seat::new();
    let changes = seat.capabilities(true, true, false);
    assert!(changes.bind_pointer && changes.bind_keyboard && !changes.bind_touch);
    let changes = seat.capabilities(true, false, true);
    assert!(!changes.bind_pointer && changes.release_keyboard && changes.bind_touch);
    assert!(changes.lost());
    assert!(!seat.capabilities(true, false, true).lost());
}
