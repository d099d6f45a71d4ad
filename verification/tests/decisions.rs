use screen_ocr::bbox::PixelPoint;
use screen_ocr::binary32::Binary32;
use screen_ocr::events::{
    input, on_event, on_rendered, Action, Event, RenderAction, RenderOutcome, WindowEvent,
};
use screen_ocr::screen::{capture_area, choose_format, first_fit, CaptureArea};
use screen_ocr::state::Size;

const SIZE: Size = Size { width: 3, height: 4 };

fn own(event: WindowEvent) -> Action {
    on_event(&Event::WindowEvent { own: true, event })
}

#[test]
fn window_events_are_told_apart() {
    let at = PixelPoint::new(Binary32 { bits: 1 }, Binary32 { bits: 2 });
    assert_eq!(own(WindowEvent::CloseRequested), Action::Exit);
    assert_eq!(own(WindowEvent::KeyboardInput { pressed: true, escape: true }), Action::Exit);
    assert_eq!(own(WindowEvent::KeyboardInput { pressed: false, escape: true }), Action::Nothing);
    assert_eq!(own(WindowEvent::KeyboardInput { pressed: true, escape: false }), Action::Nothing);
    assert_eq!(own(WindowEvent::Resized(SIZE)), Action::Resize(SIZE));
    assert_eq!(own(WindowEvent::ScaleFactorChanged(SIZE)), Action::Resize(SIZE));
    assert_eq!(own(WindowEvent::Moved), Action::RequestRedraw);
    assert_eq!(own(WindowEvent::CursorMoved(at)), Action::HandleCursor(at));
    assert_eq!(own(WindowEvent::MouseInput { released: true }), Action::HandleClick);
    assert_eq!(own(WindowEvent::MouseInput { released: false }), Action::Nothing);
    assert_eq!(own(WindowEvent::Other), Action::Nothing);
}

#[test]
fn other_windows_are_ignored() {
    let event = WindowEvent::CloseRequested;
    assert_eq!(on_event(&Event::WindowEvent { own: false, event }), Action::Nothing);
    assert_eq!(on_event(&Event::RedrawRequested { own: false }), Action::Nothing);
}

#[test]
fn loop_events_are_told_apart() {
    assert_eq!(on_event(&Event::RedrawRequested { own: true }), Action::UpdateAndRender);
    assert_eq!(on_event(&Event::MainEventsCleared), Action::CheckRunningJob);
    assert_eq!(on_event(&Event::Other), Action::Nothing);
}

#[test]
fn no_event_is_kept() {
    assert!(!input(&WindowEvent::CloseRequested));
    assert!(!input(&WindowEvent::Other));
}

#[test]
fn drawing_errors_are_told_apart() {
    assert_eq!(on_rendered(RenderOutcome::Drawn, SIZE), RenderAction::Nothing);
    assert_eq!(on_rendered(RenderOutcome::Lost, SIZE), RenderAction::Resize(SIZE));
    assert_eq!(on_rendered(RenderOutcome::OutOfMemory, SIZE), RenderAction::Exit);
    assert_eq!(on_rendered(RenderOutcome::Other, SIZE), RenderAction::Report);
}

#[test]
fn first_srgb_format_is_chosen() {
    assert_eq!(choose_format(&vec![false, true, true]), 1);
    assert_eq!(choose_format(&vec![true, false]), 0);
    assert_eq!(choose_format(&vec![false, false]), 0);
}

#[test]
fn first_fit_may_be_missing() {
    assert_eq!(first_fit(&vec![]), None);
    assert_eq!(first_fit(&vec![false]), None);
    assert_eq!(first_fit(&vec![false, false, true]), Some(2));
}

#[test]
fn capture_area_is_relative_to_the_display() {
    let area = CaptureArea { x: -80, y: 100, size: SIZE };
    assert_eq!(capture_area((1840, 100), (1920, 0), SIZE), Some(area));
    assert_eq!(capture_area((i32::MIN, 0), (1, 0), SIZE), None);
    assert_eq!(capture_area((0, i32::MAX), (0, -1), SIZE), None);
}
