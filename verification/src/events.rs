//! What the overlay does on an event of the window system.
use crate::bbox::PixelPoint;
use crate::state::Size;
use vstd::prelude::*;

verus! {

/// An event of a window, as far as the overlay tells events apart.
#[derive(Clone, Copy, Debug, PartialEq, Eq, Structural)]
pub enum WindowEvent {
    CloseRequested,
    KeyboardInput { pressed: bool, escape: bool },
    Resized(Size),
    ScaleFactorChanged(Size),
    Moved,
    CursorMoved(PixelPoint),
    MouseInput { released: bool },
    Other,
}

/// An event of the window system. `own` tells whether it is about the overlay's
/// window.
#[derive(Clone, Copy, Debug, PartialEq, Eq, Structural)]
pub enum Event {
    WindowEvent { own: bool, event: WindowEvent },
    RedrawRequested { own: bool },
    MainEventsCleared,
    Other,
}

/// What is to be done on an event.
#[derive(Clone, Copy, Debug, PartialEq, Eq, Structural)]
pub enum Action {
    Nothing,
    /// Leave the event loop.
    Exit,
    /// Resize the surface.
    Resize(Size),
    /// Ask for the window to be drawn again.
    RequestRedraw,
    /// Highlight the words at this point.
    HandleCursor(PixelPoint),
    /// Report the highlighted words.
    HandleClick,
    /// Start a recognition and draw.
    UpdateAndRender,
    /// See whether the recognition has ended.
    CheckRunningJob,
}

/// How drawing went.
#[derive(Clone, Copy, Debug, PartialEq, Eq, Structural)]
pub enum RenderOutcome {
    Drawn,
    /// The surface is lost.
    Lost,
    OutOfMemory,
    /// Something that the next frame should resolve.
    Other,
}

/// What is to be done after drawing.
#[derive(Clone, Copy, Debug, PartialEq, Eq, Structural)]
pub enum RenderAction {
    Nothing,
    /// Resize the surface, to set it up again.
    Resize(Size),
    /// Leave the event loop.
    Exit,
    /// Print the error.
    Report,
}

/// What is to be done on an event of the overlay's own window.
pub open spec fn window_action(event: WindowEvent) -> Action {
    match event {
        WindowEvent::CloseRequested => Action::Exit,
        WindowEvent::KeyboardInput { pressed, escape } => if pressed && escape {
            Action::Exit
        } else {
            Action::Nothing
        },
        WindowEvent::Resized(size) => Action::Resize(size),
        WindowEvent::ScaleFactorChanged(size) => Action::Resize(size),
        WindowEvent::Moved => Action::RequestRedraw,
        WindowEvent::CursorMoved(point) => Action::HandleCursor(point),
        WindowEvent::MouseInput { released } => if released {
            Action::HandleClick
        } else {
            Action::Nothing
        },
        WindowEvent::Other => Action::Nothing,
    }
}

/// What is to be done on an event. Events of other windows are ignored.
pub open spec fn event_action(event: Event) -> Action {
    match event {
        Event::WindowEvent { own, event } => if own {
            window_action(event)
        } else {
            Action::Nothing
        },
        Event::RedrawRequested { own } => if own {
            Action::UpdateAndRender
        } else {
            Action::Nothing
        },
        Event::MainEventsCleared => Action::CheckRunningJob,
        Event::Other => Action::Nothing,
    }
}

/// What is to be done after drawing, in a window of this size: a lost surface is
/// set up again, and lack of memory ends the overlay.
pub open spec fn render_action(outcome: RenderOutcome, size: Size) -> RenderAction {
    match outcome {
        RenderOutcome::Drawn => RenderAction::Nothing,
        RenderOutcome::Lost => RenderAction::Resize(size),
        RenderOutcome::OutOfMemory => RenderAction::Exit,
        RenderOutcome::Other => RenderAction::Report,
    }
}

/// The overlay closes on the close button or the escape key of its own window, and
/// on no other event.
pub proof fn lemma_exit(event: Event)
    ensures
        event_action(event) == Action::Exit <==> (event == (Event::WindowEvent {
            own: true,
            event: WindowEvent::CloseRequested,
        }) || event == (Event::WindowEvent {
            own: true,
            event: WindowEvent::KeyboardInput { pressed: true, escape: true },
        })),
{
}

/// Whether the overlay keeps an event of its window from the event loop: it never
/// does.
pub fn input(_event: &WindowEvent) -> (r: bool)
    ensures
        r == false,
{
    false
}

/// Decides what to do on an event.
pub fn on_event(event: &Event) -> (r: Action)
    ensures
        r == event_action(*event),
{
    match event {
        Event::WindowEvent { own, event } => {
            if *own && !input(event) {
                match event {
                    WindowEvent::CloseRequested => Action::Exit,
                    WindowEvent::KeyboardInput { pressed, escape } => {
                        if *pressed && *escape {
                            Action::Exit
                        } else {
                            Action::Nothing
                        }
                    },
                    WindowEvent::Resized(size) => Action::Resize(*size),
                    WindowEvent::ScaleFactorChanged(size) => Action::Resize(*size),
                    WindowEvent::Moved => Action::RequestRedraw,
                    WindowEvent::CursorMoved(position) => Action::HandleCursor(*position),
                    WindowEvent::MouseInput { released } => {
                        if *released {
                            Action::HandleClick
                        } else {
                            Action::Nothing
                        }
                    },
                    WindowEvent::Other => Action::Nothing,
                }
            } else {
                Action::Nothing
            }
        },
        Event::RedrawRequested { own } => {
            if *own {
                Action::UpdateAndRender
            } else {
                Action::Nothing
            }
        },
        Event::MainEventsCleared => Action::CheckRunningJob,
        Event::Other => Action::Nothing,
    }
}

/// Decides what to do after drawing, in a window of this size.
pub fn on_rendered(outcome: RenderOutcome, size: Size) -> (r: RenderAction)
    ensures
        r == render_action(outcome, size),
{
    match outcome {
        RenderOutcome::Drawn => RenderAction::Nothing,
        RenderOutcome::Lost => RenderAction::Resize(size),
        RenderOutcome::OutOfMemory => RenderAction::Exit,
        RenderOutcome::Other => RenderAction::Report,
    }
}

/// What each event leads to, and what leads to each action: every action other than
/// nothing and leaving comes from one kind of event of the overlay's own window, or in
/// the case of a size from two, and carries what that event carries.
pub proof fn lemma_action_of_event(event: &Event, r: Action, size: Size, point: PixelPoint)
    requires
        call_ensures(on_event, (event,), r),
    ensures
        r == Action::Resize(size) <==> (*event == (Event::WindowEvent {
            own: true,
            event: WindowEvent::Resized(size),
        }) || *event == (Event::WindowEvent {
            own: true,
            event: WindowEvent::ScaleFactorChanged(size),
        })),
        r == Action::RequestRedraw <==> *event == (Event::WindowEvent {
            own: true,
            event: WindowEvent::Moved,
        }),
        r == Action::HandleCursor(point) <==> *event == (Event::WindowEvent {
            own: true,
            event: WindowEvent::CursorMoved(point),
        }),
        r == Action::HandleClick <==> *event == (Event::WindowEvent {
            own: true,
            event: WindowEvent::MouseInput { released: true },
        }),
        r == Action::UpdateAndRender <==> *event == (Event::RedrawRequested { own: true }),
        r == Action::CheckRunningJob <==> *event == Event::MainEventsCleared,
        r == Action::Exit <==> (*event == (Event::WindowEvent {
            own: true,
            event: WindowEvent::CloseRequested,
        }) || *event == (Event::WindowEvent {
            own: true,
            event: WindowEvent::KeyboardInput { pressed: true, escape: true },
        })),
{
}

/// Nothing is done on events that are of no concern: those of other windows, keys other
/// than a pressed escape key, a mouse button that goes down, and any event that the
/// overlay does not tell apart.
pub proof fn lemma_events_without_action(event: &Event, r: Action)
    requires
        call_ensures(on_event, (event,), r),
    ensures
        r == Action::Nothing <==> {
            ||| *event == Event::Other
            ||| *event matches Event::RedrawRequested { own } && !own
            ||| *event matches Event::WindowEvent { own, event } && {
                ||| !own
                ||| event == WindowEvent::Other
                ||| event matches WindowEvent::KeyboardInput { pressed, escape } && !(pressed
                    && escape)
                ||| event matches WindowEvent::MouseInput { released } && !released
            }
        },
{
}

/// After drawing, a lost surface and nothing else is set up again, in the size that the
/// window has; lack of memory and nothing else ends the overlay; and only what is left
/// besides success is reported.
pub proof fn lemma_action_after_drawing(outcome: RenderOutcome, size: Size, r: RenderAction)
    requires
        call_ensures(on_rendered, (outcome, size), r),
    ensures
        r is Resize <==> outcome is Lost,
        r matches RenderAction::Resize(new_size) ==> new_size.width == size.width
            && new_size.height == size.height,
        r is Exit <==> outcome is OutOfMemory,
        r is Nothing <==> outcome is Drawn,
        r is Report <==> outcome is Other,
{
}

/// No event of the window is kept from the event loop.
pub proof fn lemma_input_keeps_nothing(event: &WindowEvent, r: bool)
    requires
        call_ensures(input, (event,), r),
    ensures
        !r,
{
}

} // verus!
