//! The window's part in the program: which fullscreen mode it asks for
//! and what it does on each event of the event loop.

use crate::inputs::keyboard::{after_input, Keyboard, KeyboardInput};
use crate::window::config::WindowConfiguration;
use crate::window::windowmodes::WindowModes;
use vstd::prelude::*;

verus! {

/// Marks a type as a system of the window.
pub trait System {
}

/// A place that keeps at most one system of each type.
pub trait SystemRegistry {
    /// The system of type `T`, if one was added.
    fn get_system_mut<T: System + 'static>(&mut self) -> Option<&mut T>;

    /// Adds `system`, in place of an earlier system of type `T`.
    fn add_system<T: System + 'static>(&mut self, system: T);
}

impl System for Keyboard {
}

/// A fullscreen mode to ask the platform for.
#[derive(Clone, Copy, Debug, PartialEq, Eq, Structural)]
pub enum Fullscreen {
    /// Borderless, on the monitor that the window is on.
    Borderless,
    /// Exclusive, in the video mode of the given number.
    Exclusive(usize),
}

/// The fullscreen mode that goes with a configuration: none for an
/// ordinary window, borderless for a borderless one. No video mode is
/// taken for exclusive use, so a configuration that asks for it gets an
/// ordinary window.
pub open spec fn fullscreen_for(mode: WindowModes) -> Option<Fullscreen> {
    match mode {
        WindowModes::Window => None,
        WindowModes::Borderless => Some(Fullscreen::Borderless),
        WindowModes::Exclusive => None,
    }
}

/// Computes [`fullscreen_for`] for the mode of `configuration`.
pub fn select_fullscreen_from_configuration(configuration: &WindowConfiguration) -> (fullscreen:
    Option<Fullscreen>)
    ensures
        fullscreen == fullscreen_for(configuration.window_mode),
{
    match configuration.window_mode {
        WindowModes::Window => None,
        WindowModes::Borderless => Some(Fullscreen::Borderless),
        WindowModes::Exclusive => None,
    }
}

/// What the event loop reports, as far as the window cares.
#[derive(Clone, Copy, Debug, PartialEq, Eq, Structural)]
pub enum WindowEvent {
    /// The user asked to close the window.
    CloseRequested,
    /// A key went down or came up.
    KeyboardInput(KeyboardInput),
    /// All pending events have been handed out.
    MainEventsCleared,
    /// Anything else.
    Other,
}

/// What the event loop is to do next.
#[derive(Clone, Copy, Debug, PartialEq, Eq, Structural)]
pub enum ControlFlow {
    /// Go on with the next event.
    Continue,
    /// Ask for the window to be drawn again, then go on.
    RequestRedraw,
    /// Leave the loop.
    Exit,
}

/// What the loop does on an event.
pub open spec fn flow_after(event: WindowEvent) -> ControlFlow {
    match event {
        WindowEvent::CloseRequested => ControlFlow::Exit,
        WindowEvent::MainEventsCleared => ControlFlow::RequestRedraw,
        _ => ControlFlow::Continue,
    }
}

/// What the keyboard holds after an event.
pub open spec fn keys_after(keys: Seq<u32>, event: WindowEvent) -> Seq<u32> {
    match event {
        WindowEvent::KeyboardInput(input) => after_input(keys, input),
        _ => keys,
    }
}

/// Handles one event of the event loop: key events go to the keyboard, a
/// request to close ends the loop, and once the pending events are through
/// the window is drawn again.
pub fn handle_event(keyboard: &mut Keyboard, event: &WindowEvent) -> (flow: ControlFlow)
    ensures
        flow == flow_after(*event),
        final(keyboard)@ == keys_after(old(keyboard)@, *event),
{
    match event {
        WindowEvent::CloseRequested => ControlFlow::Exit,
        WindowEvent::KeyboardInput(input) => {
            keyboard.handle_input(input);
            ControlFlow::Continue
        },
        WindowEvent::MainEventsCleared => ControlFlow::RequestRedraw,
        WindowEvent::Other => ControlFlow::Continue,
    }
}

} // verus!
