//! What a window is created with.

use crate::window::windowmodes::WindowModes;
use vstd::prelude::*;

verus! {

/// Title, size in pixels and mode of a window.
pub struct WindowConfiguration {
    pub title: String,
    pub width: u32,
    pub height: u32,
    pub window_mode: WindowModes,
}

impl WindowConfiguration {
    /// The configuration to use, given what loading one gave: the loaded
    /// configuration if there is one, and the default one otherwise,
    /// whatever the reason that there is none.
    pub fn new<E>(loaded: Result<WindowConfiguration, E>) -> (configuration: Self)
        ensures
            match loaded {
                Ok(config) => configuration == config,
                Err(_) => is_default(configuration),
            },
    {
        match loaded {
            Ok(config) => config,
            Err(_) => default_window_configuration(),
        }
    }
}

/// Whether `configuration` is the default one: a window of 1920 by 1080
/// pixels with the title `default window`.
pub open spec fn is_default(configuration: WindowConfiguration) -> bool {
    &&& configuration.title@ == "default window"@
    &&& configuration.width == 1920
    &&& configuration.height == 1080
    &&& configuration.window_mode == WindowModes::Window
}

/// The default configuration.
pub fn default_window_configuration() -> (configuration: WindowConfiguration)
    ensures
        is_default(configuration),
{
    WindowConfiguration {
        title: "default window".to_owned(),
        width: 1920,
        height: 1080,
        window_mode: WindowModes::Window,
    }
}

} // verus!
