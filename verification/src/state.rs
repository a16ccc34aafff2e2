//! Configuration as the tray sees it.

use vstd::prelude::*;

verus! {

/// The settings that the tray shows.
#[derive(Debug, Clone, Copy, PartialEq, Eq)]
pub struct Config {
    /// Whether the hotkey starts a dictation.
    pub enabled: bool,
}

/// The state that the tray reads.
#[derive(Debug, Clone, Copy, PartialEq, Eq)]
pub struct AppState {
    config: Config,
}

impl View for AppState {
    type V = Config;

    closed spec fn view(&self) -> Config {
        self.config
    }
}

impl AppState {
    /// The state with this configuration.
    pub fn new(config: Config) -> (state: Self)
        ensures
            state@ == config,
    {
        AppState { config }
    }

    /// The current configuration.
    pub fn snapshot(&self) -> (config: Config)
        ensures
            config == self@,
    {
        self.config
    }

    /// Switches dictation on or off.
    pub fn set_enabled(&mut self, enabled: bool)
        ensures
            final(self)@ == (Config { enabled, ..old(self)@ }),
    {
        self.config.enabled = enabled;
    }
}

} // verus!
