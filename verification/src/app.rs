//! Top-level application state.

use crate::error::ErrorKind;
use std::time::Instant;
use vstd::prelude::*;

verus! {

/// `std::time::Instant`, a point in time that is carried and not looked into.
#[verifier::external_type_specification]
#[verifier::external_body]
pub struct ExInstant(std::time::Instant);

/// What the application is doing.
#[derive(Debug)]
pub enum AppState {
    Idle,
    Listening { started_at: Instant },
    Refining { raw_text: String },
    Injecting { final_text: String },
    Error(ErrorKind),
}

impl Clone for AppState {
    fn clone(&self) -> (copy: Self)
        ensures
            copy == *self,
    {
        match self {
            AppState::Idle => AppState::Idle,
            AppState::Listening { started_at } => AppState::Listening { started_at: *started_at },
            AppState::Refining { raw_text } => AppState::Refining { raw_text: raw_text.clone() },
            AppState::Injecting { final_text } => AppState::Injecting {
                final_text: final_text.clone(),
            },
            AppState::Error(kind) => AppState::Error(kind.clone()),
        }
    }
}

impl Default for AppState {
    /// The application starts idle.
    fn default() -> (state: Self)
        ensures
            state is Idle,
    {
        AppState::Idle
    }
}

} // verus!
