//! The session state around the engine.
//!
//! A session starts loading, then becomes ready on its first display step. A
//! malformed dataset record leaves a recoverable error message; a failure to
//! obtain any dataset at all is fatal. The engine is only invoked in the
//! ready and recoverable-error states; these states carry no ranking
//! semantics of their own.

use vstd::prelude::*;

verus! {

/// The linear session state: loading at startup, then ready; an error state
/// that still ranks, and a fatal terminal state that does not.
pub enum State {
    Loading,
    Ready,
    Fatal(String),
    Error(String),
}

/// The state once the dataset has been loaded: a malformed record leaves its
/// message as a recoverable error; otherwise the session keeps loading until
/// its first display step turns it ready.
pub fn state_after_load(last_error: Option<String>) -> (s: State)
    ensures
        last_error is Some ==> s == State::Error(last_error->Some_0),
        last_error is None ==> s == State::Loading,
{
    match last_error {
        Some(m) => State::Error(m),
        None => State::Loading,
    }
}

/// One display step: the first step turns a loading session ready; every
/// other state stays as it is, so the session never returns to loading.
pub fn advance(s: State) -> (t: State)
    ensures
        s is Loading ==> t is Ready,
        !(s is Loading) ==> t == s,
{
    match s {
        State::Loading => State::Ready,
        other => other,
    }
}

/// Whether the engine runs in this state: it ranks when the session is ready
/// or carries only a recoverable error, never while loading or after a fatal
/// failure.
pub fn engine_runs(s: &State) -> (b: bool)
    ensures
        b == (s is Ready || s is Error),
{
    match s {
        State::Ready => true,
        State::Error(_) => true,
        _ => false,
    }
}

} // verus!
