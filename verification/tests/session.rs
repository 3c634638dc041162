use zro::state::{advance, engine_runs, state_after_load, State};

#[test]
fn load_errors_become_recoverable() {
    let s = state_after_load(Some("bad record".to_string()));
    assert!(matches!(s, State::Error(ref m) if m == "bad record"));
    let s = state_after_load(None);
    assert!(matches!(s, State::Loading));
}

#[test]
fn first_step_turns_loading_ready() {
    assert!(matches!(advance(State::Loading), State::Ready));
    assert!(matches!(advance(State::Ready), State::Ready));
    assert!(matches!(
        advance(State::Error("e".to_string())),
        State::Error(ref m) if m == "e"
    ));
    assert!(matches!(
        advance(State::Fatal("f".to_string())),
        State::Fatal(ref m) if m == "f"
    ));
}

#[test]
fn engine_runs_only_when_interactive() {
    assert!(!engine_runs(&State::Loading));
    assert!(engine_runs(&State::Ready));
    assert!(engine_runs(&State::Error("e".to_string())));
    assert!(!engine_runs(&State::Fatal("f".to_string())));
}
