use shiguredo_container::wait::{contains_bytes, ready_conditions_require_log, WaitFor, WaitState};

#[test]
fn ready_conditions_require_log_detects_log_strategy() {
    assert!(ready_conditions_require_log(&[WaitFor::message_on_stdout("ready")]));
    assert!(ready_conditions_require_log(&[
        WaitFor::seconds(1),
        WaitFor::message_on_stderr("err"),
    ]));
    assert!(ready_conditions_require_log(&[WaitFor::message_on_either_std("either")]));
    assert!(!ready_conditions_require_log(&[]));
    assert!(!ready_conditions_require_log(&[WaitFor::Nothing]));
    assert!(!ready_conditions_require_log(&[WaitFor::seconds(1)]));
    assert!(!ready_conditions_require_log(&[WaitFor::healthcheck()]));
}

#[test]
fn store_if_current_accepts_matching_generation() {
    let mut state = WaitState::default();
    assert_eq!(state.generation(), 0);
    assert!(state.store_if_current(0, 42));
    assert_eq!(state.exit_code(), Some(42));
}

#[test]
fn store_if_current_rejects_stale_generation() {
    let mut state = WaitState::default();
    assert!(state.store_if_current(0, 1));
    let new_gen = state.bump();
    assert_eq!(new_gen, 1);
    assert_eq!(state.exit_code(), None);
    assert!(!state.store_if_current(0, 99));
    assert_eq!(state.exit_code(), None);
    assert!(state.store_if_current(1, 7));
    assert_eq!(state.exit_code(), Some(7));
}

#[test]
fn bump_wraps_at_the_last_generation() {
    let mut state = WaitState { generation: u64::MAX, exit_code: Some(3) };
    assert_eq!(state.bump(), 0);
    assert_eq!(state.exit_code(), None);
    assert!(!state.store_if_current(u64::MAX, 5));
}

#[test]
fn contains_bytes_finds_runs() {
    assert!(contains_bytes(b"hello world", b"lo w"));
    assert!(contains_bytes(b"abc", b""));
    assert!(contains_bytes(b"abc", b"abc"));
    assert!(!contains_bytes(b"abc", b"abcd"));
    assert!(!contains_bytes(b"aab", b"ba"));
    assert!(contains_bytes(b"aaab", b"aab"));
}
