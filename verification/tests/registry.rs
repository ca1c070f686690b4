use omabeam::registry::{after_wait, Error, Global, Registry, Wake};

#[test]
fn known_globals_are_bound_at_understood_versions() {
    let mut registry = Registry::new(false);
    let (bound, error) = registry.global(1, "wl_shm", 2);
    assert_eq!((bound, error), (Some((Global::Shm, 1)), None));
    let (bound, _) = registry.global(2, "wl_output", 9);
    let (global, version) = bound.unwrap();
    assert_eq!(global, Global::Output);
    assert!(version <= 9);
    assert_eq!(registry.global(3, "wl_nothing", 1), (None, None));
    assert_eq!(registry.ready(), Ok(()));
    assert_eq!(Registry::new(false).ready(), Err(Error::NoShm));
}

#[test]
fn a_captured_output_that_goes_ends_the_capture() {
    let mut registry = Registry::new(false);
    registry.global(2, "wl_output", 4);
    registry.active = true;
    assert_eq!(registry.global_remove(9, false), None);
    assert_eq!(
        registry.global_remove(2, true),
        Some(Error::OutputDisconnected)
    );
}

#[test]
fn an_answer_is_waited_for_until_its_deadline() {
    let mut registry = Registry::new(false);
    assert_eq!(registry.answered(1, 0, 10), Ok(false));
    assert_eq!(registry.answered(1, 10, 10), Err(Error::NoAnswer));
    registry.synced = 1;
    assert_eq!(registry.answered(1, 10, 10), Ok(true));
}

#[test]
fn a_hangup_is_reported_after_what_was_sent_is_read() {
    let wake = |input: bool, hangup: bool, error: bool| Wake {
        input,
        error,
        hangup,
        invalid: false,
    };
    assert_eq!(after_wait(wake(true, false, false)), Ok(true));
    assert_eq!(after_wait(wake(false, false, false)), Ok(false));
    assert_eq!(
        after_wait(wake(false, true, false)),
        Err(Error::Disconnected)
    );
}
