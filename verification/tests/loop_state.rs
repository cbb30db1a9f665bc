use renderer::animation::{continues_after, next_phase, InputEvent, PHASE_COUNT};

#[test]
fn phase_steps_and_wraps() {
    assert_eq!(next_phase(0), 1);
    assert_eq!(next_phase(42), 43);
    assert_eq!(next_phase(PHASE_COUNT - 1), 0);
}

#[test]
fn quit_and_escape_stop_the_loop() {
    assert!(!continues_after(InputEvent::Quit));
    assert!(!continues_after(InputEvent::EscapeKey));
    assert!(continues_after(InputEvent::Other));
}
