use host_bridge::audio::{audio_setup_finished, first_audio_step, next_audio_step, AudioStep, SessionIssue};

fn run(outcomes: &[bool]) -> AudioStep {
    let mut step = first_audio_step();
    for &ok in outcomes {
        if audio_setup_finished(step) {
            break;
        }
        step = next_audio_step(step, ok);
    }
    step
}

#[test]
fn setup_succeeds_when_session_and_category_are_available() {
    assert_eq!(run(&[true, true, true, true]), AudioStep::Configured);
    assert_eq!(run(&[true, true, false, false]), AudioStep::Configured);
}

#[test]
fn missing_session_abandons_setup() {
    assert_eq!(run(&[false, true, true, true]), AudioStep::Abandoned(SessionIssue::SessionUnavailable));
}

#[test]
fn missing_category_abandons_setup() {
    assert_eq!(run(&[true, false, true, true]), AudioStep::Abandoned(SessionIssue::CategoryUnavailable));
}

#[test]
fn steps_in_order() {
    let s = first_audio_step();
    assert_eq!(s, AudioStep::AcquireSession);
    let s = next_audio_step(s, true);
    assert_eq!(s, AudioStep::BuildCategory);
    let s = next_audio_step(s, true);
    assert_eq!(s, AudioStep::SetCategory);
    let s = next_audio_step(s, true);
    assert_eq!(s, AudioStep::Activate);
    assert!(!audio_setup_finished(s));
    let s = next_audio_step(s, true);
    assert_eq!(s, AudioStep::Configured);
    assert!(audio_setup_finished(s));
    assert_eq!(next_audio_step(s, false), AudioStep::Configured);
}
