use herdr_pluck::input::{InputEvent, InputState};
use herdr_pluck::model::PickerOutcome;

#[test]
fn escape_cancels() {
    let mut state = InputState::new(1);
    assert_eq!(
        state.push(InputEvent::Escape, &[]),
        Some(PickerOutcome::Cancelled)
    );
}

#[test]
fn ctrl_c_cancels_and_enter_is_ignored() {
    let mut state = InputState::new(1);
    assert_eq!(state.push(InputEvent::Enter, &[]), None);
    assert_eq!(
        state.push(InputEvent::CtrlC, &[]),
        Some(PickerOutcome::Cancelled)
    );
}

#[test]
fn full_width_entry_is_checked_against_hints_and_cleared() {
    let hints = vec!["as".to_string(), "df".to_string()];
    let mut state = InputState::new(2);
    assert_eq!(state.push(InputEvent::Char('x'), &hints), None);
    assert_eq!(state.push(InputEvent::Char('y'), &hints), None);
    assert_eq!(state.push(InputEvent::Char('d'), &hints), None);
    assert_eq!(
        state.push(InputEvent::Char('f'), &hints),
        Some(PickerOutcome::Copied {
            text: "df".to_string()
        })
    );
}

#[test]
fn wide_character_entry_is_cleared_like_any_invalid_hint() {
    let hints = vec!["a".to_string()];
    let mut state = InputState::new(1);
    assert_eq!(state.push(InputEvent::Char('é'), &hints), None);
    assert_eq!(
        state.push(InputEvent::Char('a'), &hints),
        Some(PickerOutcome::Copied {
            text: "a".to_string()
        })
    );
}
