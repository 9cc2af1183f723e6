use corewar::protocol::BattleResultMsg;
use corewar::viz::{format_battle_result, handle_key_press, InputAction, KeyCode, PlaybackSpeed};
use corewar::ParseError;

#[test]
fn playback_speed_steps_in_both_directions() {
    assert_eq!(PlaybackSpeed::X1.faster(), PlaybackSpeed::X2);
    assert_eq!(PlaybackSpeed::X10.faster(), PlaybackSpeed::Max);
    assert_eq!(PlaybackSpeed::Max.slower(), PlaybackSpeed::X10);
    assert_eq!(PlaybackSpeed::X2.slower(), PlaybackSpeed::X1);
}

#[test]
fn playback_speed_labels_and_ends() {
    assert_eq!(PlaybackSpeed::default(), PlaybackSpeed::X1);
    assert_eq!(PlaybackSpeed::X1.label(), "1x");
    assert_eq!(PlaybackSpeed::X10.label(), "10x");
    assert_eq!(PlaybackSpeed::Max.label(), "max");
    assert_eq!(PlaybackSpeed::Max.faster(), PlaybackSpeed::Max);
    assert_eq!(PlaybackSpeed::X1.slower(), PlaybackSpeed::X1);
}

#[test]
fn keys_map_to_actions() {
    assert_eq!(handle_key_press(KeyCode::Space), vec![InputAction::TogglePause]);
    assert_eq!(handle_key_press(KeyCode::Equals), vec![InputAction::IncreaseSpeed]);
    assert_eq!(handle_key_press(KeyCode::Minus), vec![InputAction::DecreaseSpeed]);
    assert_eq!(
        handle_key_press(KeyCode::Character('R')),
        vec![InputAction::ResetView]
    );
    assert_eq!(handle_key_press(KeyCode::Character('f')), vec![InputAction::FitAll]);
    assert!(handle_key_press(KeyCode::Character('x')).is_empty());
}

#[test]
fn battle_banner_text() {
    assert_eq!(
        format_battle_result(&BattleResultMsg::Win {
            winner: "Imp".to_string()
        }),
        "battle complete - winner: Imp"
    );
    assert_eq!(
        format_battle_result(&BattleResultMsg::Draw {
            survivors: Vec::new()
        }),
        "battle complete - draw"
    );
    assert_eq!(
        format_battle_result(&BattleResultMsg::Draw {
            survivors: vec!["Imp".to_string(), "Dwarf".to_string(), "Mice".to_string()]
        }),
        "battle complete - draw between Imp, Dwarf, Mice"
    );
}

#[test]
fn parse_error_messages() {
    assert_eq!(
        ParseError::Syntax {
            line: 12,
            message: "too many operands".to_string()
        }
        .message(),
        "syntax error at line 12: too many operands"
    );
    assert_eq!(
        ParseError::UndefinedLabel {
            label: "X".to_string(),
            line: 3
        }
        .message(),
        "undefined label 'X' at line 3"
    );
    assert_eq!(
        ParseError::TooLong { max_length: 100 }.message(),
        "warrior exceeds maximum length of 100 instructions"
    );
    assert_eq!(
        ParseError::DivisionByZero { line: 0 }.message(),
        "division by zero at line 0"
    );
}
