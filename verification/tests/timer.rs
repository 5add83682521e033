use tpscube_core::timer::{TimeColor, TimerState};
use tpscube_core::timing::{
    color_for_step_index, date_style, short_day_style, DayStyle, StepColor,
};

#[test]
fn the_timer_solves_once_it_has_prepared() {
    assert!(!TimerState::Inactive(1234).is_solving(1000));
    assert!(!TimerState::SolveComplete(1234).is_solving(1000));
    assert!(!TimerState::Preparing(1234).is_solving(0));
    assert!(!TimerState::Preparing(1234).is_solving(10));
    assert!(TimerState::Preparing(1234).is_solving(11));
    assert!(TimerState::BluetoothPreparing(1234).is_solving(0));
    assert!(TimerState::ExternalTimerPreparing(1234).is_solving(0));
    assert!(TimerState::Ready.is_solving(0));
    assert!(TimerState::BluetoothReady.is_solving(0));
    assert!(TimerState::ExternalTimerReady.is_solving(0));
    assert!(TimerState::Solving.is_solving(0));
    assert!(TimerState::BluetoothSolving.is_solving(0));
    assert!(TimerState::ExternalTimerSolving.is_solving(0));
    assert!(TimerState::ManualTimeEntry(5).is_solving(0));
    assert!(TimerState::ManualTimeEntryDelay(5).is_solving(0));
}

#[test]
fn the_text_of_the_timer() {
    assert_eq!(TimerState::Inactive(12345).current_time_string(99), "12.35");
    assert_eq!(TimerState::SolveComplete(83456).current_time_string(99), "1:23.46");
    assert_eq!(TimerState::Preparing(12345).current_time_string(10), "12.35");
    assert_eq!(TimerState::Preparing(12345).current_time_string(11), "0.0");
    assert_eq!(TimerState::BluetoothPreparing(12345).current_time_string(0), "0.0");
    assert_eq!(TimerState::ExternalTimerPreparing(12345).current_time_string(0), "0.0");
    assert_eq!(TimerState::Ready.current_time_string(500), "0.0");
    assert_eq!(TimerState::BluetoothReady.current_time_string(500), "0.0");
    assert_eq!(TimerState::ExternalTimerReady.current_time_string(500), "0.0");
    assert_eq!(TimerState::Solving.current_time_string(12345), "12.3");
    assert_eq!(TimerState::BluetoothSolving.current_time_string(83456), "1:23.4");
    assert_eq!(TimerState::ExternalTimerSolving.current_time_string(999), "0.9");
    assert_eq!(TimerState::ManualTimeEntry(12345).current_time_string(0), "12.345");
    assert_eq!(TimerState::ManualTimeEntryDelay(112345).current_time_string(0), "1:12.345");
}

#[test]
fn the_running_time_wraps_with_the_counter() {
    let wrapped = (1u128 << 32) + 2500;
    assert_eq!(TimerState::Solving.current_time_string(wrapped), "2.5");
    assert_eq!(TimerState::Solving.current_time_string((1u128 << 32) - 1), "71582:47.2");
}

#[test]
fn the_color_of_the_timer() {
    assert_eq!(TimerState::Inactive(1).current_time_color(100), TimeColor::Content);
    assert_eq!(TimerState::Preparing(1).current_time_color(10), TimeColor::Content);
    assert_eq!(TimerState::Preparing(1).current_time_color(11), TimeColor::BackgroundHighlight);
    assert_eq!(TimerState::BluetoothPreparing(1).current_time_color(11), TimeColor::Content);
    assert_eq!(TimerState::Ready.current_time_color(0), TimeColor::Green);
    assert_eq!(TimerState::BluetoothReady.current_time_color(0), TimeColor::Green);
    assert_eq!(TimerState::ExternalTimerReady.current_time_color(0), TimeColor::Green);
    assert_eq!(TimerState::Solving.current_time_color(0), TimeColor::Content);
    assert_eq!(TimerState::ManualTimeEntry(1).current_time_color(0), TimeColor::Content);
    assert_eq!(TimerState::SolveComplete(1).current_time_color(0), TimeColor::Content);
}

#[test]
fn typing_a_time() {
    let mut state = TimerState::Inactive(5000);
    state.update_for_numerical_input(7);
    assert_eq!(state, TimerState::ManualTimeEntryDelay(7));
    state.update_for_numerical_input(3);
    assert_eq!(state, TimerState::ManualTimeEntryDelay(7));
    let mut state = TimerState::ManualTimeEntry(7);
    state.update_for_numerical_input(3);
    assert_eq!(state, TimerState::ManualTimeEntryDelay(73));
    let mut state = TimerState::ManualTimeEntry(999999);
    state.update_for_numerical_input(9);
    assert_eq!(state, TimerState::ManualTimeEntryDelay(9999999));
    let mut state = TimerState::ManualTimeEntry(1000000);
    state.update_for_numerical_input(9);
    assert_eq!(state, TimerState::ManualTimeEntry(1000000));
    for other in [TimerState::Ready, TimerState::Solving, TimerState::SolveComplete(4)] {
        let mut state = other;
        state.update_for_numerical_input(1);
        assert_eq!(state, other);
    }
}

#[test]
fn step_colors_come_in_turn() {
    assert_eq!(color_for_step_index(0), StepColor::Red);
    assert_eq!(color_for_step_index(1), StepColor::Blue);
    assert_eq!(color_for_step_index(2), StepColor::Yellow);
    assert_eq!(color_for_step_index(3), StepColor::Green);
    assert_eq!(color_for_step_index(4), StepColor::Red);
    assert_eq!(color_for_step_index(4003), StepColor::Green);
}

#[test]
fn how_days_are_written() {
    assert_eq!(date_style(0), DayStyle::Today);
    assert_eq!(date_style(1), DayStyle::Yesterday);
    assert_eq!(date_style(2), DayStyle::Weekday);
    assert_eq!(date_style(6), DayStyle::Weekday);
    assert_eq!(date_style(7), DayStyle::MonthAndDay);
    assert_eq!(date_style(364), DayStyle::MonthAndDay);
    assert_eq!(date_style(365), DayStyle::MonthDayAndYear);
    assert_eq!(date_style(-1), DayStyle::MonthDayAndYear);
    assert_eq!(date_style(i64::MAX), DayStyle::MonthDayAndYear);
    assert_eq!(short_day_style(0), DayStyle::MonthAndDay);
    assert_eq!(short_day_style(364), DayStyle::MonthAndDay);
    assert_eq!(short_day_style(365), DayStyle::MonthDayAndYear);
    assert_eq!(short_day_style(-1), DayStyle::MonthDayAndYear);
}
