use crate::timing::{
    solve_time_short_string, solve_time_short_text, solve_time_string, solve_time_string_ms,
    solve_time_text, solve_time_text_ms, time_of_digits,
};
use vstd::prelude::*;

verus! {

/// What the timer is doing. The states that wait or run began at a moment that the
/// caller keeps; the others hold a time in milliseconds, or the digits typed so far.
#[derive(Clone, Copy, Debug, PartialEq, Eq, Structural)]
pub enum TimerState {
    Inactive(u32),
    Preparing(u32),
    BluetoothPreparing(u32),
    ExternalTimerPreparing(u32),
    Ready,
    BluetoothReady,
    ExternalTimerReady,
    Solving,
    BluetoothSolving,
    ExternalTimerSolving,
    ManualTimeEntry(u32),
    ManualTimeEntryDelay(u32),
    SolveComplete(u32),
}

/// The colors in which the time is shown.
#[derive(Clone, Copy, Debug, PartialEq, Eq, Structural)]
pub enum TimeColor {
    Content,
    BackgroundHighlight,
    Green,
}

/// Milliseconds as the timer counts them: modulo 2 to the power of 32.
pub open spec fn counted(elapsed: u128) -> nat {
    (elapsed % 0x1_0000_0000) as nat
}

impl TimerState {
    /// Whether a solve is under way or about to begin, `elapsed` milliseconds after
    /// the state began: not while the timer is inactive or done, and while it
    /// prepares only after more than 10 milliseconds.
    pub open spec fn spec_is_solving(self, elapsed: u128) -> bool {
        match self {
            TimerState::Inactive(_) | TimerState::SolveComplete(_) => false,
            TimerState::Preparing(_) => elapsed > 10,
            _ => true,
        }
    }

    /// The text of the time, `elapsed` milliseconds after the state began: the time
    /// of the last solve while the timer is inactive, done or has just begun to
    /// prepare; the typed digits as a time while a time is typed; zero while the
    /// timer is ready; and the time that has passed while it runs.
    pub open spec fn time_text(self, elapsed: u128) -> Seq<char> {
        match self {
            TimerState::Inactive(time) | TimerState::SolveComplete(time) => solve_time_text(
                time as nat,
            ),
            TimerState::ManualTimeEntry(digits) | TimerState::ManualTimeEntryDelay(digits) => {
                solve_time_text_ms(time_of_digits(digits as nat))
            },
            TimerState::Preparing(time) => if elapsed > 10 {
                solve_time_short_text(0)
            } else {
                solve_time_text(time as nat)
            },
            TimerState::Ready
            | TimerState::BluetoothReady
            | TimerState::ExternalTimerReady
            | TimerState::BluetoothPreparing(_)
            | TimerState::ExternalTimerPreparing(_) => solve_time_short_text(0),
            TimerState::Solving
            | TimerState::BluetoothSolving
            | TimerState::ExternalTimerSolving => solve_time_short_text(counted(elapsed)),
        }
    }

    /// The color of the time, `elapsed` milliseconds after the state began: green
    /// while the timer is ready, highlighted once it has prepared for more than 10
    /// milliseconds, and the color of the content otherwise.
    pub open spec fn time_color(self, elapsed: u128) -> TimeColor {
        match self {
            TimerState::Preparing(_) => if elapsed > 10 {
                TimeColor::BackgroundHighlight
            } else {
                TimeColor::Content
            },
            TimerState::Ready | TimerState::BluetoothReady | TimerState::ExternalTimerReady => {
                TimeColor::Green
            },
            _ => TimeColor::Content,
        }
    }

    /// The state after a digit is typed: typing begins from the inactive timer, and
    /// goes on while at most seven digits have been typed; no other state takes
    /// digits.
    pub open spec fn typed(self, digit: u32) -> TimerState {
        match self {
            TimerState::Inactive(_) => TimerState::ManualTimeEntryDelay(digit),
            TimerState::ManualTimeEntry(digits) => if digits <= 999999 {
                TimerState::ManualTimeEntryDelay((digits * 10 + digit) as u32)
            } else {
                self
            },
            _ => self,
        }
    }

    pub fn is_solving(&self, elapsed: u128) -> (r: bool)
        ensures
            r == self.spec_is_solving(elapsed),
    {
        match self {
            TimerState::Inactive(_) | TimerState::SolveComplete(_) => false,
            TimerState::Preparing(_) => elapsed > 10,
            _ => true,
        }
    }

    /// Reads typed digits as a time in milliseconds.
    pub fn digits_to_time(digits: u32) -> (r: u32)
        ensures
            r == time_of_digits(digits as nat),
    {
        let min = (digits / 100000) % 100;
        let sec = (digits / 1000) % 100;
        let msec = digits % 1000;
        min * 60000 + sec * 1000 + msec
    }

    /// Writes the time to show. A time of a solve must leave room for rounding.
    pub fn current_time_string(&self, elapsed: u128) -> (r: String)
        requires
            match *self {
                TimerState::Inactive(time)
                | TimerState::SolveComplete(time)
                | TimerState::Preparing(time) => time + 5 <= u32::MAX,
                _ => true,
            },
        ensures
            r@ == self.time_text(elapsed),
    {
        match self {
            TimerState::Inactive(time) | TimerState::SolveComplete(time) => solve_time_string(
                *time,
            ),
            TimerState::ManualTimeEntry(digits) | TimerState::ManualTimeEntryDelay(digits) => {
                solve_time_string_ms(Self::digits_to_time(*digits))
            },
            TimerState::Preparing(time) => {
                if self.is_solving(elapsed) {
                    solve_time_short_string(0)
                } else {
                    solve_time_string(*time)
                }
            },
            TimerState::Ready
            | TimerState::BluetoothReady
            | TimerState::ExternalTimerReady
            | TimerState::BluetoothPreparing(_)
            | TimerState::ExternalTimerPreparing(_) => solve_time_short_string(0),
            TimerState::Solving
            | TimerState::BluetoothSolving
            | TimerState::ExternalTimerSolving => solve_time_short_string(
                (elapsed % 0x1_0000_0000) as u32,
            ),
        }
    }

    pub fn current_time_color(&self, elapsed: u128) -> (r: TimeColor)
        ensures
            r == self.time_color(elapsed),
    {
        match self {
            TimerState::Preparing(_) => {
                if self.is_solving(elapsed) {
                    TimeColor::BackgroundHighlight
                } else {
                    TimeColor::Content
                }
            },
            TimerState::Ready | TimerState::BluetoothReady | TimerState::ExternalTimerReady => {
                TimeColor::Green
            },
            _ => TimeColor::Content,
        }
    }

    /// Takes a typed digit. The digits with the new one must fit the machine's
    /// numbers.
    pub fn update_for_numerical_input(&mut self, digit: u32)
        requires
            *old(self) matches TimerState::ManualTimeEntry(digits) ==> digits > 999999 || digits
                * 10 + digit <= u32::MAX,
        ensures
            *final(self) == old(self).typed(digit),
    {
        match *self {
            TimerState::Inactive(_) => {
                *self = TimerState::ManualTimeEntryDelay(digit);
            },
            TimerState::ManualTimeEntry(digits) => {
                if digits <= 999999 {
                    *self = TimerState::ManualTimeEntryDelay(digits * 10 + digit);
                }
            },
            _ => {},
        }
    }
}

} // verus!
