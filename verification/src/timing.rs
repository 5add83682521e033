use crate::common::Move;
use crate::notation::push_char;
use vstd::prelude::*;

verus! {

/// The character of a decimal digit.
pub open spec fn digit_char(d: int) -> char {
    if d == 0 {
        '0'
    } else if d == 1 {
        '1'
    } else if d == 2 {
        '2'
    } else if d == 3 {
        '3'
    } else if d == 4 {
        '4'
    } else if d == 5 {
        '5'
    } else if d == 6 {
        '6'
    } else if d == 7 {
        '7'
    } else if d == 8 {
        '8'
    } else {
        '9'
    }
}

/// A number in decimal, without leading zeros.
pub open spec fn decimal(n: nat) -> Seq<char>
    decreases n,
{
    if n < 10 {
        seq![digit_char(n as int)]
    } else {
        decimal(n / 10).push(digit_char((n % 10) as int))
    }
}

/// A number below 100 in two decimal digits.
pub open spec fn two_digits(n: nat) -> Seq<char> {
    seq![digit_char((n / 10) as int), digit_char((n % 10) as int)]
}

/// A number below 1000 in three decimal digits.
pub open spec fn three_digits(n: nat) -> Seq<char> {
    seq![
        digit_char((n / 100) as int),
        digit_char(((n / 10) % 10) as int),
        digit_char((n % 10) as int),
    ]
}

/// A time in milliseconds, rounded to hundredths of a second, as seconds with two
/// places, and with the minutes in front where it is more than a minute.
pub open spec fn solve_time_text(time: nat) -> Seq<char> {
    let t = (time + 5) / 10;
    if t > 6000 {
        decimal(t / 6000) + seq![':'] + two_digits((t % 6000) / 100) + seq!['.'] + two_digits(
            t % 100,
        )
    } else {
        decimal(t / 100) + seq!['.'] + two_digits(t % 100)
    }
}

/// A time in milliseconds as seconds with three places, and with the minutes in
/// front where it is more than a minute.
pub open spec fn solve_time_text_ms(time: nat) -> Seq<char> {
    if time > 60000 {
        decimal(time / 60000) + seq![':'] + two_digits((time % 60000) / 1000) + seq!['.']
            + three_digits(time % 1000)
    } else {
        decimal(time / 1000) + seq!['.'] + three_digits(time % 1000)
    }
}

/// A time in milliseconds, cut to tenths of a second, as seconds with one place,
/// and with the minutes in front where it is more than a minute.
pub open spec fn solve_time_short_text(time: nat) -> Seq<char> {
    let t = time / 100;
    if t > 600 {
        decimal(t / 600) + seq![':'] + two_digits((t % 600) / 10) + seq!['.'] + seq![
            digit_char((t % 10) as int),
        ]
    } else {
        decimal(t / 10) + seq!['.'] + seq![digit_char((t % 10) as int)]
    }
}

/// The time in milliseconds that typed digits stand for: the last three digits are
/// milliseconds, the two before them seconds, and the two before those minutes.
pub open spec fn time_of_digits(digits: nat) -> nat {
    ((digits / 100000) % 100) * 60000 + ((digits / 1000) % 100) * 1000 + digits % 1000
}

/// The character of a decimal digit.
fn digit(d: u32) -> (r: char)
    requires
        d < 10,
    ensures
        r == digit_char(d as int),
{
    match d {
        0 => '0',
        1 => '1',
        2 => '2',
        3 => '3',
        4 => '4',
        5 => '5',
        6 => '6',
        7 => '7',
        8 => '8',
        _ => '9',
    }
}

/// Appends a number in decimal.
fn append_decimal(s: &mut String, n: u32)
    ensures
        final(s)@ == old(s)@ + decimal(n as nat),
    decreases n,
{
    if n >= 10 {
        append_decimal(s, n / 10);
    }
    push_char(s, digit(n % 10));
    assert(s@ =~= old(s)@ + decimal(n as nat));
}

/// Appends a number below 100 in two digits.
fn append_two_digits(s: &mut String, n: u32)
    requires
        n < 100,
    ensures
        final(s)@ == old(s)@ + two_digits(n as nat),
{
    push_char(s, digit(n / 10));
    push_char(s, digit(n % 10));
    assert(s@ =~= old(s)@ + two_digits(n as nat));
}

/// Appends a number below 1000 in three digits.
fn append_three_digits(s: &mut String, n: u32)
    requires
        n < 1000,
    ensures
        final(s)@ == old(s)@ + three_digits(n as nat),
{
    push_char(s, digit(n / 100));
    push_char(s, digit((n / 10) % 10));
    push_char(s, digit(n % 10));
    assert(s@ =~= old(s)@ + three_digits(n as nat));
}

/// Writes a time in milliseconds with hundredths of a second.
pub fn solve_time_string(time: u32) -> (r: String)
    requires
        time + 5 <= u32::MAX,
    ensures
        r@ == solve_time_text(time as nat),
{
    let time = (time + 5) / 10;
    let mut s = String::new();
    if time > 6000 {
        append_decimal(&mut s, time / 6000);
        push_char(&mut s, ':');
        append_two_digits(&mut s, (time % 6000) / 100);
        push_char(&mut s, '.');
        append_two_digits(&mut s, time % 100);
    } else {
        append_decimal(&mut s, time / 100);
        push_char(&mut s, '.');
        append_two_digits(&mut s, time % 100);
    }
    s
}

/// Writes a time in milliseconds with thousandths of a second.
pub fn solve_time_string_ms(time: u32) -> (r: String)
    ensures
        r@ == solve_time_text_ms(time as nat),
{
    let mut s = String::new();
    if time > 60000 {
        append_decimal(&mut s, time / 60000);
        push_char(&mut s, ':');
        append_two_digits(&mut s, (time % 60000) / 1000);
        push_char(&mut s, '.');
        append_three_digits(&mut s, time % 1000);
    } else {
        append_decimal(&mut s, time / 1000);
        push_char(&mut s, '.');
        append_three_digits(&mut s, time % 1000);
    }
    s
}

/// Writes a time in milliseconds with tenths of a second.
pub fn solve_time_short_string(time: u32) -> (r: String)
    ensures
        r@ == solve_time_short_text(time as nat),
{
    let time = time / 100;
    let mut s = String::new();
    if time > 600 {
        append_decimal(&mut s, time / 600);
        push_char(&mut s, ':');
        append_two_digits(&mut s, (time % 600) / 10);
        push_char(&mut s, '.');
        push_char(&mut s, digit(time % 10));
    } else {
        append_decimal(&mut s, time / 10);
        push_char(&mut s, '.');
        push_char(&mut s, digit(time % 10));
    }
    s
}

/// The colors of the steps of a solve.
#[derive(Clone, Copy, Debug, PartialEq, Eq, Structural)]
pub enum StepColor {
    Red,
    Blue,
    Yellow,
    Green,
}

/// The color of the step with a given number: red, blue, yellow and green in turn.
pub open spec fn step_color(idx: nat) -> StepColor {
    if idx % 4 == 0 {
        StepColor::Red
    } else if idx % 4 == 1 {
        StepColor::Blue
    } else if idx % 4 == 2 {
        StepColor::Yellow
    } else {
        StepColor::Green
    }
}

/// The color in which a step of a solve is shown.
pub fn color_for_step_index(idx: usize) -> (r: StepColor)
    ensures
        r == step_color(idx as nat),
{
    match idx % 4 {
        0 => StepColor::Red,
        1 => StepColor::Blue,
        2 => StepColor::Yellow,
        _ => StepColor::Green,
    }
}

/// Number of moves on each line when a scramble is broken into `line_count` lines.
pub open spec fn moves_per_line(len: int, line_count: int) -> int {
    (len + line_count - 1) / line_count
}

/// The lines of a scramble broken into lines of `per_line` moves: line `i` holds the
/// moves from `i * per_line` on, and the last line what is left.
pub open spec fn line_of(scramble: Seq<Move>, per_line: int, i: int) -> Seq<Move> {
    scramble.subrange(
        i * per_line,
        if (i + 1) * per_line < scramble.len() {
            (i + 1) * per_line
        } else {
            scramble.len() as int
        },
    )
}

/// Breaks a scramble into at most `line_count` lines of equal length, but for the
/// last.
pub fn scramble_lines(scramble: &[Move], line_count: usize) -> (r: Vec<Vec<Move>>)
    requires
        line_count > 0,
        scramble@.len() > 0,
        scramble@.len() + line_count <= usize::MAX,
    ensures
        r@.len() * moves_per_line(scramble@.len() as int, line_count as int) >= scramble@.len(),
        (r@.len() - 1) * moves_per_line(scramble@.len() as int, line_count as int)
            < scramble@.len(),
        forall|i: int|
            0 <= i < r@.len() ==> (#[trigger] r@[i])@ == line_of(
                scramble@,
                moves_per_line(scramble@.len() as int, line_count as int),
                i,
            ),
{
    let per_line = (scramble.len() + line_count - 1) / line_count;
    assert(per_line >= 1) by (nonlinear_arith)
        requires
            per_line == (scramble@.len() + line_count - 1) / (line_count as int),
            scramble@.len() >= 1,
            line_count >= 1,
    ;
    let mut lines: Vec<Vec<Move>> = Vec::new();
    let mut start: usize = 0;
    assert(lines@.len() * per_line == 0) by (nonlinear_arith)
        requires
            lines@.len() == 0,
    ;
    while start < scramble.len()
        invariant
            per_line >= 1,
            per_line == moves_per_line(scramble@.len() as int, line_count as int),
            start == lines@.len() * per_line || start == scramble@.len(),
            start <= scramble@.len(),
            lines@.len() * per_line >= start,
            lines@.len() > 0 ==> (lines@.len() - 1) * per_line < scramble@.len(),
            start < scramble@.len() ==> start == lines@.len() * per_line,
            forall|i: int|
                0 <= i < lines@.len() ==> (#[trigger] lines@[i])@ == line_of(
                    scramble@,
                    per_line as int,
                    i,
                ),
        decreases scramble@.len() - start,
    {
        let end = if scramble.len() - start > per_line {
            start + per_line
        } else {
            scramble.len()
        };
        let mut line: Vec<Move> = Vec::new();
        let mut k: usize = start;
        while k < end
            invariant
                start <= k <= end,
                end <= scramble@.len(),
                line@ == scramble@.subrange(start as int, k as int),
            decreases end - k,
        {
            line.push(scramble[k]);
            proof {
                assert(scramble@.subrange(start as int, k + 1) =~= scramble@.subrange(
                    start as int,
                    k as int,
                ).push(scramble@[k as int]));
            }
            k += 1;
        }
        proof {
            let i = lines@.len() as int;
            assert((i + 1) * per_line == i * per_line + per_line) by (nonlinear_arith);
            assert(line@ == line_of(scramble@, per_line as int, i));
            assert(i * per_line < scramble@.len());
        }
        lines.push(line);
        start = end;
    }
    lines
}

/// How the day of a solve is written, by the number of days that it lies back.
#[derive(Clone, Copy, Debug, PartialEq, Eq, Structural)]
pub enum DayStyle {
    /// The day is today: only the time of day is written.
    Today,
    /// The day was yesterday.
    Yesterday,
    /// The day is less than a week back: the day of the week is written.
    Weekday,
    /// The day is less than 365 days back: the month and the day are written.
    MonthAndDay,
    /// The day is further back, or lies ahead: the year is written too.
    MonthDayAndYear,
}

/// How a day that lies `days` days back is written.
pub open spec fn day_style(days: int) -> DayStyle {
    if days == 0 {
        DayStyle::Today
    } else if days == 1 {
        DayStyle::Yesterday
    } else if 2 <= days <= 6 {
        DayStyle::Weekday
    } else if 7 <= days <= 364 {
        DayStyle::MonthAndDay
    } else {
        DayStyle::MonthDayAndYear
    }
}

/// How the date of a solve is written in full, by the number of days that it lies
/// back.
pub fn date_style(days: i64) -> (r: DayStyle)
    ensures
        r == day_style(days as int),
{
    if days == 0 {
        DayStyle::Today
    } else if days == 1 {
        DayStyle::Yesterday
    } else if 2 <= days && days <= 6 {
        DayStyle::Weekday
    } else if 7 <= days && days <= 364 {
        DayStyle::MonthAndDay
    } else {
        DayStyle::MonthDayAndYear
    }
}

/// How the day of a solve is written in short, by the number of days that it lies
/// back: with the month and the day, and with the year where it is 365 days back or
/// more, or lies ahead.
pub fn short_day_style(days: i64) -> (r: DayStyle)
    ensures
        r == (if 0 <= days <= 364 {
            DayStyle::MonthAndDay
        } else {
            DayStyle::MonthDayAndYear
        }),
{
    if 0 <= days && days <= 364 {
        DayStyle::MonthAndDay
    } else {
        DayStyle::MonthDayAndYear
    }
}

} // verus!
