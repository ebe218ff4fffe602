//! The wall-clock time of a log entry.

use crate::text::{decimal, push_decimal, push_two_digits, two_digits};
use chrono::{Datelike, Local, Timelike};
use vstd::prelude::*;
use vstd::string::*;

verus! {

/// A day of a month and a time of that day, in local time.
#[derive(Debug)]
pub struct TimeStamp {
    pub day: u32,
    /// The name of the month.
    pub month: String,
    pub hours: u32,
    pub minutes: u32,
    pub seconds: u32,
}

impl Clone for TimeStamp {
    fn clone(&self) -> (r: TimeStamp)
        ensures
            r == (TimeStamp { month: r.month, ..*self }),
            r.month@ == self.month@,
    {
        TimeStamp {
            day: self.day,
            month: self.month.clone(),
            hours: self.hours,
            minutes: self.minutes,
            seconds: self.seconds,
        }
    }
}

impl TimeStamp {
    /// The numbers are those of a calendar day and of a time of day.
    pub open spec fn valid(&self) -> bool {
        &&& 1 <= self.day <= 31
        &&& self.hours <= 23
        &&& self.minutes <= 59
        &&& self.seconds <= 59
    }

    /// The stamp as a log entry shows it: day, name of the month, and the
    /// time with two digits for each part.
    pub open spec fn text(&self) -> Seq<char> {
        decimal(self.day as nat) + seq![' '] + self.month@ + seq![':', ' '] + two_digits(
            self.hours as nat,
        ) + seq![':'] + two_digits(self.minutes as nat) + seq![':'] + two_digits(
            self.seconds as nat,
        )
    }

    /// The local time at the moment of the call, read with
    /// `chrono::Local::now`. Believed, not proved: the day, hour, minute and
    /// second that chrono's `Datelike` and `Timelike` give lie in the ranges
    /// of a calendar day and of a time of day. Nothing is claimed of the name
    /// of the month, which chrono's `format` writes for `%B`.
    #[verifier::external_body]
    pub fn new() -> (stamp: TimeStamp)
        ensures
            stamp.valid(),
    {
        let current_time = Local::now();
        TimeStamp {
            day: current_time.day(),
            month: current_time.format("%B").to_string(),
            hours: current_time.hour(),
            minutes: current_time.minute(),
            seconds: current_time.second(),
        }
    }

    /// The stamp as a log entry shows it.
    pub fn print(&self) -> (text: String)
        ensures
            text@ == self.text(),
    {
        let mut text = String::new();
        push_decimal(&mut text, self.day as u64);
        text.push(' ');
        text.append(self.month.as_str());
        text.push(':');
        text.push(' ');
        push_two_digits(&mut text, self.hours as u64);
        text.push(':');
        push_two_digits(&mut text, self.minutes as u64);
        text.push(':');
        push_two_digits(&mut text, self.seconds as u64);
        assert(text@ =~= self.text());
        text
    }
}

} // verus!
