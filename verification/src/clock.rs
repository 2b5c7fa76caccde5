//! The wall-clock reading shown on the dashboard and its text.
use vstd::prelude::*;

use crate::text::{push_two_digits, two_digits};

verus! {

/// The local date and time fields the dashboard shows.
#[derive(Clone, Copy)]
pub struct ClockReading {
    /// Hour of the day, 0 to 23.
    pub hour: u32,
    /// Minute of the hour, 0 to 59.
    pub minute: u32,
    /// Month of the year, 1 to 12.
    pub month: u32,
    /// Day of the month, 1 to 31.
    pub day: u32,
}

impl ClockReading {
    /// Each field lies in its calendar range.
    pub open spec fn wf(&self) -> bool {
        &&& self.hour < 24
        &&& self.minute < 60
        &&& 1 <= self.month <= 12
        &&& 1 <= self.day <= 31
    }
}

/// The time of day as `HH:MM`, both fields zero-padded.
pub open spec fn time_spec(c: ClockReading) -> Seq<char> {
    two_digits(c.hour as nat) + seq![':'] + two_digits(c.minute as nat)
}

/// The date as `MM月DD日`, both fields zero-padded.
pub open spec fn date_spec(c: ClockReading) -> Seq<char> {
    two_digits(c.month as nat) + seq!['月'] + two_digits(c.day as nat) + seq!['日']
}

proof fn lemma_digit_code(d: nat)
    requires
        d < 10,
    ensures
        crate::text::digit_char(d) as int == 48 + d,
{
}

/// The time text is five characters: the tens and units of the hour, a
/// colon, the tens and units of the minute; the date text is the tens and
/// units of the month, 月, the tens and units of the day, 日. Each digit is
/// the ASCII code `48 + d` of its decimal digit `d`.
pub proof fn lemma_clock_text_digits(c: ClockReading)
    requires
        c.wf(),
    ensures
        time_spec(c).len() == 5,
        time_spec(c)[0] as int == 48 + c.hour / 10,
        time_spec(c)[1] as int == 48 + c.hour % 10,
        time_spec(c)[2] == ':',
        time_spec(c)[3] as int == 48 + c.minute / 10,
        time_spec(c)[4] as int == 48 + c.minute % 10,
        date_spec(c).len() == 6,
        date_spec(c)[0] as int == 48 + c.month / 10,
        date_spec(c)[1] as int == 48 + c.month % 10,
        date_spec(c)[2] == '月',
        date_spec(c)[3] as int == 48 + c.day / 10,
        date_spec(c)[4] as int == 48 + c.day % 10,
        date_spec(c)[5] == '日',
{
    lemma_digit_code((c.hour / 10) as nat);
    lemma_digit_code((c.hour % 10) as nat);
    lemma_digit_code((c.minute / 10) as nat);
    lemma_digit_code((c.minute % 10) as nat);
    lemma_digit_code((c.month / 10) as nat);
    lemma_digit_code((c.month % 10) as nat);
    lemma_digit_code((c.day / 10) as nat);
    lemma_digit_code((c.day % 10) as nat);
}

/// Reads the local date and time now, through `chrono::Local::now`, and
/// takes from it the hour (`Timelike::hour`), minute (`Timelike::minute`),
/// month (`Datelike::month`) and day (`Datelike::day`). chrono documents
/// their ranges (0 to 23, 0 to 59, 1 to 12, 1 to 31), which is all that is
/// stated: the reading itself depends on the moment and the time zone.
/// (`chrono::Utc::now`, under `Local::now`, panics when the system clock is
/// set before 1970; nothing a caller passes decides that.)
#[verifier::external_body]
pub(crate) fn local_clock() -> (c: ClockReading)
    ensures
        c.wf(),
{
    let now = chrono::Local::now();
    ClockReading {
        hour: chrono::Timelike::hour(&now),
        minute: chrono::Timelike::minute(&now),
        month: chrono::Datelike::month(&now),
        day: chrono::Datelike::day(&now),
    }
}

/// The time of day of a clock reading, as `HH:MM`.
pub fn time_text(c: &ClockReading) -> (s: String)
    requires
        c.wf(),
    ensures
        s@ == time_spec(*c),
{
    let mut s = String::new();
    push_two_digits(&mut s, c.hour);
    s.append(":");
    push_two_digits(&mut s, c.minute);
    proof {
        reveal_strlit(":");
    }
    s
}

/// The date of a clock reading, as `MM月DD日`.
pub fn date_text(c: &ClockReading) -> (s: String)
    requires
        c.wf(),
    ensures
        s@ == date_spec(*c),
{
    let mut s = String::new();
    push_two_digits(&mut s, c.month);
    s.append("月");
    push_two_digits(&mut s, c.day);
    s.append("日");
    proof {
        reveal_strlit("月");
        reveal_strlit("日");
    }
    s
}

} // verus!
