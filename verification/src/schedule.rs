//! When a scheduled run takes place.
//!
//! A schedule can name no scope, no deletion for good and no administrator
//! rights: an unattended run cleans what is safe, by way of the trash.

use crate::text::{push_decimal, two_digits};
use vstd::prelude::*;

verus! {

/// How often a scheduled run takes place.
#[derive(Debug, Clone, Copy, PartialEq, Eq, Structural)]
pub enum ScheduleFrequency {
    /// Every day.
    Daily,
    /// Every Sunday.
    Weekly,
}

/// When a scheduled run takes place.
#[derive(Debug, Clone, Copy, PartialEq, Eq, Structural)]
pub struct ScheduleSpec {
    /// How often.
    pub frequency: ScheduleFrequency,
    /// The hour, in local time.
    pub hour: u8,
    /// The minute.
    pub minute: u8,
}

/// Whether a scheduled run is set up.
#[derive(Debug, PartialEq, Eq)]
pub struct ScheduleStatus {
    /// It is set up.
    pub installed: bool,
    /// What the system says of it, where it says anything.
    pub detail: Option<String>,
}

impl Clone for ScheduleStatus {
    fn clone(&self) -> (r: ScheduleStatus)
        ensures
            r == *self,
    {
        ScheduleStatus {
            installed: self.installed,
            detail: match &self.detail {
                Some(text) => Some(text.clone()),
                None => None,
            },
        }
    }
}

fn push_two_digits(out: &mut String, n: u8)
    ensures
        final(out)@ == old(out)@ + two_digits(n as nat),
{
    if n < 10 {
        out.push('0');
    }
    push_decimal(out, n as u64);
    assert(out@ =~= old(out)@ + two_digits(n as nat));
}

impl ScheduleSpec {
    /// The time of day as hours and minutes in two digits each.
    pub open spec fn time_text(self) -> Seq<char> {
        two_digits(self.hour as nat).push(':') + two_digits(self.minute as nat)
    }

    /// The time of day as hours and minutes in two digits each.
    pub fn start_time(&self) -> (r: String)
        ensures
            r@ == self.time_text(),
    {
        let mut r = String::new();
        push_two_digits(&mut r, self.hour);
        r.push(':');
        push_two_digits(&mut r, self.minute);
        assert(r@ =~= self.time_text());
        r
    }
}

/// The time of day is five characters, the hour before the colon and the minute
/// after it.
pub proof fn times_of_day_have_five_characters(spec: ScheduleSpec)
    requires
        spec.hour < 24,
        spec.minute < 60,
    ensures
        spec.time_text().len() == 5,
        spec.time_text()[2] == ':',
        crate::text::value_of(spec.time_text().take(2)) == spec.hour,
        crate::text::value_of(spec.time_text().skip(3)) == spec.minute,
{
    crate::text::two_digits_have_the_value(spec.hour as nat);
    crate::text::two_digits_have_the_value(spec.minute as nat);
    assert(spec.time_text().take(2) =~= two_digits(spec.hour as nat));
    assert(spec.time_text().skip(3) =~= two_digits(spec.minute as nat));
}

} // verus!
