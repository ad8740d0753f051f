//! Due dates given as a day of the week.
use vstd::prelude::*;

verus! {

/// A day of the week.
#[derive(Debug, Clone, Copy, PartialEq, Eq, Structural)]
pub enum Weekday {
    Mon,
    Tue,
    Wed,
    Thu,
    Fri,
    Sat,
    Sun,
}

/// Why a due date could not be read.
#[derive(Debug, Clone, Copy, PartialEq, Eq, Structural)]
pub enum CliError {
    ParsingError,
}

/// The day's number, Monday being 1 and Sunday 7.
pub open spec fn day_number(d: Weekday) -> int {
    match d {
        Weekday::Mon => 1,
        Weekday::Tue => 2,
        Weekday::Wed => 3,
        Weekday::Thu => 4,
        Weekday::Fri => 5,
        Weekday::Sat => 6,
        Weekday::Sun => 7,
    }
}

/// The day that a lower-case word names, with its accepted abbreviations.
pub open spec fn weekday_named(s: Seq<char>) -> Option<Weekday> {
    if s == "mon"@ || s == "monday"@ {
        Some(Weekday::Mon)
    } else if s == "tue"@ || s == "tues"@ || s == "tu"@ || s == "tuesday"@ {
        Some(Weekday::Tue)
    } else if s == "wed"@ || s == "wednesday"@ {
        Some(Weekday::Wed)
    } else if s == "thu"@ || s == "thurs"@ || s == "thur"@ || s == "thursday"@ {
        Some(Weekday::Thu)
    } else if s == "fri"@ || s == "friday"@ {
        Some(Weekday::Fri)
    } else if s == "sat"@ || s == "saturday"@ || s == "sa"@ {
        Some(Weekday::Sat)
    } else if s == "sun"@ || s == "sunday"@ || s == "su"@ {
        Some(Weekday::Sun)
    } else {
        None
    }
}

/// What `str::to_lowercase` gives for `s`.
pub uninterp spec fn lower_of(s: Seq<char>) -> Seq<char>;

/// Relies on str::to_lowercase: the result depends on the characters alone.
#[verifier::external_body]
fn lowercase(s: &str) -> (r: String)
    ensures
        r@ == lower_of(s@),
{
    s.to_lowercase()
}

impl Weekday {
    /// The day's number, Monday being 1 and Sunday 7.
    pub fn number_from_monday(&self) -> (r: u32)
        ensures
            r == day_number(*self),
    {
        match self {
            Weekday::Mon => 1,
            Weekday::Tue => 2,
            Weekday::Wed => 3,
            Weekday::Thu => 4,
            Weekday::Fri => 5,
            Weekday::Sat => 6,
            Weekday::Sun => 7,
        }
    }
}

/// The number of days from `today` until the next `due` day: 0 when they
/// are the same day.
pub fn calculate_day_difference(today: Weekday, due: Weekday) -> (r: i64)
    ensures
        r == (day_number(due) - day_number(today) + 7) % 7,
        0 <= r < 7,
{
    let current_day = today.number_from_monday() as i64;
    let due_day = due.number_from_monday() as i64;
    (due_day - current_day + 7) % 7
}

fn is(s: &String, word: &str) -> (r: bool)
    ensures
        r == (s@ == word@),
{
    *s == String::from_str(word)
}

/// The day that the lower-case word `lower` names.
pub fn weekday_of_lowercase(lower: &String) -> (r: Result<Weekday, CliError>)
    ensures
        r == match weekday_named(lower@) {
            Some(d) => Ok(d),
            None => Err(CliError::ParsingError),
        },
{
    if is(lower, "mon") || is(lower, "monday") {
        Ok(Weekday::Mon)
    } else if is(lower, "tue") || is(lower, "tues") || is(lower, "tu") || is(lower, "tuesday") {
        Ok(Weekday::Tue)
    } else if is(lower, "wed") || is(lower, "wednesday") {
        Ok(Weekday::Wed)
    } else if is(lower, "thu") || is(lower, "thurs") || is(lower, "thur") || is(lower, "thursday") {
        Ok(Weekday::Thu)
    } else if is(lower, "fri") || is(lower, "friday") {
        Ok(Weekday::Fri)
    } else if is(lower, "sat") || is(lower, "saturday") || is(lower, "sa") {
        Ok(Weekday::Sat)
    } else if is(lower, "sun") || is(lower, "sunday") || is(lower, "su") {
        Ok(Weekday::Sun)
    } else {
        Err(CliError::ParsingError)
    }
}

/// The day that `string` names, in any letter case.
pub fn string_to_weekday(string: &str) -> (r: Result<Weekday, CliError>)
    ensures
        r == match weekday_named(lower_of(string@)) {
            Some(d) => Ok(d),
            None => Err(CliError::ParsingError),
        },
{
    let lower = lowercase(string);
    weekday_of_lowercase(&lower)
}

} // verus!
