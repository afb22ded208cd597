//! Queries: what to ask the data source for, and what its reply amounts to.
//!
//! A query is answered in two steps around one fetch. [`Cli::request`] says
//! what to fetch: the series, and a window of dates that starts some days
//! before the start date, so that a start date without an observation still
//! has an earlier one to fall back on. [`retrieve_rates`] turns what came
//! back into the answer.

use crate::date::CivilDate;
use crate::observation::Observation;
use crate::select::{answers, filter_rates, in_reach, SelectError};
use vstd::prelude::*;

verus! {

/// How many days before the start date the fetched window begins. Ten days
/// span weekends and the usual runs of holidays.
pub const LOOK_BACK_DAYS: i16 = 10;

/// A query: a single date, or the start and end of a range, and the
/// direction of the rate.
#[derive(Clone, Copy, Debug)]
pub struct Cli {
    /// A single date, or the start date of the range.
    pub start_date: CivilDate,
    /// The end date of the range.
    pub end_date: Option<CivilDate>,
    /// Ask for the rate from CAD to USD instead of USD to CAD.
    pub reverse: bool,
}

/// What to fetch for a query.
#[derive(Debug)]
pub struct Request {
    /// The address of the series.
    pub url: String,
    /// The first date of the window, as `YYYY-MM-DD`.
    pub start_date: String,
    /// The last date of the window, where the query is for a range.
    pub end_date: Option<String>,
}

/// Why there is nothing to fetch for a query.
#[derive(Clone, Copy, Debug, PartialEq, Eq, Structural)]
pub enum RequestError {
    /// The end date is before the start date.
    EndBeforeStart,
    /// The window would begin before the first date there is.
    WindowOutOfRange,
}

/// What the data source sent back.
#[derive(Debug)]
pub enum Reply {
    /// The observations of the window.
    Observations(Vec<Observation>),
    /// A refusal, with the text that came with it.
    Refused(String),
}

/// Why a query has no answer.
#[derive(Debug)]
pub enum RetrieveError {
    /// The end date is before the start date.
    EndBeforeStart,
    /// The data source refused; its text is handed on.
    Refused(String),
    /// The data source sent no observations.
    NoObservations,
    /// Every observation sent is dated after the start date.
    NothingInReach,
}

/// The character that stands for a number from 0 to 9.
pub open spec fn digit(n: int) -> char {
    seq!['0', '1', '2', '3', '4', '5', '6', '7', '8', '9'][n]
}

/// A number from 0 to 99 in two digits.
pub open spec fn two_digits(n: int) -> Seq<char> {
    seq![digit(n / 10), digit(n % 10)]
}

/// A number from 0 to 9999 in four digits.
pub open spec fn four_digits(n: int) -> Seq<char> {
    two_digits(n / 100) + two_digits(n % 100)
}

/// A date written as `YYYY-MM-DD`; a year before zero as `-00YYYY`.
pub open spec fn iso_text(date: CivilDate) -> Seq<char> {
    let year = if date.year < 0 {
        seq!['-', '0', '0'] + four_digits(-date.year)
    } else {
        four_digits(date.year as int)
    };
    year + seq!['-'] + two_digits(date.month as int) + seq!['-'] + two_digits(date.day as int)
}

/// The date that lies `days` days before the day `year`-`month`-`day`, as
/// year, month and day, or `None` where the calendar does not go back that
/// far.
pub uninterp spec fn days_earlier(year: int, month: int, day: int, days: int) -> Option<
    (int, int, int),
>;

/// The date `days` days before `date`, if the calendar goes back that far.
pub open spec fn earlier(date: CivilDate, days: int) -> Option<CivilDate> {
    match days_earlier(date.year as int, date.month as int, date.day as int, days) {
        Some((year, month, day)) => Some(
            CivilDate { year: year as i16, month: month as i8, day: day as i8 },
        ),
        None => None,
    }
}

/// `jiff::civil::Date::checked_sub`, on the date that `jiff::civil::date`
/// makes of the fields, with the span that `jiff::ToSpan::days` makes of
/// `days`. Believed of it, not proved: the outcome depends on the date and
/// the number of days alone, which is what the name [`days_earlier`] stands
/// for, and a date that comes back is a day that exists. Nothing comes back
/// where `jiff` finds the date out of its range.
#[verifier::external_body]
fn shift_back(date: CivilDate, days: i16) -> (r: Option<CivilDate>)
    requires
        date.is_valid(),
    ensures
        days_earlier(date.year as int, date.month as int, date.day as int, days as int) == match r {
            Some(e) => Some((e.year as int, e.month as int, e.day as int)),
            None => None,
        },
        r matches Some(e) ==> e.is_valid(),
{
    match jiff::civil::date(date.year, date.month, date.day).checked_sub(jiff::ToSpan::days(days)) {
        Ok(e) => Some(CivilDate { year: e.year(), month: e.month(), day: e.day() }),
        Err(_) => None,
    }
}

/// `to_string` on the `jiff::civil::Date` that `jiff::civil::date` makes of
/// the fields. Believed of it, not proved: the text is the year in four
/// digits, behind `-00` if it is negative, then month and day in two digits
/// each, with `-` between them.
#[verifier::external_body]
fn date_text(date: CivilDate) -> (text: String)
    requires
        date.is_valid(),
    ensures
        text@ == iso_text(date),
{
    jiff::civil::date(date.year, date.month, date.day).to_string()
}

/// The address of the series of rates: USD in CAD, or CAD in USD when
/// `reverse` is set.
pub open spec fn series_address(reverse: bool) -> Seq<char> {
    if reverse {
        "https://www.bankofcanada.ca/valet/observations/FXCADUSD/json"@
    } else {
        "https://www.bankofcanada.ca/valet/observations/FXUSDCAD/json"@
    }
}

/// The address of the series of rates.
pub fn series_url(reverse: bool) -> (url: &'static str)
    ensures
        url@ == series_address(reverse),
{
    if reverse {
        "https://www.bankofcanada.ca/valet/observations/FXCADUSD/json"
    } else {
        "https://www.bankofcanada.ca/valet/observations/FXUSDCAD/json"
    }
}

impl Cli {
    /// The dates of the query are days that exist.
    pub open spec fn wf(&self) -> bool {
        &&& self.start_date.is_valid()
        &&& self.end_date matches Some(end) ==> end.is_valid()
    }

    /// The query names an end date that is before its start date.
    pub open spec fn end_precedes_start(&self) -> bool {
        self.end_date matches Some(end) && end.before(self.start_date)
    }

    /// The query is for a range of dates.
    pub open spec fn is_range(&self) -> bool {
        self.end_date.is_some()
    }

    /// Whether the query names an end date that is before its start date.
    pub fn has_end_before_start(&self) -> (r: bool)
        ensures
            r == self.end_precedes_start(),
    {
        match &self.end_date {
            Some(end) => end.is_before(&self.start_date),
            None => false,
        }
    }

    /// What to fetch, given the first date of the window.
    ///
    /// A query whose end is before its start is turned down first; then one
    /// whose window has no first date. Otherwise the request names the
    /// series, the first date of the window and, for a range, the end date as
    /// the window's last.
    pub fn request_from(&self, window_start: Option<CivilDate>) -> (r: Result<
        Request,
        RequestError,
    >)
        requires
            self.wf(),
            window_start matches Some(first) ==> first.is_valid(),
        ensures
            self.end_precedes_start() ==> r matches Err(RequestError::EndBeforeStart),
            !self.end_precedes_start() && window_start.is_none() ==> r matches Err(
                RequestError::WindowOutOfRange,
            ),
            !self.end_precedes_start() && window_start.is_some() ==> {
                &&& r matches Ok(request)
                &&& request.url@ == series_address(self.reverse)
                &&& request.start_date@ == iso_text(window_start.unwrap())
                &&& match self.end_date {
                    Some(end) => request.end_date matches Some(text) && text@ == iso_text(end),
                    None => request.end_date.is_none(),
                }
            },
    {
        if self.has_end_before_start() {
            return Err(RequestError::EndBeforeStart);
        }
        match window_start {
            None => Err(RequestError::WindowOutOfRange),
            Some(first) => {
                let end_date = match self.end_date {
                    Some(end) => Some(date_text(end)),
                    None => None,
                };
                Ok(
                    Request {
                        url: series_url(self.reverse).to_owned(),
                        start_date: date_text(first),
                        end_date,
                    },
                )
            },
        }
    }

    /// What to fetch for the query: the series, from [`LOOK_BACK_DAYS`] days
    /// before the start date, up to the end date if there is one.
    pub fn request(&self) -> (r: Result<Request, RequestError>)
        requires
            self.wf(),
        ensures
            self.end_precedes_start() ==> r matches Err(RequestError::EndBeforeStart),
            !self.end_precedes_start() ==> match earlier(self.start_date, LOOK_BACK_DAYS as int) {
                None => r matches Err(RequestError::WindowOutOfRange),
                Some(first) => {
                    &&& r matches Ok(request)
                    &&& request.url@ == series_address(self.reverse)
                    &&& request.start_date@ == iso_text(first)
                    &&& match self.end_date {
                        Some(end) => request.end_date matches Some(text) && text@ == iso_text(end),
                        None => request.end_date.is_none(),
                    }
                },
            },
    {
        self.request_from(shift_back(self.start_date, LOOK_BACK_DAYS))
    }
}

/// The answer to a query, from what the data source sent back.
///
/// A query whose end is before its start has no answer, whatever came back.
/// A refusal is handed on with its text. Observations are selected from as
/// [`filter_rates`] does, for a range if the query names an end date.
pub fn retrieve_rates(args: &Cli, reply: Reply) -> (r: Result<Vec<Observation>, RetrieveError>)
    ensures
        args.end_precedes_start() ==> r matches Err(RetrieveError::EndBeforeStart),
        !args.end_precedes_start() ==> match reply {
            Reply::Refused(text) => r matches Err(RetrieveError::Refused(t)) && t == text,
            Reply::Observations(observations) => {
                &&& r.is_ok() <==> in_reach(observations@, args.start_date)
                &&& match r {
                    Ok(out) => answers(observations@, args.start_date, args.is_range(), out@),
                    Err(RetrieveError::NoObservations) => observations@.len() == 0,
                    Err(RetrieveError::NothingInReach) => observations@.len() > 0,
                    Err(_) => false,
                }
            },
        },
{
    if args.has_end_before_start() {
        return Err(RetrieveError::EndBeforeStart);
    }
    match reply {
        Reply::Refused(text) => Err(RetrieveError::Refused(text)),
        Reply::Observations(observations) => {
            match filter_rates(args.start_date, args.end_date.is_some(), observations) {
                Ok(out) => Ok(out),
                Err(SelectError::NoObservations) => Err(RetrieveError::NoObservations),
                Err(SelectError::NothingInReach) => Err(RetrieveError::NothingInReach),
            }
        },
    }
}

} // verus!
