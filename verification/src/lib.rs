//! Exchange-rate observations published per business day, and the rule that
//! answers a query for a date, or a range of dates, from them: a date without
//! an observation is answered by the latest observation before it.

pub mod date;
pub mod observation;
pub mod request;
pub mod select;
pub mod theorems;

pub use crate::date::CivilDate;
pub use crate::observation::{Fx, Observation};
pub use crate::request::{retrieve_rates, Cli, Reply, Request, RequestError, RetrieveError};
pub use crate::select::{filter_rates, SelectError};
