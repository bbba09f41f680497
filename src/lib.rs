//! Cron schedule expressions: parsing into a structured model, computing the
//! next instant at which a schedule fires, and describing it in English.
pub mod calendar;
pub mod cron;
pub mod describe;
pub mod engine;
pub mod laws;
pub mod parser;
pub mod random;
pub mod text;

pub use calendar::{is_leap_year, max_days, DateTime, MAX_YEAR, MIN_YEAR};
pub use cron::{DayOfMonth, DayOfWeek, Hour, Minute, Month, Schedule, Value};
pub use describe::{day_of_week_string, human_readable, join_oxford, month_string, ordinal};
pub use engine::{next_occurrence, next_value, EngineError};
pub use parser::{day_of_month, day_of_week, hour, minute, month, ErrorKind, FieldKind, ParseError};
pub use random::{random_value, value_from_draws};
