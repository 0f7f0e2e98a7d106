//! Per-process allowed execution windows: the rule grammar and its parser,
//! the configuration parser, and the decision of whether a process may run
//! at a given moment.

pub mod config;
pub mod error;
pub mod grammar;
pub mod laws;
pub mod rules;
pub mod scan;
pub mod text;
pub mod time;

pub use config::{parse_config_text, Configuration, DEFAULT_CHECK_INTERVAL};
pub use error::SwytError;
pub use grammar::parse_rules_text;
pub use rules::{is_allowed, Period, Rule, RuleStore};
pub use scan::{process_rules, ProcessEntry};
pub use time::{DaySet, Moment, TimeOfDay, Weekday};
