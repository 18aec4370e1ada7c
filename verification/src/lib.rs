//! A zero-copy parser for iCalendar text: line unfolding, the content-line
//! grammar and the nested calendar, event, alarm and timezone blocks; and
//! the measures by which a day's events are laid out on a display.
//!
//! Every string in a parsed tree is a slice of the text that was handed in.
//! The contracts speak of texts as sequences of characters and of parsed
//! values through their views: each parser returns exactly what the spec
//! function of its block gives for the characters of its input.
//!
//! A document is unfolded first and parsed then:
//!
//! ```text
//! let text = unfold_lines(raw);
//! let (rest, calendar) = parse_vcalendar(&text)?;
//! ```

pub mod alarm;
pub mod calendar;
pub mod error;
pub mod event;
pub mod laws;
pub mod layout;
pub mod line;
pub mod model;
pub mod removal;
pub mod text;
pub mod timezone;
pub mod unfold;

pub use alarm::parse_valarm;
pub use calendar::parse_vcalendar;
pub use error::{ErrorKind, ParseError};
pub use event::{make_datetime, parse_vevent};
pub use line::{content_line, Property};
pub use model::{DateTime, VAlarm, VCalendar, VEvent, VTimezone};
pub use timezone::parse_vtimezone;
pub use unfold::unfold_lines;
