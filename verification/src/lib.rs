//! Pay events out of a column-aligned text report, and into CSV.
//!
//! A report holds any number of tables between other text. [`segment`] finds
//! them, [`table`] reads the rows of each, [`event`] reads one row by the fixed
//! offsets of [`layout`], and [`EventTable::to_csv`] writes all events out.
//!
//! Amounts are carried as the text that the report holds for them: reading them
//! as numbers and rounding them for display takes floating point, which lies
//! outside what is verified here, and is left to the caller.

pub mod event;
pub mod layout;
pub mod numeral;
pub mod segment;
pub mod table;
pub mod text;
pub mod time;

pub use event::Event;
pub use table::EventTable;
pub use time::Time;
