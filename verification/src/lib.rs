//! Core of a status-bar weather and satellite-visibility injector.
//!
//! The crate augments a line-oriented status-bar protocol stream: each
//! incoming line that decodes as an array of status records gets one extra
//! record spliced in at a configurable position, and every other line passes
//! through unchanged.  The text of the injected record is produced by
//! rendering a template against a property store that is fed by weather and
//! visibility data, and a small state machine decides which visibility level
//! is announced and when the user is notified.

pub mod i3status;
pub mod level;
pub mod notify;
pub mod numfmt;
pub mod props;
pub mod records;
pub mod spot;
pub mod strutil;
pub mod timefmt;
pub mod weather;
