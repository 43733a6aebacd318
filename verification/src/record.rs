//! What the exporter writes to its log.

use vstd::prelude::*;

verus! {

/// How much a log record matters.
#[derive(Debug, Clone, Copy, PartialEq, Eq, Structural)]
pub enum Level {
    Info,
    Warn,
    Error,
}

/// A log record without further fields.
#[derive(Debug, Clone, Copy)]
pub struct Record {
    pub level: Level,
    pub message: &'static str,
}

impl View for Record {
    type V = (Level, Seq<char>);

    open spec fn view(&self) -> (Level, Seq<char>) {
        (self.level, self.message@)
    }
}

} // verus!
