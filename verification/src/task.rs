//! Tasks that are run in a terminal.

pub mod expansion;
pub mod modal;
pub mod template;
