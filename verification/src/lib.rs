//! Dispatch of one command to machines addressed by a grid coordinate:
//! target selection, task status tracking, report ordering, and the
//! decoding of browser cookie stores.

pub mod action;
pub mod cipher;
pub mod cookies;
pub mod error;
pub mod grid;
pub mod report;
pub mod text;
pub mod vault;
pub mod worker;
