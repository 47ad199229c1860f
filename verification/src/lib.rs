//! Decisions of a log-driven recovery engine: which rules are active, which rule
//! answers an incident, which command repairs it and when the repair is believed.
//!
//! The modules hold no input or output of their own. A caller reads files, runs
//! commands and reads the clock, hands the outcomes over as plain values, and
//! carries out what comes back.

pub mod catalog;
pub mod command;
pub mod cooldown;
pub mod engine;
pub mod file_order;
pub mod incident;
pub mod loading;
pub mod matching;
pub mod paths;
pub mod recovery;
pub mod rule;
pub mod sorting;
pub mod tail;
pub mod text;
