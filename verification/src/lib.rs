//! Heimdallr core: the event-aggregation and animation heart of a desktop
//! status overlay. The library ingests status records, command tokens and
//! notification events, reconciles them into one canonical presentation
//! state, and drives a throttled, animation-aware redraw decision.
//!
//! All scalar quantities (warning levels, animated ratios) are carried as
//! fixed-point integers in thousandths ("milli" units), and all instants as
//! milliseconds, so that every rule in here is exact and machine-checked.
//! Rendering, configuration loading and the actual I/O endpoints live
//! outside the library and talk to it through plain values.

pub mod anim;
pub mod color;
pub mod commands;
pub mod config;
pub mod notifications;
pub mod overlay;
pub mod record;
pub mod stream;
