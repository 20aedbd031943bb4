//! Change notification core of the COSMIC settings daemon, and the data it
//! works with.
//!
//! Files of the configuration and state stores are written atomically by
//! independent processes. [`classify`] turns the paths that change on disk into
//! structured change records, [`naming`] derives the bus addresses of the
//! per-namespace endpoints, and [`watches`] keeps the bookkeeping of which
//! callers watch which namespace, so that an endpoint lives exactly as long as
//! someone listens to it.
//!
//! The other modules hold the data models that the daemon reads from the same
//! stores: keyboard shortcuts and gestures, tiling exceptions, brightness
//! devices, the mono audio sink and zoneinfo paths.

pub mod brightness;
pub mod classify;
pub mod greeter;
pub mod input;
pub mod location;
pub mod naming;
pub mod pulse;
pub mod shortcuts;
pub mod text;
pub mod watches;
pub mod window_rules;
