//! Control logic for integrating along a vertical temperature-salinity
//! profile of seawater.
//!
//! A profile is a list of samples ordered by depth. An integration walks it in
//! fixed steps of an independent variable (pressure, or elapsed time), keeps
//! track of the profile segment the walk is in, and samples the water
//! properties by interpolating inside that segment. This crate decides, for
//! every step, whether the walk goes on, which segment it is in, and when a
//! request or a profile has to be turned down. The arithmetic on the physical
//! quantities themselves is the caller's: quantities come in as IEEE 754
//! binary64 encodings and are only ever compared here.

pub mod column;
pub mod course;
pub mod error;
pub mod rank;
pub mod walk;
