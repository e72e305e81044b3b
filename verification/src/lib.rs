//! Vector clocks: per-identifier event counters that order the events of
//! distributed participants without a shared wall clock.
//!
//! `causality` holds the mathematical model (a map from identifier to
//! counter) together with the relations and laws stated over it, `vc` the
//! plain clock, and `tvc` a clock kept behind a reader/writer lock.

pub mod causality;
pub mod tvc;
pub mod vc;
