//! A constraint-propagation network: numeric cells ("connectors") linked by
//! arithmetic constraints (adders, multipliers, constants). Setting enough
//! connectors causes the rest to be inferred; conflicting inputs are reported
//! as contradictions, and an externally asserted value can be retracted again.

pub mod adder;
pub mod constant;
pub mod multiplier;
pub mod propagate;
