//! Pricing of option-embedded bonds on a recombining binomial interest-rate
//! lattice.
//!
//! All rates and money amounts are scaled integers (fixed point, see
//! [`fixed_point::SCALE`]), so every step of the calibration and of the
//! backward induction has an exact, machine-checked description.

pub mod exponential;
pub mod fixed_income;
pub mod fixed_point;
