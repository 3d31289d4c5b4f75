//! Fixed-income instruments priced on the rate lattice.

pub mod laws;
pub mod option_embedded_bond;
