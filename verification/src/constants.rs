//! Pre-built constant terms.

pub mod church;
