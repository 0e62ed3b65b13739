//! Vendor-specific definitions.
pub mod ddi;
