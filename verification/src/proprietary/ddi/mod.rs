//! Vendor-specific data dictionary identifiers.
pub mod canot;
