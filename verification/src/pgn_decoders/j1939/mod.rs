//! SAE J1939 network-management parameter groups.
pub mod request_decoder;
pub mod address_claim;
