//! Decoders for parameter groups whose payload needs more than a fixed field layout.
pub mod j1939;
pub mod iso11783;
