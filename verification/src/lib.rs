//! J1939 / ISO 11783 CAN decoding library: frame models, transport-protocol reassembly,
//! filtering, list navigation and value formatting.
pub mod types;
pub mod text;
pub mod tp_reassembler;
pub mod scroll_manager;
pub mod numparse;
pub mod filter_editor;
pub mod filters;
pub mod filter_engine;
pub mod formats;
pub mod columns;
pub mod latest_index;
pub mod config;
pub mod device_manager;
pub mod pgn_decoders;
pub mod proprietary;
pub mod app_state;
pub mod filter_state;
pub mod sources;
pub mod renderers;
pub mod pipeline;
pub mod pgn_decoder;
pub mod gui;
pub mod traits;
