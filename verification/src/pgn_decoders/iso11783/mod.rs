//! ISO 11783 parameter groups.
pub mod task_controller;
