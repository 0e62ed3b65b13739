//! State of the graphical front end's widgets, apart from their drawing.
pub mod app_state;
pub mod filter_panel;
pub mod filter_widget;
pub mod message_list;
pub mod status_bar;
