//! The widget kinds and what they share.

pub mod wrapper_layout;
pub mod wrapper_paragraph;
pub mod wrapper_widget;
pub mod wrapper_widgets;
