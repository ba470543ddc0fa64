//! A compiler for a small indentation-sensitive language that describes a
//! tree of terminal widgets, and the engine that lays the tree out and draws
//! it.
//!
//! A template is scanned into its significant lines ([`lines`]), parsed into
//! a widget tree ([`parse`], [`widget_wrappers`]) and drawn: every container
//! divides its region among its children ([`region`]) and every leaf draws
//! its text with the placeholders filled in ([`replacements`]); what is drawn
//! stays inside the region given and never overlaps ([`drawing`]). What the
//! parser accepts is stated once more from the other side in [`template`],
//! which writes a tree as a template and proves that compiling gives the
//! tree back.

pub mod drawing;
pub mod lines;
pub mod parse;
pub mod region;
pub mod replacements;
pub mod template;
pub mod terminal;
pub mod text;
pub mod widget_wrappers;
