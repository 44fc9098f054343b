//! The terminal UI's state, key handling and screen geometry; the drawing
//! itself stays with the caller.
pub mod input;
pub mod form;
pub mod app;
pub mod layout;
