//! Small command-line helpers: shortcuts that connect Bluetooth devices by
//! alias through an outside controller, a renamer that cuts what follows a
//! file extension, and a rectangle.
//!
//! The modules hold the decisions; running the controller and touching the
//! file system is left to the caller.
pub mod alias;
pub mod connected;
pub mod error;
pub mod plan;
pub mod rect;
pub mod strip;
pub mod text;
