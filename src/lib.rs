//! The retained core of an immediate-mode UI toolkit: widget identity and
//! reconciliation, layout with clipping and layers, hit testing, and paint
//! batching with texture diffing.
pub mod absolute;
pub mod backend;
pub mod clipping;
pub mod dom;
pub mod geometry;
pub mod input;
pub mod layout;
pub mod paint;
pub mod textbox;
pub mod ui;
pub mod widget;
