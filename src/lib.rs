//! Interactive core of a terminal system monitor: bounded per-stream sample
//! history, a two-anchor scrolling viewport and a small screen state machine.

pub mod viewport;
pub mod stream;
pub mod event;
pub mod model;
