//! The container configuration format: its parser, its index and the views
//! of its sections.

pub mod config;
pub mod round_trip;
pub mod section;
pub mod sectionless;
pub mod section_mut;
