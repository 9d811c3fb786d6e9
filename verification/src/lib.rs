//! # Explorer Jebediah
//!
//! Jebediah is the reckless cartographer. He prioritizes unvisited planets,
//! ignores danger, and maps everything he encounters. He collects resources
//! opportunistically but navigation always wins over collection.

pub mod explorer;
