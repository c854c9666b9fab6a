//! Keyboard layouts, the discomfort penalties of typing a corpus on them, and
//! the bookkeeping of a search for comfortable layouts.
pub mod gram;
pub mod layout;
pub mod penalty;
pub mod references;
pub mod simulator;
