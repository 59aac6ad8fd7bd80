//! The terminal interface: its state, what keys do to it, and what it shows.

pub mod acting;
pub mod choosing;
pub mod displaying;
pub mod editing;
pub mod groups;
pub mod inspect;
pub mod keys;
pub mod loading;
pub mod moving;
pub mod paint;
pub mod popups;
pub mod screen;
pub mod select;
pub mod state;
pub mod update;
