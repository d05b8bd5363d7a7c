//! An embeddable terminal interaction library for line-oriented command interfaces.
#![allow(unused_imports)]

pub mod text;
pub mod segment;
pub mod analysis;
pub mod editor;
pub mod presentation;
pub mod protocol;
pub mod render;
pub mod completion;
pub mod suggestion;
pub mod validation;
pub mod history;
pub mod document;
pub mod actions;
pub mod engine;
pub mod driving;
pub mod capabilities;
pub mod width;
pub mod keymap;
pub mod completion_helpers;
pub mod event;
pub mod analysis_presentation;
pub mod session;
