//! Synchronises gallery submissions from two sites and edits their tags.
pub mod text;
pub mod site;
pub mod tags;
pub mod gallery;
pub mod html;
pub mod error;
pub mod furaffinity;
pub mod weasyl;
pub mod catalog;
