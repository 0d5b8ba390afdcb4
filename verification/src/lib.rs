//! A beautified `ls`: the listing logic (sorting, classification, git
//! status parsing, theming and layout) as a verified library.

pub mod cli;
pub mod colors;
pub mod config;
pub mod entry;
pub mod git;
pub mod icons;
pub mod listing;
pub mod path;
pub mod render;
pub mod sorter;
pub mod table;
pub mod text;
pub mod theme;
pub mod util;
