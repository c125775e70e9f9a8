//! The data model and file-layout logic of a personal collection catalogue.
pub mod text;
pub mod order;
pub mod model;
pub mod paths;
pub mod backups;
pub mod display;
pub mod edits;
pub mod photos;
pub mod selection;
pub mod items;
pub mod commands;
pub mod keys;
pub mod window;
pub mod session;
