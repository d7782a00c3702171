//! Navigation and listing engine for a desktop file browser.
//!
//! The engine owns the current directory, orders directory contents
//! (directories before files, each group ascending by name), classifies
//! entries by extension, resolves symbolic sidebar bookmarks (including
//! discovered removable drives) to absolute paths, and exposes one canonical
//! entry sequence for any number of view projections. All filesystem reads
//! are performed by the caller and handed in as plain values; the engine
//! itself is purely computational and fully verified.

pub mod bookmarks;
pub mod classify;
pub mod drives;
pub mod listing;
pub mod nav;
pub mod order;
pub mod paths;
pub mod text;
