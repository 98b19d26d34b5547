//! Bouedig: the verified core of a recipe and grocery-list service and its
//! mobile client.
//!
//! The library holds the rules of the service as plain functions over plain
//! values: how a recipe is validated, normalised and laid out for storage, how
//! stored rows are turned back into the views the API serves, how uploaded
//! images are named and served, how the shopping list is grouped, and how the
//! mobile recipe editor reorders and edits its rows. The HTTP server, the
//! database, the file system and the user interface call into it.

pub mod config;
pub mod display;
pub mod editor;
pub mod errors;
pub mod grocery;
pub mod images;
pub mod json;
pub mod model;
pub mod multipart;
pub mod quantity;
pub mod recipes;
pub mod routing;
pub mod text;
