//! The verified core of Lune's `roblox` standard library: writing place
//! and model files and describing their failures, the markdown rendering of a place's
//! instance tree, the cleanup of property text, and the choices that the
//! module's functions make from their arguments.

pub mod choices;
pub mod document;
pub mod instance;
pub mod markdown;
pub mod markup;
pub mod names;
pub mod order;
pub mod property;
pub mod text;
pub mod values;
