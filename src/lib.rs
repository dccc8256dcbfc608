//! Publishing of markdown documents as slug-addressed pages: the saturation
//! pipeline that renders a document and reconciles its footnotes and links,
//! and the slug-keyed cache that guards page uniqueness.

pub mod cache;
pub mod compat;
pub mod config;
pub mod document;
pub mod markdown;
pub mod model;
pub mod network;
pub mod page;
pub mod timestamp;
