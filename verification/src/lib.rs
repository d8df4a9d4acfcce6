//! Rendering of org-roam export trees into HTML fragments, with the
//! slug, link and timestamp rules that go with it.

pub mod cache;
pub mod decimal;
pub mod text;
pub mod timestamp;
pub mod types;
pub mod unicode;
pub mod json;
pub mod map;
pub mod media;
pub mod order;
pub mod pipeline;
pub mod render;
pub mod slug;
pub mod unknown;
