//! Markdown reference sheets for a game's character-build data.
//!
//! The crate takes the JSON documents that a remote game-data API serves for
//! specializations, skills and traits, projects each record down to the fields
//! the report needs, joins traits against a specialization index, deduplicates
//! buff icons, and renders everything as profession-grouped markdown lines.
//! Fetching and printing live outside the crate; everything here is plain
//! data-to-data logic with contracts.

pub mod buffs;
pub mod error;
pub mod fetch;
pub mod json;
pub mod markdown;
pub mod pipeline;
pub mod project;
pub mod render;
pub mod text;
