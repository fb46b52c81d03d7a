//! bit-music: the `.bm1` composition format (notes, model, validation),
//! the arrangement timeline, and the pure logic of the players built on it.

pub mod text;
pub mod number;
pub mod note;
pub mod model;
pub mod validate;
pub mod composition;
pub mod timeline;
pub mod error_log;
pub mod i18n;
pub mod grid;
pub mod help;
pub mod project;
pub mod labels;
pub mod selection;
pub mod config;
pub mod messages;
pub mod report;
pub mod playback;
pub mod pitch;
pub mod palette;
pub mod usage;
pub mod loading;
