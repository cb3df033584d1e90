use vstd::prelude::*;

pub mod adopt;
pub mod bulk_adopt;
pub mod text;
pub mod columns;
pub mod browser;
pub mod order;
pub mod fields;
pub mod grouping;
pub mod panels;
pub mod jobs;
pub mod metadata_queue;
pub mod books;
pub mod calibre;
pub mod presets;
pub mod display;
pub mod paths;
pub mod stats;
pub mod reader;
pub mod sources;
pub mod plugins;
