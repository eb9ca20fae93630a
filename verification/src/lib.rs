//! Incremental, parallel static-site build pipeline: change detection, work
//! scheduling and HTML post-processing.

pub mod cache;
pub mod category;
pub mod config;
pub mod feeds;
pub mod generator;
pub mod indices;
pub mod markup;
pub mod metadata;
pub mod order;
pub mod parallel;
pub mod parser;
pub mod pipeline;
pub mod plugin;
pub mod plugins;
pub mod renderer;
pub mod run;
pub mod scaffold;
pub mod search;
pub mod select;
pub mod server;
pub mod slug;
pub mod text;
pub mod theme;
pub mod types;
