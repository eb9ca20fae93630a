//! The plugins that ship with the generator.

pub mod related_posts;
