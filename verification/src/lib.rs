pub mod aggregate;
pub mod config;
pub mod entry;
pub mod group;
pub mod index;
pub mod laws;
pub mod normalize;
pub mod pattern;
pub mod stats;
pub mod summary;
pub mod timekey;
