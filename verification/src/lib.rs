//! The verified core of Tsong, a non-destructive music player: generation
//! tracking, the background error log, logical songs and physical files, the
//! playlist tree, the playback state machine, preferences, configuration
//! search paths and the small text formats the player uses.

pub mod generation;
pub mod text;
pub mod pairs;
pub mod metadata;
pub mod errors;
pub mod buckets;
pub mod physical;
pub mod logical;
pub mod playlist;
pub mod rules;
pub mod tree;
pub mod playback;
pub mod prefs;
pub mod config;
pub mod db;
pub mod display;
pub mod scan;
pub mod import;
