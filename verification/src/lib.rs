//! Watch-list, recording-history and recording-engine logic of Live Downloader.

pub mod text;
pub mod sorting;
pub mod models;
pub mod clock;
pub mod database;
pub mod runtime;
pub mod paths;
pub mod urls;
pub mod engine;
pub mod matching;
pub mod legacy;
pub mod recorder;
pub mod commands;
