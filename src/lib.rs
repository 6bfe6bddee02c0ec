//! Consolidation of video-editing projects: a loader for the GZIP-wrapped XML
//! project graph, a reference resolver, a sequence analyzer that computes which
//! source media ranges are used, and a planner that maps used media onto an
//! output tree and rewrites the project's media paths.

pub mod analyzer;
pub mod codec;
pub mod commands;
pub mod ffmpeg;
pub mod graph;
pub mod job;
pub mod loader;
pub mod model;
pub mod paths;
pub mod planner;
pub mod scanner;
pub mod text;
pub mod time_range;
