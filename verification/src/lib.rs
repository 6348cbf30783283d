//! Integer core of an audio fingerprint indexer and matcher: how a sample
//! buffer is cut into frames, when each frame starts and ends, how frames are
//! laid out as rows for the vector store, how a directory of files is worked
//! through, and how nearest-neighbour hits are turned into a ranking.

pub mod config;
pub mod timing;
pub mod text;
pub mod scoring;
pub mod models;
pub mod dates;
pub mod vectors;
pub mod segments;
pub mod bulk;
pub mod discovery;
