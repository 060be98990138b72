//! Recreate a Spotify playlist on Apple Music: the matching engine, the
//! parsers and decision rules of both services, and the review screen's
//! state machine.
pub mod text;
pub mod types;
pub mod normalize;
pub mod matching;
pub mod pipeline;
pub mod review;
pub mod spotify;
pub mod apple;
pub mod screen;
pub mod report;
pub mod config;
