//! Streaming transport core of a typed client for a game platform's HTTP API.
//!
//! The verified pieces are: the bearer authorization rule applied to an
//! outgoing request, the framing of a response body into newline-delimited
//! lines, the per-line classification (blank keep-alive lines, HTML error
//! pages, text decoding), the per-line model decoding step, and the two
//! consumption rules of a typed result sequence.

pub mod client;
pub mod decode;
pub mod error;
pub mod framing;
pub mod model;
pub mod request;

pub use client::LichessApi;
pub use error::Error;
pub use model::challenges::{
    AIChallenge, ChallengeBase, ChallengeCreated, ChallengeJson, ChallengeJsonBase,
    ChallengeOpenJson, ChallengeUser, CreateChallenge, Direction, OpenChallenge, Perf, Rules,
    Status, TimeControl,
};

