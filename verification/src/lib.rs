//! Local companion layer of a chat client: an encrypted store for the API
//! credential and endpoint, a frequency-ranked cache of the models in use,
//! and the decisions of the streaming completion and model discovery
//! protocols.
//!
//! Everything here works on plain values. Reading the environment and the
//! files, talking to the endpoint and decoding JSON are left to the
//! embedding program, which reports what happened and is told what to do
//! next.
//!
//! - [`cache`]: the cache directory, the secret store, the persisted
//!   frequency map
//! - [`cipher`]: the secret cipher and the slot that holds it
//! - [`frequency`]: the model frequency map and its laws
//! - [`completion`] and [`sse`]: the streaming completion and the framing
//!   of its event stream
//! - [`discovery`]: the URL of the model listing and the order of its
//!   models
//! - [`handlers`]: the entry points
//! - [`chat`], [`models`], [`error`]: the records and the errors
//! - [`text`]: strings and their bytes

pub mod cache;
pub mod chat;
pub mod cipher;
pub mod completion;
pub mod discovery;
pub mod error;
pub mod frequency;
pub mod handlers;
pub mod models;
pub mod sse;
pub mod text;

pub use cache::save_frequencies;
pub use handlers::{chat, fetch_models};
