//! The edge provider: an OpenAI-compatible endpoint on localhost that forwards each
//! request to a Workers AI worker and turns the worker's stream into a completion.

pub mod budget;
pub mod completion;
pub mod messages;
pub mod proxy;
pub mod shield;
pub mod stream;
