//! Batch media processing: discovery of media containers, configuration
//! layering, stream routing for transcoding and dead roll detection over
//! black and silent spans.

pub mod text;
pub mod media;
pub mod config;
pub mod commands;
pub mod classic;
