//! Meme-rendering core: deciding from trigger words whether a message should
//! be rendered, wrapping its text into bounded rows, composing the text over
//! a resized source image on a fixed square canvas, and planning the media
//! encoding with its local-first, remote-fallback, degrade-to-image policy.
//!
//! Message transport, persistence and other surroundings stay outside; they
//! hand the library plain values and perform the file, process and network
//! work that the library plans.

pub mod engine;
pub mod models;
pub mod utils;
