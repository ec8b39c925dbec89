//! A step-driven pancake-sort engine with an audio model: the sorter advances
//! one flip per tick, emits retune commands sized by its progress, and a
//! square-wave oscillator consumes those commands through a FIFO channel.

pub mod channel;
pub mod engine;
pub mod oscillator;
pub mod perm;
pub mod render;
