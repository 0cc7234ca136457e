//! Core model of a small audio trimming tool: an interleaved stereo sample
//! buffer, a trim window over it, the playback position projected onto that
//! window, and the one-line progress display drawn from them.
pub mod audio_container;
pub mod audio_data;
pub mod commands;
pub mod status;
pub mod text;
pub mod timing;
