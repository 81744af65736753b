//! The logic of Hark, a minimalist music player: the queue and its playback
//! order, the library of folders it is built from, the records kept on the
//! files, the session, and the decisions behind covers and identification.
//!
//! Windows, sound, files and the network are not here. What they report comes in
//! as plain values, and what is to be done about it goes out the same way.

pub mod acoustid;
pub mod artwork;
pub mod audio;
pub mod chapters;
pub mod covers;
pub mod cutter;
pub mod decode;
pub mod env_file;
pub mod fingerprint;
pub mod folders;
pub mod id_cache;
pub mod json;
pub mod library;
pub mod lists;
pub mod love;
pub mod meta_cache;
pub mod mpris;
pub mod opus_source;
pub mod order;
pub mod panels;
pub mod path;
pub mod peak_cache;
pub mod player_view;
pub mod precision;
pub mod queue;
pub mod sets;
pub mod single;
pub mod state;
pub mod text;
pub mod time;
pub mod track;
pub mod waveform;
