//! Speech-to-text preprocessing and tokenizer logic for a Whisper-style model.

pub mod signal;
pub mod audio;
pub mod pcm;
pub mod model;
pub mod decoding;
pub mod rank_table;
pub mod text;
pub mod tokenizer;
pub mod special;
