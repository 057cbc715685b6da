//! Voice-activity segmentation of a mono 16 kHz sample stream, and the
//! assembly of the resulting utterances into recognised text.

pub mod lookback;
pub mod playback;
pub mod streamer;
pub mod vad;
pub mod window;
