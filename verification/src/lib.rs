//! Push-to-talk speech conversion: the decisions and data handling behind
//! recording a phrase, sending it to a speech-to-speech service and playing
//! the answer back.
//!
//! The devices, the codecs and the network are driven by the program around
//! this library; what is here turns their plain results into the next step.

pub mod audio;
pub mod capture;
pub mod decode;
pub mod device;
pub mod encode;
pub mod keys;
pub mod pcm;
pub mod playback;
pub mod session;
pub mod speech;
