//! On-device speech-to-text core for a freestanding environment: a tensor
//! algebra layer over fixed-point numbers, a transformer-style
//! encoder/decoder model, a bounded audio-ingestion buffer, and the
//! peripheral-side helpers (bus enumeration records, descriptor decoding)
//! that produce its inputs and consume its outputs.

pub mod audio;
pub mod config;
pub mod fixed;
pub mod pci;
pub mod pipeline;
pub mod sdr;
pub mod tensor;
pub mod usb;
pub mod whisper;
