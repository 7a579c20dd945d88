//! Hides signed, encrypted payloads in the low bits of PCM WAV samples.
//!
//! The library holds the core: the RIFF/WAVE container (`wav`), the bit
//! embedding codec (`stego`), the cryptographic engine (`crypto`), key
//! encodings (`keys`), the payload envelope (`envelope`) and the steps that
//! join them (`carrier`). Argument parsing, file access and terminal output
//! live in the application around it.

pub mod bytes;
pub mod carrier;
pub mod cli;
pub mod crypto;
pub mod envelope;
pub mod error;
pub mod keys;
pub mod stego;
pub mod verbosity;
pub mod wav;

pub use cli::Cli;
pub use error::Error;
pub use verbosity::Verbosity;
