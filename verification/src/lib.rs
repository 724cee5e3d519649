//! Core of a nanosecond-scale structured logging library.
//!
//! Producers serialize log records — a site identifier, a timestamp and the
//! argument words — into a byte ring buffer; a consumer drains the ring and
//! decodes the records against a registry of log sites that is built before
//! the producers run.  The modules below hold the verified pieces: the format
//! parser, the stable file hash, the ring transport with its wait strategies,
//! the site registry, and the record encoder and decoder.

pub mod codec;
pub mod compression;
pub mod fmt;
pub mod hash;
pub mod logger;
pub mod registry;
pub mod ring_buf;
pub mod time;

pub use fmt::Nanolog;
pub use fmt::NanologType;
pub use hash::const_fnv1a_hash;
pub use time::system_time_to_micros;
