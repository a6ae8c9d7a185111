//! Code128 barcode encoding: tokenizing escape-directive text into
//! character-set-tagged units, computing the modulo-103 checksum, and
//! emitting the module-level bit pattern of the full symbol stream.

pub mod error;
pub mod sym;
