//! Encoding and decoding of values in the Molecule binary format.
//!
//! Molecule is a canonical, schema-driven serialization format: the layout of
//! every byte is derived from the declared schema, with no in-band type tags.
//! This crate holds the verified core of a Molecule codec: the wire
//! primitives that assemble and disassemble the composite shapes (`struct`,
//! `fixvec`, `dynvec`, `table`), the byte-buffer serializer state, and the
//! two decoder states (slice-based table mode and cursor-based struct mode).
//! A thin unverified layer can drive these from a host serialization
//! framework's callbacks.

pub mod attribute;
pub mod de;
pub mod error;
pub mod molecule;
pub mod numeric;
pub mod ser;
pub mod struct_serde;

pub use crate::error::Error;
