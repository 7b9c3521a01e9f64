//! A read-only decoder for the NTFS on-disk format.
//!
//! The crate interprets the Master File Table (MFT) of an NTFS volume
//! directly from a raw block device: it decodes file records and their
//! attributes, reconstructs the byte streams of resident and non-resident
//! attribute values from data runs, and resolves record names and paths by
//! walking parent references.
#![allow(unused_imports)]
#![verifier::loop_isolation(false)]

pub mod aligned;
pub mod device;
pub mod error;
pub mod flat;
pub mod names;
pub mod record;
pub mod reference;
pub mod runs;
pub mod shared;
pub mod volume;
pub mod wide;
