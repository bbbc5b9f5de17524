//! Building and inspecting Debian package archives.
//!
//! A package is an `ar` archive of three members: a format-version marker,
//! a packed tar stream of control files and a packed tar stream of data.
//! This crate reads such an archive from bytes, writes one to bytes, and
//! models the control file: a mapping from field names to typed values
//! with a canonical text form.
//!
//! * [`compression`] detects a scheme from a member name and dispatches to
//!   the codecs.
//! * [`container`] and [`tarball`] hold what is asked of the `ar` and `tar`
//!   crates, and the rules that decide what is asked.
//! * [`archive`] composes them into [`DebFile`]; [`roundtrip`] proves that
//!   what it writes it reads again.
//! * [`entry`], [`control`], [`stanza`] and [`lines`] are the control-file
//!   model: values, the mapping, and reading it from text.
//! * [`text`], [`number`] and [`order`] are the text primitives beneath.
//! * [`bridge`] is the same engine in the shape that a foreign host calls.
//!
//! Everything is verified but the calls into other crates, which stand in
//! functions marked `external_body`. Their contracts say what is assumed of
//! those crates; where that is no more than a name for the result, the
//! functions built on them are exact up to that name.
pub mod archive;
pub mod bridge;
pub mod compression;
pub mod container;
pub mod control;
pub mod entry;
pub mod error;
pub mod lines;
pub mod number;
pub mod order;
pub mod roundtrip;
pub mod stanza;
pub mod tarball;
pub mod text;

pub use archive::DebFile;
pub use compression::Compression;
pub use control::ControlFile;
pub use entry::{ControlEntry, EntryView};
pub use error::Error;
pub use stanza::FieldKind;
