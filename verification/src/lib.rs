//! Reassembly of Unity asset packages into Unity Package Manager archives.
//!
//! A Unity asset package is an archive in which each asset lies under an opaque identifier,
//! as up to three members: its content, its metadata, and a text that names its path. The
//! members of an identifier come in any order. This library decides, entry by entry, what
//! becomes of each member, and puts each asset and its metadata out under its final path.
//!
//! - [`member`] reads the path of an entry: the identifier and the member that it names.
//! - [`state`] holds what is known of each identifier during a pass.
//! - [`reassembly`] is the engine that decides what each entry demands.
//! - [`package`] runs a pass over the recorded entries of an archive.
//! - [`laws`] proves what holds of every pass.
//! - [`spool`] is the buffer that keeps a content until its path is known.
//! - [`manifest`] and [`upm`] name the members of the archive that is written.

pub mod laws;
pub mod manifest;
pub mod member;
pub mod package;
pub mod reassembly;
pub mod spool;
pub mod state;
pub mod upm;
