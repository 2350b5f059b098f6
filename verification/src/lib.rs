//! Turns the pushes to a bare repository into changes for a content store.
//!
//! A push moves a reference from one revision to another. The commits in
//! between change files; the files that matter are articles (Markdown files)
//! and the metadata files of the groups they lie in. This library says what
//! a push asks for ([`hook`]), turns the tree deltas of the commits into
//! change records ([`diff`]), nets the records of a range ([`prune`],
//! [`strip`], [`sync`]), plans how the store takes them ([`persist`]), and
//! condenses a whole history into an archive branch ([`archive`],
//! [`archiver`]).
//!
//! What netting guarantees is proved beside it ([`prune_laws`],
//! [`strip_laws`]), and [`history`] ties both to the tree that a history
//! leaves: a snapshot lists that tree, and an archive holds it.
//!
//! A blob that is missing or holds no valid text never fails a diff or a
//! sync: what would have been made of it is left out.
//!
//! Nothing here opens a repository, a socket or a database. Whoever does
//! hands over plain values and gets plain values back; [`client`] names what
//! is needed of an object store.

pub mod archive;
pub mod archiver;
pub mod client;
pub mod clock;
pub mod content;
pub mod datetime;
pub mod diff;
pub mod display;
pub mod entry;
pub mod error;
pub mod history;
pub mod hook;
pub mod kind;
pub mod meta;
pub mod path;
pub mod persist;
pub mod prune;
pub mod prune_laws;
pub mod query;
pub mod repo;
pub mod strip;
pub mod strip_laws;
pub mod sync;
pub mod tagger;
pub mod text;
