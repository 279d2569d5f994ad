//! A data model for describing how file system entries changed between two
//! observations, together with the text codecs of its two leaf value types:
//! a content hash of 32 bytes and a timestamp.
//!
//! The model is built from the leaves up: a [`Change`] or [`MaybeChange`] of
//! a value, the closed sets of changes in [`diff`], the [`MetadataInfo`] and
//! [`MetaEntryDiff`] of one path, and the [`Changeset`] of all paths. The
//! last three are generic over the type that stands for a timestamp and can
//! have their timestamps mapped to another type in one pass.
//!
//! The hash is reached as `hash::Hash`; the other types are also exported
//! from the crate root.

pub mod ascii;
pub mod calendar;
pub mod change;
pub mod changeset;
pub mod chronology;
pub mod diff;
pub mod hash;
pub mod lexical;
pub mod metadata;
pub mod timestamp;
pub mod timestamp_text;

pub use calendar::DateTime;
pub use change::Change;
pub use change::MaybeChange;
pub use changeset::Changeset;
pub use diff::EntryDiff;
pub use diff::MetadataChange;
pub use diff::NamedStreamType;
pub use hash::HashDecodeError;
pub use metadata::MetaEntryDiff;
pub use metadata::MetadataInfo;
pub use timestamp::Timestamp;
pub use timestamp_text::TimestampComponent;
pub use timestamp_text::TimestampParseError;
