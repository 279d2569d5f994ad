//! The closed sets of changes that an entry and its metadata can show.

use crate::change::Change;
use vstd::prelude::*;

verus! {

/// A change of what a file system entry holds.
#[derive(Debug, PartialEq, Eq, Hash)]
pub enum EntryDiff {
    /// The content of the file changed.
    FileChanged {
        /// The change of the hash of the content.
        hash_change: Change<crate::hash::Hash>,
    },
    /// The symlink points elsewhere.
    SymlinkChanged {
        /// The change of the path that the symlink holds.
        path_change: Change<String>,
    },
    /// The entry is of another type now. The strings describe the types.
    TypeChange(Change<String>),
    /// Some other change occurred.
    OtherChange,
}

impl Clone for EntryDiff {
    fn clone(&self) -> (copy: Self)
        ensures
            copy == *self,
    {
        match self {
            EntryDiff::FileChanged { hash_change } => EntryDiff::FileChanged {
                hash_change: Change { from: hash_change.from.clone(), to: hash_change.to.clone() },
            },
            EntryDiff::SymlinkChanged { path_change } => EntryDiff::SymlinkChanged {
                path_change: Change { from: path_change.from.clone(), to: path_change.to.clone() },
            },
            EntryDiff::TypeChange(change) => EntryDiff::TypeChange(
                Change { from: change.from.clone(), to: change.to.clone() },
            ),
            EntryDiff::OtherChange => EntryDiff::OtherChange,
        }
    }
}

/// The kinds of named streams that a path can have. A kind is a key; it
/// holds no content.
#[derive(Debug, PartialEq, Eq, Hash)]
pub enum NamedStreamType {
    /// The NTFS reparse data.
    ReparseData,
    /// The NTFS access control list.
    AccessControlList,
    /// The DOS name.
    DosName,
    /// The object ID.
    ObjectId,
    /// The encrypted file system info.
    EncryptedFileSystemInfo,
    /// The extended attributes.
    ExtendedAttributes,
    /// An alternate data stream.
    AlternateDataStream {
        /// The name of the alternate data stream.
        name: String,
    },
}

impl Clone for NamedStreamType {
    fn clone(&self) -> (copy: Self)
        ensures
            copy == *self,
    {
        match self {
            NamedStreamType::ReparseData => NamedStreamType::ReparseData,
            NamedStreamType::AccessControlList => NamedStreamType::AccessControlList,
            NamedStreamType::DosName => NamedStreamType::DosName,
            NamedStreamType::ObjectId => NamedStreamType::ObjectId,
            NamedStreamType::EncryptedFileSystemInfo => NamedStreamType::EncryptedFileSystemInfo,
            NamedStreamType::ExtendedAttributes => NamedStreamType::ExtendedAttributes,
            NamedStreamType::AlternateDataStream { name } => NamedStreamType::AlternateDataStream {
                name: name.clone(),
            },
        }
    }
}

/// A change of one field of the metadata. Where a field holds an `Option`,
/// `None` says that the platform has no such field.
#[derive(Debug, PartialEq, Eq, Hash)]
pub enum MetadataChange {
    /// The size changed.
    Size(Change<u64>),
    /// The NTFS attributes changed.
    NtfsAttributes(Change<Option<u32>>),
    /// The unix permissions changed.
    UnixPermissions(Change<Option<u32>>),
    /// The number of links to the path changed.
    Nlink(Change<Option<u64>>),
    /// The user id changed.
    Uid(Change<Option<u32>>),
    /// The group id changed.
    Gid(Change<Option<u32>>),
    /// The content of a named stream changed.
    NamedStream(NamedStreamType, Change<Option<Vec<u8>>>),
}

/// What a [`MetadataChange`] says: the same, with the content of a named
/// stream as a sequence of bytes.
pub enum MetadataChangeView {
    /// The size changed.
    Size(Change<u64>),
    /// The NTFS attributes changed.
    NtfsAttributes(Change<Option<u32>>),
    /// The unix permissions changed.
    UnixPermissions(Change<Option<u32>>),
    /// The number of links to the path changed.
    Nlink(Change<Option<u64>>),
    /// The user id changed.
    Uid(Change<Option<u32>>),
    /// The group id changed.
    Gid(Change<Option<u32>>),
    /// The content of a named stream changed.
    NamedStream(NamedStreamType, Change<Option<Seq<u8>>>),
}

/// The bytes of a stream's content, where there is one.
pub open spec fn content_view(content: Option<Vec<u8>>) -> Option<Seq<u8>> {
    match content {
        Some(bytes) => Some(bytes@),
        None => None,
    }
}

impl View for MetadataChange {
    type V = MetadataChangeView;

    open spec fn view(&self) -> MetadataChangeView {
        match *self {
            MetadataChange::Size(change) => MetadataChangeView::Size(change),
            MetadataChange::NtfsAttributes(change) => MetadataChangeView::NtfsAttributes(change),
            MetadataChange::UnixPermissions(change) => MetadataChangeView::UnixPermissions(change),
            MetadataChange::Nlink(change) => MetadataChangeView::Nlink(change),
            MetadataChange::Uid(change) => MetadataChangeView::Uid(change),
            MetadataChange::Gid(change) => MetadataChangeView::Gid(change),
            MetadataChange::NamedStream(kind, change) => MetadataChangeView::NamedStream(
                kind,
                Change { from: content_view(change.from), to: content_view(change.to) },
            ),
        }
    }
}

/// Copies the content of a stream.
fn clone_content(content: &Option<Vec<u8>>) -> (copy: Option<Vec<u8>>)
    ensures
        content_view(copy) == content_view(*content),
{
    match content {
        Some(bytes) => {
            let copy = bytes.clone();
            assert(copy@ =~= bytes@);
            Some(copy)
        },
        None => None,
    }
}

impl Clone for MetadataChange {
    fn clone(&self) -> (copy: Self)
        ensures
            copy@ == self@,
    {
        match self {
            MetadataChange::Size(change) => MetadataChange::Size(
                Change { from: change.from, to: change.to },
            ),
            MetadataChange::NtfsAttributes(change) => MetadataChange::NtfsAttributes(
                Change { from: change.from, to: change.to },
            ),
            MetadataChange::UnixPermissions(change) => MetadataChange::UnixPermissions(
                Change { from: change.from, to: change.to },
            ),
            MetadataChange::Nlink(change) => MetadataChange::Nlink(
                Change { from: change.from, to: change.to },
            ),
            MetadataChange::Uid(change) => MetadataChange::Uid(
                Change { from: change.from, to: change.to },
            ),
            MetadataChange::Gid(change) => MetadataChange::Gid(
                Change { from: change.from, to: change.to },
            ),
            MetadataChange::NamedStream(kind, change) => MetadataChange::NamedStream(
                kind.clone(),
                Change { from: clone_content(&change.from), to: clone_content(&change.to) },
            ),
        }
    }
}

/// What a list of changes says, in its order.
pub open spec fn changes_view(changes: Seq<MetadataChange>) -> Seq<MetadataChangeView> {
    changes.map_values(|change: MetadataChange| change@)
}

/// Copies a list of changes: the same changes in the same order.
pub fn clone_changes(changes: &Vec<MetadataChange>) -> (copy: Vec<MetadataChange>)
    ensures
        changes_view(copy@) == changes_view(changes@),
{
    let mut copy: Vec<MetadataChange> = Vec::new();
    let mut i: usize = 0;
    while i < changes.len()
        invariant
            i <= changes.len(),
            copy@.len() == i,
            forall|j: int| 0 <= j < i ==> (#[trigger] copy@[j])@ == changes@[j]@,
        decreases changes.len() - i,
    {
        copy.push(changes[i].clone());
        i += 1;
    }
    assert(changes_view(copy@) =~= changes_view(changes@));
    copy
}

} // verus!
