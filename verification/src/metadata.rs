//! The metadata side of a diff, and the diff of one path as a whole. Both are
//! generic over the type that stands for a timestamp, and both can have their
//! timestamps mapped to another type in one pass.

use crate::change::Change;
use crate::change::MaybeChange;
use crate::diff::changes_view;
use crate::diff::clone_changes;
use crate::diff::EntryDiff;
use crate::diff::MetadataChange;
use vstd::prelude::*;

verus! {

/// Whether `f` can be called on every timestamp.
pub open spec fn total<Ts, NewTs, F: Fn(&Ts) -> NewTs>(f: F) -> bool {
    forall|t: Ts| call_requires(f, (&t,))
}

/// Whether `mapped` is a possible result of applying `f` to the timestamp
/// that `field` holds, if it holds one.
pub open spec fn option_maps_to<Ts, NewTs, F: Fn(&Ts) -> NewTs>(
    f: F,
    field: Option<Ts>,
    mapped: Option<NewTs>,
) -> bool {
    match field {
        Some(t) => mapped matches Some(n) && call_ensures(f, (&t,), n),
        None => mapped is None,
    }
}

/// Whether `mapped` is a possible result of applying `f` to every timestamp
/// that `field` holds: the variant and each `None` are kept.
pub open spec fn timestamps_map_to<Ts, NewTs, F: Fn(&Ts) -> NewTs>(
    f: F,
    field: MaybeChange<Option<Ts>>,
    mapped: MaybeChange<Option<NewTs>>,
) -> bool {
    match field {
        MaybeChange::Change(change) => mapped matches MaybeChange::Change(c) && option_maps_to(
            f,
            change.from,
            c.from,
        ) && option_maps_to(f, change.to, c.to),
        MaybeChange::Same(value) => mapped matches MaybeChange::Same(v) && option_maps_to(
            f,
            value,
            v,
        ),
    }
}

/// Applies `f` to every timestamp that `field` holds.
fn map_timestamps<Ts, NewTs, F: Fn(&Ts) -> NewTs>(field: &MaybeChange<Option<Ts>>, f: &F) -> (mapped:
    MaybeChange<Option<NewTs>>)
    requires
        total(*f),
    ensures
        timestamps_map_to(*f, *field, mapped),
{
    let on_option = |value: &Option<Ts>| -> (mapped: Option<NewTs>)
        ensures
            option_maps_to(*f, *value, mapped),
        {
            match value {
                Some(t) => Some(f(t)),
                None => None,
            }
        };
    field.map(on_option)
}

/// The changes of the metadata of a path, and its inode number and
/// timestamps before and after.
#[derive(Debug, PartialEq, Eq, Hash)]
pub struct MetadataInfo<Ts> {
    /// The changes of single fields, in the order in which they were found.
    /// A field may occur more than once.
    pub changes: Vec<MetadataChange>,
    /// The inode number.
    pub inode: MaybeChange<Option<u64>>,
    /// The time of creation.
    pub created: MaybeChange<Option<Ts>>,
    /// The time of the last modification.
    pub modified: MaybeChange<Option<Ts>>,
    /// The time of the last access.
    pub accessed: MaybeChange<Option<Ts>>,
    /// The time of the last modification of the inode.
    pub inode_modified: MaybeChange<Option<Ts>>,
}

impl<Ts> MetadataInfo<Ts> {
    /// Whether `mapped` is a possible result of applying `f` to the four
    /// timestamp fields of `self`: it says the same changes in the same
    /// order and has the same inode number.
    pub open spec fn transforms_to<NewTs, F: Fn(&Ts) -> NewTs>(
        self,
        f: F,
        mapped: MetadataInfo<NewTs>,
    ) -> bool {
        &&& changes_view(mapped.changes@) == changes_view(self.changes@)
        &&& mapped.inode == self.inode
        &&& timestamps_map_to(f, self.created, mapped.created)
        &&& timestamps_map_to(f, self.modified, mapped.modified)
        &&& timestamps_map_to(f, self.accessed, mapped.accessed)
        &&& timestamps_map_to(f, self.inode_modified, mapped.inode_modified)
    }

    /// Applies `f` to every timestamp, each on its own, and keeps the rest.
    pub fn transform_timestamps<NewTs, F: Fn(&Ts) -> NewTs>(&self, f: F) -> (mapped: MetadataInfo<
        NewTs,
    >)
        requires
            total(f),
        ensures
            self.transforms_to(f, mapped),
    {
        self.transform_timestamps_by(&f)
    }

    /// Does the work of [`Self::transform_timestamps`] with a borrowed `f`.
    pub(crate) fn transform_timestamps_by<NewTs, F: Fn(&Ts) -> NewTs>(&self, f: &F) -> (mapped:
        MetadataInfo<NewTs>)
        requires
            total(*f),
        ensures
            self.transforms_to(*f, mapped),
    {
        let inode = match &self.inode {
            MaybeChange::Change(change) => MaybeChange::Change(
                Change { from: change.from, to: change.to },
            ),
            MaybeChange::Same(value) => MaybeChange::Same(*value),
        };
        MetadataInfo {
            changes: clone_changes(&self.changes),
            inode,
            created: map_timestamps(&self.created, f),
            modified: map_timestamps(&self.modified, f),
            accessed: map_timestamps(&self.accessed, f),
            inode_modified: map_timestamps(&self.inode_modified, f),
        }
    }
}

impl<Ts: Clone> Clone for MetadataInfo<Ts> {
    /// A copy says the same, with a clone of each timestamp.
    fn clone(&self) -> (copy: Self)
        ensures
            self.transforms_to(Ts::clone, copy),
    {
        self.transform_timestamps_by(&Ts::clone)
    }
}

/// The diff of one path: what happened to the entry, with its metadata.
#[derive(Debug, PartialEq, Eq, Hash)]
pub enum MetaEntryDiff<Ts> {
    /// The entry was added.
    Added(MetadataInfo<Ts>),
    /// The entry was deleted.
    Deleted(MetadataInfo<Ts>),
    /// Only the metadata changed.
    MetaOnlyChange(MetadataInfo<Ts>),
    /// The entry changed; its metadata comes along even where none of it
    /// changed.
    EntryChange(EntryDiff, MetadataInfo<Ts>),
}

impl<Ts> MetaEntryDiff<Ts> {
    /// The one metadata info that every variant holds.
    pub open spec fn info(self) -> MetadataInfo<Ts> {
        match self {
            MetaEntryDiff::Added(info) => info,
            MetaEntryDiff::Deleted(info) => info,
            MetaEntryDiff::MetaOnlyChange(info) => info,
            MetaEntryDiff::EntryChange(_, info) => info,
        }
    }

    /// Whether `mapped` is a possible result of applying `f` to every
    /// timestamp of `self`: the variant and the entry's own change are kept.
    pub open spec fn transforms_to<NewTs, F: Fn(&Ts) -> NewTs>(
        self,
        f: F,
        mapped: MetaEntryDiff<NewTs>,
    ) -> bool {
        &&& self.info().transforms_to(f, mapped.info())
        &&& match self {
            MetaEntryDiff::Added(_) => mapped is Added,
            MetaEntryDiff::Deleted(_) => mapped is Deleted,
            MetaEntryDiff::MetaOnlyChange(_) => mapped is MetaOnlyChange,
            MetaEntryDiff::EntryChange(entry, _) => mapped matches MetaEntryDiff::EntryChange(e, _)
                && e == entry,
        }
    }

    /// Returns the enclosed metadata info, whatever the variant.
    pub fn meta_info(&self) -> (info: &MetadataInfo<Ts>)
        ensures
            *info == self.info(),
    {
        match self {
            MetaEntryDiff::Added(info) => info,
            MetaEntryDiff::Deleted(info) => info,
            MetaEntryDiff::MetaOnlyChange(info) => info,
            MetaEntryDiff::EntryChange(_, info) => info,
        }
    }

    /// Applies `f` to every timestamp, each on its own, and keeps the rest.
    pub fn transform_timestamps<NewTs, F: Fn(&Ts) -> NewTs>(&self, f: F) -> (mapped: MetaEntryDiff<
        NewTs,
    >)
        requires
            total(f),
        ensures
            self.transforms_to(f, mapped),
    {
        self.transform_timestamps_by(&f)
    }

    /// Does the work of [`Self::transform_timestamps`] with a borrowed `f`.
    pub(crate) fn transform_timestamps_by<NewTs, F: Fn(&Ts) -> NewTs>(&self, f: &F) -> (mapped:
        MetaEntryDiff<NewTs>)
        requires
            total(*f),
        ensures
            self.transforms_to(*f, mapped),
    {
        match self {
            MetaEntryDiff::Added(info) => MetaEntryDiff::Added(info.transform_timestamps_by(f)),
            MetaEntryDiff::Deleted(info) => MetaEntryDiff::Deleted(
                info.transform_timestamps_by(f),
            ),
            MetaEntryDiff::MetaOnlyChange(info) => MetaEntryDiff::MetaOnlyChange(
                info.transform_timestamps_by(f),
            ),
            MetaEntryDiff::EntryChange(entry, info) => MetaEntryDiff::EntryChange(
                entry.clone(),
                info.transform_timestamps_by(f),
            ),
        }
    }
}

impl<Ts: Clone> Clone for MetaEntryDiff<Ts> {
    /// A copy says the same, with a clone of each timestamp.
    fn clone(&self) -> (copy: Self)
        ensures
            self.transforms_to(Ts::clone, copy),
    {
        self.transform_timestamps_by(&Ts::clone)
    }
}

/// Whether `f` gives one result only for each timestamp.
pub open spec fn deterministic<Ts, NewTs, F: Fn(&Ts) -> NewTs>(f: F) -> bool {
    forall|t: Ts, first: NewTs, second: NewTs|
        call_ensures(f, (&t,), first) && call_ensures(f, (&t,), second) ==> first == second
}

/// Mapping the timestamps keeps the structure: the variant, the entry's own
/// change, the inode number, the count of the changes of the metadata and
/// each of them in its place, and for each timestamp field whether it holds a
/// change and where it holds no timestamp.
pub proof fn lemma_transform_keeps_structure<Ts, NewTs, F: Fn(&Ts) -> NewTs>(
    diff: MetaEntryDiff<Ts>,
    f: F,
    mapped: MetaEntryDiff<NewTs>,
)
    requires
        diff.transforms_to(f, mapped),
    ensures
        diff is Added <==> mapped is Added,
        diff is Deleted <==> mapped is Deleted,
        diff is MetaOnlyChange <==> mapped is MetaOnlyChange,
        diff is EntryChange <==> mapped is EntryChange,
        diff matches MetaEntryDiff::EntryChange(entry, _) ==> mapped matches MetaEntryDiff::EntryChange(
            kept,
            _,
        ) && kept == entry,
        mapped.info().inode == diff.info().inode,
        mapped.info().changes@.len() == diff.info().changes@.len(),
        forall|i: int|
            0 <= i < diff.info().changes@.len() ==> (#[trigger] mapped.info().changes@[i])@
                == diff.info().changes@[i]@,
        mapped.info().created is Change <==> diff.info().created is Change,
        mapped.info().modified is Change <==> diff.info().modified is Change,
        mapped.info().accessed is Change <==> diff.info().accessed is Change,
        mapped.info().inode_modified is Change <==> diff.info().inode_modified is Change,
        mapped.info().created.new_value() is None <==> diff.info().created.new_value() is None,
        mapped.info().modified.new_value() is None <==> diff.info().modified.new_value() is None,
        mapped.info().accessed.new_value() is None <==> diff.info().accessed.new_value() is None,
        mapped.info().inode_modified.new_value() is None <==> diff.info().inode_modified.new_value()
            is None,
{
    let before = changes_view(diff.info().changes@);
    let after = changes_view(mapped.info().changes@);
    assert(after.len() == before.len());
    assert forall|i: int| 0 <= i < diff.info().changes@.len() implies (
    #[trigger] mapped.info().changes@[i])@ == diff.info().changes@[i]@ by {
        assert(after[i] == before[i]);
    }
}

/// With a function that gives one result only for each timestamp, mapping
/// the same timestamp field twice gives the same field twice.
pub proof fn lemma_map_timestamps_deterministic<Ts, NewTs, F: Fn(&Ts) -> NewTs>(
    f: F,
    field: MaybeChange<Option<Ts>>,
    first: MaybeChange<Option<NewTs>>,
    second: MaybeChange<Option<NewTs>>,
)
    requires
        deterministic(f),
        timestamps_map_to(f, field, first),
        timestamps_map_to(f, field, second),
    ensures
        first == second,
{
}

/// With a function that gives one result only for each timestamp, mapping
/// the timestamps of the same diff twice gives diffs that say the same: they
/// differ at most in which vectors hold the bytes of the named streams.
pub proof fn lemma_transform_deterministic<Ts, NewTs, F: Fn(&Ts) -> NewTs>(
    diff: MetaEntryDiff<Ts>,
    f: F,
    first: MetaEntryDiff<NewTs>,
    second: MetaEntryDiff<NewTs>,
)
    requires
        deterministic(f),
        diff.transforms_to(f, first),
        diff.transforms_to(f, second),
    ensures
        first is Added <==> second is Added,
        first is Deleted <==> second is Deleted,
        first is MetaOnlyChange <==> second is MetaOnlyChange,
        first matches MetaEntryDiff::EntryChange(entry, _) ==> second matches MetaEntryDiff::EntryChange(
            other,
            _,
        ) && other == entry,
        changes_view(first.info().changes@) == changes_view(second.info().changes@),
        first.info().inode == second.info().inode,
        first.info().created == second.info().created,
        first.info().modified == second.info().modified,
        first.info().accessed == second.info().accessed,
        first.info().inode_modified == second.info().inode_modified,
{
    let info = diff.info();
    lemma_map_timestamps_deterministic(f, info.created, first.info().created, second.info().created);
    lemma_map_timestamps_deterministic(
        f,
        info.modified,
        first.info().modified,
        second.info().modified,
    );
    lemma_map_timestamps_deterministic(
        f,
        info.accessed,
        first.info().accessed,
        second.info().accessed,
    );
    lemma_map_timestamps_deterministic(
        f,
        info.inode_modified,
        first.info().inode_modified,
        second.info().inode_modified,
    );
}

} // verus!
