//! The store as a mathematical value, and what the operations do to it.
//!
//! The store is a list of names with their records in which no name occurs
//! twice. Read as a map it is the `name -> record` mapping of the index
//! file; the order is the order in which the volumes came, and is what
//! listing and pruning go by.

use vstd::prelude::*;
use crate::action::{ActionView, IndexView};
use crate::error::ErrorView;
use crate::layout::{mountpoint_of, path_parent};
use crate::pattern::{PatternType, PatternView};
use crate::probe::{in_use, RuntimeView};
use crate::record::{new_record, volume_mount, MountView, RecordView};

verus! {

/// Where `name` stands in `index`, counted from the front; of several
/// places, the last.
pub open spec fn position(index: IndexView, name: Seq<char>) -> Option<int>
    decreases index.len(),
{
    if index.len() == 0 {
        None
    } else if index.last().0 == name {
        Some(index.len() - 1)
    } else {
        position(index.drop_last(), name)
    }
}

/// `name` is a key of `index`.
pub open spec fn has_key(index: IndexView, name: Seq<char>) -> bool {
    position(index, name) is Some
}

/// The record under `name`, where `name` is a key.
pub open spec fn record_of(index: IndexView, name: Seq<char>) -> RecordView {
    index[position(index, name)->Some_0].1
}

/// The keys of `index`, in order.
pub open spec fn keys_of(index: IndexView) -> Seq<Seq<char>> {
    index.map_values(|e: (Seq<char>, RecordView)| e.0)
}

/// The records of `index`, in order.
pub open spec fn records_of(index: IndexView) -> Seq<RecordView> {
    index.map_values(|e: (Seq<char>, RecordView)| e.1)
}

/// No key occurs twice.
pub open spec fn distinct_keys(index: IndexView) -> bool {
    forall|i: int, j: int| 0 <= i < j < index.len() ==> (#[trigger] index[i]).0 != (#[trigger] index[j]).0
}

/// The mapping that `index` stands for.
pub open spec fn as_map(index: IndexView) -> Map<Seq<char>, RecordView> {
    Map::new(|name: Seq<char>| has_key(index, name), |name: Seq<char>| record_of(index, name))
}

/// Every record sits under its own name, at the mount point laid out for
/// that name under `root`.
pub open spec fn laid_out(root: Seq<char>, index: IndexView) -> bool {
    forall|i: int|
        0 <= i < index.len() ==> {
            &&& (#[trigger] index[i]).1.name == index[i].0
            &&& index[i].1.mountpoint == mountpoint_of(root, index[i].0)
        }
}

/// `index` with `record` under `name`: in the place of the entry that was
/// under that name, or else at the end.
pub open spec fn upsert(index: IndexView, name: Seq<char>, record: RecordView) -> IndexView {
    match position(index, name) {
        Some(at) => index.update(at, (name, record)),
        None => index.push((name, record)),
    }
}

/// The store that a list of entries loads to: each entry in turn is put
/// under its name, so that of two entries with one name the later one stays.
pub open spec fn load_index(entries: IndexView) -> IndexView
    decreases entries.len(),
{
    if entries.len() == 0 {
        Seq::empty()
    } else {
        upsert(load_index(entries.drop_last()), entries.last().0, entries.last().1)
    }
}

/// What `position` finds.
pub proof fn lemma_position(index: IndexView, name: Seq<char>)
    ensures
        match position(index, name) {
            Some(at) => {
                &&& 0 <= at < index.len()
                &&& index[at].0 == name
                &&& forall|k: int| at < k < index.len() ==> (#[trigger] index[k]).0 != name
            },
            None => forall|k: int| 0 <= k < index.len() ==> (#[trigger] index[k]).0 != name,
        },
    decreases index.len(),
{
    if index.len() != 0 && index.last().0 != name {
        let front = index.drop_last();
        lemma_position(front, name);
        match position(front, name) {
            Some(at) => {
                assert forall|k: int| at < k < index.len() implies (#[trigger] index[k]).0
                    != name by {
                    if k < front.len() {
                        assert(front[k] == index[k]);
                    }
                }
            },
            None => {
                assert forall|k: int| 0 <= k < index.len() implies (#[trigger] index[k]).0
                    != name by {
                    if k < front.len() {
                        assert(front[k] == index[k]);
                    }
                }
            },
        }
    }
}

/// Where no key occurs twice, a key is found at its place.
pub proof fn lemma_position_found(index: IndexView, at: int)
    requires
        distinct_keys(index),
        0 <= at < index.len(),
    ensures
        position(index, index[at].0) == Some(at),
{
    lemma_position(index, index[at].0);
}

/// An entry under a new name keeps the keys distinct, and is found.
pub proof fn lemma_push(index: IndexView, name: Seq<char>, record: RecordView)
    requires
        distinct_keys(index),
        !has_key(index, name),
    ensures
        distinct_keys(index.push((name, record))),
        upsert(index, name, record) == index.push((name, record)),
        forall|other: Seq<char>|
            has_key(index.push((name, record)), other) <==> other == name || has_key(index, other),
        record_of(index.push((name, record)), name) == record,
        forall|other: Seq<char>|
            other != name && has_key(index, other) ==> record_of(
                index.push((name, record)),
                other,
            ) == record_of(index, other),
{
    let grown = index.push((name, record));
    lemma_position(index, name);
    assert(grown.drop_last() =~= index);
    assert forall|other: Seq<char>|
        other != name && has_key(index, other) implies record_of(grown, other) == record_of(
        index,
        other,
    ) by {
        lemma_position(index, other);
    }
}

/// Taking an entry out keeps the keys distinct, drops its key and leaves
/// every other key with its record.
pub proof fn lemma_remove(index: IndexView, at: int)
    requires
        distinct_keys(index),
        0 <= at < index.len(),
    ensures
        distinct_keys(index.remove(at)),
        !has_key(index.remove(at), index[at].0),
        forall|other: Seq<char>|
            other != index[at].0 ==> (has_key(index.remove(at), other) <==> has_key(index, other)),
        forall|other: Seq<char>|
            other != index[at].0 && has_key(index, other) ==> record_of(index.remove(at), other)
                == record_of(index, other),
{
    let rest = index.remove(at);
    assert forall|i: int, j: int| 0 <= i < j < rest.len() implies (#[trigger] rest[i]).0 != (
    #[trigger] rest[j]).0 by {
        let oi = if i < at {
            i
        } else {
            i + 1
        };
        let oj = if j < at {
            j
        } else {
            j + 1
        };
        assert(rest[i] == index[oi]);
        assert(rest[j] == index[oj]);
    }
    lemma_position(rest, index[at].0);
    if has_key(rest, index[at].0) {
        let k = position(rest, index[at].0)->Some_0;
        let ok = if k < at {
            k
        } else {
            k + 1
        };
        assert(rest[k] == index[ok]);
    }
    assert forall|other: Seq<char>| other != index[at].0 implies (has_key(rest, other)
        <==> has_key(index, other)) && (has_key(index, other) ==> record_of(rest, other)
        == record_of(index, other)) by {
        lemma_position(rest, other);
        lemma_position(index, other);
        if has_key(index, other) {
            let o = position(index, other)->Some_0;
            let r = if o < at {
                o
            } else {
                o - 1
            };
            assert(rest[r] == index[o]);
            lemma_position_found(rest, r);
        } else if has_key(rest, other) {
            let k = position(rest, other)->Some_0;
            let ok = if k < at {
                k
            } else {
                k + 1
            };
            assert(rest[k] == index[ok]);
        }
    }
}

/// Read as a mapping, the store with a new entry at its end is the store
/// with that entry inserted.
pub proof fn lemma_push_inserts(index: IndexView, name: Seq<char>, record: RecordView)
    requires
        distinct_keys(index),
        !has_key(index, name),
    ensures
        as_map(index.push((name, record))) == as_map(index).insert(name, record),
{
    lemma_push(index, name, record);
    assert(as_map(index.push((name, record))) =~= as_map(index).insert(name, record));
}

/// Read as a mapping, the store without one of its entries is the store
/// with that entry's name removed.
pub proof fn lemma_remove_removes(index: IndexView, at: int)
    requires
        distinct_keys(index),
        0 <= at < index.len(),
    ensures
        as_map(index.remove(at)) == as_map(index).remove(index[at].0),
{
    lemma_remove(index, at);
    assert(as_map(index.remove(at)) =~= as_map(index).remove(index[at].0));
}

/// Putting a record under a name keeps the keys distinct.
pub proof fn lemma_upsert_distinct(index: IndexView, name: Seq<char>, record: RecordView)
    requires
        distinct_keys(index),
    ensures
        distinct_keys(upsert(index, name, record)),
{
    lemma_position(index, name);
    match position(index, name) {
        Some(at) => {
            let changed = index.update(at, (name, record));
            assert forall|i: int, j: int| 0 <= i < j < changed.len() implies (
            #[trigger] changed[i]).0 != (#[trigger] changed[j]).0 by {
                assert(changed[i].0 == index[i].0);
                assert(changed[j].0 == index[j].0);
            }
        },
        None => {
            lemma_push(index, name, record);
        },
    }
}

/// A loaded store has no key twice.
pub proof fn lemma_load_distinct(entries: IndexView)
    ensures
        distinct_keys(load_index(entries)),
    decreases entries.len(),
{
    if entries.len() != 0 {
        lemma_load_distinct(entries.drop_last());
        lemma_upsert_distinct(
            load_index(entries.drop_last()),
            entries.last().0,
            entries.last().1,
        );
    }
}

/// Entries without a repeated name load to themselves.
pub proof fn lemma_load_identity(entries: IndexView)
    requires
        distinct_keys(entries),
    ensures
        load_index(entries) == entries,
    decreases entries.len(),
{
    if entries.len() != 0 {
        let front = entries.drop_last();
        assert forall|i: int, j: int| 0 <= i < j < front.len() implies (#[trigger] front[i]).0 != (
        #[trigger] front[j]).0 by {
            assert(front[i] == entries[i]);
            assert(front[j] == entries[j]);
        }
        lemma_load_identity(front);
        lemma_position(front, entries.last().0);
        if has_key(front, entries.last().0) {
            let at = position(front, entries.last().0)->Some_0;
            assert(front[at] == entries[at]);
            assert(entries[entries.len() - 1] == entries.last());
        }
        assert(front.push(entries.last()) =~= entries);
    }
}

/// Entries laid out under `root` load to a store laid out under `root`.
pub proof fn lemma_load_laid_out(root: Seq<char>, entries: IndexView)
    requires
        laid_out(root, entries),
    ensures
        laid_out(root, load_index(entries)),
    decreases entries.len(),
{
    if entries.len() != 0 {
        let front = entries.drop_last();
        assert forall|i: int| 0 <= i < front.len() implies {
            &&& (#[trigger] front[i]).1.name == front[i].0
            &&& front[i].1.mountpoint == mountpoint_of(root, front[i].0)
        } by {
            assert(front[i] == entries[i]);
        }
        lemma_load_laid_out(root, front);
        let loaded = load_index(front);
        let last = entries[entries.len() - 1];
        lemma_position(loaded, last.0);
        let after = load_index(entries);
        assert forall|i: int| 0 <= i < after.len() implies {
            &&& (#[trigger] after[i]).1.name == after[i].0
            &&& after[i].1.mountpoint == mountpoint_of(root, after[i].0)
        } by {
            if i < loaded.len() && after[i] != last {
                assert(after[i] == loaded[i]);
            }
        }
    }
}

/// The driver of a volume that was created without one.
pub open spec fn default_driver() -> Seq<char> {
    "local"@
}

/// What creating the volume `name` adds to the pending actions: its data
/// directory, then the index as it stands with the new record.
pub open spec fn creation_actions(
    root: Seq<char>,
    index_path: Seq<char>,
    index: IndexView,
    name: Seq<char>,
) -> Seq<ActionView> {
    seq![
        ActionView::CreateDirAll { path: mountpoint_of(root, name) },
        ActionView::WriteIndex { path: index_path, entries: index },
    ]
}

/// Why the entry at `at` cannot be removed, if it cannot, `dir` being the
/// directory above its mount point: it is referenced and the removal is not
/// forced, or there is no such directory.
pub open spec fn removal_blocked_with(
    index: IndexView,
    at: int,
    force: bool,
    state: RuntimeView,
    dir: Option<Seq<char>>,
) -> Option<ErrorView> {
    if !force && in_use(state, index[at].0) {
        Some(ErrorView::InUse(index[at].0))
    } else if dir is None {
        Some(ErrorView::PathError(index[at].0))
    } else {
        None
    }
}

/// Why the entry at `at` cannot be removed, if it cannot: it is referenced
/// and the removal is not forced, or its mount point has no directory above
/// it.
pub open spec fn removal_blocked(index: IndexView, at: int, force: bool, state: RuntimeView) -> Option<
    ErrorView,
> {
    removal_blocked_with(index, at, force, state, path_parent(index[at].1.mountpoint))
}

/// What removing the entry at `at` adds to the pending actions, `dir` being
/// the directory above its mount point: the removal of `dir`, then the index
/// as it stands without the entry.
pub open spec fn removal_actions_with(
    index_path: Seq<char>,
    index: IndexView,
    at: int,
    dir: Seq<char>,
) -> Seq<ActionView> {
    seq![
        ActionView::RemoveDirAll { path: dir },
        ActionView::WriteIndex { path: index_path, entries: index.remove(at) },
    ]
}

/// What removing the entry at `at` adds to the pending actions: the removal
/// of the directory above its mount point, then the index as it stands
/// without the entry.
pub open spec fn removal_actions(index_path: Seq<char>, index: IndexView, at: int) -> Seq<
    ActionView,
> {
    removal_actions_with(index_path, index, at, path_parent(index[at].1.mountpoint)->Some_0)
}

/// How a prune ends.
pub struct PruneOutcome {
    /// The entries that stay.
    pub index: IndexView,
    /// The names that were removed, in order.
    pub removed: Seq<Seq<char>>,
    /// What the removals added to the pending actions.
    pub actions: Seq<ActionView>,
    /// The failure that stopped the prune, if one did.
    pub error: Option<ErrorView>,
}

/// Pruning `index`: the entries are removed from the front, one by one,
/// until one cannot be removed or none is left.
pub open spec fn prune_outcome(
    index_path: Seq<char>,
    index: IndexView,
    force: bool,
    state: RuntimeView,
) -> PruneOutcome
    decreases index.len(),
{
    if index.len() == 0 {
        PruneOutcome { index, removed: Seq::empty(), actions: Seq::empty(), error: None }
    } else {
        match removal_blocked(index, 0, force, state) {
            Some(error) => PruneOutcome {
                index,
                removed: Seq::empty(),
                actions: Seq::empty(),
                error: Some(error),
            },
            None => {
                let rest = prune_outcome(index_path, index.remove(0), force, state);
                PruneOutcome {
                    index: rest.index,
                    removed: seq![index[0].0] + rest.removed,
                    actions: removal_actions(index_path, index, 0) + rest.actions,
                    error: rest.error,
                }
            },
        }
    }
}

/// How the resolution of one pattern ends where it succeeds.
pub struct StepOutcome {
    /// The store afterwards.
    pub index: IndexView,
    /// The volume that the pattern resolved to.
    pub name: Seq<char>,
    /// The mount descriptor.
    pub mount: MountView,
    /// What the step added to the pending actions.
    pub actions: Seq<ActionView>,
}

/// Resolving a pattern by creating the volume `name` with defaults.
pub open spec fn resolve_by_creating(
    root: Seq<char>,
    index_path: Seq<char>,
    index: IndexView,
    pattern: PatternView,
    name: Seq<char>,
    created_at: Seq<char>,
) -> StepOutcome {
    let record = new_record(root, name, default_driver(), Map::empty(), created_at);
    let grown = index.push((name, record));
    StepOutcome {
        index: grown,
        name,
        mount: volume_mount(pattern.container_path, record.mountpoint, pattern.read_only),
        actions: creation_actions(root, index_path, grown, name),
    }
}

/// Resolving one pattern against `index`.
///
/// A bind mount passes its host path through. A named volume that the store
/// knows resolves to its record's mount point; one that it does not know is
/// created, or, for a compose container, is an error. An anonymous volume is
/// created under `fresh_name`, which must be unused. `created_at` is the
/// time that a created record gets.
pub open spec fn resolve_step(
    root: Seq<char>,
    index_path: Seq<char>,
    index: IndexView,
    pattern: PatternView,
    is_compose: bool,
    fresh_name: Seq<char>,
    created_at: Seq<char>,
) -> Result<StepOutcome, ErrorView> {
    match pattern.pattern_type {
        PatternType::BindMount => Ok(
            StepOutcome {
                index,
                name: pattern.host_path,
                mount: volume_mount(pattern.container_path, pattern.host_path, pattern.read_only),
                actions: Seq::empty(),
            },
        ),
        PatternType::Named => if has_key(index, pattern.host_path) {
            Ok(
                StepOutcome {
                    index,
                    name: pattern.host_path,
                    mount: volume_mount(
                        pattern.container_path,
                        record_of(index, pattern.host_path).mountpoint,
                        pattern.read_only,
                    ),
                    actions: Seq::empty(),
                },
            )
        } else if is_compose {
            Err(ErrorView::UndefinedComposeVolume(pattern.host_path))
        } else {
            Ok(
                resolve_by_creating(
                    root,
                    index_path,
                    index,
                    pattern,
                    pattern.host_path,
                    created_at,
                ),
            )
        },
        PatternType::Anonymous => if has_key(index, fresh_name) {
            Err(ErrorView::NameCollision)
        } else {
            Ok(resolve_by_creating(root, index_path, index, pattern, fresh_name, created_at))
        },
    }
}

/// How the resolution of a batch of patterns ends.
pub struct BatchOutcome {
    /// The store afterwards: with every volume that was created before the
    /// batch ended, also where it ended in a failure.
    pub index: IndexView,
    /// The resolved names, one for each pattern that was resolved.
    pub names: Seq<Seq<char>>,
    /// The mount descriptors, one for each pattern that was resolved.
    pub mounts: Seq<MountView>,
    /// What the batch added to the pending actions.
    pub actions: Seq<ActionView>,
    /// The failure that stopped the batch, if one did.
    pub error: Option<ErrorView>,
}

/// Resolving `patterns` in order against `index`, stopping at the first that
/// fails. `fresh_names[i]` is the name drawn for pattern `i` and
/// `created_at[i]` the time at which it is resolved.
pub open spec fn resolve_all(
    root: Seq<char>,
    index_path: Seq<char>,
    index: IndexView,
    patterns: Seq<PatternView>,
    is_compose: bool,
    fresh_names: Seq<Seq<char>>,
    created_at: Seq<Seq<char>>,
) -> BatchOutcome
    decreases patterns.len(),
{
    if patterns.len() == 0 {
        BatchOutcome {
            index,
            names: Seq::empty(),
            mounts: Seq::empty(),
            actions: Seq::empty(),
            error: None,
        }
    } else {
        let last = patterns.len() - 1;
        let before = resolve_all(
            root,
            index_path,
            index,
            patterns.drop_last(),
            is_compose,
            fresh_names,
            created_at,
        );
        if before.error is Some {
            before
        } else {
            match resolve_step(
                root,
                index_path,
                before.index,
                patterns[last],
                is_compose,
                fresh_names[last],
                created_at[last],
            ) {
                Ok(step) => BatchOutcome {
                    index: step.index,
                    names: before.names.push(step.name),
                    mounts: before.mounts.push(step.mount),
                    actions: before.actions + step.actions,
                    error: None,
                },
                Err(error) => BatchOutcome {
                    index: before.index,
                    names: before.names,
                    mounts: before.mounts,
                    actions: before.actions,
                    error: Some(error),
                },
            }
        }
    }
}

} // verus!
