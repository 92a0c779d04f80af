//! The volume manager: the store of volume records under one volume root,
//! and the operations on it.

use vstd::prelude::*;
use crate::action::{action_views, entry_views, ActionView, HostAction, IndexView};
use crate::error::{ErrorView, VolumeError};
use crate::index::{
    as_map, creation_actions, default_driver, distinct_keys, has_key, keys_of, laid_out,
    lemma_load_identity, lemma_load_laid_out, lemma_position, lemma_position_found, lemma_push,
    lemma_push_inserts, lemma_remove, lemma_remove_removes, lemma_upsert_distinct, load_index,
    position, prune_outcome, record_of, records_of, removal_actions, removal_actions_with,
    removal_blocked, removal_blocked_with, upsert,
};
use crate::layout::{index_path_for, index_path_of, mountpoint_for, mountpoint_of, parent_of};
use crate::probe::{is_volume_in_use, RuntimeState};
use crate::record::{new_record, timestamp_now, RecordView, StringMap, VolumeMetadata};
use crate::text::{optional_view, views};

verus! {

/// The driver that a volume is created with: the one asked for, or the
/// default.
pub open spec fn driver_or_default(driver: Option<String>) -> Seq<char> {
    match driver {
        Some(tag) => tag@,
        None => default_driver(),
    }
}

/// The volume root that is used where none is given.
pub open spec fn default_root() -> Seq<char> {
    "/var/lib/rkl/volumes"@
}

/// The views of the records that a list refers to.
pub open spec fn record_views(records: Seq<&VolumeMetadata>) -> Seq<RecordView> {
    records.map_values(|r: &VolumeMetadata| r@)
}

/// The store of volume records under one volume root.
pub struct VolumeManager {
    volume_root: String,
    metadata_path: String,
    volumes: Vec<(String, VolumeMetadata)>,
    pending: Vec<HostAction>,
}

impl VolumeManager {
    /// The volume root.
    pub closed spec fn root(&self) -> Seq<char> {
        self.volume_root@
    }

    /// The path of the index file.
    pub closed spec fn index_path(&self) -> Seq<char> {
        self.metadata_path@
    }

    /// The store: names and records, in the order in which they came.
    pub closed spec fn index(&self) -> IndexView {
        entry_views(self.volumes@)
    }

    /// What the host has still to carry out, in order.
    pub closed spec fn pending(&self) -> Seq<ActionView> {
        action_views(self.pending@)
    }

    /// No name is stored twice, the index file lies under the root, and
    /// where anything is pending, the last pending action writes the store
    /// as it stands.
    pub open spec fn wf(&self) -> bool {
        &&& distinct_keys(self.index())
        &&& self.index_path() == index_path_of(self.root())
        &&& self.pending().len() > 0 ==> self.pending().last() == (ActionView::WriteIndex {
            path: self.index_path(),
            entries: self.index(),
        })
    }

    /// A manager with an empty store under the default root.
    pub fn new() -> (manager: Self)
        ensures
            manager.wf(),
            manager.root() == default_root(),
            manager.index().len() == 0,
            manager.pending().len() == 0,
    {
        let volume_root = "/var/lib/rkl/volumes".to_owned();
        let metadata_path = index_path_for(volume_root.as_str());
        VolumeManager { volume_root, metadata_path, volumes: Vec::new(), pending: Vec::new() }
    }

    /// A manager under `volume_root` whose store holds `entries` as an index
    /// file gave them: of two entries with one name the later one stays.
    pub fn load(volume_root: String, entries: Vec<(String, VolumeMetadata)>) -> (manager: Self)
        ensures
            manager.wf(),
            manager.root() == volume_root@,
            manager.index() == load_index(entry_views(entries@)),
            manager.pending().len() == 0,
            distinct_keys(entry_views(entries@)) ==> manager.index() == entry_views(entries@),
            laid_out(volume_root@, entry_views(entries@)) ==> laid_out(
                manager.root(),
                manager.index(),
            ),
    {
        proof {
            if distinct_keys(entry_views(entries@)) {
                lemma_load_identity(entry_views(entries@));
            }
            if laid_out(volume_root@, entry_views(entries@)) {
                lemma_load_laid_out(volume_root@, entry_views(entries@));
            }
        }
        let metadata_path = index_path_for(volume_root.as_str());
        let mut manager = VolumeManager {
            volume_root,
            metadata_path,
            volumes: Vec::new(),
            pending: Vec::new(),
        };
        let ghost all = entry_views(entries@);
        let entries = load_volume_container_reference(entries);
        let ghost mut done: int = 0;
        assert(all.take(0) =~= Seq::empty());
        for entry in it: entries
            invariant
                done == it.index(),
                entry_views(it.seq()) == all,
                manager.wf(),
                manager.volume_root@ == volume_root@,
                manager.pending@.len() == 0,
                manager.index() == load_index(all.take(done)),
        {
            let ghost before = manager.index();
            proof {
                assert(all.take(done + 1).drop_last() =~= all.take(done));
                assert(all.take(done + 1).last() == (entry.0@, entry.1@));
                lemma_upsert_distinct(before, entry.0@, entry.1@);
            }
            match manager.find(&entry.0) {
                Some(at) => {
                    manager.volumes[at] = entry;
                    proof {
                        assert(manager.index() =~= upsert(before, entry.0@, entry.1@));
                    }
                },
                None => {
                    manager.volumes.push(entry);
                    proof {
                        assert(manager.index() =~= upsert(before, entry.0@, entry.1@));
                    }
                },
            }
            proof {
                done = done + 1;
            }
        }
        proof {
            assert(all.take(all.len() as int) =~= all);
        }
        manager
    }

    /// The volume root.
    pub fn volume_root(&self) -> (root: &String)
        ensures
            root@ == self.root(),
    {
        &self.volume_root
    }

    /// The path of the index file.
    pub fn metadata_path(&self) -> (path: &String)
        ensures
            path@ == self.index_path(),
    {
        &self.metadata_path
    }

    /// Where `name` is stored.
    fn find(&self, name: &String) -> (at: Option<usize>)
        ensures
            match at {
                Some(i) => position(self.index(), name@) == Some(i as int) && i < self.volumes@.len(),
                None => position(self.index(), name@) is None,
            },
    {
        let mut i: usize = self.volumes.len();
        assert(self.index().take(i as int) =~= self.index());
        while i > 0
            invariant
                i <= self.volumes.len(),
                position(self.index(), name@) == position(self.index().take(i as int), name@),
            decreases i,
        {
            proof {
                let part = self.index().take(i as int);
                assert(part.last() == self.index()[i - 1]);
                assert(part.drop_last() =~= self.index().take(i - 1));
            }
            i -= 1;
            if self.volumes[i].0 == *name {
                return Some(i);
            }
        }
        None
    }

    /// Whether a volume of that name is stored.
    pub fn contains(&self, name: &str) -> (found: bool)
        ensures
            found == has_key(self.index(), name@),
    {
        let owned = name.to_owned();
        self.find(&owned).is_some()
    }

    /// The number of stored volumes.
    pub fn len(&self) -> (n: usize)
        ensures
            n == self.index().len(),
    {
        self.volumes.len()
    }

    /// The mount point of the volume `name`.
    pub fn get_mountpoint_from_name(&self, name: &str) -> (r: Result<String, VolumeError>)
        ensures
            match r {
                Ok(path) => has_key(self.index(), name@) && path@ == record_of(
                    self.index(),
                    name@,
                ).mountpoint,
                Err(error) => !has_key(self.index(), name@) && error@ == ErrorView::NotFound(name@),
            },
    {
        let owned = name.to_owned();
        match self.find(&owned) {
            Some(at) => Ok(self.volumes[at].1.mountpoint.clone()),
            None => Err(VolumeError::NotFound(owned)),
        }
    }

    /// The records of all volumes, in the order in which they came.
    pub fn list(&self) -> (records: Vec<&VolumeMetadata>)
        ensures
            record_views(records@) == records_of(self.index()),
    {
        let mut records: Vec<&VolumeMetadata> = Vec::new();
        let mut i: usize = 0;
        while i < self.volumes.len()
            invariant
                i <= self.volumes.len(),
                record_views(records@) == records_of(self.index().take(i as int)),
            decreases self.volumes.len() - i,
        {
            let ghost before = record_views(records@);
            records.push(&self.volumes[i].1);
            proof {
                assert(self.index().take(i + 1) =~= self.index().take(i as int).push(
                    self.index()[i as int],
                ));
                assert(record_views(records@) =~= before.push(self.index()[i as int].1));
                assert(records_of(self.index().take(i + 1)) =~= records_of(
                    self.index().take(i as int),
                ).push(self.index()[i as int].1));
            }
            i += 1;
        }
        proof {
            assert(self.index().take(self.volumes.len() as int) =~= self.index());
        }
        records
    }

    /// The record of the volume `name`.
    pub fn inspect_(&self, name: &str) -> (r: Result<&VolumeMetadata, VolumeError>)
        ensures
            match r {
                Ok(record) => has_key(self.index(), name@) && record@ == record_of(
                    self.index(),
                    name@,
                ),
                Err(error) => !has_key(self.index(), name@) && error@ == ErrorView::NotFound(name@),
            },
    {
        let owned = name.to_owned();
        match self.find(&owned) {
            Some(at) => Ok(&self.volumes[at].1),
            None => Err(VolumeError::NotFound(owned)),
        }
    }

    /// A copy of the store.
    fn snapshot(&self) -> (entries: Vec<(String, VolumeMetadata)>)
        ensures
            entry_views(entries@) == self.index(),
    {
        let mut entries: Vec<(String, VolumeMetadata)> = Vec::new();
        let mut i: usize = 0;
        while i < self.volumes.len()
            invariant
                i <= self.volumes.len(),
                entry_views(entries@) == self.index().take(i as int),
            decreases self.volumes.len() - i,
        {
            let ghost before = entry_views(entries@);
            entries.push((self.volumes[i].0.clone(), self.volumes[i].1.clone()));
            proof {
                assert(entry_views(entries@) =~= before.push(self.index()[i as int]));
                assert(self.index().take(i + 1) =~= self.index().take(i as int).push(
                    self.index()[i as int],
                ));
            }
            i += 1;
        }
        proof {
            assert(self.index().take(self.volumes.len() as int) =~= self.index());
        }
        entries
    }

    /// Creates the volume `name` with the creation time `created_at`.
    ///
    /// Fails exactly where a volume of that name is stored. Otherwise the
    /// new record goes to the end of the store, and the host is asked to
    /// create the data directory and then to write the index.
    pub fn create_at(
        &mut self,
        name: String,
        driver: Option<String>,
        opts: StringMap,
        created_at: String,
    ) -> (r: Result<VolumeMetadata, VolumeError>)
        requires
            old(self).wf(),
        ensures
            final(self).wf(),
            final(self).root() == old(self).root(),
            final(self).index_path() == old(self).index_path(),
            laid_out(old(self).root(), old(self).index()) ==> laid_out(
                final(self).root(),
                final(self).index(),
            ),
            match r {
                Ok(record) => {
                    &&& !has_key(old(self).index(), name@)
                    &&& record@ == new_record(
                        old(self).root(),
                        name@,
                        driver_or_default(driver),
                        opts@,
                        created_at@,
                    )
                    &&& final(self).index() == old(self).index().push((name@, record@))
                    &&& final(self)@ == old(self)@.insert(name@, record@)
                    &&& final(self).pending() == old(self).pending() + creation_actions(
                        old(self).root(),
                        old(self).index_path(),
                        final(self).index(),
                        name@,
                    )
                },
                Err(error) => {
                    &&& has_key(old(self).index(), name@)
                    &&& error@ == ErrorView::AlreadyExists(name@)
                    &&& final(self).index() == old(self).index()
                    &&& final(self).pending() == old(self).pending()
                },
            },
    {
        if self.find(&name).is_some() {
            return Err(VolumeError::AlreadyExists(name));
        }
        let driver = match driver {
            Some(tag) => tag,
            None => "local".to_owned(),
        };
        let mountpoint = mountpoint_for(self.volume_root.as_str(), name.as_str());
        let metadata = VolumeMetadata {
            name: name.clone(),
            driver,
            mountpoint,
            created_at,
            labels: StringMap::new(),
            options: opts,
            scope: "local".to_owned(),
            status: StringMap::new(),
            reference: Vec::new(),
        };
        proof {
            assert(views(metadata.reference@) =~= Seq::<Seq<char>>::empty());
        }
        let copy = metadata.clone();
        let dir = metadata.mountpoint.clone();
        let ghost before = self.index();
        let ghost queued = self.pending();
        proof {
            lemma_push(before, name@, metadata@);
            lemma_push_inserts(before, name@, metadata@);
        }
        self.volumes.push((name, metadata));
        proof {
            assert(self.index() =~= before.push((name@, copy@)));
            if laid_out(self.root(), before) {
                assert forall|k: int| 0 <= k < self.index().len() implies {
                    &&& (#[trigger] self.index()[k]).1.name == self.index()[k].0
                    &&& self.index()[k].1.mountpoint == mountpoint_of(
                        self.root(),
                        self.index()[k].0,
                    )
                } by {
                    if k < before.len() {
                        assert(self.index()[k] == before[k]);
                    }
                }
            }
        }
        let entries = self.snapshot();
        let path = self.metadata_path.clone();
        self.pending.push(HostAction::CreateDirAll { path: dir });
        self.pending.push(HostAction::WriteIndex { path, entries });
        proof {
            assert(self.pending() =~= queued + creation_actions(
                self.root(),
                self.index_path(),
                self.index(),
                name@,
            ));
        }
        Ok(copy)
    }

    /// Creates the volume `name`, stamped with the current time.
    ///
    /// Fails exactly where a volume of that name is stored. Otherwise the
    /// new record goes to the end of the store, and the host is asked to
    /// create the data directory and then to write the index.
    pub fn create_(&mut self, name: String, driver: Option<String>, opts: StringMap) -> (r: Result<
        VolumeMetadata,
        VolumeError,
    >)
        requires
            old(self).wf(),
        ensures
            final(self).wf(),
            final(self).root() == old(self).root(),
            final(self).index_path() == old(self).index_path(),
            laid_out(old(self).root(), old(self).index()) ==> laid_out(
                final(self).root(),
                final(self).index(),
            ),
            match r {
                Ok(record) => {
                    &&& !has_key(old(self).index(), name@)
                    &&& record@ == new_record(
                        old(self).root(),
                        name@,
                        driver_or_default(driver),
                        opts@,
                        record@.created_at,
                    )
                    &&& final(self).index() == old(self).index().push((name@, record@))
                    &&& final(self)@ == old(self)@.insert(name@, record@)
                    &&& final(self).pending() == old(self).pending() + creation_actions(
                        old(self).root(),
                        old(self).index_path(),
                        final(self).index(),
                        name@,
                    )
                },
                Err(error) => {
                    &&& has_key(old(self).index(), name@)
                    &&& error@ == ErrorView::AlreadyExists(name@)
                    &&& final(self).index() == old(self).index()
                    &&& final(self).pending() == old(self).pending()
                },
            },
    {
        if self.find(&name).is_some() {
            return Err(VolumeError::AlreadyExists(name));
        }
        let created_at = timestamp_now();
        self.create_at(name, driver, opts, created_at)
    }

    /// Removes the volume `name`, `dir` being the directory above its mount
    /// point, if there is one.
    ///
    /// Fails where no such volume is stored; where it is referenced in
    /// `runtime` and `force` is not set; and where `dir` is nothing.
    /// Otherwise the entry leaves the store, and the host is asked to remove
    /// `dir` and then to write the index.
    pub fn remove_with_dir(
        &mut self,
        name: &str,
        force: bool,
        runtime: &RuntimeState,
        dir: Option<String>,
    ) -> (r: Result<(), VolumeError>)
        requires
            old(self).wf(),
        ensures
            final(self).wf(),
            final(self).root() == old(self).root(),
            final(self).index_path() == old(self).index_path(),
            laid_out(old(self).root(), old(self).index()) ==> laid_out(
                final(self).root(),
                final(self).index(),
            ),
            match position(old(self).index(), name@) {
                None => {
                    &&& r is Err
                    &&& r->Err_0@ == ErrorView::NotFound(name@)
                    &&& final(self).index() == old(self).index()
                    &&& final(self).pending() == old(self).pending()
                },
                Some(at) => match removal_blocked_with(
                    old(self).index(),
                    at,
                    force,
                    runtime@,
                    optional_view(dir),
                ) {
                    Some(error) => {
                        &&& r is Err
                        &&& r->Err_0@ == error
                        &&& final(self).index() == old(self).index()
                        &&& final(self).pending() == old(self).pending()
                    },
                    None => {
                        &&& r is Ok
                        &&& final(self).index() == old(self).index().remove(at)
                        &&& final(self)@ == old(self)@.remove(name@)
                        &&& final(self).pending() == old(self).pending() + removal_actions_with(
                            old(self).index_path(),
                            old(self).index(),
                            at,
                            dir->Some_0@,
                        )
                    },
                },
            },
    {
        let owned = name.to_owned();
        let at = match self.find(&owned) {
            Some(at) => at,
            None => {
                return Err(VolumeError::NotFound(owned));
            },
        };
        proof {
            lemma_position(self.index(), name@);
        }
        if !force && is_volume_in_use(name, runtime) {
            return Err(VolumeError::InUse(owned));
        }
        let dir = match dir {
            Some(dir) => dir,
            None => {
                return Err(VolumeError::PathError(owned));
            },
        };
        let ghost before = self.index();
        let ghost queued = self.pending();
        proof {
            lemma_remove(before, at as int);
            lemma_remove_removes(before, at as int);
        }
        let _ = self.volumes.remove(at);
        proof {
            assert(self.index() =~= before.remove(at as int));
            if laid_out(self.root(), before) {
                assert forall|k: int| 0 <= k < self.index().len() implies {
                    &&& (#[trigger] self.index()[k]).1.name == self.index()[k].0
                    &&& self.index()[k].1.mountpoint == mountpoint_of(
                        self.root(),
                        self.index()[k].0,
                    )
                } by {
                    if k < at {
                        assert(self.index()[k] == before[k]);
                    } else {
                        assert(self.index()[k] == before[k + 1]);
                    }
                }
            }
        }
        let entries = self.snapshot();
        let path = self.metadata_path.clone();
        self.pending.push(HostAction::RemoveDirAll { path: dir });
        self.pending.push(HostAction::WriteIndex { path, entries });
        proof {
            assert(self.pending() =~= queued + removal_actions_with(
                self.index_path(),
                before,
                at as int,
                dir@,
            ));
        }
        Ok(())
    }

    /// Removes the volume `name`.
    ///
    /// Fails where no such volume is stored; where it is referenced in
    /// `runtime` and `force` is not set; and where its mount point has no
    /// directory above it. Otherwise the entry leaves the store, and the
    /// host is asked to remove the directory above the mount point and then
    /// to write the index.
    pub fn remove_(&mut self, name: &str, force: bool, runtime: &RuntimeState) -> (r: Result<
        (),
        VolumeError,
    >)
        requires
            old(self).wf(),
        ensures
            final(self).wf(),
            final(self).root() == old(self).root(),
            final(self).index_path() == old(self).index_path(),
            laid_out(old(self).root(), old(self).index()) ==> laid_out(
                final(self).root(),
                final(self).index(),
            ),
            match position(old(self).index(), name@) {
                None => {
                    &&& r is Err
                    &&& r->Err_0@ == ErrorView::NotFound(name@)
                    &&& final(self).index() == old(self).index()
                    &&& final(self).pending() == old(self).pending()
                },
                Some(at) => match removal_blocked(old(self).index(), at, force, runtime@) {
                    Some(error) => {
                        &&& r is Err
                        &&& r->Err_0@ == error
                        &&& final(self).index() == old(self).index()
                        &&& final(self).pending() == old(self).pending()
                    },
                    None => {
                        &&& r is Ok
                        &&& final(self).index() == old(self).index().remove(at)
                        &&& final(self)@ == old(self)@.remove(name@)
                        &&& final(self).pending() == old(self).pending() + removal_actions(
                            old(self).index_path(),
                            old(self).index(),
                            at,
                        )
                    },
                },
            },
    {
        let owned = name.to_owned();
        let dir = match self.find(&owned) {
            Some(at) => parent_of(self.volumes[at].1.mountpoint.as_str()),
            None => None,
        };
        self.remove_with_dir(name, force, runtime, dir)
    }

    /// The names of all volumes, in the order in which they came.
    pub fn names(&self) -> (names: Vec<String>)
        ensures
            views(names@) == keys_of(self.index()),
    {
        let mut names: Vec<String> = Vec::new();
        let mut i: usize = 0;
        while i < self.volumes.len()
            invariant
                i <= self.volumes.len(),
                views(names@) == keys_of(self.index().take(i as int)),
            decreases self.volumes.len() - i,
        {
            let ghost before = views(names@);
            names.push(self.volumes[i].0.clone());
            proof {
                assert(views(names@) =~= before.push(self.index()[i as int].0));
                assert(self.index().take(i + 1) =~= self.index().take(i as int).push(
                    self.index()[i as int],
                ));
                assert(keys_of(self.index().take(i + 1)) =~= keys_of(
                    self.index().take(i as int),
                ).push(self.index()[i as int].0));
            }
            i += 1;
        }
        proof {
            assert(self.index().take(self.volumes.len() as int) =~= self.index());
        }
        names
    }

    /// Removes every volume, from the first on, and stops at the first that
    /// cannot be removed.
    ///
    /// Succeeds with the names of all volumes, in order, where none is
    /// blocked; fails with the failure of the first blocked one, the volumes
    /// before it removed.
    pub fn prune_(&mut self, force: bool, runtime: &RuntimeState) -> (r: Result<
        Vec<String>,
        VolumeError,
    >)
        requires
            old(self).wf(),
        ensures
            final(self).wf(),
            final(self).root() == old(self).root(),
            final(self).index_path() == old(self).index_path(),
            laid_out(old(self).root(), old(self).index()) ==> laid_out(
                final(self).root(),
                final(self).index(),
            ),
            ({
                let outcome = prune_outcome(
                    old(self).index_path(),
                    old(self).index(),
                    force,
                    runtime@,
                );
                &&& final(self).index() == outcome.index
                &&& final(self).pending() == old(self).pending() + outcome.actions
                &&& match r {
                    Ok(removed) => outcome.error is None && views(removed@) == outcome.removed,
                    Err(error) => outcome.error == Some(error@),
                }
            }),
    {
        let mut removed: Vec<String> = Vec::new();
        let names = self.names();
        let ghost start = self.index();
        let ghost queued = self.pending();
        let ghost path = self.index_path();
        let ghost mut added: Seq<ActionView> = Seq::empty();
        let mut i: usize = 0;
        proof {
            assert(start.skip(0) =~= start);
            assert(queued + added =~= queued);
            assert(keys_of(start).len() == start.len());
        }
        while i < names.len()
            invariant
                i <= names.len(),
                names@.len() == start.len(),
                views(names@) == keys_of(start),
                self.wf(),
                self.root() == old(self).root(),
                self.index_path() == path,
                path == old(self).index_path(),
                start == old(self).index(),
                queued == old(self).pending(),
                self.index() == start.skip(i as int),
                self.pending() == queued + added,
                laid_out(self.root(), start) ==> laid_out(self.root(), self.index()),
                views(removed@) == keys_of(start).take(i as int),
                ({
                    let whole = prune_outcome(path, start, force, runtime@);
                    let rest = prune_outcome(path, start.skip(i as int), force, runtime@);
                    &&& whole.index == rest.index
                    &&& whole.removed == keys_of(start).take(i as int) + rest.removed
                    &&& whole.actions == added + rest.actions
                    &&& whole.error == rest.error
                }),
            decreases names.len() - i,
        {
            let ghost current = self.index();
            let ghost so_far = views(removed@);
            proof {
                assert(current.len() > 0);
                assert(current[0] == start[i as int]);
                assert(views(names@)[i as int] == names@[i as int]@);
                assert(keys_of(start)[i as int] == start[i as int].0);
                lemma_position_found(current, 0);
                assert(current.remove(0) =~= start.skip(i + 1));
            }
            match self.remove_(names[i].as_str(), force, runtime) {
                Ok(()) => {},
                Err(error) => {
                    proof {
                        assert(keys_of(start).take(i as int) + Seq::<Seq<char>>::empty()
                            =~= keys_of(start).take(i as int));
                        assert(added + Seq::<ActionView>::empty() =~= added);
                    }
                    return Err(error);
                },
            }
            proof {
                let step = removal_actions(path, current, 0);
                let rest = prune_outcome(path, start.skip(i + 1), force, runtime@);
                assert(keys_of(start).take(i as int) + (seq![current[0].0] + rest.removed)
                    =~= keys_of(start).take(i + 1) + rest.removed);
                assert(added + (step + rest.actions) =~= (added + step) + rest.actions);
                assert(queued + added + step =~= queued + (added + step));
                added = added + step;
            }
            removed.push(names[i].clone());
            proof {
                assert(views(removed@) =~= so_far.push(names@[i as int]@));
                assert(keys_of(start).take(i + 1) =~= keys_of(start).take(i as int).push(
                    keys_of(start)[i as int],
                ));
            }
            i += 1;
        }
        proof {
            assert(start.skip(start.len() as int) =~= Seq::empty());
            assert(keys_of(start).take(i as int) =~= keys_of(start));
            let whole = prune_outcome(path, start, force, runtime@);
            assert(whole.removed =~= keys_of(start));
            assert(whole.actions =~= added);
        }
        Ok(removed)
    }

    /// Hands over the pending actions, in order, and leaves none pending.
    pub fn take_actions(&mut self) -> (actions: Vec<HostAction>)
        ensures
            action_views(actions@) == old(self).pending(),
            final(self).pending().len() == 0,
            final(self).index() == old(self).index(),
            final(self).root() == old(self).root(),
            final(self).index_path() == old(self).index_path(),
            old(self).wf() ==> final(self).wf(),
    {
        let mut actions: Vec<HostAction> = Vec::new();
        std::mem::swap(&mut self.pending, &mut actions);
        actions
    }
}

impl View for VolumeManager {
    type V = Map<Seq<char>, RecordView>;

    /// The store as a mapping from names to records.
    open spec fn view(&self) -> Map<Seq<char>, RecordView> {
        as_map(self.index())
    }
}

/// The entries of an index with their reference lists as they were loaded:
/// the lists are kept as the index file holds them.
pub fn load_volume_container_reference(content: Vec<(String, VolumeMetadata)>) -> (loaded: Vec<
    (String, VolumeMetadata),
>)
    ensures
        loaded == content,
{
    content
}

} // verus!
