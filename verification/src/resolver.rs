//! Resolving the volume patterns of a container into volume names and mount
//! descriptors.

use vstd::prelude::*;
use crate::action::{ActionView, IndexView};
use crate::error::{ErrorView, VolumeError};
use crate::index::{
    default_driver, distinct_keys, has_key, laid_out, lemma_position, lemma_push, record_of,
    resolve_all, resolve_step, BatchOutcome,
};
use crate::layout::mountpoint_of;
use crate::manager::VolumeManager;
use crate::names::{generate_anonymous_volume_name, is_anonymous_name};
use crate::pattern::{PatternType, PatternView, VolumePattern};
use crate::record::{
    new_record, timestamp_now, volume_mount, Mount, MountView, RecordView, StringMap,
};
use crate::text::views;

verus! {

/// How many names are drawn for one anonymous volume before giving up.
pub const NAME_ATTEMPTS: u32 = 8;

/// What to do with a name drawn for an anonymous volume.
#[derive(Debug, Clone, Copy, PartialEq, Eq, Structural)]
pub enum Draw {
    /// The name is unused: take it.
    Accept,
    /// The name is taken: draw another.
    Retry,
    /// The name is taken and no draw is left.
    GiveUp,
}

/// What to do with the `drawn`-th name, `taken` saying whether it is in the
/// store.
pub open spec fn draw_verdict(taken: bool, drawn: u32) -> Draw {
    if !taken {
        Draw::Accept
    } else if drawn < NAME_ATTEMPTS {
        Draw::Retry
    } else {
        Draw::GiveUp
    }
}

/// The views of a list of patterns.
pub open spec fn pattern_views(patterns: Seq<VolumePattern>) -> Seq<PatternView> {
    patterns.map_values(|p: VolumePattern| p@)
}

/// The views of a list of mount descriptors.
pub open spec fn mount_views(mounts: Seq<Mount>) -> Seq<MountView> {
    mounts.map_values(|m: Mount| m@)
}

/// The result `r` of a batch, the store `index` and the pending actions
/// `pending` after it are what `outcome` says, `queued` being the actions
/// that were pending before.
pub open spec fn batch_matches(
    outcome: BatchOutcome,
    queued: Seq<ActionView>,
    index: IndexView,
    pending: Seq<ActionView>,
    r: Result<(Vec<String>, Vec<Mount>), VolumeError>,
) -> bool {
    &&& index == outcome.index
    &&& pending == queued + outcome.actions
    &&& match r {
        Ok(resolved) => {
            &&& outcome.error is None
            &&& views(resolved.0@) == outcome.names
            &&& mount_views(resolved.1@) == outcome.mounts
        },
        Err(error) => outcome.error == Some(error@),
    }
}

/// What pattern `i` of a batch resolved to, read off the batch's outcome.
pub open spec fn resolved_as_asked(
    root: Seq<char>,
    outcome: BatchOutcome,
    pattern: PatternView,
    fresh_name: Seq<char>,
    i: int,
) -> bool {
    &&& outcome.mounts[i] == volume_mount(
        pattern.container_path,
        outcome.mounts[i].host_path,
        pattern.read_only,
    )
    &&& pattern.pattern_type == PatternType::BindMount ==> {
        &&& outcome.names[i] == pattern.host_path
        &&& outcome.mounts[i].host_path == pattern.host_path
    }
    &&& pattern.pattern_type == PatternType::Named ==> {
        &&& outcome.names[i] == pattern.host_path
        &&& has_key(outcome.index, pattern.host_path)
        &&& outcome.mounts[i].host_path == record_of(outcome.index, pattern.host_path).mountpoint
    }
    &&& pattern.pattern_type == PatternType::Anonymous ==> {
        &&& outcome.names[i] == fresh_name
        &&& has_key(outcome.index, fresh_name)
        &&& record_of(outcome.index, fresh_name).mountpoint == mountpoint_of(root, fresh_name)
        &&& outcome.mounts[i].host_path == mountpoint_of(root, fresh_name)
    }
}

/// The outcome of a batch depends on the names and times of its own
/// patterns only.
pub proof fn lemma_resolve_all_oracle(
    root: Seq<char>,
    index_path: Seq<char>,
    index: IndexView,
    patterns: Seq<PatternView>,
    is_compose: bool,
    fresh_a: Seq<Seq<char>>,
    stamps_a: Seq<Seq<char>>,
    fresh_b: Seq<Seq<char>>,
    stamps_b: Seq<Seq<char>>,
)
    requires
        forall|k: int| 0 <= k < patterns.len() ==> fresh_a[k] == fresh_b[k],
        forall|k: int| 0 <= k < patterns.len() ==> stamps_a[k] == stamps_b[k],
    ensures
        resolve_all(root, index_path, index, patterns, is_compose, fresh_a, stamps_a)
            == resolve_all(root, index_path, index, patterns, is_compose, fresh_b, stamps_b),
    decreases patterns.len(),
{
    if patterns.len() != 0 {
        lemma_resolve_all_oracle(
            root,
            index_path,
            index,
            patterns.drop_last(),
            is_compose,
            fresh_a,
            stamps_a,
            fresh_b,
            stamps_b,
        );
    }
}

/// A batch that has failed after `k` patterns stays as it is, whatever
/// follows.
pub proof fn lemma_resolve_all_stops(
    root: Seq<char>,
    index_path: Seq<char>,
    index: IndexView,
    patterns: Seq<PatternView>,
    is_compose: bool,
    fresh_names: Seq<Seq<char>>,
    created_at: Seq<Seq<char>>,
    k: int,
)
    requires
        0 <= k <= patterns.len(),
        resolve_all(
            root,
            index_path,
            index,
            patterns.take(k),
            is_compose,
            fresh_names,
            created_at,
        ).error is Some,
    ensures
        resolve_all(root, index_path, index, patterns, is_compose, fresh_names, created_at)
            == resolve_all(
            root,
            index_path,
            index,
            patterns.take(k),
            is_compose,
            fresh_names,
            created_at,
        ),
    decreases patterns.len() - k,
{
    if k == patterns.len() {
        assert(patterns.take(k) =~= patterns);
    } else {
        assert(patterns.drop_last().take(k) =~= patterns.take(k));
        lemma_resolve_all_stops(
            root,
            index_path,
            index,
            patterns.drop_last(),
            is_compose,
            fresh_names,
            created_at,
            k,
        );
    }
}

/// `entry` is the record, with defaults, of a volume that one of the
/// patterns resolved to.
pub open spec fn added_by_batch(
    root: Seq<char>,
    outcome: BatchOutcome,
    patterns: Seq<PatternView>,
    entry: (Seq<char>, RecordView),
) -> bool {
    &&& entry.1 == new_record(root, entry.0, default_driver(), Map::empty(), entry.1.created_at)
    &&& exists|i: int|
        0 <= i < outcome.names.len() && patterns[i].pattern_type != PatternType::BindMount
            && #[trigger] outcome.names[i] == entry.0
}

/// Every entry that a batch adds to the store is the record, with defaults,
/// of a volume that one of its patterns resolved to: a batch of bind mounts
/// adds none.
pub proof fn lemma_resolve_all_additions(
    root: Seq<char>,
    index_path: Seq<char>,
    index: IndexView,
    patterns: Seq<PatternView>,
    is_compose: bool,
    fresh_names: Seq<Seq<char>>,
    created_at: Seq<Seq<char>>,
)
    ensures
        ({
            let outcome = resolve_all(
                root,
                index_path,
                index,
                patterns,
                is_compose,
                fresh_names,
                created_at,
            );
            &&& index.len() <= outcome.index.len()
            &&& outcome.names.len() <= patterns.len()
            &&& outcome.error is None ==> outcome.names.len() == patterns.len()
            &&& forall|k: int|
                index.len() <= k < outcome.index.len() ==> added_by_batch(
                    root,
                    outcome,
                    patterns,
                    #[trigger] outcome.index[k],
                )
        }),
    decreases patterns.len(),
{
    let outcome = resolve_all(root, index_path, index, patterns, is_compose, fresh_names, created_at);
    if patterns.len() != 0 {
        let last = patterns.len() - 1;
        let front = patterns.drop_last();
        let before = resolve_all(
            root,
            index_path,
            index,
            front,
            is_compose,
            fresh_names,
            created_at,
        );
        lemma_resolve_all_additions(
            root,
            index_path,
            index,
            front,
            is_compose,
            fresh_names,
            created_at,
        );
        assert forall|k: int| index.len() <= k < outcome.index.len() implies added_by_batch(
            root,
            outcome,
            patterns,
            #[trigger] outcome.index[k],
        ) by {
            if k < before.index.len() {
                assert(outcome.index[k] == before.index[k]);
                assert(added_by_batch(root, before, front, before.index[k]));
                let i = choose|i: int|
                    0 <= i < before.names.len() && front[i].pattern_type != PatternType::BindMount
                        && #[trigger] before.names[i] == before.index[k].0;
                assert(patterns[i] == front[i]);
                assert(outcome.names[i] == before.names[i]);
            } else {
                assert(before.error is None);
                assert(before.names.len() == last);
                assert(outcome.names[last] == outcome.index[k].0);
            }
        }
    }
}

/// What holds of every batch.
///
/// The store keeps its entries, in their places, and gets new ones at the
/// end only; no name comes to stand twice; records laid out under the root
/// stay so. Names and mounts come in pairs, one pair for each pattern where
/// the batch succeeds, and each pair is what its pattern asked for. A batch
/// fails only on an undeclared volume of a compose container or on a name
/// collision.
pub proof fn lemma_resolve_all_shape(
    root: Seq<char>,
    index_path: Seq<char>,
    index: IndexView,
    patterns: Seq<PatternView>,
    is_compose: bool,
    fresh_names: Seq<Seq<char>>,
    created_at: Seq<Seq<char>>,
)
    requires
        distinct_keys(index),
    ensures
        ({
            let outcome = resolve_all(
                root,
                index_path,
                index,
                patterns,
                is_compose,
                fresh_names,
                created_at,
            );
            &&& distinct_keys(outcome.index)
            &&& index.len() <= outcome.index.len()
            &&& outcome.index.take(index.len() as int) == index
            &&& laid_out(root, index) ==> laid_out(root, outcome.index)
            &&& outcome.names.len() == outcome.mounts.len()
            &&& outcome.names.len() <= patterns.len()
            &&& outcome.error is None ==> outcome.names.len() == patterns.len()
            &&& forall|i: int|
                0 <= i < outcome.names.len() ==> resolved_as_asked(
                    root,
                    outcome,
                    #[trigger] patterns[i],
                    fresh_names[i],
                    i,
                )
            &&& match outcome.error {
                Some(ErrorView::UndefinedComposeVolume(name)) => {
                    &&& is_compose
                    &&& outcome.names.len() < patterns.len()
                    &&& patterns[outcome.names.len() as int].pattern_type == PatternType::Named
                    &&& patterns[outcome.names.len() as int].host_path == name
                    &&& !has_key(outcome.index, name)
                },
                Some(ErrorView::NameCollision) => {
                    &&& outcome.names.len() < patterns.len()
                    &&& patterns[outcome.names.len() as int].pattern_type
                        == PatternType::Anonymous
                    &&& has_key(outcome.index, fresh_names[outcome.names.len() as int])
                },
                Some(_) => false,
                None => true,
            }
        }),
    decreases patterns.len(),
{
    let outcome = resolve_all(root, index_path, index, patterns, is_compose, fresh_names, created_at);
    if patterns.len() == 0 {
        assert(outcome.index.take(index.len() as int) =~= index);
    } else {
        let last = patterns.len() - 1;
        let front = patterns.drop_last();
        let before = resolve_all(
            root,
            index_path,
            index,
            front,
            is_compose,
            fresh_names,
            created_at,
        );
        lemma_resolve_all_shape(root, index_path, index, front, is_compose, fresh_names, created_at);
        assert forall|i: int| 0 <= i < before.names.len() implies front[i] == patterns[i] by {}
        if before.error is None {
            let pattern = patterns[last];
            match resolve_step(
                root,
                index_path,
                before.index,
                pattern,
                is_compose,
                fresh_names[last],
                created_at[last],
            ) {
                Ok(step) => {
                    if step.index != before.index {
                        let name = step.name;
                        let record = step.index.last().1;
                        assert(step.index == before.index.push((name, record)));
                        lemma_push(before.index, name, record);
                        assert(step.index.take(index.len() as int) =~= before.index.take(
                            index.len() as int,
                        ));
                        assert forall|i: int| 0 <= i < before.names.len() implies resolved_as_asked(
                            root,
                            outcome,
                            #[trigger] patterns[i],
                            fresh_names[i],
                            i,
                        ) by {
                            assert(resolved_as_asked(root, before, front[i], fresh_names[i], i));
                            assert(outcome.names[i] == before.names[i]);
                            assert(outcome.mounts[i] == before.mounts[i]);
                        }
                        lemma_position(step.index, name);
                    } else {
                        assert forall|i: int| 0 <= i < before.names.len() implies resolved_as_asked(
                            root,
                            outcome,
                            #[trigger] patterns[i],
                            fresh_names[i],
                            i,
                        ) by {
                            assert(resolved_as_asked(root, before, front[i], fresh_names[i], i));
                            assert(outcome.names[i] == before.names[i]);
                            assert(outcome.mounts[i] == before.mounts[i]);
                        }
                    }
                    assert(resolved_as_asked(root, outcome, patterns[last], fresh_names[last], last));
                },
                Err(error) => {
                    assert forall|i: int| 0 <= i < outcome.names.len() implies resolved_as_asked(
                        root,
                        outcome,
                        #[trigger] patterns[i],
                        fresh_names[i],
                        i,
                    ) by {
                        assert(resolved_as_asked(root, before, front[i], fresh_names[i], i));
                    }
                },
            }
        } else {
            assert forall|i: int| 0 <= i < outcome.names.len() implies resolved_as_asked(
                root,
                outcome,
                #[trigger] patterns[i],
                fresh_names[i],
                i,
            ) by {
                assert(resolved_as_asked(root, before, front[i], fresh_names[i], i));
            }
        }
    }
}

impl VolumeManager {
    /// What follows from having drawn `candidate` as the `drawn`-th name.
    pub fn judge_draw(&self, candidate: &str, drawn: u32) -> (verdict: Draw)
        ensures
            verdict == draw_verdict(has_key(self.index(), candidate@), drawn),
    {
        if !self.contains(candidate) {
            Draw::Accept
        } else if drawn < NAME_ATTEMPTS {
            Draw::Retry
        } else {
            Draw::GiveUp
        }
    }

    /// A name for an anonymous volume: random names are drawn until
    /// [`VolumeManager::judge_draw`] accepts one or gives up, and the last
    /// one drawn is returned.
    pub fn fresh_anonymous_name(&self) -> (name: String)
        ensures
            is_anonymous_name(name@),
    {
        let mut candidate = generate_anonymous_volume_name();
        let mut drawn: u32 = 1;
        while drawn < NAME_ATTEMPTS
            invariant
                is_anonymous_name(candidate@),
                1 <= drawn <= NAME_ATTEMPTS,
            decreases NAME_ATTEMPTS - drawn,
        {
            match self.judge_draw(candidate.as_str(), drawn) {
                Draw::Retry => {},
                _ => {
                    return candidate;
                },
            }
            candidate = generate_anonymous_volume_name();
            drawn += 1;
        }
        candidate
    }

    /// Resolves one pattern, with the name to use for an anonymous volume
    /// and the creation time to use for a new record.
    ///
    /// A bind mount passes its host path through. A named volume in the
    /// store resolves to its mount point; one that is not there is created,
    /// or, for a compose container, is an error. An anonymous volume is
    /// created under `fresh_name`, and is an error where that name is
    /// taken.
    pub fn resolve_pattern(
        &mut self,
        pattern: &VolumePattern,
        is_compose: bool,
        fresh_name: String,
        created_at: String,
    ) -> (r: Result<(String, Mount), VolumeError>)
        requires
            old(self).wf(),
        ensures
            final(self).wf(),
            final(self).root() == old(self).root(),
            final(self).index_path() == old(self).index_path(),
            laid_out(old(self).root(), old(self).index()) ==> laid_out(
                final(self).root(),
                final(self).index(),
            ),
            match resolve_step(
                old(self).root(),
                old(self).index_path(),
                old(self).index(),
                pattern@,
                is_compose,
                fresh_name@,
                created_at@,
            ) {
                Ok(step) => {
                    &&& r is Ok
                    &&& r->Ok_0.0@ == step.name
                    &&& r->Ok_0.1@ == step.mount
                    &&& final(self).index() == step.index
                    &&& final(self).pending() == old(self).pending() + step.actions
                },
                Err(error) => {
                    &&& r is Err
                    &&& r->Err_0@ == error
                    &&& final(self).index() == old(self).index()
                    &&& final(self).pending() == old(self).pending()
                },
            },
    {
        let ghost queued = self.pending();
        proof {
            assert(queued + Seq::<ActionView>::empty() =~= queued);
        }
        let container_path = pattern.container_path.clone();
        match pattern.pattern_type {
            PatternType::BindMount => {
                let mount = Mount::for_volume(
                    container_path,
                    pattern.host_path.clone(),
                    pattern.read_only,
                );
                Ok((pattern.host_path.clone(), mount))
            },
            PatternType::Named => {
                let name = pattern.host_path.clone();
                let host_path = if self.contains(name.as_str()) {
                    match self.get_mountpoint_from_name(name.as_str()) {
                        Ok(path) => path,
                        Err(error) => {
                            return Err(error);
                        },
                    }
                } else if is_compose {
                    return Err(VolumeError::UndefinedComposeVolume(name));
                } else {
                    match self.create_at(name.clone(), None, StringMap::new(), created_at) {
                        Ok(record) => record.mountpoint,
                        Err(error) => {
                            return Err(error);
                        },
                    }
                };
                Ok((name, Mount::for_volume(container_path, host_path, pattern.read_only)))
            },
            PatternType::Anonymous => {
                if self.contains(fresh_name.as_str()) {
                    return Err(VolumeError::NameCollision);
                }
                let host_path = match self.create_at(
                    fresh_name.clone(),
                    None,
                    StringMap::new(),
                    created_at,
                ) {
                    Ok(record) => record.mountpoint,
                    Err(error) => {
                        return Err(error);
                    },
                };
                Ok((fresh_name, Mount::for_volume(container_path, host_path, pattern.read_only)))
            },
        }
    }

    /// Resolves the volume patterns of a container, in order, into the
    /// names of the volumes and the mount descriptors.
    ///
    /// The patterns are resolved one by one as [`resolve_step`] says, each
    /// against the store as the patterns before it left it; anonymous
    /// volumes get random names, new records the current time. The first
    /// pattern that fails ends the batch with its failure; the volumes
    /// created before it stay.
    pub fn handle_container_volume(
        &mut self,
        parsed_pattern: Vec<VolumePattern>,
        is_compose: bool,
    ) -> (r: Result<(Vec<String>, Vec<Mount>), VolumeError>)
        requires
            old(self).wf(),
        ensures
            final(self).wf(),
            final(self).root() == old(self).root(),
            final(self).index_path() == old(self).index_path(),
            exists|fresh_names: Seq<Seq<char>>, created_at: Seq<Seq<char>>|
                batch_matches(
                    #[trigger] resolve_all(
                        old(self).root(),
                        old(self).index_path(),
                        old(self).index(),
                        pattern_views(parsed_pattern@),
                        is_compose,
                        fresh_names,
                        created_at,
                    ),
                    old(self).pending(),
                    final(self).index(),
                    final(self).pending(),
                    r,
                ),
            old(self).index().len() <= final(self).index().len(),
            final(self).index().take(old(self).index().len() as int) == old(self).index(),
            laid_out(old(self).root(), old(self).index()) ==> laid_out(
                final(self).root(),
                final(self).index(),
            ),
            forall|k: int|
                old(self).index().len() <= k < final(self).index().len() ==> {
                    let entry = #[trigger] final(self).index()[k];
                    entry.1 == new_record(
                        final(self).root(),
                        entry.0,
                        default_driver(),
                        Map::empty(),
                        entry.1.created_at,
                    )
                },
            r is Ok ==> forall|k: int|
                old(self).index().len() <= k < final(self).index().len() ==> exists|i: int|
                    0 <= i < parsed_pattern@.len() && parsed_pattern@[i]@.pattern_type
                        != PatternType::BindMount && (#[trigger] r->Ok_0.0@[i])@ == (
                    #[trigger] final(self).index()[k]).0,
            match r {
                Ok(resolved) => {
                    &&& resolved.0@.len() == parsed_pattern@.len()
                    &&& resolved.1@.len() == parsed_pattern@.len()
                    &&& forall|i: int|
                        0 <= i < parsed_pattern@.len() ==> {
                            let pattern = (#[trigger] parsed_pattern@[i])@;
                            let name = resolved.0@[i]@;
                            let mount = resolved.1@[i]@;
                            &&& mount == volume_mount(
                                pattern.container_path,
                                mount.host_path,
                                pattern.read_only,
                            )
                            &&& pattern.pattern_type == PatternType::BindMount ==> name
                                == pattern.host_path && mount.host_path == pattern.host_path
                            &&& pattern.pattern_type == PatternType::Named ==> name
                                == pattern.host_path && has_key(final(self).index(), name)
                                && mount.host_path == record_of(final(self).index(), name).mountpoint
                            &&& pattern.pattern_type == PatternType::Anonymous ==> is_anonymous_name(
                                name,
                            ) && has_key(final(self).index(), name) && mount.host_path
                                == mountpoint_of(final(self).root(), name)
                        }
                },
                Err(error) => match error@ {
                    ErrorView::UndefinedComposeVolume(name) => is_compose && !has_key(
                        final(self).index(),
                        name,
                    ) && exists|i: int|
                        0 <= i < parsed_pattern@.len() && (#[trigger] parsed_pattern@[i])@.pattern_type
                            == PatternType::Named && parsed_pattern@[i]@.host_path == name,
                    ErrorView::NameCollision => exists|i: int|
                        0 <= i < parsed_pattern@.len() && (#[trigger] parsed_pattern@[i])@.pattern_type
                            == PatternType::Anonymous,
                    _ => false,
                },
            },
    {
        let mut names: Vec<String> = Vec::new();
        let mut mounts: Vec<Mount> = Vec::new();
        let ghost root = self.root();
        let ghost path = self.index_path();
        let ghost start = self.index();
        let ghost queued = self.pending();
        let ghost asked = pattern_views(parsed_pattern@);
        let ghost mut fresh_names: Seq<Seq<char>> = Seq::empty();
        let ghost mut created_at: Seq<Seq<char>> = Seq::empty();
        let ghost mut added: Seq<ActionView> = Seq::empty();
        let mut i: usize = 0;
        proof {
            assert(asked.take(0) =~= Seq::<PatternView>::empty());
            assert(views(names@) =~= Seq::<Seq<char>>::empty());
            assert(mount_views(mounts@) =~= Seq::<MountView>::empty());
            assert(queued + added =~= queued);
        }
        while i < parsed_pattern.len()
            invariant
                i <= parsed_pattern.len(),
                asked == pattern_views(parsed_pattern@),
                self.wf(),
                self.root() == root,
                self.index_path() == path,
                root == old(self).root(),
                path == old(self).index_path(),
                start == old(self).index(),
                queued == old(self).pending(),
                distinct_keys(start),
                fresh_names.len() == i,
                created_at.len() == i,
                names@.len() == i,
                mounts@.len() == i,
                forall|k: int|
                    0 <= k < i && (#[trigger] asked[k]).pattern_type == PatternType::Anonymous
                        ==> is_anonymous_name(fresh_names[k]),
                self.pending() == queued + added,
                resolve_all(
                    root,
                    path,
                    start,
                    asked.take(i as int),
                    is_compose,
                    fresh_names,
                    created_at,
                ) == (BatchOutcome {
                    index: self.index(),
                    names: views(names@),
                    mounts: mount_views(mounts@),
                    actions: added,
                    error: None,
                }),
            decreases parsed_pattern.len() - i,
        {
            let pattern = &parsed_pattern[i];
            let fresh_name = match pattern.pattern_type {
                PatternType::Anonymous => self.fresh_anonymous_name(),
                _ => String::new(),
            };
            let creates = match pattern.pattern_type {
                PatternType::Anonymous => true,
                PatternType::Named => !is_compose && !self.contains(pattern.host_path.as_str()),
                PatternType::BindMount => false,
            };
            let stamp = if creates {
                timestamp_now()
            } else {
                String::new()
            };
            let ghost before = resolve_all(
                root,
                path,
                start,
                asked.take(i as int),
                is_compose,
                fresh_names,
                created_at,
            );
            let ghost step = resolve_step(
                root,
                path,
                self.index(),
                pattern@,
                is_compose,
                fresh_name@,
                stamp@,
            );
            let ghost so_far_names = views(names@);
            let ghost so_far_mounts = mount_views(mounts@);
            proof {
                lemma_resolve_all_oracle(
                    root,
                    path,
                    start,
                    asked.take(i as int),
                    is_compose,
                    fresh_names,
                    created_at,
                    fresh_names.push(fresh_name@),
                    created_at.push(stamp@),
                );
                fresh_names = fresh_names.push(fresh_name@);
                created_at = created_at.push(stamp@);
                assert(asked.take(i + 1).drop_last() =~= asked.take(i as int));
                assert(asked.take(i + 1).last() == pattern@);
                assert(asked[i as int] == pattern@);
            }
            match self.resolve_pattern(pattern, is_compose, fresh_name, stamp) {
                Ok(resolved) => {
                    names.push(resolved.0);
                    mounts.push(resolved.1);
                    proof {
                        assert(views(names@) =~= so_far_names.push(step->Ok_0.name));
                        assert(mount_views(mounts@) =~= so_far_mounts.push(step->Ok_0.mount));
                        assert(queued + added + step->Ok_0.actions =~= queued + (added
                            + step->Ok_0.actions));
                        added = added + step->Ok_0.actions;
                    }
                },
                Err(error) => {
                    proof {
                        let stopped = resolve_all(
                            root,
                            path,
                            start,
                            asked.take(i + 1),
                            is_compose,
                            fresh_names,
                            created_at,
                        );
                        assert(stopped.error == Some(error@));
                        assert(stopped.names == so_far_names);
                        assert(so_far_names.len() == i);
                        lemma_resolve_all_stops(
                            root,
                            path,
                            start,
                            asked,
                            is_compose,
                            fresh_names,
                            created_at,
                            i + 1,
                        );
                        lemma_resolve_all_shape(
                            root,
                            path,
                            start,
                            asked,
                            is_compose,
                            fresh_names,
                            created_at,
                        );
                        lemma_resolve_all_additions(
                            root,
                            path,
                            start,
                            asked,
                            is_compose,
                            fresh_names,
                            created_at,
                        );
                        let whole = resolve_all(
                            root,
                            path,
                            start,
                            asked,
                            is_compose,
                            fresh_names,
                            created_at,
                        );
                        assert(whole == stopped);
                        assert(batch_matches(
                            whole,
                            queued,
                            self.index(),
                            self.pending(),
                            Err::<(Vec<String>, Vec<Mount>), VolumeError>(error),
                        ));
                        assert(whole.names.len() == i);
                        assert(asked[i as int] == parsed_pattern@[i as int]@);
                    }
                    return Err(error);
                },
            }
            i += 1;
        }
        proof {
            assert(asked.take(i as int) =~= asked);
            lemma_resolve_all_shape(root, path, start, asked, is_compose, fresh_names, created_at);
            lemma_resolve_all_additions(
                root,
                path,
                start,
                asked,
                is_compose,
                fresh_names,
                created_at,
            );
            let whole = resolve_all(root, path, start, asked, is_compose, fresh_names, created_at);
            assert forall|k: int| start.len() <= k < self.index().len() implies exists|i: int|
                0 <= i < parsed_pattern@.len() && parsed_pattern@[i]@.pattern_type
                    != PatternType::BindMount && (#[trigger] names@[i])@ == (
                #[trigger] self.index()[k]).0 by {
                assert(added_by_batch(root, whole, asked, whole.index[k]));
                let i = choose|i: int|
                    0 <= i < whole.names.len() && asked[i].pattern_type != PatternType::BindMount
                        && #[trigger] whole.names[i] == whole.index[k].0;
                assert(asked[i] == parsed_pattern@[i]@);
                assert(whole.names[i] == names@[i]@);
            }
            assert(batch_matches(
                whole,
                queued,
                self.index(),
                self.pending(),
                Ok::<(Vec<String>, Vec<Mount>), VolumeError>((names, mounts)),
            ));
            assert forall|k: int| 0 <= k < parsed_pattern@.len() implies {
                let pattern = (#[trigger] parsed_pattern@[k])@;
                let name = names@[k]@;
                let mount = mounts@[k]@;
                &&& mount == volume_mount(pattern.container_path, mount.host_path, pattern.read_only)
                &&& pattern.pattern_type == PatternType::BindMount ==> name == pattern.host_path
                    && mount.host_path == pattern.host_path
                &&& pattern.pattern_type == PatternType::Named ==> name == pattern.host_path
                    && has_key(self.index(), name) && mount.host_path == record_of(
                    self.index(),
                    name,
                ).mountpoint
                &&& pattern.pattern_type == PatternType::Anonymous ==> is_anonymous_name(name)
                    && has_key(self.index(), name) && mount.host_path == mountpoint_of(
                    self.root(),
                    name,
                )
            } by {
                assert(asked[k] == parsed_pattern@[k]@);
                assert(resolved_as_asked(root, whole, asked[k], fresh_names[k], k));
                assert(whole.names[k] == names@[k]@);
                assert(whole.mounts[k] == mounts@[k]@);
            }
        }
        Ok((names, mounts))
    }
}

} // verus!
