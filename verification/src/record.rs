//! The data that the volume manager keeps and hands out: volume records,
//! their string maps, and mount descriptors.

use vstd::prelude::*;
use crate::text::{clone_strings, views};

verus! {

/// A stored pair as texts.
pub open spec fn pair_view(pair: (String, String)) -> (Seq<char>, Seq<char>) {
    (pair.0@, pair.1@)
}

/// Stored pairs as texts.
pub open spec fn pair_views(pairs: Seq<(String, String)>) -> Seq<(Seq<char>, Seq<char>)> {
    pairs.map_values(|p: (String, String)| pair_view(p))
}

/// The map that a list of pairs stands for; of two pairs with one key the
/// later one counts.
pub open spec fn map_of(pairs: Seq<(Seq<char>, Seq<char>)>) -> Map<Seq<char>, Seq<char>>
    decreases pairs.len(),
{
    if pairs.len() == 0 {
        Map::empty()
    } else {
        map_of(pairs.drop_last()).insert(pairs.last().0, pairs.last().1)
    }
}

/// No pair from position `from` on has the key `key`.
pub open spec fn key_absent_from(pairs: Seq<(Seq<char>, Seq<char>)>, key: Seq<char>, from: int) -> bool {
    forall|k: int| from <= k < pairs.len() ==> (#[trigger] pairs[k]).0 != key
}

/// A key that no pair has is not in the map.
pub proof fn lemma_map_of_absent(pairs: Seq<(Seq<char>, Seq<char>)>, key: Seq<char>)
    requires
        key_absent_from(pairs, key, 0),
    ensures
        !map_of(pairs).contains_key(key),
    decreases pairs.len(),
{
    if pairs.len() != 0 {
        let front = pairs.drop_last();
        assert(pairs[pairs.len() - 1].0 != key);
        assert forall|k: int| 0 <= k < front.len() implies (#[trigger] front[k]).0 != key by {
            assert(pairs[k].0 != key);
        }
        lemma_map_of_absent(front, key);
    }
}

/// The last pair with a key gives the key's value.
pub proof fn lemma_map_of_last(pairs: Seq<(Seq<char>, Seq<char>)>, key: Seq<char>, at: int)
    requires
        0 <= at < pairs.len(),
        pairs[at].0 == key,
        key_absent_from(pairs, key, at + 1),
    ensures
        map_of(pairs).contains_key(key),
        map_of(pairs)[key] == pairs[at].1,
    decreases pairs.len(),
{
    if at < pairs.len() - 1 {
        let front = pairs.drop_last();
        assert(pairs[pairs.len() - 1].0 != key);
        assert(front[at] == pairs[at]);
        assert forall|k: int| at + 1 <= k < front.len() implies (#[trigger] front[k]).0 != key by {
            assert(pairs[k].0 != key);
        }
        lemma_map_of_last(front, key, at);
    }
}

/// Replacing the value of the last pair with a key sets the key in the map.
pub proof fn lemma_map_of_update(
    pairs: Seq<(Seq<char>, Seq<char>)>,
    key: Seq<char>,
    value: Seq<char>,
    at: int,
)
    requires
        0 <= at < pairs.len(),
        pairs[at].0 == key,
        key_absent_from(pairs, key, at + 1),
    ensures
        map_of(pairs.update(at, (key, value))) == map_of(pairs).insert(key, value),
    decreases pairs.len(),
{
    let changed = pairs.update(at, (key, value));
    let front = pairs.drop_last();
    if at == pairs.len() - 1 {
        assert(changed.drop_last() =~= front);
        assert(map_of(changed) =~= map_of(pairs).insert(key, value));
    } else {
        assert(pairs[pairs.len() - 1].0 != key);
        assert(front[at] == pairs[at]);
        assert forall|k: int| at + 1 <= k < front.len() implies (#[trigger] front[k]).0 != key by {
            assert(pairs[k].0 != key);
        }
        lemma_map_of_update(front, key, value, at);
        assert(changed.drop_last() =~= front.update(at, (key, value)));
        assert(changed.last() == pairs.last());
        assert(map_of(changed) =~= map_of(pairs).insert(key, value));
    }
}

/// No key occurs in two pairs.
pub open spec fn distinct_pair_keys(pairs: Seq<(Seq<char>, Seq<char>)>) -> bool {
    forall|i: int, j: int| 0 <= i < j < pairs.len() ==> (#[trigger] pairs[i]).0 != (#[trigger] pairs[j]).0
}

/// A map from strings to strings, kept as a list of pairs in which no key
/// occurs twice.
#[derive(Debug)]
pub struct StringMap {
    pairs: Vec<(String, String)>,
}

impl StringMap {
    #[verifier::type_invariant]
    closed spec fn keys_are_distinct(&self) -> bool {
        distinct_pair_keys(self.pairs())
    }

    /// The stored pairs, in the order in which their keys first came.
    pub closed spec fn pairs(&self) -> Seq<(Seq<char>, Seq<char>)> {
        pair_views(self.pairs@)
    }

    /// An empty map.
    pub fn new() -> (m: Self)
        ensures
            m@ == Map::<Seq<char>, Seq<char>>::empty(),
            m.pairs().len() == 0,
    {
        StringMap { pairs: Vec::new() }
    }

    /// The position of the last pair with the key `key`.
    fn position(&self, key: &String) -> (at: Option<usize>)
        ensures
            match at {
                Some(i) => i < self.pairs().len() && self.pairs()[i as int].0 == key@
                    && key_absent_from(self.pairs(), key@, i + 1),
                None => key_absent_from(self.pairs(), key@, 0),
            },
    {
        let mut i: usize = self.pairs.len();
        while i > 0
            invariant
                i <= self.pairs.len(),
                key_absent_from(self.pairs(), key@, i as int),
            decreases i,
        {
            i -= 1;
            if self.pairs[i].0 == *key {
                return Some(i);
            }
        }
        None
    }

    /// The value under `key`, if there is one.
    pub fn get(&self, key: &str) -> (value: Option<&String>)
        ensures
            value is Some <==> self@.contains_key(key@),
            value is Some ==> value->Some_0@ == self@[key@],
    {
        let owned = key.to_owned();
        match self.position(&owned) {
            Some(i) => {
                proof {
                    lemma_map_of_last(self.pairs(), key@, i as int);
                }
                Some(&self.pairs[i].1)
            },
            None => {
                proof {
                    lemma_map_of_absent(self.pairs(), key@);
                }
                None
            },
        }
    }

    /// Sets the value under `key`: in the pair that held the key, or else
    /// in a new pair at the end.
    pub fn insert(&mut self, key: String, value: String)
        ensures
            final(self)@ == old(self)@.insert(key@, value@),
            key_absent_from(old(self).pairs(), key@, 0) ==> final(self).pairs() == old(
                self,
            ).pairs().push((key@, value@)),
            forall|at: int|
                0 <= at < old(self).pairs().len() && (#[trigger] old(self).pairs()[at]).0 == key@
                    && key_absent_from(old(self).pairs(), key@, at + 1) ==> final(self).pairs()
                    == old(self).pairs().update(at, (key@, value@)),
    {
        let ghost before = self.pairs();
        proof {
            use_type_invariant(&*self);
        }
        let found = self.position(&key);
        let ghost pair = (key@, value@);
        let mut pairs: Vec<(String, String)> = Vec::new();
        std::mem::swap(&mut self.pairs, &mut pairs);
        match found {
            Some(i) => {
                pairs[i] = (key, value);
                proof {
                    let after = pair_views(pairs@);
                    assert(after =~= before.update(i as int, pair));
                    lemma_map_of_update(before, pair.0, pair.1, i as int);
                    assert forall|a: int, b: int| 0 <= a < b < after.len() implies (
                    #[trigger] after[a]).0 != (#[trigger] after[b]).0 by {
                        assert(after[a].0 == before[a].0);
                        assert(after[b].0 == before[b].0);
                    }
                }
            },
            None => {
                pairs.push((key, value));
                proof {
                    let after = pair_views(pairs@);
                    assert(after =~= before.push(pair));
                    assert(after.drop_last() =~= before);
                }
            },
        }
        std::mem::swap(&mut self.pairs, &mut pairs);
    }

    /// The number of stored pairs, each under a key of its own.
    pub fn len(&self) -> (n: usize)
        ensures
            n == self.pairs().len(),
            distinct_pair_keys(self.pairs()),
    {
        proof {
            use_type_invariant(self);
        }
        self.pairs.len()
    }

    /// The key of the stored pair at position `at`.
    pub fn key_at(&self, at: usize) -> (key: &String)
        requires
            at < self.pairs().len(),
        ensures
            key@ == self.pairs()[at as int].0,
    {
        &self.pairs[at].0
    }

    /// The value of the stored pair at position `at`.
    pub fn value_at(&self, at: usize) -> (value: &String)
        requires
            at < self.pairs().len(),
        ensures
            value@ == self.pairs()[at as int].1,
    {
        &self.pairs[at].1
    }
}

impl View for StringMap {
    type V = Map<Seq<char>, Seq<char>>;

    open spec fn view(&self) -> Map<Seq<char>, Seq<char>> {
        map_of(self.pairs())
    }
}

impl Clone for StringMap {
    fn clone(&self) -> (copy: Self)
        ensures
            copy.pairs() == self.pairs(),
            copy@ == self@,
    {
        let mut pairs: Vec<(String, String)> = Vec::new();
        let mut i: usize = 0;
        while i < self.pairs.len()
            invariant
                i <= self.pairs.len(),
                pair_views(pairs@) == self.pairs().take(
                    i as int,
                ),
            decreases self.pairs.len() - i,
        {
            let ghost before = pair_views(pairs@);
            pairs.push((self.pairs[i].0.clone(), self.pairs[i].1.clone()));
            proof {
                assert(pair_views(pairs@) =~= before.push(
                    self.pairs()[i as int],
                ));
                assert(self.pairs().take(i + 1) =~= self.pairs().take(i as int).push(
                    self.pairs()[i as int],
                ));
            }
            i += 1;
        }
        proof {
            use_type_invariant(self);
            assert(self.pairs().take(self.pairs.len() as int) =~= self.pairs());
        }
        StringMap { pairs }
    }
}

/// The backends that a volume can live on. Only `Local` is served.
#[derive(Debug, Clone, Copy, PartialEq, Eq, Structural)]
pub enum Driver {
    Local,
    Azure,
    Rexray,
}

/// The ways in which a mount reaches its storage.
#[derive(Debug, Clone, Copy, PartialEq, Eq, Structural)]
pub enum MountType {
    Bind,
    Nfs,
    Tmpfs,
    Cifs,
}

/// The record of one volume, as the index keeps it.
#[derive(Debug)]
pub struct VolumeMetadata {
    pub name: String,
    pub driver: String,
    pub mountpoint: String,
    pub created_at: String,
    pub labels: StringMap,
    pub options: StringMap,
    /// `"local"` or `"global"`.
    pub scope: String,
    pub status: StringMap,
    /// The containers that use the volume.
    pub reference: Vec<String>,
}

/// The mathematical value of a [`VolumeMetadata`].
pub struct RecordView {
    pub name: Seq<char>,
    pub driver: Seq<char>,
    pub mountpoint: Seq<char>,
    pub created_at: Seq<char>,
    pub labels: Map<Seq<char>, Seq<char>>,
    pub options: Map<Seq<char>, Seq<char>>,
    pub scope: Seq<char>,
    pub status: Map<Seq<char>, Seq<char>>,
    pub reference: Seq<Seq<char>>,
}

impl View for VolumeMetadata {
    type V = RecordView;

    open spec fn view(&self) -> RecordView {
        RecordView {
            name: self.name@,
            driver: self.driver@,
            mountpoint: self.mountpoint@,
            created_at: self.created_at@,
            labels: self.labels@,
            options: self.options@,
            scope: self.scope@,
            status: self.status@,
            reference: views(self.reference@),
        }
    }
}

/// The record whose every field is empty.
pub open spec fn empty_record() -> RecordView {
    RecordView {
        name: Seq::empty(),
        driver: Seq::empty(),
        mountpoint: Seq::empty(),
        created_at: Seq::empty(),
        labels: Map::empty(),
        options: Map::empty(),
        scope: Seq::empty(),
        status: Map::empty(),
        reference: Seq::empty(),
    }
}

impl Clone for VolumeMetadata {
    fn clone(&self) -> (copy: Self)
        ensures
            copy@ == self@,
    {
        VolumeMetadata {
            name: self.name.clone(),
            driver: self.driver.clone(),
            mountpoint: self.mountpoint.clone(),
            created_at: self.created_at.clone(),
            labels: self.labels.clone(),
            options: self.options.clone(),
            scope: self.scope.clone(),
            status: self.status.clone(),
            reference: clone_strings(&self.reference),
        }
    }
}

impl Default for VolumeMetadata {
    fn default() -> (record: Self)
        ensures
            record@ == empty_record(),
    {
        let record = VolumeMetadata {
            name: String::new(),
            driver: String::new(),
            mountpoint: String::new(),
            created_at: String::new(),
            labels: StringMap::new(),
            options: StringMap::new(),
            scope: String::new(),
            status: StringMap::new(),
            reference: Vec::new(),
        };
        proof {
            assert(views(record.reference@) =~= Seq::<Seq<char>>::empty());
        }
        record
    }
}

/// One range of user or group ids mapped between host and container.
#[derive(Debug, Clone, Copy, PartialEq, Eq, Structural)]
pub struct IdMapping {
    pub host_id: u32,
    pub container_id: u32,
    pub length: u32,
}

/// What the container runtime needs to mount one volume.
#[derive(Debug)]
pub struct Mount {
    pub container_path: String,
    pub host_path: String,
    pub readonly: bool,
    pub selinux_relabel: bool,
    pub propagation: i32,
    pub uid_mappings: Vec<IdMapping>,
    pub gid_mappings: Vec<IdMapping>,
    pub recursive_read_only: bool,
    pub image: Option<String>,
    pub image_sub_path: String,
}

/// The mathematical value of a [`Mount`].
pub struct MountView {
    pub container_path: Seq<char>,
    pub host_path: Seq<char>,
    pub readonly: bool,
    pub selinux_relabel: bool,
    pub propagation: int,
    pub uid_mappings: Seq<IdMapping>,
    pub gid_mappings: Seq<IdMapping>,
    pub recursive_read_only: bool,
    pub image: Option<Seq<char>>,
    pub image_sub_path: Seq<char>,
}

impl View for Mount {
    type V = MountView;

    open spec fn view(&self) -> MountView {
        MountView {
            container_path: self.container_path@,
            host_path: self.host_path@,
            readonly: self.readonly,
            selinux_relabel: self.selinux_relabel,
            propagation: self.propagation as int,
            uid_mappings: self.uid_mappings@,
            gid_mappings: self.gid_mappings@,
            recursive_read_only: self.recursive_read_only,
            image: match self.image {
                Some(image) => Some(image@),
                None => None,
            },
            image_sub_path: self.image_sub_path@,
        }
    }
}

/// The descriptor of a volume mount: the two paths and the read-only flag;
/// every other field zero or empty.
pub open spec fn volume_mount(
    container_path: Seq<char>,
    host_path: Seq<char>,
    read_only: bool,
) -> MountView {
    MountView {
        container_path,
        host_path,
        readonly: read_only,
        selinux_relabel: false,
        propagation: 0,
        uid_mappings: Seq::empty(),
        gid_mappings: Seq::empty(),
        recursive_read_only: false,
        image: None,
        image_sub_path: Seq::empty(),
    }
}

impl Mount {
    /// The mount descriptor of a volume.
    pub fn for_volume(container_path: String, host_path: String, read_only: bool) -> (mount: Self)
        ensures
            mount@ == volume_mount(container_path@, host_path@, read_only),
    {
        Mount {
            container_path,
            host_path,
            readonly: read_only,
            selinux_relabel: false,
            propagation: 0,
            uid_mappings: Vec::new(),
            gid_mappings: Vec::new(),
            recursive_read_only: false,
            image: None,
            image_sub_path: String::new(),
        }
    }
}

/// The record of a volume that was just created under `root`: its mount
/// point laid out under the root, scope `"local"`, no labels, no status, no
/// references.
pub open spec fn new_record(
    root: Seq<char>,
    name: Seq<char>,
    driver: Seq<char>,
    options: Map<Seq<char>, Seq<char>>,
    created_at: Seq<char>,
) -> RecordView {
    RecordView {
        name,
        driver,
        mountpoint: crate::layout::mountpoint_of(root, name),
        created_at,
        labels: Map::empty(),
        options,
        scope: "local"@,
        status: Map::empty(),
        reference: Seq::empty(),
    }
}

/// Calls `chrono::Utc::now` and `chrono::DateTime::to_rfc3339`: the current
/// time as text. Nothing is claimed of the text.
#[verifier::external_body]
pub(crate) fn timestamp_now() -> (text: String) {
    chrono::Utc::now().to_rfc3339()
}

} // verus!
