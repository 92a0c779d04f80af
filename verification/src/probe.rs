//! Whether a volume is referenced by a live container or a compose project.
//!
//! The runtime keeps one directory per container under its state root, with
//! a `state.json` in it, and one directory per compose project under
//! `<state root>/compose`, with a `metadata.json` in it. The caller reads
//! those files and hands their texts in as a [`RuntimeState`]; a file that is
//! missing or cannot be read is handed in as no text, and counts as no
//! evidence of use. A volume counts as referenced when its name stands
//! anywhere in one of the texts: this may report a use that is none, never
//! the reverse.

use vstd::prelude::*;
use crate::text::{chars_of, contains_chars, is_substring};

verus! {

/// One directory of the runtime's state, with the text of its state file
/// where that could be read.
#[derive(Debug)]
pub struct StateDir {
    pub name: String,
    pub content: Option<String>,
}

/// The mathematical value of a [`StateDir`].
pub struct StateDirView {
    pub name: Seq<char>,
    pub content: Option<Seq<char>>,
}

impl View for StateDir {
    type V = StateDirView;

    open spec fn view(&self) -> StateDirView {
        StateDirView {
            name: self.name@,
            content: match self.content {
                Some(text) => Some(text@),
                None => None,
            },
        }
    }
}

/// What the runtime's state directories hold at one moment.
#[derive(Debug)]
pub struct RuntimeState {
    /// The directories directly under the state root. Both lists are empty
    /// where the state root does not exist.
    pub containers: Vec<StateDir>,
    /// The directories directly under `<state root>/compose`.
    pub projects: Vec<StateDir>,
}

/// The mathematical value of a [`RuntimeState`].
pub struct RuntimeView {
    pub containers: Seq<StateDirView>,
    pub projects: Seq<StateDirView>,
}

/// The views of a list of state directories.
pub open spec fn dir_views(dirs: Seq<StateDir>) -> Seq<StateDirView> {
    dirs.map_values(|d: StateDir| d@)
}

impl View for RuntimeState {
    type V = RuntimeView;

    open spec fn view(&self) -> RuntimeView {
        RuntimeView {
            containers: dir_views(self.containers@),
            projects: dir_views(self.projects@),
        }
    }
}

/// The name of the directory under the state root that holds the compose
/// projects, and is no container.
pub open spec fn compose_dir_name() -> Seq<char> {
    "compose"@
}

/// The state file of `dir` could be read and holds `name`.
pub open spec fn mentions(dir: StateDirView, name: Seq<char>) -> bool {
    dir.content is Some && is_substring(name, dir.content->Some_0)
}

/// `dir`, a directory under the state root, is a container that refers to
/// `name`.
pub open spec fn container_uses(dir: StateDirView, name: Seq<char>) -> bool {
    dir.name != compose_dir_name() && mentions(dir, name)
}

/// Some container among `dirs` refers to `name`.
pub open spec fn any_container_uses(dirs: Seq<StateDirView>, name: Seq<char>) -> bool {
    exists|i: int| 0 <= i < dirs.len() && container_uses(#[trigger] dirs[i], name)
}

/// Some compose project among `dirs` refers to `name`.
pub open spec fn any_project_mentions(dirs: Seq<StateDirView>, name: Seq<char>) -> bool {
    exists|i: int| 0 <= i < dirs.len() && mentions(#[trigger] dirs[i], name)
}

/// The volume `name` is referenced somewhere in `state`.
pub open spec fn in_use(state: RuntimeView, name: Seq<char>) -> bool {
    any_container_uses(state.containers, name) || any_project_mentions(state.projects, name)
}

/// Without any state directory nothing is in use.
pub proof fn lemma_unused_without_state(state: RuntimeView, name: Seq<char>)
    requires
        state.containers.len() == 0,
        state.projects.len() == 0,
    ensures
        !in_use(state, name),
{
}

/// Directories whose state files are missing or unreadable are no evidence
/// of use.
pub proof fn lemma_unused_without_texts(state: RuntimeView, name: Seq<char>)
    requires
        forall|i: int| 0 <= i < state.containers.len() ==> (#[trigger] state.containers[i]).content is None,
        forall|i: int| 0 <= i < state.projects.len() ==> (#[trigger] state.projects[i]).content is None,
    ensures
        !in_use(state, name),
{
}

/// Whether the state file of `dir` could be read and holds `needle`.
fn dir_mentions(dir: &StateDir, needle: &Vec<char>) -> (r: bool)
    ensures
        r == mentions(dir@, needle@),
{
    match &dir.content {
        Some(text) => {
            let hay = chars_of(text.as_str());
            contains_chars(&hay, needle)
        },
        None => false,
    }
}

/// Whether the volume `name` is referenced by a container or a compose
/// project in `state`.
pub fn is_volume_in_use(name: &str, state: &RuntimeState) -> (used: bool)
    ensures
        used == in_use(state@, name@),
{
    let needle = chars_of(name);
    let compose = "compose".to_owned();
    let mut i: usize = 0;
    while i < state.containers.len()
        invariant
            i <= state.containers.len(),
            needle@ == name@,
            compose@ == compose_dir_name(),
            forall|k: int| 0 <= k < i ==> !container_uses(#[trigger] state@.containers[k], name@),
        decreases state.containers.len() - i,
    {
        let dir = &state.containers[i];
        assert(state@.containers[i as int] == dir@);
        if dir.name != compose && dir_mentions(dir, &needle) {
            return true;
        }
        i += 1;
    }
    let mut j: usize = 0;
    while j < state.projects.len()
        invariant
            j <= state.projects.len(),
            needle@ == name@,
            !any_container_uses(state@.containers, name@),
            forall|k: int| 0 <= k < j ==> !mentions(#[trigger] state@.projects[k], name@),
        decreases state.projects.len() - j,
    {
        let dir = &state.projects[j];
        assert(state@.projects[j as int] == dir@);
        if dir_mentions(dir, &needle) {
            return true;
        }
        j += 1;
    }
    false
}

} // verus!
