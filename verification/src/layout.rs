//! Where a volume lives under the volume root.
//!
//! ```text
//! <volume_root>/
//!   metadata.json        the index
//!   <name>/
//!     _data/             the mount point
//! ```

use vstd::prelude::*;
use crate::text::optional_view;

verus! {

/// The data directory of the volume `name` under `root`: `<root>/<name>/_data`.
pub open spec fn mountpoint_of(root: Seq<char>, name: Seq<char>) -> Seq<char> {
    root + "/"@ + name + "/_data"@
}

/// The index file under `root`: `<root>/metadata.json`.
pub open spec fn index_path_of(root: Seq<char>) -> Seq<char> {
    root + "/metadata.json"@
}

/// `text` begins with `prefix`.
pub open spec fn starts_with(text: Seq<char>, prefix: Seq<char>) -> bool {
    prefix.len() <= text.len() && text.subrange(0, prefix.len() as int) == prefix
}

/// `text` ends with `suffix`.
pub open spec fn ends_with(text: Seq<char>, suffix: Seq<char>) -> bool {
    suffix.len() <= text.len() && text.subrange(text.len() - suffix.len(), text.len() as int)
        == suffix
}

/// What `std::path::Path::parent` gives for the path written `path`: the
/// path without its last component, or nothing where there is none to drop.
pub uninterp spec fn path_parent(path: Seq<char>) -> Option<Seq<char>>;

/// Calls `std::path::Path::parent` on `path`. The result is a function of
/// the path's text alone; it is named, not spelled out.
#[verifier::external_body]
pub(crate) fn parent_of(path: &str) -> (parent: Option<String>)
    ensures
        optional_view(parent) == path_parent(path@),
{
    match std::path::Path::new(path).parent() {
        Some(p) => Some(p.to_string_lossy().into_owned()),
        None => None,
    }
}

/// The data directory of the volume `name` under `root`.
pub fn mountpoint_for(root: &str, name: &str) -> (path: String)
    ensures
        path@ == mountpoint_of(root@, name@),
{
    let mut path = root.to_owned();
    path.append("/");
    path.append(name);
    path.append("/_data");
    path
}

/// The index file under `root`.
pub fn index_path_for(root: &str) -> (path: String)
    ensures
        path@ == index_path_of(root@),
{
    let mut path = root.to_owned();
    path.append("/metadata.json");
    path
}

/// A mount point laid out by `mountpoint_of` lies under its root and ends in
/// `/_data`.
pub proof fn lemma_mountpoint_shape(root: Seq<char>, name: Seq<char>)
    ensures
        starts_with(mountpoint_of(root, name), root + "/"@),
        ends_with(mountpoint_of(root, name), "/_data"@),
{
    let path = mountpoint_of(root, name);
    let head = root + "/"@;
    let tail = "/_data"@;
    assert(path =~= head + (name + tail));
    assert(path.subrange(0, head.len() as int) =~= head);
    assert(path =~= (head + name) + tail);
    assert(path.subrange(path.len() - tail.len(), path.len() as int) =~= tail);
}

} // verus!
