//! What a volume operation can fail with.

use vstd::prelude::*;

verus! {

/// The failures of the volume manager. Each names the volume it is about.
#[derive(Debug)]
pub enum VolumeError {
    /// No volume of that name is in the store.
    NotFound(String),
    /// A volume of that name is in the store already.
    AlreadyExists(String),
    /// The volume is referenced and its removal was not forced.
    InUse(String),
    /// A compose container names a volume that its project did not declare.
    UndefinedComposeVolume(String),
    /// The volume's mount point has no directory above it.
    PathError(String),
    /// Every name drawn for an anonymous volume was taken.
    NameCollision,
}

/// The mathematical value of a [`VolumeError`].
pub enum ErrorView {
    NotFound(Seq<char>),
    AlreadyExists(Seq<char>),
    InUse(Seq<char>),
    UndefinedComposeVolume(Seq<char>),
    PathError(Seq<char>),
    NameCollision,
}

impl View for VolumeError {
    type V = ErrorView;

    open spec fn view(&self) -> ErrorView {
        match self {
            VolumeError::NotFound(name) => ErrorView::NotFound(name@),
            VolumeError::AlreadyExists(name) => ErrorView::AlreadyExists(name@),
            VolumeError::InUse(name) => ErrorView::InUse(name@),
            VolumeError::UndefinedComposeVolume(name) => ErrorView::UndefinedComposeVolume(name@),
            VolumeError::PathError(name) => ErrorView::PathError(name@),
            VolumeError::NameCollision => ErrorView::NameCollision,
        }
    }
}

/// The message that goes with a failure.
pub open spec fn message_of(error: ErrorView) -> Seq<char> {
    match error {
        ErrorView::NotFound(name) => "volume "@ + name + " not found"@,
        ErrorView::AlreadyExists(name) => "volume "@ + name + " already exists"@,
        ErrorView::InUse(name) => "volume "@ + name + " is in use"@,
        ErrorView::UndefinedComposeVolume(name) => name + " is not defined in compose spec"@,
        ErrorView::PathError(name) => "invalid mountpoint path for volume "@ + name,
        ErrorView::NameCollision => "no unused name for an anonymous volume"@,
    }
}

/// `head`, then `name`, then `tail`.
fn framed(head: &str, name: &String, tail: &str) -> (text: String)
    ensures
        text@ == head@ + name@ + tail@,
{
    let mut text = head.to_owned();
    text.append(name.as_str());
    text.append(tail);
    text
}

impl VolumeError {
    /// A short message for people.
    pub fn message(&self) -> (text: String)
        ensures
            text@ == message_of(self@),
    {
        match self {
            VolumeError::NotFound(name) => framed("volume ", name, " not found"),
            VolumeError::AlreadyExists(name) => framed("volume ", name, " already exists"),
            VolumeError::InUse(name) => framed("volume ", name, " is in use"),
            VolumeError::UndefinedComposeVolume(name) => {
                let text = framed("", name, " is not defined in compose spec");
                proof {
                    reveal_strlit("");
                    assert(""@ + name@ =~= name@);
                }
                text
            },
            VolumeError::PathError(name) => {
                let text = framed("invalid mountpoint path for volume ", name, "");
                proof {
                    reveal_strlit("");
                    assert("invalid mountpoint path for volume "@ + name@ + ""@
                        =~= "invalid mountpoint path for volume "@ + name@);
                }
                text
            },
            VolumeError::NameCollision => "no unused name for an anonymous volume".to_owned(),
        }
    }
}

} // verus!
