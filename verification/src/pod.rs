//! Pods: the two operations that need no container runtime.

use vstd::prelude::*;

verus! {

/// What a pod operation can fail with.
#[derive(Debug, Clone, Copy, PartialEq, Eq, Structural)]
pub enum PodError {
    /// The operation is not offered for pods that stand alone.
    Unsupported,
}

impl PodError {
    /// A short message for people.
    pub fn message(&self) -> (text: String)
        ensures
            text@ == "Create pod not implemented yet"@,
    {
        "Create pod not implemented yet".to_owned()
    }
}

/// Removes the network of the pod whose sandbox runs as process `pid`.
///
/// A pod that stands alone has no network of its own, so there is nothing
/// to remove: the call succeeds for every `pid`.
pub fn remove_pod_network(pid: i32) -> (r: Result<(), PodError>)
    ensures
        r is Ok,
{
    Ok(())
}

/// Creates a pod from the description `pod_yaml`.
///
/// Pods that stand alone cannot be created from a description: the call
/// fails for every description.
pub fn create_pod(pod_yaml: &str) -> (r: Result<(), PodError>)
    ensures
        r == Err::<(), PodError>(PodError::Unsupported),
{
    Err(PodError::Unsupported)
}

} // verus!
