use libruntime::pod::{create_pod, remove_pod_network, PodError};

#[test]
fn removing_a_pod_network_succeeds() {
    assert_eq!(remove_pod_network(1234), Ok(()));
    assert_eq!(remove_pod_network(0), Ok(()));
    assert_eq!(remove_pod_network(-1), Ok(()));
}

#[test]
fn creating_a_pod_is_not_offered() {
    assert_eq!(create_pod("apiVersion: v1\nkind: Pod\n"), Err(PodError::Unsupported));
    assert_eq!(create_pod(""), Err(PodError::Unsupported));
    assert_eq!(PodError::Unsupported.message(), "Create pod not implemented yet");
}
