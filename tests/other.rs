use dirwatch::layout::group_shares;
use dirwatch::path::{display_name, FsPath};
use dirwatch::service::{update_service_status, ProbeOutput, ServiceDetails, ServiceState};

#[test]
fn parse_splits_components() {
    assert_eq!(FsPath::parse("/root/foo"), FsPath::parse("//root/foo/"));
    assert_ne!(FsPath::parse("/root/foo"), FsPath::parse("/root"));
    assert_eq!(FsPath::parse("/"), FsPath::root());
    assert_eq!(display_name(&FsPath::parse("/root/foo")), "foo");
}

#[test]
fn display_name_of_root() {
    assert_eq!(display_name(&FsPath::root()), "/");
}

#[test]
fn prefix_is_by_component() {
    assert!(FsPath::parse("/root/foo").starts_with(&FsPath::parse("/root")));
    assert!(FsPath::parse("/root").starts_with(&FsPath::parse("/root")));
    assert!(!FsPath::parse("/rootx/foo").starts_with(&FsPath::parse("/root")));
    assert!(FsPath::parse("/a/b").same_parent(&FsPath::parse("/a/c")));
    assert!(!FsPath::parse("/a/b").same_parent(&FsPath::parse("/x/b")));
}

#[test]
fn shares_split_space() {
    assert_eq!(group_shares(10, 3), vec![4, 3, 3]);
    assert_eq!(group_shares(9, 3), vec![3, 3, 3]);
    assert_eq!(group_shares(2, 4), vec![2, 0, 0, 0]);
}

#[test]
fn probe_output_decoded() {
    let state = ServiceState::from(
        "web",
        Some(ProbeOutput { stdout: b"active\n".to_vec(), success: true }),
    );
    assert_eq!(
        state,
        ServiceState::Details(ServiceDetails {
            name: "web".to_string(),
            active: true,
            status: "active\n".to_string(),
        })
    );
    assert_eq!(state.summary(), (true, "active\n"));
}

#[test]
fn probe_output_not_utf8() {
    let state = ServiceState::from(
        "web",
        Some(ProbeOutput { stdout: vec![0xff, 0xfe], success: true }),
    );
    assert_eq!(state, ServiceState::Unknown("web".to_string()));
    assert_eq!(state.summary(), (false, "----"));
    assert_eq!(state.name(), "web");
}

#[test]
fn probe_missing_is_unknown() {
    let current = ServiceState::Unknown("db".to_string());
    let next = update_service_status(Some(&current), None);
    assert_eq!(next, Some(ServiceState::Unknown("db".to_string())));
    let next = update_service_status(
        Some(&current),
        Some(ProbeOutput { stdout: b"failed".to_vec(), success: false }),
    );
    assert_eq!(next, Some(ServiceState::Unknown("db".to_string())));
    assert_eq!(next.as_ref().map(|s| s.summary()), Some((false, "----")));
    assert_eq!(update_service_status(None, None), None);
}
