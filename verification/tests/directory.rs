use nix_installer::directory::{
    Directory, DirectoryReport, NodeKind, NodeState, Removal, Verdict, PERMISSION_BITS,
    ROOT_OWNED_MODE,
};
use nix_installer::step::{Action, Step, StepError};

fn store() -> Directory {
    Directory {
        path: "/nix/store".to_string(),
        mode: 0x43fd,
        owner: 0,
        group: 30000,
        removal: Removal::SingleNode,
    }
}

fn node(kind: NodeKind, owner: u32, group: u32, mode: u32) -> NodeState {
    NodeState {
        kind,
        owner,
        group,
        mode,
    }
}

fn set_attributes() -> Vec<Action> {
    vec![
        Action::Chown {
            path: "/nix/store".to_string(),
            owner: 0,
            group: 30000,
        },
        Action::Chmod {
            path: "/nix/store".to_string(),
            mode: 0x43fd,
        },
    ]
}

/// The system as the plans take it to behave, for one path.
fn perform(mut state: NodeState, plan: &[Action]) -> NodeState {
    for action in plan {
        match action {
            Action::RemoveFile { .. } => {
                assert_eq!(state.kind, NodeKind::File);
                state.kind = NodeKind::Absent;
            }
            Action::CreateDirAll { .. } => {
                assert_eq!(state.kind, NodeKind::Absent);
                state = node(NodeKind::Directory, 1000, 1000, 0o40700);
            }
            Action::Chown { owner, group, .. } => {
                assert_ne!(state.kind, NodeKind::Absent);
                state.owner = *owner;
                state.group = *group;
            }
            Action::Chmod { mode, .. } => {
                assert_ne!(state.kind, NodeKind::Absent);
                state.mode = (state.mode & !PERMISSION_BITS) | (mode & PERMISSION_BITS);
            }
            Action::RemoveDir { .. } => {
                assert_eq!(state.kind, NodeKind::Directory);
                state.kind = NodeKind::Absent;
            }
            _ => panic!("no action on a path"),
        }
    }
    state
}

#[test]
fn root_owned_directory() {
    let d = Directory::root_owned("/etc/nix", Removal::Recursive);
    assert_eq!(
        d,
        Directory {
            path: "/etc/nix".to_string(),
            mode: 0x41ed,
            owner: 0,
            group: 0,
            removal: Removal::Recursive,
        }
    );
    assert_eq!(ROOT_OWNED_MODE, 0o40755);
}

#[test]
fn apply_on_a_file_removes_it_first() {
    let mut expected = vec![
        Action::RemoveFile {
            path: "/nix/store".to_string(),
        },
        Action::CreateDirAll {
            path: "/nix/store".to_string(),
        },
    ];
    expected.extend(set_attributes());
    assert_eq!(
        store().apply(&node(NodeKind::File, 5, 5, 0o100644)),
        Ok(expected)
    );
}

#[test]
fn apply_on_a_directory_only_sets_attributes() {
    assert_eq!(
        store().apply(&node(NodeKind::Directory, 0, 30000, 0x43fd)),
        Ok(set_attributes())
    );
}

#[test]
fn apply_on_nothing_creates_the_directory() {
    let mut expected = vec![Action::CreateDirAll {
        path: "/nix/store".to_string(),
    }];
    expected.extend(set_attributes());
    assert_eq!(store().apply(&node(NodeKind::Absent, 0, 0, 0)), Ok(expected));
}

#[test]
fn unexpected_node_is_an_error() {
    let other = node(NodeKind::Other, 0, 0, 0o20666);
    let error = Err(StepError::UnexpectedNode {
        path: "/nix/store".to_string(),
    });
    assert_eq!(store().apply(&other), error);
    assert_eq!(store().delete(&other), error);
    assert_eq!(
        store().dry_apply(&other),
        Err(StepError::UnexpectedNode {
            path: "/nix/store".to_string(),
        })
    );
    assert_eq!(store().delete(&node(NodeKind::File, 0, 0, 0)), error);
}

#[test]
fn apply_twice_ends_in_the_same_state() {
    let starts = [
        node(NodeKind::Absent, 0, 0, 0),
        node(NodeKind::File, 12, 34, 0o100600),
        node(NodeKind::Directory, 12, 34, 0o40700),
    ];
    for start in starts {
        let d = store();
        let once = perform(start, &d.apply(&start).unwrap());
        assert_eq!(once, node(NodeKind::Directory, 0, 30000, 0x43fd));
        let twice = perform(once, &d.apply(&once).unwrap());
        assert_eq!(twice, once);
        assert_eq!(
            d.dry_apply(&twice),
            Ok(DirectoryReport {
                kind: Verdict::NoOp,
                owner: Verdict::NoOp,
                group: Verdict::NoOp,
                mode: Verdict::NoOp,
            })
        );
    }
}

#[test]
fn dry_apply_reports_each_attribute() {
    let d = store();
    assert_eq!(
        d.dry_apply(&node(NodeKind::Directory, 0, 0, 0o40775)),
        Ok(DirectoryReport {
            kind: Verdict::NoOp,
            owner: Verdict::NoOp,
            group: Verdict::Pending,
            mode: Verdict::Pending,
        })
    );
    assert_eq!(
        d.dry_apply(&node(NodeKind::Directory, 1, 30000, 0o1775)),
        Ok(DirectoryReport {
            kind: Verdict::NoOp,
            owner: Verdict::Pending,
            group: Verdict::NoOp,
            mode: Verdict::NoOp,
        })
    );
    let pending = DirectoryReport {
        kind: Verdict::Pending,
        owner: Verdict::Pending,
        group: Verdict::Pending,
        mode: Verdict::Pending,
    };
    assert_eq!(d.dry_apply(&node(NodeKind::Absent, 0, 30000, 0x43fd)), Ok(pending));
    assert_eq!(d.dry_apply(&node(NodeKind::File, 0, 30000, 0x43fd)), Ok(pending));
}

#[test]
fn delete_follows_the_removal_policy() {
    let there = node(NodeKind::Directory, 0, 30000, 0x43fd);
    assert_eq!(
        store().delete(&there),
        Ok(vec![Action::RemoveDir {
            path: "/nix/store".to_string(),
            recursive: false,
        }])
    );
    let mut d = store();
    d.removal = Removal::Recursive;
    assert_eq!(
        d.delete(&there),
        Ok(vec![Action::RemoveDir {
            path: "/nix/store".to_string(),
            recursive: true,
        }])
    );
    assert_eq!(d.delete(&node(NodeKind::Absent, 0, 0, 0)), Ok(vec![]));
    let gone = perform(there, &d.delete(&there).unwrap());
    assert_eq!(d.delete(&gone), Ok(vec![]));
}
