use nix_installer::step::{after_action, command_outcome, Action, CommandLine, Step, StepError};
use nix_installer::users::{Delta, UserRecord, Users, BASE_UID, MAX_USERS, SCAN_WINDOW};

fn pool(n_users: u32) -> Users {
    Users {
        n_users,
        gid: 30000,
        name: "nixbld".to_string(),
    }
}

fn user(uid: u32, name: &str) -> UserRecord {
    UserRecord {
        uid,
        name: name.to_string(),
    }
}

fn build_user(i: u32) -> UserRecord {
    user(BASE_UID + i, &format!("nixbld{}", i))
}

#[test]
fn window_and_base() {
    assert_eq!(BASE_UID, 30_000);
    assert_eq!(SCAN_WINDOW, 2_000);
    assert_eq!(MAX_USERS, u32::MAX - BASE_UID);
}

#[test]
fn target_names_are_prefix_and_number() {
    let p = pool(3);
    assert_eq!(p.target_name(1), "nixbld1");
    assert_eq!(p.target_name(16), "nixbld16");
    assert_eq!(p.target_name(1999), "nixbld1999");
    let other = Users {
        n_users: 1,
        gid: 1,
        name: "".to_string(),
    };
    assert_eq!(other.target_name(20), "20");
}

#[test]
fn delta_from_nothing_adds_every_target() {
    let delta = pool(3).delta(3, &vec![]);
    assert_eq!(
        delta,
        Delta {
            removed: vec![],
            added: vec![build_user(1), build_user(2), build_user(3)],
        }
    );
}

#[test]
fn delta_is_empty_when_live_is_target() {
    let live = vec![build_user(2), build_user(1), build_user(3)];
    let delta = pool(3).delta(3, &live);
    assert_eq!(delta.removed, vec![]);
    assert_eq!(delta.added, vec![]);
    // One user too few or too many and the delta is not empty.
    assert_eq!(pool(4).delta(4, &live).added, vec![build_user(4)]);
    assert_eq!(pool(2).delta(2, &live).removed, vec![build_user(3)]);
}

#[test]
fn delta_is_the_difference_of_live_and_target() {
    let live = vec![
        build_user(2),
        user(BASE_UID + 3, "nixbld-other"),
        build_user(7),
        user(BASE_UID + 4, "postgres"),
        user(BASE_UID - 1, "nixbld0"),
        user(BASE_UID + SCAN_WINDOW, "nixbld2000"),
        build_user(7),
        user(BASE_UID, "nixbld0"),
        user(BASE_UID + 1, "nixbld2"),
    ];
    let delta = pool(4).delta(4, &live);
    assert_eq!(
        delta.removed,
        vec![
            user(BASE_UID + 3, "nixbld-other"),
            build_user(7),
            user(BASE_UID, "nixbld0"),
            user(BASE_UID + 1, "nixbld2"),
        ]
    );
    assert_eq!(
        delta.added,
        vec![build_user(1), build_user(3), build_user(4)]
    );
}

#[test]
fn users_beyond_the_window_are_not_seen() {
    let live = vec![build_user(1999), build_user(2000), build_user(2001)];
    let delta = pool(2001).delta(2001, &live);
    assert_eq!(delta.removed, vec![]);
    assert_eq!(delta.added.len(), 2000);
    assert_eq!(delta.added[1998], build_user(2000));
    assert_eq!(delta.added[1999], build_user(2001));
    assert!(!delta.added.contains(&build_user(1999)));
}

#[test]
fn apply_removes_then_adds() {
    let live = vec![build_user(1), build_user(5), user(BASE_UID + 2, "nixbld-x")];
    let plan = pool(2).apply(&live);
    assert_eq!(
        plan,
        Ok(vec![
            Action::UserDel {
                name: "nixbld5".to_string()
            },
            Action::UserDel {
                name: "nixbld-x".to_string()
            },
            Action::UserAdd {
                name: "nixbld2".to_string(),
                uid: 30002
            },
        ])
    );
}

#[test]
fn dry_apply_reports_the_delta() {
    let live = vec![build_user(1), build_user(5)];
    assert_eq!(
        pool(2).dry_apply(&live),
        Ok(Delta {
            removed: vec![build_user(5)],
            added: vec![build_user(2)],
        })
    );
}

#[test]
fn delete_removes_every_live_user_of_the_pool() {
    let live = vec![build_user(1), user(BASE_UID + 9, "someone"), build_user(5)];
    assert_eq!(
        pool(16).delete(&live),
        Ok(vec![
            Action::UserDel {
                name: "nixbld1".to_string()
            },
            Action::UserDel {
                name: "nixbld5".to_string()
            },
        ])
    );
    assert_eq!(pool(0).delete(&vec![]), Ok(vec![]));
}

#[test]
fn reconciled_pool_needs_nothing() {
    let p = pool(5);
    let mut system = vec![build_user(9), user(BASE_UID + 1, "nixbld-odd"), build_user(3)];
    for _ in 0..2 {
        let delta = p.delta(5, &system);
        system.retain(|u| !delta.removed.contains(u));
        system.extend(delta.added.iter().cloned());
    }
    let mut expected: Vec<UserRecord> = (1..=5).map(build_user).collect();
    system.sort_by_key(|u| u.uid);
    expected.sort_by_key(|u| u.uid);
    assert_eq!(system, expected);
    assert_eq!(p.apply(&system), Ok(vec![]));
}

#[test]
fn commands_for_user_actions() {
    assert_eq!(
        Action::UserDel {
            name: "nixbld3".to_string()
        }
        .command(),
        Some(CommandLine {
            program: "userdel".to_string(),
            args: vec!["nixbld3".to_string()],
        })
    );
    assert_eq!(
        Action::UserAdd {
            name: "nixbld3".to_string(),
            uid: 30003
        }
        .command(),
        Some(CommandLine {
            program: "useradd".to_string(),
            args: vec![
                "nixbld3".to_string(),
                "--uid".to_string(),
                "30003".to_string()
            ],
        })
    );
    assert_eq!(
        Action::RemoveFile {
            path: "/nix".to_string()
        }
        .command(),
        None
    );
}

#[test]
fn command_status_other_than_zero_is_an_error() {
    assert_eq!(
        command_outcome("userdel".to_string(), 0, "out".to_string(), "".to_string()),
        Ok(())
    );
    assert_eq!(
        command_outcome("useradd".to_string(), 9, "o".to_string(), "e".to_string()),
        Err(StepError::ExternalCommand {
            command: "useradd".to_string(),
            status: 9,
            stdout: "o".to_string(),
            stderr: "e".to_string(),
        })
    );
    assert!(command_outcome("x".to_string(), -1, "".to_string(), "".to_string()).is_err());
}

#[test]
fn plan_stops_at_the_action_that_fails() {
    let failed = StepError::ExternalCommand {
        command: "userdel".to_string(),
        status: 6,
        stdout: "".to_string(),
        stderr: "no such user".to_string(),
    };
    assert_eq!(after_action(3, 0, Ok(())), Ok(Some(1)));
    assert_eq!(after_action(3, 1, Ok(())), Ok(Some(2)));
    assert_eq!(after_action(3, 2, Ok(())), Ok(None));
    assert_eq!(after_action(1, 0, Ok(())), Ok(None));
    assert_eq!(after_action(3, 0, Err(failed.clone())), Err(failed.clone()));
    assert_eq!(after_action(3, 2, Err(failed.clone())), Err(failed.clone()));

    // Three commands of which the second fails: the third is never run.
    let status = [0, 6, 0];
    let mut ran = vec![];
    let mut next = Some(0);
    let mut result = Ok(());
    while let Some(i) = next {
        ran.push(i);
        let outcome = command_outcome(
            "userdel".to_string(),
            status[i],
            "".to_string(),
            "no such user".to_string(),
        );
        match after_action(status.len(), i, outcome) {
            Ok(following) => next = following,
            Err(error) => {
                result = Err(error);
                next = None;
            }
        }
    }
    assert_eq!(ran, vec![0, 1]);
    assert_eq!(result, Err(failed));
}

#[test]
fn delete_does_not_depend_on_the_number_of_users() {
    let live = vec![build_user(3)];
    let expected = Ok(vec![Action::UserDel {
        name: "nixbld3".to_string(),
    }]);
    assert_eq!(pool(u32::MAX).delete(&live), expected);
    assert_eq!(pool(0).delete(&live), expected);
}
