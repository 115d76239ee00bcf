use nix_installer::directory::{Directory, Removal};
use nix_installer::executor::{apply, delete, Executor, Failure, Operation, Resource};
use nix_installer::guard::{check_host, looks_like_nixos, PreconditionError};
use nix_installer::install::{
    build_user_pool, install_steps, managed_directories, uninstall_steps, BUILD_GROUP,
    DEFAULT_BUILD_USERS, STORE_MODE,
};
use nix_installer::step::StepError;
use nix_installer::users::Users;

fn three_steps() -> Vec<Resource> {
    vec![
        Resource::Directory(Directory::root_owned("/a", Removal::SingleNode)),
        Resource::Users(build_user_pool(2)),
        Resource::Directory(Directory::root_owned("/b", Removal::SingleNode)),
    ]
}

fn refused(path: &str) -> StepError {
    StepError::Filesystem {
        path: path.to_string(),
        cause: 13,
    }
}

#[test]
fn every_resource_gets_its_turn_in_order() {
    let steps = three_steps();
    let mut executor = apply(three_steps());
    assert_eq!(executor.operation(), Operation::Apply);
    for step in &steps {
        assert_eq!(executor.outcome(), None);
        assert_eq!(executor.current(), Some(step));
        executor.record(Ok(()));
    }
    assert_eq!(executor.current(), None);
    assert_eq!(executor.outcome(), Some(Ok(())));
    executor.record(Err(refused("/late")));
    assert_eq!(executor.outcome(), Some(Ok(())));
}

#[test]
fn run_stops_at_the_first_failure() {
    let steps = three_steps();
    let mut executor = delete(three_steps());
    assert_eq!(executor.operation(), Operation::Delete);
    executor.record(Ok(()));
    assert_eq!(executor.current(), Some(&steps[1]));
    executor.record(Err(refused("/x")));
    let failure = Failure {
        resource: 1,
        error: refused("/x"),
    };
    assert_eq!(executor.current(), None);
    assert_eq!(executor.outcome(), Some(Err(&failure)));
    executor.record(Ok(()));
    executor.record(Err(refused("/y")));
    assert_eq!(executor.current(), None);
    assert_eq!(executor.outcome(), Some(Err(&failure)));
}

#[test]
fn empty_run_is_done_at_once() {
    let mut executor = Executor::new(vec![], Operation::DryApply);
    assert_eq!(executor.current(), None);
    assert_eq!(executor.outcome(), Some(Ok(())));
    executor.record(Ok(()));
    assert_eq!(executor.outcome(), Some(Ok(())));
}

#[test]
fn host_is_checked_for_nixos_first_and_root_second() {
    assert_eq!(check_host(Some("ID=debian\n"), 0), Ok(()));
    assert_eq!(check_host(None, 0), Ok(()));
    assert_eq!(
        check_host(Some("ID=nixos\n"), 0),
        Err(PreconditionError::DisallowedHost)
    );
    assert_eq!(
        check_host(Some("NAME=nixos"), 1000),
        Err(PreconditionError::DisallowedHost)
    );
    assert_eq!(
        check_host(Some("ID=debian\n"), 1000),
        Err(PreconditionError::NotRoot)
    );
    assert_eq!(check_host(None, 1), Err(PreconditionError::NotRoot));
}

#[test]
fn nixos_is_looked_for_anywhere_in_the_text() {
    for text in ["nixos", "xnixos", "nixosx", "nixnixos", "ninixos!", "a\nb nixos"] {
        assert!(looks_like_nixos(text), "{:?}", text);
    }
    for text in ["", "nixo", "ixos", "NixOS", "nix os", "nixoS", "n i x o s", "sonix"] {
        assert!(!looks_like_nixos(text), "{:?}", text);
    }
}

#[test]
fn table_of_managed_directories() {
    let dirs = managed_directories(Removal::SingleNode);
    let paths: Vec<&str> = dirs.iter().map(|d| d.path.as_str()).collect();
    assert_eq!(
        paths,
        vec![
            "/nix/",
            "/nix/var/log/nix/drvs",
            "/nix/var/nix/db",
            "/nix/var/nix/gcroots/per-user",
            "/nix/var/nix/profiles",
            "/nix/var/nix/temproots",
            "/nix/var/nix/userpool/per-user",
            "/nix/store",
            "/etc/nix",
        ]
    );
    for d in &dirs {
        assert_eq!(d.removal, Removal::SingleNode);
        assert_eq!(d.owner, 0);
        if d.path == "/nix/store" {
            assert_eq!((d.mode, d.group), (0x43fd, 30000));
        } else {
            assert_eq!((d.mode, d.group), (0x41ed, 0));
        }
    }
    assert_eq!(STORE_MODE, 0x43fd);
    assert_eq!(BUILD_GROUP, 30000);
    assert_eq!(DEFAULT_BUILD_USERS, 16);
}

#[test]
fn install_applies_directories_then_users() {
    let steps = install_steps(16, Removal::Recursive);
    let dirs = managed_directories(Removal::Recursive);
    assert_eq!(steps.len(), dirs.len() + 1);
    for (step, dir) in steps.iter().zip(dirs.iter()) {
        assert_eq!(step, &Resource::Directory(dir.clone()));
    }
    assert_eq!(
        steps[dirs.len()],
        Resource::Users(Users {
            n_users: 16,
            gid: 30000,
            name: "nixbld".to_string(),
        })
    );
}

#[test]
fn uninstall_deletes_users_then_directories_in_reverse() {
    let steps = uninstall_steps(Removal::SingleNode);
    let mut dirs = managed_directories(Removal::SingleNode);
    dirs.reverse();
    assert_eq!(steps.len(), dirs.len() + 1);
    assert_eq!(
        steps[0],
        Resource::Users(Users {
            n_users: 0,
            gid: 30000,
            name: "nixbld".to_string(),
        })
    );
    for (step, dir) in steps[1..].iter().zip(dirs.iter()) {
        assert_eq!(step, &Resource::Directory(dir.clone()));
    }
}
