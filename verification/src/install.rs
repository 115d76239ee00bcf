//! What a Nix installation needs of the system: the managed directories and
//! the pool of build users.

use crate::directory::{Directory, DirectoryView, Removal, ROOT_OWNED_MODE};
use crate::executor::{resources, Resource, ResourceView};
use crate::users::{Users, UsersView};
use vstd::prelude::*;
use vstd::string::StringExecFns;

verus! {

/// The group of the build users, which also owns the store.
pub const BUILD_GROUP: u32 = 30_000;

/// The number of build users where none is asked for.
pub const DEFAULT_BUILD_USERS: u32 = 16;

/// The mode of the store: a directory that its group may write to, with the
/// sticky bit.
pub const STORE_MODE: u32 = 0o41775;

/// A directory of the table that root owns.
pub open spec fn root_owned_entry(path: Seq<char>, removal: Removal) -> DirectoryView {
    DirectoryView { path: path, mode: ROOT_OWNED_MODE, owner: 0, group: 0, removal: removal }
}

/// The managed directories: the root of the data, the directories for logs
/// and state below it, the store, and the directory of the configuration.
pub open spec fn directory_table(removal: Removal) -> Seq<DirectoryView> {
    seq![
        root_owned_entry("/nix/"@, removal),
        root_owned_entry("/nix/var/log/nix/drvs"@, removal),
        root_owned_entry("/nix/var/nix/db"@, removal),
        root_owned_entry("/nix/var/nix/gcroots/per-user"@, removal),
        root_owned_entry("/nix/var/nix/profiles"@, removal),
        root_owned_entry("/nix/var/nix/temproots"@, removal),
        root_owned_entry("/nix/var/nix/userpool/per-user"@, removal),
        DirectoryView {
            path: "/nix/store"@,
            mode: STORE_MODE,
            owner: 0,
            group: BUILD_GROUP,
            removal: removal,
        },
        root_owned_entry("/etc/nix"@, removal),
    ]
}

/// The pool of `n_users` build users.
pub open spec fn build_users(n_users: u32) -> UsersView {
    UsersView { n_users: n_users, gid: BUILD_GROUP, name: "nixbld"@ }
}

/// What each directory of `v` is.
pub open spec fn directories(v: Seq<Directory>) -> Seq<DirectoryView> {
    Seq::new(v.len(), |i: int| v[i]@)
}

/// What an installation asks for: every directory of the table, then the
/// pool of build users.
pub open spec fn install_table(n_users: u32, removal: Removal) -> Seq<ResourceView> {
    Seq::new(
        directory_table(removal).len(),
        |i: int| ResourceView::Directory(directory_table(removal)[i]),
    ).push(ResourceView::Users(build_users(n_users)))
}

/// What a removal asks for: the pool of build users with no user left, then
/// every directory of the table from the last to the first.
pub open spec fn uninstall_table(removal: Removal) -> Seq<ResourceView> {
    seq![ResourceView::Users(build_users(0))] + Seq::new(
        directory_table(removal).len(),
        |i: int|
            ResourceView::Directory(directory_table(removal)[directory_table(removal).len() - 1 - i]),
    )
}

/// The managed directories.
pub fn managed_directories(removal: Removal) -> (out: Vec<Directory>)
    ensures
        directories(out@) == directory_table(removal),
{
    let mut out: Vec<Directory> = Vec::new();
    out.push(Directory::root_owned("/nix/", removal));
    out.push(Directory::root_owned("/nix/var/log/nix/drvs", removal));
    out.push(Directory::root_owned("/nix/var/nix/db", removal));
    out.push(Directory::root_owned("/nix/var/nix/gcroots/per-user", removal));
    out.push(Directory::root_owned("/nix/var/nix/profiles", removal));
    out.push(Directory::root_owned("/nix/var/nix/temproots", removal));
    out.push(Directory::root_owned("/nix/var/nix/userpool/per-user", removal));
    out.push(
        Directory {
            path: String::from_str("/nix/store"),
            mode: STORE_MODE,
            owner: 0,
            group: BUILD_GROUP,
            removal,
        },
    );
    out.push(Directory::root_owned("/etc/nix", removal));
    proof {
        assert(directories(out@) =~= directory_table(removal));
    }
    out
}

/// The pool of build users.
pub fn build_user_pool(n_users: u32) -> (out: Users)
    ensures
        out@ == build_users(n_users),
{
    Users { n_users, gid: BUILD_GROUP, name: String::from_str("nixbld") }
}

/// The resources of an installation, in the order in which they are
/// applied.
pub fn install_steps(n_users: u32, removal: Removal) -> (out: Vec<Resource>)
    ensures
        resources(out@) == install_table(n_users, removal),
{
    let mut dirs = managed_directories(removal);
    let ghost table = directory_table(removal);
    let mut out: Vec<Resource> = Vec::new();
    proof {
        assert forall|i: int| 0 <= i < dirs.len() implies (#[trigger] dirs@[i])@ == table[i] by {
            assert(directories(dirs@)[i] == dirs@[i]@);
        }
    }
    while dirs.len() > 0
        invariant
            out.len() + dirs.len() == table.len(),
            forall|i: int|
                0 <= i < out.len() ==> (#[trigger] out@[i])@ == ResourceView::Directory(table[i]),
            forall|i: int| 0 <= i < dirs.len() ==> (#[trigger] dirs@[i])@ == table[out.len() + i],
        decreases dirs.len(),
    {
        let d = dirs.remove(0);
        out.push(Resource::Directory(d));
    }
    out.push(Resource::Users(build_user_pool(n_users)));
    proof {
        assert(resources(out@) =~= install_table(n_users, removal));
    }
    out
}

/// The resources of a removal, in the order in which they are deleted.
pub fn uninstall_steps(removal: Removal) -> (out: Vec<Resource>)
    ensures
        resources(out@) == uninstall_table(removal),
{
    let mut dirs = managed_directories(removal);
    let ghost table = directory_table(removal);
    let mut out: Vec<Resource> = Vec::new();
    out.push(Resource::Users(build_user_pool(0)));
    proof {
        assert forall|i: int| 0 <= i < dirs.len() implies (#[trigger] dirs@[i])@ == table[i] by {
            assert(directories(dirs@)[i] == dirs@[i]@);
        }
    }
    while dirs.len() > 0
        invariant
            out.len() >= 1,
            dirs.len() + out.len() == table.len() + 1,
            out@[0]@ == ResourceView::Users(build_users(0)),
            forall|i: int| 0 <= i < dirs.len() ==> (#[trigger] dirs@[i])@ == table[i],
            forall|i: int|
                1 <= i < out.len() ==> (#[trigger] out@[i])@ == ResourceView::Directory(
                    table[table.len() - i],
                ),
        decreases dirs.len(),
    {
        let d = dirs.pop().unwrap();
        out.push(Resource::Directory(d));
    }
    proof {
        assert(resources(out@) =~= uninstall_table(removal));
    }
    out
}

} // verus!
