//! The pool of numbered build users.
//!
//! The pool owns the users whose numeric id lies in a fixed window above a
//! base id and whose name starts with the pool's prefix. The window does not
//! grow with the number of users asked for: users beyond it are never seen,
//! which limits the size of a pool that can be reconciled.

use crate::step::{plan_view, Action, ActionView, Step, StepError};
use crate::text::{chars_of, decimal, push_decimal};
use vstd::prelude::*;

verus! {

/// The numeric id below the first user of the pool.
pub const BASE_UID: u32 = 30_000;

/// The number of ids, from `BASE_UID` on, that are scanned for live users.
pub const SCAN_WINDOW: u32 = 2_000;

/// The largest pool whose ids are numeric ids at all.
pub const MAX_USERS: u32 = 4_294_937_295;

/// A user of the system: numeric id and name.
#[derive(Debug, Clone, PartialEq, Eq)]
pub struct UserRecord {
    pub uid: u32,
    pub name: String,
}

/// A user as a value of the model.
pub struct Account {
    pub uid: int,
    pub name: Seq<char>,
}

impl View for UserRecord {
    type V = Account;

    open spec fn view(&self) -> Account {
        Account { uid: self.uid as int, name: self.name@ }
    }
}

/// What each record of `v` is.
pub open spec fn accounts(v: Seq<UserRecord>) -> Seq<Account> {
    Seq::new(v.len(), |i: int| v[i]@)
}

/// The id lies in the window that is scanned.
pub open spec fn in_window(uid: int) -> bool {
    BASE_UID <= uid < BASE_UID + SCAN_WINDOW
}

/// The pool with this prefix owns the user: the id lies in the window and
/// the name starts with the prefix.
pub open spec fn owned_by(prefix: Seq<char>, a: Account) -> bool {
    in_window(a.uid) && prefix.is_prefix_of(a.name)
}

/// User number `i` of a pool: id `BASE_UID + i`, and the prefix followed by
/// `i` as its name.
pub open spec fn target_account(prefix: Seq<char>, i: int) -> Account {
    Account { uid: BASE_UID + i, name: prefix + decimal(i as nat) }
}

/// The user is one of the `n` users that the pool should have.
pub open spec fn is_target(prefix: Seq<char>, n: int, a: Account) -> bool {
    1 <= a.uid - BASE_UID <= n && a == target_account(prefix, a.uid - BASE_UID)
}

/// The users that the pool should have.
pub open spec fn target_set(prefix: Seq<char>, n: int) -> Set<Account> {
    Set::new(|a: Account| is_target(prefix, n, a))
}

/// The users that the pool owns among those found on the system.
pub open spec fn live_set(found: Seq<Account>, prefix: Seq<char>) -> Set<Account> {
    Set::new(|a: Account| found.contains(a) && owned_by(prefix, a))
}

/// The users to remove among the first `k` found: each live user that is no
/// target, once, in the order in which they were found.
pub open spec fn removed_upto(found: Seq<Account>, prefix: Seq<char>, n: int, k: int) -> Seq<
    Account,
>
    decreases k,
{
    if k <= 0 {
        Seq::empty()
    } else {
        let before = removed_upto(found, prefix, n, k - 1);
        let a = found[k - 1];
        if owned_by(prefix, a) && !is_target(prefix, n, a) && !before.contains(a) {
            before.push(a)
        } else {
            before
        }
    }
}

/// The users to add among the first `i` targets: each target that is not
/// live, in the order of their numbers.
pub open spec fn added_upto(found: Seq<Account>, prefix: Seq<char>, i: int) -> Seq<Account>
    decreases i,
{
    if i <= 0 {
        Seq::empty()
    } else {
        let before = added_upto(found, prefix, i - 1);
        let t = target_account(prefix, i);
        if live_set(found, prefix).contains(t) {
            before
        } else {
            before.push(t)
        }
    }
}

/// The users to remove so that `n` users are left.
pub open spec fn removed(found: Seq<Account>, prefix: Seq<char>, n: int) -> Seq<Account> {
    removed_upto(found, prefix, n, found.len() as int)
}

/// The users to add so that the pool has `n` users.
pub open spec fn added(found: Seq<Account>, prefix: Seq<char>, n: int) -> Seq<Account> {
    added_upto(found, prefix, n)
}

/// The removal command for each of these users.
pub open spec fn deletions(removed: Seq<Account>) -> Seq<ActionView> {
    Seq::new(removed.len(), |i: int| ActionView::UserDel { name: removed[i].name })
}

/// The creation command for each of these users, with its numeric id.
pub open spec fn additions(added: Seq<Account>) -> Seq<ActionView> {
    Seq::new(
        added.len(),
        |i: int| ActionView::UserAdd { name: added[i].name, uid: added[i].uid as u32 },
    )
}

/// The plan for a delta: every removal, then every addition.
pub open spec fn delta_plan(removed: Seq<Account>, added: Seq<Account>) -> Seq<ActionView> {
    deletions(removed) + additions(added)
}

/// The users to remove and the users to add.
#[derive(Debug, Clone, PartialEq, Eq)]
pub struct Delta {
    pub removed: Vec<UserRecord>,
    pub added: Vec<UserRecord>,
}

/// A pool of `n_users` users of the group `gid`, named by the prefix `name`
/// and a number from 1 on.
#[derive(Debug, Clone, PartialEq, Eq)]
pub struct Users {
    pub n_users: u32,
    pub gid: u32,
    pub name: String,
}

/// A pool with its prefix as a sequence of characters.
pub struct UsersView {
    pub n_users: u32,
    pub gid: u32,
    pub name: Seq<char>,
}

impl View for Users {
    type V = UsersView;

    open spec fn view(&self) -> UsersView {
        UsersView { n_users: self.n_users, gid: self.gid, name: self.name@ }
    }
}

/// Whether `name` starts with `prefix`.
fn starts_with(name: &Vec<char>, prefix: &Vec<char>) -> (b: bool)
    ensures
        b == prefix@.is_prefix_of(name@),
{
    if prefix.len() > name.len() {
        return false;
    }
    let mut i: usize = 0;
    while i < prefix.len()
        invariant
            i <= prefix.len() <= name.len(),
            forall|j: int| 0 <= j < i ==> prefix@[j] == name@[j],
        decreases prefix.len() - i,
    {
        if prefix[i] != name[i] {
            proof {
                assert(name@.subrange(0, prefix@.len() as int)[i as int] == name@[i as int]);
            }
            return false;
        }
        i += 1;
    }
    proof {
        assert(name@.subrange(0, prefix@.len() as int) =~= prefix@);
    }
    true
}

/// Whether a record with this id and name is among `records`.
fn holds(records: &Vec<UserRecord>, uid: u32, name: &String) -> (b: bool)
    ensures
        b == accounts(records@).contains(Account { uid: uid as int, name: name@ }),
{
    let ghost wanted = Account { uid: uid as int, name: name@ };
    let mut i: usize = 0;
    while i < records.len()
        invariant
            i <= records.len(),
            wanted == (Account { uid: uid as int, name: name@ }),
            forall|j: int| 0 <= j < i ==> accounts(records@)[j] != wanted,
        decreases records.len() - i,
    {
        if records[i].uid == uid && records[i].name == *name {
            proof {
                assert(accounts(records@)[i as int] == wanted);
            }
            return true;
        }
        i += 1;
    }
    false
}

impl Users {
    /// The name of user number `i`.
    pub fn target_name(&self, i: u32) -> (name: String)
        ensures
            name@ == self.name@ + decimal(i as nat),
    {
        let mut name = self.name.clone();
        push_decimal(&mut name, i as u64);
        name
    }

    /// Whether the user is one of the `n_users` that the pool should have.
    fn is_wanted(&self, n_users: u32, record: &UserRecord) -> (b: bool)
        ensures
            b == is_target(self.name@, n_users as int, record@),
    {
        if record.uid <= BASE_UID || record.uid - BASE_UID > n_users {
            return false;
        }
        let name = self.target_name(record.uid - BASE_UID);
        record.name == name
    }

    /// Whether the pool owns the user.
    fn owns(&self, prefix: &Vec<char>, record: &UserRecord) -> (b: bool)
        requires
            prefix@ == self.name@,
        ensures
            b == owned_by(self.name@, record@),
    {
        if record.uid < BASE_UID || record.uid - BASE_UID >= SCAN_WINDOW {
            return false;
        }
        let name = chars_of(record.name.as_str());
        starts_with(&name, prefix)
    }

    /// The users to remove and to add so that exactly `n_users` users of
    /// the pool are left, given the users `found` on the system. Whoever
    /// scans the system looks up every id of the window; what lies outside
    /// the window or has another prefix is not the pool's and is ignored.
    pub fn delta(&self, n_users: u32, found: &Vec<UserRecord>) -> (out: Delta)
        requires
            n_users <= MAX_USERS,
        ensures
            accounts(out.removed@) == removed(accounts(found@), self.name@, n_users as int),
            accounts(out.added@) == added(accounts(found@), self.name@, n_users as int),
    {
        let prefix = chars_of(self.name.as_str());
        let ghost fv = accounts(found@);
        let ghost pv = self.name@;
        let mut gone: Vec<UserRecord> = Vec::new();
        let mut k: usize = 0;
        proof {
            assert(accounts(gone@) =~= removed_upto(fv, pv, n_users as int, 0));
        }
        while k < found.len()
            invariant
                k <= found.len(),
                fv == accounts(found@),
                pv == self.name@,
                prefix@ == self.name@,
                accounts(gone@) == removed_upto(fv, pv, n_users as int, k as int),
            decreases found.len() - k,
        {
            let record = &found[k];
            proof {
                assert(fv[k as int] == record@);
            }
            if self.owns(&prefix, record) && !self.is_wanted(n_users, record) && !holds(
                &gone,
                record.uid,
                &record.name,
            ) {
                let copy = UserRecord { uid: record.uid, name: record.name.clone() };
                proof {
                    assert(copy@ == record@);
                    assert(accounts(gone@.push(copy)) =~= accounts(gone@).push(copy@));
                }
                gone.push(copy);
            }
            k += 1;
        }
        let mut new: Vec<UserRecord> = Vec::new();
        let mut i: u32 = 0;
        proof {
            assert(accounts(new@) =~= added_upto(fv, pv, 0));
        }
        while i < n_users
            invariant
                i <= n_users <= MAX_USERS,
                fv == accounts(found@),
                pv == self.name@,
                accounts(new@) == added_upto(fv, pv, i as int),
            decreases n_users - i,
        {
            i += 1;
            let name = self.target_name(i);
            let uid = BASE_UID + i;
            let ghost t = target_account(pv, i as int);
            proof {
                assert(t == (Account { uid: uid as int, name: name@ }));
                assert(pv.is_prefix_of(t.name)) by {
                    assert(t.name.subrange(0, pv.len() as int) =~= pv);
                }
            }
            if !(i < SCAN_WINDOW && holds(found, uid, &name)) {
                let record = UserRecord { uid, name };
                proof {
                    assert(record@ == t);
                    assert(accounts(new@.push(record)) =~= accounts(new@).push(t));
                }
                new.push(record);
            }
        }
        Delta { removed: gone, added: new }
    }

    /// The actions for a delta: the removal command for every user to
    /// remove, then the creation command for every user to add.
    pub fn plan(delta: &Delta) -> (actions: Vec<Action>)
        ensures
            plan_view(actions@) == delta_plan(accounts(delta.removed@), accounts(delta.added@)),
    {
        let mut actions: Vec<Action> = Vec::new();
        let ghost rv = accounts(delta.removed@);
        let ghost av = accounts(delta.added@);
        let mut i: usize = 0;
        proof {
            assert(plan_view(actions@) =~= deletions(rv.take(0)));
        }
        while i < delta.removed.len()
            invariant
                i <= delta.removed.len(),
                rv == accounts(delta.removed@),
                plan_view(actions@) == deletions(rv.take(i as int)),
            decreases delta.removed.len() - i,
        {
            let action = Action::UserDel { name: delta.removed[i].name.clone() };
            proof {
                assert(rv[i as int] == delta.removed@[i as int]@);
                assert(action@ == ActionView::UserDel { name: rv[i as int].name });
                assert(plan_view(actions@.push(action)) =~= plan_view(actions@).push(action@));
                assert(deletions(rv.take(i as int)).push(action@) =~= deletions(rv.take(i + 1)));
            }
            actions.push(action);
            i += 1;
        }
        let ghost first = plan_view(actions@);
        let mut i: usize = 0;
        proof {
            assert(rv.take(delta.removed.len() as int) =~= rv);
            assert(plan_view(actions@) =~= first + additions(av.take(0)));
        }
        while i < delta.added.len()
            invariant
                i <= delta.added.len(),
                av == accounts(delta.added@),
                first == deletions(accounts(delta.removed@)),
                plan_view(actions@) == first + additions(av.take(i as int)),
            decreases delta.added.len() - i,
        {
            let action = Action::UserAdd {
                name: delta.added[i].name.clone(),
                uid: delta.added[i].uid,
            };
            proof {
                assert(av[i as int] == delta.added@[i as int]@);
                assert(action@ == ActionView::UserAdd {
                    name: av[i as int].name,
                    uid: av[i as int].uid as u32,
                });
                assert(plan_view(actions@.push(action)) =~= plan_view(actions@).push(action@));
                assert(additions(av.take(i as int)).push(action@) =~= additions(av.take(i + 1)));
                assert((first + additions(av.take(i as int))).push(action@) =~= first + additions(
                    av.take(i + 1),
                ));
            }
            actions.push(action);
            i += 1;
        }
        proof {
            assert(av.take(delta.added.len() as int) =~= av);
        }
        actions
    }
}

impl Step for Users {
    type Live = Vec<UserRecord>;

    type Report = Delta;

    /// The ids of all users asked for are numeric ids.
    open spec fn valid(&self) -> bool {
        self.n_users <= MAX_USERS
    }

    /// Removes every live user of the pool that is no target, and adds
    /// every target that is not live.
    fn apply(&self, live: &Vec<UserRecord>) -> (r: Result<Vec<Action>, StepError>)
        ensures
            r matches Ok(actions) && plan_view(actions@) == delta_plan(
                removed(accounts(live@), self.name@, self.n_users as int),
                added(accounts(live@), self.name@, self.n_users as int),
            ),
    {
        let delta = self.delta(self.n_users, live);
        Ok(Users::plan(&delta))
    }

    /// The delta that `apply` would act on.
    fn dry_apply(&self, live: &Vec<UserRecord>) -> (r: Result<Delta, StepError>)
        ensures
            r matches Ok(delta) && accounts(delta.removed@) == removed(
                accounts(live@),
                self.name@,
                self.n_users as int,
            ) && accounts(delta.added@) == added(
                accounts(live@),
                self.name@,
                self.n_users as int,
            ),
    {
        Ok(self.delta(self.n_users, live))
    }

    /// Removes every live user of the pool: the removals of the delta for a
    /// pool of no users, and no addition.
    fn delete(&self, live: &Vec<UserRecord>) -> (r: Result<Vec<Action>, StepError>)
        ensures
            r matches Ok(actions) && plan_view(actions@) == delta_plan(
                removed(accounts(live@), self.name@, 0),
                Seq::empty(),
            ),
    {
        let delta = self.delta(0, live);
        proof {
            assert(accounts(delta.added@) =~= Seq::<Account>::empty());
        }
        Ok(Users::plan(&delta))
    }
}

/// What `removed_upto` holds: each user once, and exactly the users among
/// the first `k` found that the pool owns and that are no target.
pub proof fn lemma_removed_upto(found: Seq<Account>, prefix: Seq<char>, n: int, k: int)
    requires
        0 <= k <= found.len(),
    ensures
        removed_upto(found, prefix, n, k).no_duplicates(),
        forall|a: Account| #[trigger]
            removed_upto(found, prefix, n, k).contains(a) <==> found.take(k).contains(a)
                && owned_by(prefix, a) && !is_target(prefix, n, a),
    decreases k,
{
    if k > 0 {
        lemma_removed_upto(found, prefix, n, k - 1);
        let before = removed_upto(found, prefix, n, k - 1);
        let now = removed_upto(found, prefix, n, k);
        let x = found[k - 1];
        let taken = owned_by(prefix, x) && !is_target(prefix, n, x) && !before.contains(x);
        assert(found.take(k) =~= found.take(k - 1).push(x));
        assert forall|a: Account| #[trigger]
            now.contains(a) <==> found.take(k).contains(a) && owned_by(prefix, a) && !is_target(
                prefix,
                n,
                a,
            ) by {
            lemma_contains_push(found.take(k - 1), x, a);
            if taken {
                lemma_contains_push(before, x, a);
            }
        }
    } else {
        assert forall|a: Account| !(#[trigger] found.take(0).contains(a)) by {}
    }
}

/// What a sequence holds after one more element was added.
pub proof fn lemma_contains_push(s: Seq<Account>, x: Account, a: Account)
    ensures
        s.push(x).contains(a) <==> s.contains(a) || a == x,
{
    if s.contains(a) {
        let i = choose|i: int| 0 <= i < s.len() && s[i] == a;
        assert(s.push(x)[i] == a);
    }
    if a == x {
        assert(s.push(x)[s.len() as int] == a);
    }
    if s.push(x).contains(a) {
        let i = choose|i: int| 0 <= i < s.push(x).len() && s.push(x)[i] == a;
        if i < s.len() {
            assert(s[i] == a);
        }
    }
}

/// What `added_upto` holds: exactly the first `i` targets that are not live,
/// by rising id.
pub proof fn lemma_added_upto(found: Seq<Account>, prefix: Seq<char>, i: int)
    requires
        0 <= i,
    ensures
        forall|a: Account| #[trigger]
            added_upto(found, prefix, i).contains(a) <==> is_target(prefix, i, a) && !live_set(
                found,
                prefix,
            ).contains(a),
        forall|j: int|
            0 <= j < added_upto(found, prefix, i).len() ==> BASE_UID < (#[trigger] added_upto(
                found,
                prefix,
                i,
            )[j]).uid <= BASE_UID + i,
        forall|j: int, k: int|
            0 <= j < k < added_upto(found, prefix, i).len() ==> (#[trigger] added_upto(
                found,
                prefix,
                i,
            )[j]).uid < (#[trigger] added_upto(found, prefix, i)[k]).uid,
        added_upto(found, prefix, i).no_duplicates(),
    decreases i,
{
    if i > 0 {
        lemma_added_upto(found, prefix, i - 1);
        let before = added_upto(found, prefix, i - 1);
        let now = added_upto(found, prefix, i);
        let t = target_account(prefix, i);
        let live = live_set(found, prefix);
        assert forall|a: Account| #[trigger]
            now.contains(a) <==> is_target(prefix, i, a) && !live.contains(a) by {
            assert(is_target(prefix, i, a) <==> is_target(prefix, i - 1, a) || a == t);
            if !live.contains(t) {
                lemma_contains_push(before, t, a);
            }
        }
        assert forall|j: int, k: int| 0 <= j < k < now.len() implies (#[trigger] now[j]).uid < (
        #[trigger] now[k]).uid by {
            if k < before.len() {
                assert(now[j] == before[j] && now[k] == before[k]);
            } else {
                assert(now[j] == before[j]);
            }
        }
    } else {
        assert forall|a: Account| !(#[trigger] added_upto(found, prefix, i).contains(a)) by {}
    }
}

/// The delta is the difference of two sets: the users to remove are the
/// live users of the pool that are no target, the users to add are the
/// targets that are not live, each once. Taking the removed users from the
/// live ones and adding the others gives exactly the targets, and the delta is
/// empty exactly when the live users are the targets already.
pub proof fn law_delta_is_set_difference(found: Seq<Account>, prefix: Seq<char>, n: int)
    requires
        0 <= n,
    ensures
        removed(found, prefix, n).no_duplicates(),
        added(found, prefix, n).no_duplicates(),
        removed(found, prefix, n).to_set() == live_set(found, prefix).difference(
            target_set(prefix, n),
        ),
        added(found, prefix, n).to_set() == target_set(prefix, n).difference(
            live_set(found, prefix),
        ),
        live_set(found, prefix).difference(removed(found, prefix, n).to_set()).union(
            added(found, prefix, n).to_set(),
        ) == target_set(prefix, n),
        (removed(found, prefix, n).len() == 0 && added(found, prefix, n).len() == 0) <==> live_set(
            found,
            prefix,
        ) == target_set(prefix, n),
{
    let gone = removed(found, prefix, n);
    let new = added(found, prefix, n);
    let live = live_set(found, prefix);
    let target = target_set(prefix, n);
    lemma_removed_upto(found, prefix, n, found.len() as int);
    lemma_added_upto(found, prefix, n);
    assert(found.take(found.len() as int) =~= found);
    assert(gone.to_set() =~= live.difference(target));
    assert(new.to_set() =~= target.difference(live));
    assert(live.difference(gone.to_set()).union(new.to_set()) =~= target);
    if gone.len() == 0 && new.len() == 0 {
        assert forall|a: Account| live.contains(a) <==> target.contains(a) by {
            if live.contains(a) && !target.contains(a) {
                assert(gone.contains(a));
            }
            if target.contains(a) && !live.contains(a) {
                assert(new.contains(a));
            }
        }
        assert(live =~= target);
    }
    if live == target {
        if gone.len() > 0 {
            let a = gone[0];
            assert(gone.contains(a));
            assert(live.contains(a) && !target.contains(a));
        }
        if new.len() > 0 {
            let a = new[0];
            assert(new.contains(a));
            assert(target.contains(a) && !live.contains(a));
        }
    }
}

} // verus!
