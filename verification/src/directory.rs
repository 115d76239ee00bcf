//! A directory that has to exist with a given owner, group and mode.

use crate::step::{plan_view, Action, ActionView, Step, StepError};
use vstd::prelude::*;

verus! {

/// What stands at a path.
#[derive(Debug, Clone, Copy, PartialEq, Eq, Structural)]
pub enum NodeKind {
    Absent,
    File,
    Directory,
    Other,
}

/// What was observed at a path: the kind of node, and for a node that
/// exists its owner, group and mode.
#[derive(Debug, Clone, Copy, PartialEq, Eq, Structural)]
pub struct NodeState {
    pub kind: NodeKind,
    pub owner: u32,
    pub group: u32,
    pub mode: u32,
}

impl NodeState {
    /// The node after one action on its path, as the system is taken to
    /// perform it: removing a file leaves nothing, creating a directory where
    /// nothing stands leaves a directory whose owner, group and mode are
    /// whatever the system gave it, setting owner and group changes just
    /// these, and setting the mode changes the permission bits and keeps the
    /// bits that tell the kind of node.
    pub open spec fn after(self, action: ActionView) -> NodeState {
        match action {
            ActionView::RemoveFile { .. } => if self.kind == NodeKind::File {
                NodeState { kind: NodeKind::Absent, ..self }
            } else {
                self
            },
            ActionView::CreateDirAll { .. } => if self.kind == NodeKind::Absent {
                NodeState { kind: NodeKind::Directory, ..self }
            } else {
                self
            },
            ActionView::Chown { owner, group, .. } => if self.kind != NodeKind::Absent {
                NodeState { owner: owner, group: group, ..self }
            } else {
                self
            },
            ActionView::Chmod { mode, .. } => if self.kind != NodeKind::Absent {
                NodeState { mode: (self.mode & !PERMISSION_BITS) | permissions(mode), ..self }
            } else {
                self
            },
            ActionView::RemoveDir { .. } => if self.kind == NodeKind::Directory {
                NodeState { kind: NodeKind::Absent, ..self }
            } else {
                self
            },
            _ => self,
        }
    }

    /// The node after the actions of a plan, one after the other.
    pub open spec fn after_all(self, plan: Seq<ActionView>) -> NodeState
        decreases plan.len(),
    {
        if plan.len() == 0 {
            self
        } else {
            self.after(plan.first()).after_all(plan.drop_first())
        }
    }
}

/// Performing a plan that starts with `first` is performing `first` and then
/// the rest.
pub proof fn lemma_after_all_step(state: NodeState, first: ActionView, rest: Seq<ActionView>)
    ensures
        state.after_all(seq![first] + rest) == state.after(first).after_all(rest),
{
    assert((seq![first] + rest).drop_first() =~= rest);
}

/// How far removing a directory goes.
#[derive(Debug, Clone, Copy, PartialEq, Eq, Structural)]
pub enum Removal {
    /// The directory itself, which has to be empty.
    SingleNode,
    /// The directory and all that it holds.
    Recursive,
}

/// Whether an attribute is already at its target.
#[derive(Debug, Clone, Copy, PartialEq, Eq, Structural)]
pub enum Verdict {
    NoOp,
    Pending,
}

/// What a dry run found of a directory, attribute by attribute.
#[derive(Debug, Clone, Copy, PartialEq, Eq, Structural)]
pub struct DirectoryReport {
    pub kind: Verdict,
    pub owner: Verdict,
    pub group: Verdict,
    pub mode: Verdict,
}

/// The bits of a mode that are permissions.
pub const PERMISSION_BITS: u32 = 0o7777;

/// The mode that a directory owned by root gets: `rwxr-xr-x`.
pub const ROOT_OWNED_MODE: u32 = 0o40755;

/// The permission bits of `mode`.
pub open spec fn permissions(mode: u32) -> u32 {
    mode & PERMISSION_BITS
}

/// A directory at `path` with exactly this mode, owner and group. `removal`
/// says how far its removal goes.
#[derive(Debug, Clone, PartialEq, Eq)]
pub struct Directory {
    pub path: String,
    pub mode: u32,
    pub owner: u32,
    pub group: u32,
    pub removal: Removal,
}

/// A directory resource with its path as a sequence of characters.
pub struct DirectoryView {
    pub path: Seq<char>,
    pub mode: u32,
    pub owner: u32,
    pub group: u32,
    pub removal: Removal,
}

impl View for Directory {
    type V = DirectoryView;

    open spec fn view(&self) -> DirectoryView {
        DirectoryView {
            path: self.path@,
            mode: self.mode,
            owner: self.owner,
            group: self.group,
            removal: self.removal,
        }
    }
}

impl Directory {
    /// The node is what the directory aims at: a directory with the owner,
    /// the group and the permission bits asked for.
    pub open spec fn at_target(&self, state: NodeState) -> bool {
        &&& state.kind == NodeKind::Directory
        &&& state.owner == self.owner
        &&& state.group == self.group
        &&& permissions(state.mode) == permissions(self.mode)
    }

    /// The plan of `apply`: a file in the way is removed, a missing
    /// directory is created, and owner, group and mode are set in every
    /// case. Something that is neither file nor directory is an error.
    pub open spec fn apply_plan(&self, live: NodeState) -> Option<Seq<ActionView>> {
        let set = seq![
            ActionView::Chown { path: self.path@, owner: self.owner, group: self.group },
            ActionView::Chmod { path: self.path@, mode: self.mode },
        ];
        match live.kind {
            NodeKind::File => Some(
                seq![
                    ActionView::RemoveFile { path: self.path@ },
                    ActionView::CreateDirAll { path: self.path@ },
                ] + set,
            ),
            NodeKind::Directory => Some(set),
            NodeKind::Absent => Some(seq![ActionView::CreateDirAll { path: self.path@ }] + set),
            NodeKind::Other => None,
        }
    }

    /// The plan of `delete`: a directory is removed as `removal` says, a
    /// path where nothing stands needs nothing, and anything else is left
    /// alone and reported.
    pub open spec fn delete_plan(&self, live: NodeState) -> Option<Seq<ActionView>> {
        match live.kind {
            NodeKind::Directory => Some(
                seq![
                    ActionView::RemoveDir {
                        path: self.path@,
                        recursive: self.removal == Removal::Recursive,
                    },
                ],
            ),
            NodeKind::Absent => Some(Seq::empty()),
            _ => None,
        }
    }

    /// What a dry run reports: the kind is at its target where a directory
    /// stands, and an attribute where the directory stands and has it.
    pub open spec fn report(&self, live: NodeState) -> DirectoryReport {
        let there = live.kind == NodeKind::Directory;
        DirectoryReport {
            kind: if there {
                Verdict::NoOp
            } else {
                Verdict::Pending
            },
            owner: if there && live.owner == self.owner {
                Verdict::NoOp
            } else {
                Verdict::Pending
            },
            group: if there && live.group == self.group {
                Verdict::NoOp
            } else {
                Verdict::Pending
            },
            mode: if there && permissions(live.mode) == permissions(self.mode) {
                Verdict::NoOp
            } else {
                Verdict::Pending
            },
        }
    }

    /// A directory that root owns, with mode `rwxr-xr-x`.
    pub fn root_owned(path: &str, removal: Removal) -> (out: Directory)
        ensures
            out.path@ == path@,
            out.mode == ROOT_OWNED_MODE,
            out.owner == 0,
            out.group == 0,
            out.removal == removal,
    {
        Directory { path: path.to_owned(), mode: ROOT_OWNED_MODE, owner: 0, group: 0, removal }
    }

    /// The two actions that set owner, group and mode.
    fn set_attributes(&self, plan: &mut Vec<Action>)
        ensures
            plan_view(final(plan)@) == plan_view(old(plan)@) + seq![
                ActionView::Chown { path: self.path@, owner: self.owner, group: self.group },
                ActionView::Chmod { path: self.path@, mode: self.mode },
            ],
    {
        plan.push(Action::Chown { path: self.path.clone(), owner: self.owner, group: self.group });
        plan.push(Action::Chmod { path: self.path.clone(), mode: self.mode });
        proof {
            assert(plan_view(plan@) =~= plan_view(old(plan)@) + seq![
                ActionView::Chown { path: self.path@, owner: self.owner, group: self.group },
                ActionView::Chmod { path: self.path@, mode: self.mode },
            ]);
        }
    }
}

impl Step for Directory {
    type Live = NodeState;

    type Report = DirectoryReport;

    open spec fn valid(&self) -> bool {
        true
    }

    fn apply(&self, live: &NodeState) -> (r: Result<Vec<Action>, StepError>)
        ensures
            match self.apply_plan(*live) {
                Some(plan) => r matches Ok(actions) && plan_view(actions@) == plan,
                None => r matches Err(StepError::UnexpectedNode { path }) && path@ == self.path@,
            },
    {
        let mut plan: Vec<Action> = Vec::new();
        match live.kind {
            NodeKind::File => {
                plan.push(Action::RemoveFile { path: self.path.clone() });
                plan.push(Action::CreateDirAll { path: self.path.clone() });
            },
            NodeKind::Directory => {},
            NodeKind::Absent => {
                plan.push(Action::CreateDirAll { path: self.path.clone() });
            },
            NodeKind::Other => {
                return Err(StepError::UnexpectedNode { path: self.path.clone() });
            },
        }
        self.set_attributes(&mut plan);
        proof {
            assert(plan_view(plan@) =~= self.apply_plan(*live)->Some_0);
        }
        Ok(plan)
    }

    fn dry_apply(&self, live: &NodeState) -> (r: Result<DirectoryReport, StepError>)
        ensures
            match live.kind {
                NodeKind::Other => r matches Err(StepError::UnexpectedNode { path }) && path@
                    == self.path@,
                _ => r == Ok::<DirectoryReport, StepError>(self.report(*live)),
            },
    {
        if live.kind == NodeKind::Other {
            return Err(StepError::UnexpectedNode { path: self.path.clone() });
        }
        let there = live.kind == NodeKind::Directory;
        Ok(
            DirectoryReport {
                kind: verdict(there),
                owner: verdict(there && live.owner == self.owner),
                group: verdict(there && live.group == self.group),
                mode: verdict(
                    there && (live.mode & PERMISSION_BITS) == (self.mode & PERMISSION_BITS),
                ),
            },
        )
    }

    fn delete(&self, live: &NodeState) -> (r: Result<Vec<Action>, StepError>)
        ensures
            match self.delete_plan(*live) {
                Some(plan) => r matches Ok(actions) && plan_view(actions@) == plan,
                None => r matches Err(StepError::UnexpectedNode { path }) && path@ == self.path@,
            },
    {
        let mut plan: Vec<Action> = Vec::new();
        match live.kind {
            NodeKind::Directory => {
                plan.push(
                    Action::RemoveDir {
                        path: self.path.clone(),
                        recursive: self.removal == Removal::Recursive,
                    },
                );
            },
            NodeKind::Absent => {},
            _ => {
                return Err(StepError::UnexpectedNode { path: self.path.clone() });
            },
        }
        proof {
            assert(plan_view(plan@) =~= self.delete_plan(*live)->Some_0);
        }
        Ok(plan)
    }
}

/// `NoOp` for an attribute that is at its target.
fn verdict(at_target: bool) -> (v: Verdict)
    ensures
        v == if at_target {
            Verdict::NoOp
        } else {
            Verdict::Pending
        },
{
    if at_target {
        Verdict::NoOp
    } else {
        Verdict::Pending
    }
}

/// Whatever stood at the path (nothing, a file or a directory), after the
/// plan of `apply` a directory stands there with exactly the owner, group and
/// permission bits asked for. Applying again is planned without error and
/// leaves that node as it is, and a dry run then reports nothing pending.
pub proof fn law_apply_is_idempotent(d: Directory, live: NodeState)
    requires
        live.kind != NodeKind::Other,
    ensures
        d.apply_plan(live) is Some,
        ({
            let once = live.after_all(d.apply_plan(live)->Some_0);
            &&& d.at_target(once)
            &&& d.apply_plan(once) is Some
            &&& once.after_all(d.apply_plan(once)->Some_0) == once
            &&& d.report(once) == (DirectoryReport {
                kind: Verdict::NoOp,
                owner: Verdict::NoOp,
                group: Verdict::NoOp,
                mode: Verdict::NoOp,
            })
        }),
{
    let chown = ActionView::Chown { path: d.path@, owner: d.owner, group: d.group };
    let chmod = ActionView::Chmod { path: d.path@, mode: d.mode };
    let remove = ActionView::RemoveFile { path: d.path@ };
    let create = ActionView::CreateDirAll { path: d.path@ };
    let none = Seq::<ActionView>::empty();
    let mode = d.mode;
    let set = seq![chown, chmod];
    assert forall|s: NodeState| s.kind == NodeKind::Directory implies (#[trigger] s.after_all(
        set,
    )) == s.after(chown).after(chmod) by {
        assert(set =~= seq![chown] + seq![chmod]);
        lemma_after_all_step(s, chown, seq![chmod]);
        assert(seq![chmod] =~= seq![chmod] + none);
        lemma_after_all_step(s.after(chown), chmod, none);
    }
    let start = match live.kind {
        NodeKind::File => live.after(remove).after(create),
        NodeKind::Absent => live.after(create),
        _ => live,
    };
    match live.kind {
        NodeKind::File => {
            let plan = seq![remove, create] + set;
            assert(plan =~= seq![remove] + (seq![create] + set));
            lemma_after_all_step(live, remove, seq![create] + set);
            lemma_after_all_step(live.after(remove), create, set);
        },
        NodeKind::Absent => {
            lemma_after_all_step(live, create, set);
        },
        _ => {},
    }
    let once = start.after(chown).after(chmod);
    let x = start.mode;
    assert(live.after_all(d.apply_plan(live)->Some_0) == once);
    assert(once.mode == (x & !0o7777u32) | (mode & 0o7777u32));
    assert(((x & !0o7777u32) | (mode & 0o7777u32)) & 0o7777u32 == mode & 0o7777u32)
        by (bit_vector);
    assert((((x & !0o7777u32) | (mode & 0o7777u32)) & !0o7777u32) | (mode & 0o7777u32) == ((x
        & !0o7777u32) | (mode & 0o7777u32))) by (bit_vector);
    assert(once.after_all(set) == once.after(chown).after(chmod));
}

} // verus!
