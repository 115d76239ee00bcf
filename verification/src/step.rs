//! What every managed resource can do: plan how to reach its target, report
//! what is pending, and plan its removal.
//!
//! A resource never touches the system. It is told what was observed of the
//! live system and answers with the actions to perform; whoever performs
//! them reports how that ended.

use crate::lines::views;
use crate::text::{decimal, push_decimal};
use vstd::prelude::*;
use vstd::string::StringExecFns;

verus! {

/// One change to the system, to be performed by the caller.
#[derive(Debug, Clone, PartialEq, Eq)]
pub enum Action {
    /// Remove the regular file at `path`.
    RemoveFile { path: String },
    /// Create the directory at `path`, with every missing parent.
    CreateDirAll { path: String },
    /// Give `path` this owner and group.
    Chown { path: String, owner: u32, group: u32 },
    /// Give `path` these permission bits.
    Chmod { path: String, mode: u32 },
    /// Remove the directory at `path`: with all that it holds where
    /// `recursive` is set, else only if it is empty.
    RemoveDir { path: String, recursive: bool },
    /// Run the user-removal command for the user `name`.
    UserDel { name: String },
    /// Run the user-creation command for `name` with the numeric id `uid`.
    UserAdd { name: String, uid: u32 },
}

/// An action with its strings as sequences of characters.
pub enum ActionView {
    RemoveFile { path: Seq<char> },
    CreateDirAll { path: Seq<char> },
    Chown { path: Seq<char>, owner: u32, group: u32 },
    Chmod { path: Seq<char>, mode: u32 },
    RemoveDir { path: Seq<char>, recursive: bool },
    UserDel { name: Seq<char> },
    UserAdd { name: Seq<char>, uid: u32 },
}

impl View for Action {
    type V = ActionView;

    open spec fn view(&self) -> ActionView {
        match self {
            Action::RemoveFile { path } => ActionView::RemoveFile { path: path@ },
            Action::CreateDirAll { path } => ActionView::CreateDirAll { path: path@ },
            Action::Chown { path, owner, group } => ActionView::Chown {
                path: path@,
                owner: *owner,
                group: *group,
            },
            Action::Chmod { path, mode } => ActionView::Chmod { path: path@, mode: *mode },
            Action::RemoveDir { path, recursive } => ActionView::RemoveDir {
                path: path@,
                recursive: *recursive,
            },
            Action::UserDel { name } => ActionView::UserDel { name: name@ },
            Action::UserAdd { name, uid } => ActionView::UserAdd { name: name@, uid: *uid },
        }
    }
}

/// What each action of a plan is, in order.
pub open spec fn plan_view(plan: Seq<Action>) -> Seq<ActionView> {
    Seq::new(plan.len(), |i: int| plan[i]@)
}

/// Why a resource could not be reconciled.
#[derive(Debug, Clone, PartialEq, Eq)]
pub enum StepError {
    /// What stands at `path` is neither a file nor a directory.
    UnexpectedNode { path: String },
    /// The system refused an action on `path`; `cause` is its error number.
    Filesystem { path: String, cause: i32 },
    /// A user-management command ended with a status other than zero.
    ExternalCommand { command: String, status: i32, stdout: String, stderr: String },
}

/// An external command: the program and its arguments.
#[derive(Debug, Clone, PartialEq, Eq)]
pub struct CommandLine {
    pub program: String,
    pub args: Vec<String>,
}

impl Action {
    /// The user-management command that performs the action: `userdel` with
    /// the name, or `useradd` with the name, `--uid` and the numeric id.
    /// The other actions are no commands.
    pub fn command(&self) -> (r: Option<CommandLine>)
        ensures
            match self@ {
                ActionView::UserDel { name } => r matches Some(c) && c.program@ == "userdel"@
                    && views(c.args@) == seq![name],
                ActionView::UserAdd { name, uid } => r matches Some(c) && c.program@ == "useradd"@
                    && views(c.args@) == seq![name, "--uid"@, decimal(uid as nat)],
                _ => r is None,
            },
    {
        match self {
            Action::UserDel { name } => {
                let mut args: Vec<String> = Vec::new();
                args.push(name.clone());
                proof {
                    assert(views(args@) =~= seq![name@]);
                }
                Some(CommandLine { program: String::from_str("userdel"), args })
            },
            Action::UserAdd { name, uid } => {
                let mut number = String::new();
                push_decimal(&mut number, *uid as u64);
                let mut args: Vec<String> = Vec::new();
                args.push(name.clone());
                args.push(String::from_str("--uid"));
                args.push(number);
                proof {
                    assert(number@ =~= decimal(*uid as nat));
                    assert(views(args@) =~= seq![name@, "--uid"@, decimal(*uid as nat)]);
                }
                Some(CommandLine { program: String::from_str("useradd"), args })
            },
            _ => None,
        }
    }
}

/// How a user-management command ended: a status other than zero is an
/// error that carries the command, the status and what the command wrote.
pub fn command_outcome(command: String, status: i32, stdout: String, stderr: String) -> (r: Result<
    (),
    StepError,
>)
    ensures
        r == if status == 0 {
            Ok::<(), StepError>(())
        } else {
            Err(StepError::ExternalCommand { command, status, stdout, stderr })
        },
{
    if status == 0 {
        Ok(())
    } else {
        Err(StepError::ExternalCommand { command, status, stdout, stderr })
    }
}

/// What comes after one action of a plan was performed: the index of the
/// next action, `None` when the plan is done, or the error that ends the
/// plan. After an action that failed no further action of the plan is
/// performed.
pub fn after_action(plan_len: usize, done: usize, outcome: Result<(), StepError>) -> (r: Result<
    Option<usize>,
    StepError,
>)
    requires
        done < plan_len,
    ensures
        r == match outcome {
            Ok(_) => Ok::<Option<usize>, StepError>(
                if done + 1 < plan_len {
                    Some((done + 1) as usize)
                } else {
                    None
                },
            ),
            Err(e) => Err(e),
        },
{
    match outcome {
        Ok(_) => if done + 1 < plan_len {
            Ok(Some(done + 1))
        } else {
            Ok(None)
        },
        Err(e) => Err(e),
    }
}

/// A managed resource. `Live` is what has to be observed of the system
/// before the resource can plan, `Report` what a dry run tells.
pub trait Step {
    type Live;

    type Report;

    /// Whether the target of the resource can be planned for at all.
    spec fn valid(&self) -> bool;

    /// The actions that bring the system from `live` to the target.
    fn apply(&self, live: &Self::Live) -> Result<Vec<Action>, StepError>
        requires
            self.valid(),
    ;

    /// What `apply` would have to change, without any action.
    fn dry_apply(&self, live: &Self::Live) -> Result<Self::Report, StepError>
        requires
            self.valid(),
    ;

    /// The actions that take the resource off the system.
    fn delete(&self, live: &Self::Live) -> Result<Vec<Action>, StepError>;
}

} // verus!
