//! Driving a list of resources through one operation, one after the other,
//! up to the first that fails.
//!
//! The executor decides whose turn it is. Whoever runs it observes the
//! system for that resource, performs the plan of the resource, and records
//! how that ended.

use crate::directory::{Directory, DirectoryView};
use crate::step::StepError;
use crate::users::{Users, UsersView};
use vstd::prelude::*;

verus! {

/// One managed resource of either kind.
#[derive(Debug, Clone, PartialEq, Eq)]
pub enum Resource {
    Directory(Directory),
    Users(Users),
}

/// A resource with its strings as sequences of characters.
pub enum ResourceView {
    Directory(DirectoryView),
    Users(UsersView),
}

impl View for Resource {
    type V = ResourceView;

    open spec fn view(&self) -> ResourceView {
        match self {
            Resource::Directory(d) => ResourceView::Directory(d@),
            Resource::Users(u) => ResourceView::Users(u@),
        }
    }
}

/// What each resource of `v` is.
pub open spec fn resources(v: Seq<Resource>) -> Seq<ResourceView> {
    Seq::new(v.len(), |i: int| v[i]@)
}

/// What to do with every resource.
#[derive(Debug, Clone, Copy, PartialEq, Eq, Structural)]
pub enum Operation {
    Apply,
    DryApply,
    Delete,
}

/// The resource that failed, by its index in the list, and its error.
#[derive(Debug, Clone, PartialEq, Eq)]
pub struct Failure {
    pub resource: usize,
    pub error: StepError,
}

/// How far a run has come: the number of resources that are done, and the
/// failure that ended it.
pub struct Progress {
    pub done: nat,
    pub failure: Option<Failure>,
}

impl Progress {
    /// The index of the resource whose turn it is in a list of `n`.
    pub open spec fn current(self, n: nat) -> Option<nat> {
        if self.failure is None && self.done < n {
            Some(self.done)
        } else {
            None
        }
    }

    /// The progress after the resource whose turn it was ended with
    /// `outcome`: one more is done, or the run has failed at this resource.
    /// Once no resource is left, or one has failed, nothing changes any more.
    pub open spec fn record(self, n: nat, outcome: Result<(), StepError>) -> Progress {
        match self.current(n) {
            None => self,
            Some(index) => match outcome {
                Ok(_) => Progress { done: self.done + 1, failure: None },
                Err(error) => Progress {
                    done: self.done,
                    failure: Some(Failure { resource: index as usize, error }),
                },
            },
        }
    }

    /// The progress after these outcomes were recorded in their order.
    pub open spec fn record_all(self, n: nat, outcomes: Seq<Result<(), StepError>>) -> Progress
        decreases outcomes.len(),
    {
        if outcomes.len() == 0 {
            self
        } else {
            self.record_all(n, outcomes.drop_last()).record(n, outcomes.last())
        }
    }
}

/// The index of the first failure among `outcomes`, or their number.
pub open spec fn first_failure(outcomes: Seq<Result<(), StepError>>) -> nat
    decreases outcomes.len(),
{
    if outcomes.len() == 0 || outcomes[0] is Err {
        0
    } else {
        1 + first_failure(outcomes.drop_first())
    }
}

/// A list of resources, the operation to run on each, and how far the run
/// has come.
pub struct Executor {
    steps: Vec<Resource>,
    operation: Operation,
    cursor: usize,
    failure: Option<Failure>,
}

impl Executor {
    #[verifier::type_invariant]
    spec fn inv(&self) -> bool {
        self.cursor <= self.steps.len()
    }

    /// The resources, in the order in which they are run.
    pub closed spec fn steps(&self) -> Seq<Resource> {
        self.steps@
    }

    /// The operation that is run.
    pub closed spec fn op(&self) -> Operation {
        self.operation
    }

    /// How far the run has come.
    pub closed spec fn progress(&self) -> Progress {
        Progress { done: self.cursor as nat, failure: self.failure }
    }

    /// An executor that has run nothing yet.
    pub fn new(steps: Vec<Resource>, operation: Operation) -> (out: Executor)
        ensures
            out.steps() == steps@,
            out.op() == operation,
            out.progress() == (Progress { done: 0, failure: None }),
    {
        Executor { steps, operation, cursor: 0, failure: None }
    }

    /// The operation that is run.
    pub fn operation(&self) -> (operation: Operation)
        ensures
            operation == self.op(),
    {
        self.operation
    }

    /// The resource whose turn it is: the first that is not done, unless one
    /// has failed or none is left.
    pub fn current(&self) -> (r: Option<&Resource>)
        ensures
            match self.progress().current(self.steps().len()) {
                Some(index) => r == Some(&self.steps()[index as int]),
                None => r is None,
            },
    {
        proof {
            use_type_invariant(self);
        }
        if self.failure.is_none() && self.cursor < self.steps.len() {
            Some(&self.steps[self.cursor])
        } else {
            None
        }
    }

    /// Records how the resource whose turn it was ended. After a failure no
    /// further resource gets its turn; what was done before stays done.
    pub fn record(&mut self, outcome: Result<(), StepError>)
        ensures
            final(self).steps() == old(self).steps(),
            final(self).op() == old(self).op(),
            final(self).progress() == old(self).progress().record(
                old(self).steps().len(),
                outcome,
            ),
    {
        proof {
            use_type_invariant(&*self);
        }
        if self.failure.is_none() && self.cursor < self.steps.len() {
            match outcome {
                Ok(_) => {
                    self.cursor = self.cursor + 1;
                },
                Err(error) => {
                    self.failure = Some(Failure { resource: self.cursor, error });
                },
            }
        }
    }

    /// How the run ended: `None` while a resource still has its turn, else
    /// success or the failure that ended it.
    pub fn outcome(&self) -> (r: Option<Result<(), &Failure>>)
        ensures
            match self.progress().current(self.steps().len()) {
                Some(_) => r is None,
                None => match self.progress().failure {
                    Some(failure) => r == Some(Err::<(), &Failure>(&failure)),
                    None => r == Some(Ok::<(), &Failure>(())),
                },
            },
    {
        proof {
            use_type_invariant(self);
        }
        match &self.failure {
            Some(failure) => Some(Err(failure)),
            None => if self.cursor < self.steps.len() {
                None
            } else {
                Some(Ok(()))
            },
        }
    }
}

/// An executor that applies every resource.
pub fn apply(steps: Vec<Resource>) -> (out: Executor)
    ensures
        out.steps() == steps@,
        out.op() == Operation::Apply,
        out.progress() == (Progress { done: 0, failure: None }),
{
    Executor::new(steps, Operation::Apply)
}

/// An executor that deletes every resource.
pub fn delete(steps: Vec<Resource>) -> (out: Executor)
    ensures
        out.steps() == steps@,
        out.op() == Operation::Delete,
        out.progress() == (Progress { done: 0, failure: None }),
{
    Executor::new(steps, Operation::Delete)
}

/// A run stops at the first failure: of the outcomes recorded from the
/// start, those before the first failure count as done, that failure is
/// kept with the index of its resource, and whatever is recorded after it
/// changes nothing. A run without failure ends when every resource is done.
pub proof fn law_abort_on_first_failure(n: nat, outcomes: Seq<Result<(), StepError>>)
    requires
        n <= usize::MAX,
    ensures
        ({
            let start = Progress { done: 0, failure: None };
            let end = start.record_all(n, outcomes);
            let k = first_failure(outcomes);
            &&& k <= outcomes.len()
            &&& if k < outcomes.len() && k < n {
                &&& end.done == k
                &&& end.failure == Some(
                    Failure { resource: k as usize, error: outcomes[k as int]->Err_0 },
                )
                &&& end.current(n) is None
            } else {
                &&& end.failure is None
                &&& end.done == if outcomes.len() < n {
                    outcomes.len()
                } else {
                    n
                }
            }
        }),
    decreases outcomes.len(),
{
    lemma_first_failure(outcomes);
    if outcomes.len() > 0 {
        let init = outcomes.drop_last();
        law_abort_on_first_failure(n, init);
        lemma_first_failure(init);
        let k = first_failure(outcomes);
        let ki = first_failure(init);
        assert forall|i: int| 0 <= i < init.len() implies init[i] == outcomes[i] by {}
        if ki < init.len() {
            assert(init[ki as int] is Err);
            assert(k == ki) by {
                if k < ki {
                    assert(init[k as int] is Ok);
                }
                if ki < k {
                    assert(outcomes[ki as int] is Ok);
                }
            }
        } else {
            assert(k >= init.len()) by {
                if k < init.len() {
                    assert(init[k as int] is Ok);
                }
            }
        }
    }
}

/// Where `first_failure` points.
pub proof fn lemma_first_failure(outcomes: Seq<Result<(), StepError>>)
    ensures
        first_failure(outcomes) <= outcomes.len(),
        forall|i: int| 0 <= i < first_failure(outcomes) ==> (#[trigger] outcomes[i]) is Ok,
        first_failure(outcomes) < outcomes.len() ==> outcomes[first_failure(outcomes) as int] is Err,
    decreases outcomes.len(),
{
    if outcomes.len() == 0 || outcomes[0] is Err {
    } else {
        let rest = outcomes.drop_first();
        lemma_first_failure(rest);
        assert forall|i: int| 0 <= i < first_failure(outcomes) implies (
        #[trigger] outcomes[i]) is Ok by {
            if i > 0 {
                assert(outcomes[i] == rest[i - 1]);
            }
        }
    }
}

} // verus!
