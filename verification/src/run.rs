//! Carrying out a plan one action at a time. The caller performs each
//! action on the filesystem and reports how it went; the run stops at the
//! first failure.

use vstd::prelude::*;
use crate::entry::{FileStructureEntry, models_of};
use crate::plan::{ActionModel, FsAction, Plan, PlanModel, entries_plan, plan_entries};

verus! {

/// The model of a failed materialization.
pub enum ErrorModel {
    PathViolation { base: Seq<char>, path: Seq<char> },
    Io { path: Seq<char>, reason: Seq<char> },
}

/// Why a materialization stopped.
#[derive(Clone, Debug, PartialEq, Eq)]
pub enum MaterializationError {
    /// An entry's relative path was not safe to resolve against `base`.
    /// Nothing was done for the entry or for what lies below it.
    PathViolation { base: String, path: String },
    /// The action on `path` failed on the filesystem, for the reason given.
    Io { path: String, reason: String },
}

impl View for MaterializationError {
    type V = ErrorModel;

    open spec fn view(&self) -> ErrorModel {
        match self {
            MaterializationError::PathViolation { base, path } => ErrorModel::PathViolation {
                base: base@,
                path: path@,
            },
            MaterializationError::Io { path, reason } => ErrorModel::Io {
                path: path@,
                reason: reason@,
            },
        }
    }
}

/// The model of a run: the plan, how many of its actions have succeeded,
/// and the reason for which the action after them failed, if it did.
pub struct RunModel {
    pub plan: PlanModel,
    pub done: nat,
    pub failure: Option<Seq<char>>,
}

impl RunModel {
    /// A run of `plan` in which nothing has been performed yet.
    pub open spec fn start(plan: PlanModel) -> RunModel {
        RunModel { plan, done: 0, failure: None }
    }

    /// The action to perform next, if the run is not over.
    pub open spec fn pending(self) -> Option<ActionModel> {
        if self.failure is None && self.done < self.plan.actions.len() {
            Some(self.plan.actions[self.done as int])
        } else {
            None
        }
    }

    /// The run once the pending action has gone as `outcome` says: `None`
    /// for a success, the reason for a failure. A run that is over does not
    /// change.
    pub open spec fn after(self, outcome: Option<Seq<char>>) -> RunModel {
        if self.pending() is None {
            self
        } else if outcome is None {
            RunModel { done: self.done + 1, ..self }
        } else {
            RunModel { failure: outcome, ..self }
        }
    }

    /// The run after the outcomes in `outcomes`, in order.
    pub open spec fn after_all(self, outcomes: Seq<Option<Seq<char>>>) -> RunModel
        decreases outcomes.len(),
    {
        if outcomes.len() == 0 {
            self
        } else {
            self.after_all(outcomes.drop_last()).after(outcomes.last())
        }
    }

    /// How the run ended: `None` while an action is pending; else the
    /// failure of the action that failed, else the rejection that the plan
    /// ends in, else success.
    pub open spec fn result(self) -> Option<Result<(), ErrorModel>> {
        if self.pending() is Some {
            None
        } else if self.failure is Some {
            Some(
                Err(
                    ErrorModel::Io {
                        path: self.plan.actions[self.done as int].target(),
                        reason: self.failure->0,
                    },
                ),
            )
        } else if self.plan.rejected is Some {
            Some(
                Err(
                    ErrorModel::PathViolation {
                        base: self.plan.rejected->0.base,
                        path: self.plan.rejected->0.path,
                    },
                ),
            )
        } else {
            Some(Ok(()))
        }
    }
}

/// The model of a reported outcome.
pub open spec fn outcome_model(outcome: Result<(), String>) -> Option<Seq<char>> {
    match outcome {
        Ok(_) => None,
        Err(reason) => Some(reason@),
    }
}

/// The model of a result.
pub open spec fn result_model(result: Option<Result<(), MaterializationError>>) -> Option<
    Result<(), ErrorModel>,
> {
    match result {
        None => None,
        Some(Ok(_)) => Some(Ok(())),
        Some(Err(e)) => Some(Err(e@)),
    }
}

/// A run of a plan.
pub struct Materializer {
    plan: Plan,
    done: usize,
    failure: Option<String>,
}

impl View for Materializer {
    type V = RunModel;

    closed spec fn view(&self) -> RunModel {
        RunModel {
            plan: self.plan@,
            done: self.done as nat,
            failure: match self.failure {
                Some(reason) => Some(reason@),
                None => None,
            },
        }
    }
}

impl Materializer {
    /// A failure is recorded only for an action of the plan, and no more
    /// actions have succeeded than the plan holds.
    pub closed spec fn wf(&self) -> bool {
        &&& self.done <= self.plan.actions.len()
        &&& self.failure is Some ==> self.done < self.plan.actions.len()
    }

    /// A run of the plan for `entries` under `root`, with nothing performed
    /// yet.
    pub fn new(root: &str, entries: &Vec<FileStructureEntry>) -> (run: Materializer)
        ensures
            run.wf(),
            run@ == RunModel::start(entries_plan(models_of(entries@), root@)),
    {
        Materializer::from_plan(plan_entries(entries, root))
    }

    /// A run of `plan`, with nothing performed yet.
    pub fn from_plan(plan: Plan) -> (run: Materializer)
        ensures
            run.wf(),
            run@ == RunModel::start(plan@),
    {
        Materializer { plan, done: 0, failure: None }
    }

    /// The action to perform next, or `None` when the run is over.
    pub fn pending(&self) -> (action: Option<&FsAction>)
        requires
            self.wf(),
        ensures
            match action {
                Some(a) => self@.pending() == Some(a@),
                None => self@.pending() is None,
            },
    {
        if self.failure.is_none() && self.done < self.plan.actions.len() {
            Some(&self.plan.actions[self.done])
        } else {
            None
        }
    }

    /// Records how the pending action went. A run that is over is left as it
    /// is.
    pub fn record(&mut self, outcome: Result<(), String>)
        requires
            old(self).wf(),
        ensures
            final(self).wf(),
            final(self)@ == old(self)@.after(outcome_model(outcome)),
    {
        if self.failure.is_none() && self.done < self.plan.actions.len() {
            match outcome {
                Ok(_) => {
                    self.done = self.done + 1;
                },
                Err(reason) => {
                    self.failure = Some(reason);
                },
            }
        }
    }

    /// How the run ended, or `None` while an action is pending.
    pub fn result(&self) -> (result: Option<Result<(), MaterializationError>>)
        requires
            self.wf(),
        ensures
            result_model(result) == self@.result(),
    {
        if let Some(reason) = &self.failure {
            let path = match &self.plan.actions[self.done] {
                FsAction::CreateDir { path } => path.clone(),
                FsAction::WriteFile { path, .. } => path.clone(),
            };
            Some(Err(MaterializationError::Io { path, reason: reason.clone() }))
        } else if self.done < self.plan.actions.len() {
            None
        } else if let Some(violation) = &self.plan.rejected {
            Some(
                Err(
                    MaterializationError::PathViolation {
                        base: violation.base.clone(),
                        path: violation.path.clone(),
                    },
                ),
            )
        } else {
            Some(Ok(()))
        }
    }
}

/// While every action succeeds, as many actions are done as outcomes were
/// reported, up to the length of the plan.
pub proof fn lemma_run_of_successes(plan: PlanModel, outcomes: Seq<Option<Seq<char>>>)
    requires
        forall|j: int| 0 <= j < outcomes.len() ==> outcomes[j] is None,
    ensures
        RunModel::start(plan).after_all(outcomes) == (RunModel {
            plan,
            done: if outcomes.len() <= plan.actions.len() {
                outcomes.len()
            } else {
                plan.actions.len()
            },
            failure: None,
        }),
    decreases outcomes.len(),
{
    if outcomes.len() > 0 {
        lemma_run_of_successes(plan, outcomes.drop_last());
    }
}

/// A run in which every action succeeds performs the whole plan and ends in
/// what the plan ends in: the rejection, or success.
pub proof fn lemma_run_completes(plan: PlanModel, outcomes: Seq<Option<Seq<char>>>)
    requires
        outcomes.len() >= plan.actions.len(),
        forall|j: int| 0 <= j < outcomes.len() ==> outcomes[j] is None,
    ensures
        RunModel::start(plan).after_all(outcomes).done == plan.actions.len(),
        RunModel::start(plan).after_all(outcomes).result() == Some(
            match plan.rejected {
                Some(v) => Err::<(), ErrorModel>(
                    ErrorModel::PathViolation { base: v.base, path: v.path },
                ),
                None => Ok(()),
            },
        ),
{
    lemma_run_of_successes(plan, outcomes);
}

/// A run stops at the first action that fails: the actions before it are
/// done, none after it is ever pending, and the run ends in the failure of
/// that action, whatever is reported afterwards.
pub proof fn lemma_run_stops_at_first_failure(
    plan: PlanModel,
    outcomes: Seq<Option<Seq<char>>>,
    k: int,
)
    requires
        0 <= k < outcomes.len(),
        k < plan.actions.len(),
        forall|j: int| 0 <= j < k ==> outcomes[j] is None,
        outcomes[k] is Some,
    ensures
        RunModel::start(plan).after_all(outcomes) == (RunModel {
            plan,
            done: k as nat,
            failure: outcomes[k],
        }),
        RunModel::start(plan).after_all(outcomes).pending() is None,
        RunModel::start(plan).after_all(outcomes).result() == Some(
            Err::<(), ErrorModel>(
                ErrorModel::Io { path: plan.actions[k].target(), reason: outcomes[k]->0 },
            ),
        ),
    decreases outcomes.len(),
{
    let before = outcomes.drop_last();
    if k == outcomes.len() - 1 {
        lemma_run_of_successes(plan, before);
    } else {
        lemma_run_stops_at_first_failure(plan, before, k);
    }
}

} // verus!
