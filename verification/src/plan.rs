//! From a declared layout to the ordered list of filesystem actions that
//! realizes it.

use vstd::prelude::*;
use crate::entry::{EntryKind, EntryModel, FileStructureEntry, models_of};
use crate::path::{
    is_safe_relative, is_safe_relative_path, join, join_path, parent_dir, parent_path,
};

verus! {

/// The model of a filesystem action.
pub enum ActionModel {
    CreateDir { path: Seq<char> },
    WriteFile { parent: Seq<char>, path: Seq<char>, content: Seq<char> },
}

/// One step of a materialization, to be carried out on the filesystem.
#[derive(Clone, Debug, PartialEq, Eq)]
pub enum FsAction {
    /// Create the directory `path` with every missing ancestor. An existing
    /// directory is left as it is.
    CreateDir { path: String },
    /// Create the directory `parent` with every missing ancestor, then write
    /// `content` to the file `path`, replacing what it held.
    WriteFile { parent: String, path: String, content: String },
}

impl View for FsAction {
    type V = ActionModel;

    open spec fn view(&self) -> ActionModel {
        match self {
            FsAction::CreateDir { path } => ActionModel::CreateDir { path: path@ },
            FsAction::WriteFile { parent, path, content } => ActionModel::WriteFile {
                parent: parent@,
                path: path@,
                content: content@,
            },
        }
    }
}

impl ActionModel {
    /// The path that the action creates or writes.
    pub open spec fn target(self) -> Seq<char> {
        match self {
            ActionModel::CreateDir { path } => path,
            ActionModel::WriteFile { path, .. } => path,
        }
    }
}

/// The model of a rejected entry.
pub struct RejectionModel {
    pub base: Seq<char>,
    pub path: Seq<char>,
}

/// An entry whose relative path is not safe to resolve: `path` as it was
/// declared, and the directory `base` it was to be resolved against.
#[derive(Clone, Debug, PartialEq, Eq)]
pub struct PathViolation {
    pub base: String,
    pub path: String,
}

impl View for PathViolation {
    type V = RejectionModel;

    open spec fn view(&self) -> RejectionModel {
        RejectionModel { base: self.base@, path: self.path@ }
    }
}

/// The model of a plan: the actions in the order in which they are carried
/// out, and the entry at which planning stopped, if it did.
pub struct PlanModel {
    pub actions: Seq<ActionModel>,
    pub rejected: Option<RejectionModel>,
}

/// The actions that realize a layout, in order. Where `rejected` is set, the
/// actions are those of the entries that come before the rejected one, and
/// nothing is planned for it, for what lies below it, or for what follows.
#[derive(Clone, Debug, PartialEq, Eq)]
pub struct Plan {
    pub actions: Vec<FsAction>,
    pub rejected: Option<PathViolation>,
}

/// The models of a sequence of actions.
pub open spec fn action_models(actions: Seq<FsAction>) -> Seq<ActionModel> {
    Seq::new(actions.len(), |i: int| actions[i]@)
}

/// The model of an optional rejection.
pub open spec fn rejection_model(rejected: Option<PathViolation>) -> Option<RejectionModel> {
    match rejected {
        Some(v) => Some(v@),
        None => None,
    }
}

impl View for Plan {
    type V = PlanModel;

    open spec fn view(&self) -> PlanModel {
        PlanModel {
            actions: action_models(self.actions@),
            rejected: rejection_model(self.rejected),
        }
    }
}

/// The plan for one entry resolved against `base`.
///
/// An entry whose path is not safe is rejected with no action. A file is one
/// write at its resolved path. A directory is its own creation, followed by
/// the plan of its children resolved against it.
pub open spec fn entry_plan(entry: EntryModel, base: Seq<char>) -> PlanModel
    decreases entry,
{
    if !is_safe_relative(entry.path) {
        PlanModel {
            actions: Seq::empty(),
            rejected: Some(RejectionModel { base, path: entry.path }),
        }
    } else {
        match entry.kind {
            EntryKind::File => PlanModel {
                actions: seq![
                    ActionModel::WriteFile {
                        parent: parent_dir(base, entry.path),
                        path: join(base, entry.path),
                        content: entry.content,
                    },
                ],
                rejected: None,
            },
            EntryKind::Directory => {
                let below = entries_plan(entry.children, join(base, entry.path));
                PlanModel {
                    actions: seq![ActionModel::CreateDir { path: join(base, entry.path) }]
                        + below.actions,
                    rejected: below.rejected,
                }
            },
        }
    }
}

/// The plan for a sequence of entries, each resolved against `base`: their
/// plans one after the other, up to and including the first that is
/// rejected.
pub open spec fn entries_plan(entries: Seq<EntryModel>, base: Seq<char>) -> PlanModel
    decreases entries,
{
    if entries.len() == 0 {
        PlanModel { actions: Seq::empty(), rejected: None }
    } else {
        let before = entries_plan(entries.drop_last(), base);
        if before.rejected is Some {
            before
        } else {
            let last = entry_plan(entries.last(), base);
            PlanModel { actions: before.actions + last.actions, rejected: last.rejected }
        }
    }
}

/// Once a prefix of the entries is rejected, the entries after it add
/// nothing to the plan.
pub proof fn lemma_rejection_stops(entries: Seq<EntryModel>, base: Seq<char>, i: int)
    requires
        0 <= i <= entries.len(),
        entries_plan(entries.take(i), base).rejected is Some,
    ensures
        entries_plan(entries, base) == entries_plan(entries.take(i), base),
    decreases entries.len() - i,
{
    if i == entries.len() {
        assert(entries.take(i) =~= entries);
    } else {
        assert(entries.take(i + 1).drop_last() =~= entries.take(i));
        lemma_rejection_stops(entries, base, i + 1);
    }
}

/// Plans one entry resolved against `base_path`.
pub fn process_entry(entry: &FileStructureEntry, base_path: &str) -> (plan: Plan)
    ensures
        plan@ == entry_plan(entry@, base_path@),
    decreases entry,
{
    if !is_safe_relative_path(entry.path.as_str()) {
        let rejected = PathViolation {
            base: String::from_str(base_path),
            path: entry.path.clone(),
        };
        let plan = Plan { actions: Vec::new(), rejected: Some(rejected) };
        assert(plan@.actions =~= Seq::empty());
        return plan;
    }
    let full = join_path(base_path, entry.path.as_str());
    match entry.kind {
        EntryKind::File => {
            let mut actions: Vec<FsAction> = Vec::new();
            actions.push(
                FsAction::WriteFile {
                    parent: parent_path(base_path, entry.path.as_str()),
                    path: full,
                    content: entry.content.clone(),
                },
            );
            let plan = Plan { actions, rejected: None };
            assert(plan@.actions =~= entry_plan(entry@, base_path@).actions);
            plan
        },
        EntryKind::Directory => {
            let below = plan_entries(&entry.children, full.as_str());
            let mut actions: Vec<FsAction> = Vec::new();
            actions.push(FsAction::CreateDir { path: full });
            let mut rest = below.actions;
            actions.append(&mut rest);
            let plan = Plan { actions, rejected: below.rejected };
            proof {
                entry.lemma_view();
                assert(plan@.actions =~= entry_plan(entry@, base_path@).actions);
            }
            plan
        },
    }
}

/// Plans a sequence of entries, each resolved against `base_path`.
pub fn plan_entries(entries: &Vec<FileStructureEntry>, base_path: &str) -> (plan: Plan)
    ensures
        plan@ == entries_plan(models_of(entries@), base_path@),
    decreases entries,
{
    let ghost models = models_of(entries@);
    let mut actions: Vec<FsAction> = Vec::new();
    let mut rejected: Option<PathViolation> = None;
    let mut i: usize = 0;
    assert(models.take(0) =~= Seq::empty());
    while i < entries.len() && rejected.is_none()
        invariant
            models == models_of(entries@),
            i <= entries.len(),
            action_models(actions@) =~= entries_plan(models.take(i as int), base_path@).actions,
            rejection_model(rejected) == entries_plan(models.take(i as int), base_path@).rejected,
        decreases entries.len() - i,
    {
        let one = process_entry(&entries[i], base_path);
        let mut more = one.actions;
        proof {
            assert(models.take(i + 1).drop_last() =~= models.take(i as int));
            assert(models.take(i + 1).last() == entries@[i as int]@);
        }
        actions.append(&mut more);
        rejected = one.rejected;
        i += 1;
    }
    proof {
        if i < entries.len() {
            lemma_rejection_stops(models, base_path@, i as int);
        } else {
            assert(models.take(i as int) =~= models);
        }
    }
    Plan { actions, rejected }
}

} // verus!
