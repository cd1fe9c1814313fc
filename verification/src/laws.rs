//! What holds of every plan: which layouts are planned in full, how many
//! actions a plan holds and in what order, where each entry lands, and that
//! no action leaves the root.

use vstd::prelude::*;
use crate::effect::{
    FsModel, NodeModel, apply_all, is_below, is_dir, is_file, lemma_directory_exists,
    lemma_file_holds_content, lemma_run_puts_in_place, lemma_within_is_below, place_of,
    writes_are_apart,
};
use crate::entry::{EntryKind, EntryModel};
use crate::path::{
    is_safe_relative, join, last_separator, lemma_join_assoc, lemma_join_safe,
    lemma_last_separator, lemma_prefix_safe, parent_dir, resolves_within,
};
use crate::plan::{ActionModel, PlanModel, RejectionModel, entries_plan, entry_plan};
use crate::run::{ErrorModel, RunModel, lemma_run_completes};

verus! {

/// Every path that planning reads in `entry` is a safe relative path: its
/// own and, for a directory, those of its children.
pub open spec fn entry_is_safe(entry: EntryModel) -> bool
    decreases entry,
{
    &&& is_safe_relative(entry.path)
    &&& entry.kind == EntryKind::Directory ==> entries_are_safe(entry.children)
}

/// Every entry of `entries` is safe.
pub open spec fn entries_are_safe(entries: Seq<EntryModel>) -> bool
    decreases entries,
{
    entries.len() == 0 || (entries_are_safe(entries.drop_last()) && entry_is_safe(entries.last()))
}

/// The number of entries that planning reads in `entry`: itself and, for a
/// directory, those below it.
pub open spec fn entry_count(entry: EntryModel) -> nat
    decreases entry,
{
    match entry.kind {
        EntryKind::File => 1,
        EntryKind::Directory => 1 + entries_count(entry.children),
    }
}

/// The number of entries that planning reads in `entries`.
pub open spec fn entries_count(entries: Seq<EntryModel>) -> nat
    decreases entries,
{
    if entries.len() == 0 {
        0
    } else {
        entries_count(entries.drop_last()) + entry_count(entries.last())
    }
}

/// The action that stands for `entry` itself when it is resolved against
/// `base`.
pub open spec fn own_action(entry: EntryModel, base: Seq<char>) -> ActionModel {
    match entry.kind {
        EntryKind::File => ActionModel::WriteFile {
            parent: parent_dir(base, entry.path),
            path: join(base, entry.path),
            content: entry.content,
        },
        EntryKind::Directory => ActionModel::CreateDir { path: join(base, entry.path) },
    }
}

/// An entry and the path it is resolved against.
pub struct Located {
    pub entry: EntryModel,
    pub base: Seq<char>,
}

/// The entry reached from `entries` by following `trail`, which holds one
/// index for each level, together with the path it is resolved against: the
/// base joined with the path of each directory passed on the way.
pub open spec fn descend(entries: Seq<EntryModel>, base: Seq<char>, trail: Seq<int>) -> Option<
    Located,
>
    decreases trail.len(),
{
    if trail.len() == 0 || !(0 <= trail[0] < entries.len()) {
        None
    } else if trail.len() == 1 {
        Some(Located { entry: entries[trail[0]], base })
    } else if entries[trail[0]].kind == EntryKind::Directory {
        descend(
            entries[trail[0]].children,
            join(base, entries[trail[0]].path),
            trail.drop_first(),
        )
    } else {
        None
    }
}

/// `path` is `root` or what a safe relative path resolves to against it.
pub open spec fn at_or_within(root: Seq<char>, path: Seq<char>) -> bool {
    path == root || resolves_within(root, path)
}

/// The action stays below `root`: what it creates or writes resolves within
/// `root`, and the directory that a write asks for is `root` or within it.
pub open spec fn action_stays_within(root: Seq<char>, action: ActionModel) -> bool {
    match action {
        ActionModel::CreateDir { path } => resolves_within(root, path),
        ActionModel::WriteFile { parent, path, .. } => resolves_within(root, path) && at_or_within(
            root,
            parent,
        ),
    }
}

/// An entry is planned without rejection exactly when it is safe.
pub proof fn lemma_entry_rejected_iff_unsafe(entry: EntryModel, base: Seq<char>)
    ensures
        entry_plan(entry, base).rejected is None <==> entry_is_safe(entry),
    decreases entry,
{
    if is_safe_relative(entry.path) && entry.kind == EntryKind::Directory {
        lemma_rejected_iff_unsafe(entry.children, join(base, entry.path));
    }
}

/// A layout is planned without rejection exactly when every entry that
/// planning reads has a safe path.
pub proof fn lemma_rejected_iff_unsafe(entries: Seq<EntryModel>, base: Seq<char>)
    ensures
        entries_plan(entries, base).rejected is None <==> entries_are_safe(entries),
    decreases entries,
{
    if entries.len() > 0 {
        lemma_rejected_iff_unsafe(entries.drop_last(), base);
        lemma_entry_rejected_iff_unsafe(entries.last(), base);
    }
}

/// An entry whose path is not safe is rejected with no action at all,
/// whatever lies below it.
pub proof fn lemma_unsafe_entry_plans_nothing(entry: EntryModel, base: Seq<char>)
    requires
        !is_safe_relative(entry.path),
    ensures
        entry_plan(entry, base).actions.len() == 0,
        entry_plan(entry, base).rejected == Some(RejectionModel { base, path: entry.path }),
{
}

/// A plan holds at most one action for each entry.
pub proof fn lemma_entry_action_bound(entry: EntryModel, base: Seq<char>)
    ensures
        entry_plan(entry, base).actions.len() <= entry_count(entry),
        entry_plan(entry, base).rejected is None ==> entry_plan(entry, base).actions.len()
            == entry_count(entry),
    decreases entry,
{
    if is_safe_relative(entry.path) && entry.kind == EntryKind::Directory {
        lemma_action_count(entry.children, join(base, entry.path));
    }
}

/// A plan holds at most one action for each entry, and exactly one for each
/// where nothing is rejected.
pub proof fn lemma_action_count(entries: Seq<EntryModel>, base: Seq<char>)
    ensures
        entries_plan(entries, base).actions.len() <= entries_count(entries),
        entries_plan(entries, base).rejected is None ==> entries_plan(entries, base).actions.len()
            == entries_count(entries),
    decreases entries,
{
    if entries.len() > 0 {
        lemma_action_count(entries.drop_last(), base);
        lemma_entry_action_bound(entries.last(), base);
    }
}

/// The plan of two sequences of entries, one after the other, is the plan
/// of the first followed by the plan of the second, unless the first is
/// rejected: listed order is planned order.
pub proof fn lemma_plan_concat(first: Seq<EntryModel>, second: Seq<EntryModel>, base: Seq<char>)
    ensures
        entries_plan(first + second, base) == if entries_plan(first, base).rejected is Some {
            entries_plan(first, base)
        } else {
            PlanModel {
                actions: entries_plan(first, base).actions + entries_plan(second, base).actions,
                rejected: entries_plan(second, base).rejected,
            }
        },
    decreases second.len(),
{
    if second.len() == 0 {
        assert(first + second =~= first);
        assert(entries_plan(first, base).actions + Seq::<ActionModel>::empty() =~= entries_plan(
            first,
            base,
        ).actions);
    } else {
        assert((first + second).drop_last() =~= first + second.drop_last());
        assert((first + second).last() == second.last());
        lemma_plan_concat(first, second.drop_last(), base);
        let a = entries_plan(first, base).actions;
        let b = entries_plan(second.drop_last(), base).actions;
        let c = entry_plan(second.last(), base).actions;
        assert((a + b) + c =~= a + (b + c));
    }
}

/// The plan of a single entry is the plan of the sequence that holds only
/// it.
pub proof fn lemma_plan_single(entry: EntryModel, base: Seq<char>)
    ensures
        entries_plan(seq![entry], base) == entry_plan(entry, base),
{
    let one = seq![entry];
    assert(one.drop_last() =~= Seq::<EntryModel>::empty());
    assert(entries_plan(one.drop_last(), base).actions + entry_plan(entry, base).actions
        =~= entry_plan(entry, base).actions);
}

/// A directory is created first, and what lies below it follows, resolved
/// against it.
pub proof fn lemma_directory_then_children(entry: EntryModel, base: Seq<char>)
    requires
        is_safe_relative(entry.path),
        entry.kind == EntryKind::Directory,
    ensures
        entry_plan(entry, base).actions == seq![
            ActionModel::CreateDir { path: join(base, entry.path) },
        ] + entries_plan(entry.children, join(base, entry.path)).actions,
        entry_plan(entry, base).rejected == entries_plan(
            entry.children,
            join(base, entry.path),
        ).rejected,
{
}

/// What a file entry holds as children has no part in its plan.
pub proof fn lemma_file_ignores_children(entry: EntryModel, other: EntryModel, base: Seq<char>)
    requires
        entry.kind == EntryKind::File,
        other.kind == EntryKind::File,
        entry.path == other.path,
        entry.content == other.content,
    ensures
        entry_plan(entry, base) == entry_plan(other, base),
{
}

/// Where nothing is rejected, the plan of a sequence holds every action of
/// the plan of each of its entries.
pub proof fn lemma_holds_entry_plan(entries: Seq<EntryModel>, base: Seq<char>, i: int)
    requires
        0 <= i < entries.len(),
        entries_plan(entries, base).rejected is None,
    ensures
        forall|a: ActionModel| #[trigger]
            entry_plan(entries[i], base).actions.contains(a) ==> entries_plan(
                entries,
                base,
            ).actions.contains(a),
    decreases entries.len(),
{
    let before = entries_plan(entries.drop_last(), base).actions;
    let last = entry_plan(entries.last(), base).actions;
    assert forall|a: ActionModel| #[trigger]
        entry_plan(entries[i], base).actions.contains(a) implies entries_plan(
        entries,
        base,
    ).actions.contains(a) by {
        if i == entries.len() - 1 {
            let k = choose|k: int| 0 <= k < last.len() && last[k] == a;
            assert((before + last)[before.len() + k] == a);
        } else {
            lemma_holds_entry_plan(entries.drop_last(), base, i);
            assert(entries.drop_last()[i] == entries[i]);
            let k = choose|k: int| 0 <= k < before.len() && before[k] == a;
            assert((before + last)[k] == a);
        }
    }
}

/// Where nothing is rejected, the plan holds the own action of every entry
/// that can be reached through directories, resolved against the root
/// joined with the paths of the directories above it: a directory is
/// created, and a file is written with its content, at that place.
pub proof fn lemma_descendant_is_planned(
    entries: Seq<EntryModel>,
    base: Seq<char>,
    trail: Seq<int>,
)
    requires
        entries_plan(entries, base).rejected is None,
        descend(entries, base, trail) is Some,
    ensures
        entries_plan(entries, base).actions.contains(
            own_action(
                descend(entries, base, trail)->0.entry,
                descend(entries, base, trail)->0.base,
            ),
        ),
    decreases trail.len(),
{
    let entry = entries[trail[0]];
    let found = descend(entries, base, trail)->0;
    let action = own_action(found.entry, found.base);
    lemma_holds_entry_plan(entries, base, trail[0]);
    lemma_entries_rejected_none(entries, base, trail[0]);
    let own = entry_plan(entry, base).actions;
    if trail.len() == 1 {
        assert(own[0] == action);
    } else {
        let below = entries_plan(entry.children, join(base, entry.path));
        lemma_descendant_is_planned(entry.children, join(base, entry.path), trail.drop_first());
        let k = choose|k: int| 0 <= k < below.actions.len() && below.actions[k] == action;
        assert(own[k + 1] == action);
    }
    assert(own.contains(action));
}

/// Where nothing is rejected in a sequence, nothing is rejected in any of
/// its entries.
pub proof fn lemma_entries_rejected_none(entries: Seq<EntryModel>, base: Seq<char>, i: int)
    requires
        0 <= i < entries.len(),
        entries_plan(entries, base).rejected is None,
    ensures
        entry_plan(entries[i], base).rejected is None,
    decreases entries.len(),
{
    if i < entries.len() - 1 {
        lemma_entries_rejected_none(entries.drop_last(), base, i);
    }
}

/// A safe relative path resolved against `root`, or against a path within
/// `root`, lies within `root`.
pub proof fn lemma_join_stays_within(root: Seq<char>, base: Seq<char>, rel: Seq<char>)
    requires
        at_or_within(root, base),
        is_safe_relative(rel),
    ensures
        resolves_within(root, join(base, rel)),
{
    if base == root {
        assert(is_safe_relative(rel) && join(base, rel) == join(root, rel));
    } else {
        let via = choose|via: Seq<char>| is_safe_relative(via) && base == join(root, via);
        lemma_join_assoc(root, via, rel);
        lemma_join_safe(via, rel);
        assert(is_safe_relative(join(via, rel)) && join(base, rel) == join(root, join(via, rel)));
    }
}

/// The directory that holds a safe relative path resolved against `root`,
/// or against a path within `root`, is `root` or lies within it.
pub proof fn lemma_parent_stays_within(root: Seq<char>, base: Seq<char>, rel: Seq<char>)
    requires
        at_or_within(root, base),
        is_safe_relative(rel),
    ensures
        at_or_within(root, parent_dir(base, rel)),
{
    let k = last_separator(rel);
    lemma_last_separator(rel);
    if k > 0 {
        lemma_prefix_safe(rel, k);
        lemma_join_stays_within(root, base, rel.take(k));
    }
}

/// No action of an entry's plan leaves the root, where the entry is
/// resolved against the root or a path within it.
pub proof fn lemma_entry_stays_within(root: Seq<char>, entry: EntryModel, base: Seq<char>)
    requires
        at_or_within(root, base),
    ensures
        forall|k: int|
            0 <= k < entry_plan(entry, base).actions.len() ==> action_stays_within(
                root,
                #[trigger] entry_plan(entry, base).actions[k],
            ),
    decreases entry,
{
    if is_safe_relative(entry.path) {
        lemma_join_stays_within(root, base, entry.path);
        lemma_parent_stays_within(root, base, entry.path);
        if entry.kind == EntryKind::Directory {
            lemma_entries_stay_within(root, entry.children, join(base, entry.path));
        }
    }
}

/// No action of a plan leaves the root, where the entries are resolved
/// against the root or a path within it.
pub proof fn lemma_entries_stay_within(root: Seq<char>, entries: Seq<EntryModel>, base: Seq<char>)
    requires
        at_or_within(root, base),
    ensures
        forall|k: int|
            0 <= k < entries_plan(entries, base).actions.len() ==> action_stays_within(
                root,
                #[trigger] entries_plan(entries, base).actions[k],
            ),
    decreases entries,
{
    if entries.len() > 0 {
        lemma_entries_stay_within(root, entries.drop_last(), base);
        lemma_entry_stays_within(root, entries.last(), base);
    }
}

/// No action of the plan of a layout leaves its root.
pub proof fn lemma_plan_stays_within_root(root: Seq<char>, entries: Seq<EntryModel>)
    ensures
        forall|k: int|
            0 <= k < entries_plan(entries, root).actions.len() ==> action_stays_within(
                root,
                #[trigger] entries_plan(entries, root).actions[k],
            ),
{
    lemma_entries_stay_within(root, entries, root);
}

/// Every action of the plan of a layout points below the place of the
/// root: through the segments of the root, then through segments none of
/// which is `..`.
pub proof fn lemma_plan_places_below_root(root: Seq<char>, entries: Seq<EntryModel>, k: int)
    requires
        0 <= k < entries_plan(entries, root).actions.len(),
    ensures
        is_below(place_of(root), place_of(entries_plan(entries, root).actions[k].target())),
{
    lemma_plan_stays_within_root(root, entries);
    let action = entries_plan(entries, root).actions[k];
    assert(action_stays_within(root, action));
    lemma_within_is_below(root, action.target());
}

/// After a run of the plan in which every action succeeded, every entry
/// that can be reached through directories is on the filesystem, at its
/// path resolved against the root joined with the paths of the directories
/// above it: a directory where the entry is one, a file where it is a file.
pub proof fn lemma_entry_is_materialized(
    fs: FsModel,
    entries: Seq<EntryModel>,
    root: Seq<char>,
    trail: Seq<int>,
)
    requires
        entries_plan(entries, root).rejected is None,
        apply_all(fs, entries_plan(entries, root).actions) is Some,
        descend(entries, root, trail) is Some,
    ensures
        match descend(entries, root, trail)->0.entry.kind {
            EntryKind::Directory => is_dir(
                apply_all(fs, entries_plan(entries, root).actions)->0,
                place_of(
                    join(
                        descend(entries, root, trail)->0.base,
                        descend(entries, root, trail)->0.entry.path,
                    ),
                ),
            ),
            EntryKind::File => is_file(
                apply_all(fs, entries_plan(entries, root).actions)->0,
                place_of(
                    join(
                        descend(entries, root, trail)->0.base,
                        descend(entries, root, trail)->0.entry.path,
                    ),
                ),
            ),
        },
{
    let actions = entries_plan(entries, root).actions;
    let found = descend(entries, root, trail)->0;
    let action = own_action(found.entry, found.base);
    lemma_descendant_is_planned(entries, root, trail);
    let k = choose|k: int| 0 <= k < actions.len() && actions[k] == action;
    match found.entry.kind {
        EntryKind::Directory => {
            lemma_directory_exists(fs, actions, k);
        },
        EntryKind::File => {
            lemma_run_puts_in_place(fs, actions, k);
        },
    }
}

/// After a run of the plan in which every action succeeded, and in which no
/// two files were written to the same place, every file entry that can be
/// reached through directories holds its own content.
pub proof fn lemma_file_is_materialized(
    fs: FsModel,
    entries: Seq<EntryModel>,
    root: Seq<char>,
    trail: Seq<int>,
)
    requires
        entries_plan(entries, root).rejected is None,
        apply_all(fs, entries_plan(entries, root).actions) is Some,
        writes_are_apart(entries_plan(entries, root).actions),
        descend(entries, root, trail) is Some,
        descend(entries, root, trail)->0.entry.kind == EntryKind::File,
    ensures
        apply_all(fs, entries_plan(entries, root).actions)->0[place_of(
            join(
                descend(entries, root, trail)->0.base,
                descend(entries, root, trail)->0.entry.path,
            ),
        )] == (NodeModel::File { content: descend(entries, root, trail)->0.entry.content }),
{
    let actions = entries_plan(entries, root).actions;
    let found = descend(entries, root, trail)->0;
    let action = own_action(found.entry, found.base);
    lemma_descendant_is_planned(entries, root, trail);
    let k = choose|k: int| 0 <= k < actions.len() && actions[k] == action;
    lemma_file_holds_content(fs, actions, k);
}

/// A layout in which every entry is safe is materialized in full when
/// every action succeeds: the run performs one action for each entry and
/// ends in success.
pub proof fn lemma_safe_layout_succeeds(
    entries: Seq<EntryModel>,
    root: Seq<char>,
    outcomes: Seq<Option<Seq<char>>>,
)
    requires
        entries_are_safe(entries),
        outcomes.len() >= entries_count(entries),
        forall|j: int| 0 <= j < outcomes.len() ==> outcomes[j] is None,
    ensures
        RunModel::start(entries_plan(entries, root)).after_all(outcomes).done == entries_count(
            entries,
        ),
        RunModel::start(entries_plan(entries, root)).after_all(outcomes).result() == Some(
            Ok::<(), ErrorModel>(()),
        ),
{
    lemma_rejected_iff_unsafe(entries, root);
    lemma_action_count(entries, root);
    lemma_run_completes(entries_plan(entries, root), outcomes);
}

} // verus!
