//! What the actions of a plan mean on a filesystem, as a mathematical
//! model, and what follows for a whole run: each entry ends up in place, and
//! a second run changes nothing.

use vstd::prelude::*;
use crate::path::{
    is_safe_relative, join, last_separator, lemma_last_separator, lemma_last_separator_unique,
    lemma_prefix_safe, parent_ref_at, resolves_within,
};
use crate::plan::ActionModel;

verus! {

/// Where a path points: from the filesystem root or from the working
/// directory, through the named segments. Empty segments and `.` do not
/// count; `..` is kept as a name.
pub struct Place {
    pub absolute: bool,
    pub segments: Seq<Seq<char>>,
}

/// What a filesystem holds at a place.
pub enum NodeModel {
    Dir,
    File { content: Seq<char> },
}

/// A filesystem: what it holds at each place where it holds something. The
/// place with no segments is the directory that the paths start from, and
/// always exists.
pub type FsModel = Map<Place, NodeModel>;

/// The segments of `path` that count, in order.
pub open spec fn segments_of(path: Seq<char>) -> Seq<Seq<char>>
    decreases path.len(),
{
    if path.len() == 0 {
        Seq::empty()
    } else {
        let k = last_separator(path);
        let name = path.skip(k + 1);
        let front = if 0 <= k < path.len() {
            segments_of(path.take(k))
        } else {
            Seq::empty()
        };
        if name.len() == 0 || name == seq!['.'] {
            front
        } else {
            front.push(name)
        }
    }
}

/// The place that `path` points to.
pub open spec fn place_of(path: Seq<char>) -> Place {
    Place { absolute: path.len() > 0 && path[0] == '/', segments: segments_of(path) }
}

/// `above` is `place` or a directory on the way to it, other than the one
/// that the paths start from.
pub open spec fn leads_to(above: Place, place: Place) -> bool {
    &&& above.absolute == place.absolute
    &&& 0 < above.segments.len() <= place.segments.len()
    &&& above.segments == place.segments.take(above.segments.len() as int)
}

/// The place that holds `place`.
pub open spec fn holder(place: Place) -> Place {
    Place { absolute: place.absolute, segments: place.segments.drop_last() }
}

/// `fs` holds a directory at `place`.
pub open spec fn is_dir(fs: FsModel, place: Place) -> bool {
    place.segments.len() == 0 || (fs.dom().contains(place) && fs[place] is Dir)
}

/// `fs` holds a file at `place`.
pub open spec fn is_file(fs: FsModel, place: Place) -> bool {
    place.segments.len() > 0 && fs.dom().contains(place) && fs[place] is File
}

/// A directory can be created at `place` with its missing ancestors: no
/// file stands there or on the way.
pub open spec fn can_make_dirs(fs: FsModel, place: Place) -> bool {
    forall|above: Place| #[trigger] leads_to(above, place) ==> !is_file(fs, above)
}

/// `fs` with a directory at `place` and at every place on the way to it.
pub open spec fn make_dirs(fs: FsModel, place: Place) -> FsModel {
    Map::new(
        |q: Place| fs.dom().contains(q) || leads_to(q, place),
        |q: Place|
            if leads_to(q, place) {
                NodeModel::Dir
            } else {
                fs[q]
            },
    )
}

/// A file can be written at `place`: the place that holds it is a
/// directory, and it is not one itself.
pub open spec fn can_write(fs: FsModel, place: Place) -> bool {
    &&& place.segments.len() > 0
    &&& is_dir(fs, holder(place))
    &&& !is_dir(fs, place)
}

/// The filesystem after `action`, or `None` where the action fails. What a
/// failed action leaves behind is not described.
pub open spec fn apply(fs: FsModel, action: ActionModel) -> Option<FsModel> {
    match action {
        ActionModel::CreateDir { path } => {
            if can_make_dirs(fs, place_of(path)) {
                Some(make_dirs(fs, place_of(path)))
            } else {
                None
            }
        },
        ActionModel::WriteFile { parent, path, content } => {
            if can_make_dirs(fs, place_of(parent)) && can_write(
                make_dirs(fs, place_of(parent)),
                place_of(path),
            ) {
                Some(
                    make_dirs(fs, place_of(parent)).insert(
                        place_of(path),
                        NodeModel::File { content },
                    ),
                )
            } else {
                None
            }
        },
    }
}

/// The filesystem after `actions` in order, or `None` where one fails.
pub open spec fn apply_all(fs: FsModel, actions: Seq<ActionModel>) -> Option<FsModel>
    decreases actions.len(),
{
    if actions.len() == 0 {
        Some(fs)
    } else {
        match apply_all(fs, actions.drop_last()) {
            Some(mid) => apply(mid, actions.last()),
            None => None,
        }
    }
}

/// What the last write to `place` among `actions` writes, if any does.
pub open spec fn last_written(actions: Seq<ActionModel>, place: Place) -> Option<Seq<char>>
    decreases actions.len(),
{
    if actions.len() == 0 {
        None
    } else {
        match actions.last() {
            ActionModel::WriteFile { path, content, .. } if place_of(path) == place => Some(
                content,
            ),
            _ => last_written(actions.drop_last(), place),
        }
    }
}

/// What `action` asks for is in place in `fs`: the directories are
/// directories, and the file is a file in a directory.
pub open spec fn in_place(fs: FsModel, action: ActionModel) -> bool {
    match action {
        ActionModel::CreateDir { path } => forall|above: Place| #[trigger]
            leads_to(above, place_of(path)) ==> is_dir(fs, above),
        ActionModel::WriteFile { parent, path, .. } => {
            &&& forall|above: Place| #[trigger]
                leads_to(above, place_of(parent)) ==> is_dir(fs, above)
            &&& is_file(fs, place_of(path))
            &&& is_dir(fs, holder(place_of(path)))
        },
    }
}

/// `place` is `root` or lies below it: it is reached from `root` through
/// further segments, none of which is `..`.
pub open spec fn is_below(root: Place, place: Place) -> bool {
    &&& place.absolute == root.absolute
    &&& root.segments.len() <= place.segments.len()
    &&& place.segments.take(root.segments.len() as int) == root.segments
    &&& forall|i: int|
        root.segments.len() <= i < place.segments.len() ==> place.segments[i] != seq!['.', '.']
}

/// The segments of two paths with a separator between them are the segments
/// of the first followed by those of the second.
pub proof fn lemma_segments_of_separated(first: Seq<char>, second: Seq<char>)
    ensures
        segments_of(first + seq!['/'] + second) == segments_of(first) + segments_of(second),
    decreases second.len(),
{
    let whole = first + seq!['/'] + second;
    let k = last_separator(second);
    lemma_last_separator(second);
    let at = first.len() + 1 + k;
    assert(last_separator(whole) == at) by {
        assert forall|j: int| at < j < whole.len() implies whole[j] != '/' by {
            assert(whole[j] == second[j - first.len() - 1]);
        }
        lemma_last_separator_unique(whole, at);
    }
    assert(whole.skip(at + 1) =~= second.skip(k + 1));
    if k >= 0 {
        assert(whole.take(at) =~= first + seq!['/'] + second.take(k));
        lemma_segments_of_separated(first, second.take(k));
        let name = second.skip(k + 1);
        let front = segments_of(second.take(k));
        assert((segments_of(first) + front).push(name) =~= segments_of(first) + front.push(name));
    } else {
        assert(whole.take(at) =~= first);
        let name = second;
        assert(second.skip(0) =~= second);
        if second.len() == 0 {
            assert(segments_of(first) + Seq::<Seq<char>>::empty() =~= segments_of(first));
        } else if name == seq!['.'] {
            assert(segments_of(first) + Seq::<Seq<char>>::empty() =~= segments_of(first));
        } else {
            assert(segments_of(first).push(name) =~= segments_of(first) + Seq::<
                Seq<char>,
            >::empty().push(name));
        }
    }
}

/// The segments of a resolved path are those of the base followed by those
/// of the relative path.
pub proof fn lemma_segments_of_join(base: Seq<char>, rel: Seq<char>)
    ensures
        segments_of(join(base, rel)) == segments_of(base) + segments_of(rel),
{
    if base.len() == 0 {
        assert(base + rel =~= rel);
        assert(segments_of(base) + segments_of(rel) =~= segments_of(rel));
    } else if base.last() == '/' {
        let stem = base.drop_last();
        let none = Seq::<char>::empty();
        assert(base =~= stem + seq!['/'] + none);
        assert(base + rel =~= stem + seq!['/'] + rel);
        lemma_segments_of_separated(stem, none);
        lemma_segments_of_separated(stem, rel);
        assert(segments_of(stem) + segments_of(none) =~= segments_of(stem));
    } else {
        lemma_segments_of_separated(base, rel);
    }
}

/// No segment of a safe relative path is `..`.
pub proof fn lemma_safe_segments(rel: Seq<char>)
    requires
        is_safe_relative(rel),
    ensures
        forall|i: int| 0 <= i < segments_of(rel).len() ==> segments_of(rel)[i] != seq!['.', '.'],
    decreases rel.len(),
{
    let k = last_separator(rel);
    lemma_last_separator(rel);
    let name = rel.skip(k + 1);
    let parent = seq!['.', '.'];
    if name == parent {
        assert(parent.len() == 2 && parent[0] == '.' && parent[1] == '.');
        assert(name.len() == rel.len() - (k + 1));
        assert(rel[k + 1] == name[0]);
        assert(rel[k + 2] == name[1]);
        assert(parent_ref_at(rel, k + 1));
    }
    let front = if k > 0 {
        segments_of(rel.take(k))
    } else {
        Seq::empty()
    };
    if k > 0 {
        lemma_prefix_safe(rel, k);
        lemma_safe_segments(rel.take(k));
    }
    assert forall|i: int| 0 <= i < segments_of(rel).len() implies segments_of(rel)[i]
        != parent by {
        if i < front.len() {
            assert(segments_of(rel)[i] == front[i]);
        } else {
            assert(segments_of(rel)[i] == name);
        }
    }
}

/// What resolves within a root points to a place below the place of the
/// root.
pub proof fn lemma_within_is_below(root: Seq<char>, path: Seq<char>)
    requires
        resolves_within(root, path),
    ensures
        is_below(place_of(root), place_of(path)),
{
    let rel = choose|rel: Seq<char>| is_safe_relative(rel) && path == join(root, rel);
    lemma_segments_of_join(root, rel);
    lemma_safe_segments(rel);
    let here = segments_of(root);
    assert((here + segments_of(rel)).take(here.len() as int) =~= here);
}

/// An action that succeeds turns no directory into a file and no file into
/// a directory, removes nothing, and changes no file but the one it writes.
pub proof fn lemma_apply_keeps_kinds(fs: FsModel, action: ActionModel, q: Place)
    requires
        apply(fs, action) is Some,
    ensures
        is_dir(fs, q) ==> is_dir(apply(fs, action)->0, q),
        is_file(fs, q) ==> is_file(apply(fs, action)->0, q),
        is_file(fs, q) && !(action is WriteFile && place_of(action->WriteFile_path) == q)
            ==> apply(fs, action)->0[q] == fs[q],
{
}

/// After an action has succeeded, what it asks for is in place.
pub proof fn lemma_apply_puts_in_place(fs: FsModel, action: ActionModel)
    requires
        apply(fs, action) is Some,
    ensures
        in_place(apply(fs, action)->0, action),
{
    match action {
        ActionModel::CreateDir { path } => {},
        ActionModel::WriteFile { parent, path, content } => {
            let mid = make_dirs(fs, place_of(parent));
            let end = mid.insert(place_of(path), NodeModel::File { content });
            assert forall|above: Place| #[trigger]
                leads_to(above, place_of(parent)) implies is_dir(end, above) by {
                assert(is_dir(mid, above));
            }
        },
    }
}

/// What is in place stays in place through every action that succeeds.
pub proof fn lemma_in_place_is_kept(fs: FsModel, earlier: ActionModel, action: ActionModel)
    requires
        in_place(fs, earlier),
        apply(fs, action) is Some,
    ensures
        in_place(apply(fs, action)->0, earlier),
{
    let end = apply(fs, action)->0;
    match earlier {
        ActionModel::CreateDir { path } => {
            assert forall|above: Place| #[trigger]
                leads_to(above, place_of(path)) implies is_dir(end, above) by {
                lemma_apply_keeps_kinds(fs, action, above);
            }
        },
        ActionModel::WriteFile { parent, path, .. } => {
            assert forall|above: Place| #[trigger]
                leads_to(above, place_of(parent)) implies is_dir(end, above) by {
                lemma_apply_keeps_kinds(fs, action, above);
            }
            lemma_apply_keeps_kinds(fs, action, place_of(path));
            lemma_apply_keeps_kinds(fs, action, holder(place_of(path)));
        },
    }
}

/// After a run in which every action succeeded, what each action asked for
/// is in place: every directory of the plan is a directory, every file a
/// file.
pub proof fn lemma_run_puts_in_place(fs: FsModel, actions: Seq<ActionModel>, k: int)
    requires
        apply_all(fs, actions) is Some,
        0 <= k < actions.len(),
    ensures
        in_place(apply_all(fs, actions)->0, actions[k]),
    decreases actions.len(),
{
    let mid = apply_all(fs, actions.drop_last())->0;
    if k == actions.len() - 1 {
        lemma_apply_puts_in_place(mid, actions.last());
    } else {
        lemma_run_puts_in_place(fs, actions.drop_last(), k);
        lemma_in_place_is_kept(mid, actions[k], actions.last());
    }
}

/// After a run in which every action succeeded, each file that was written
/// holds what was written to it last.
pub proof fn lemma_run_keeps_last_written(fs: FsModel, actions: Seq<ActionModel>, place: Place)
    requires
        apply_all(fs, actions) is Some,
        last_written(actions, place) is Some,
    ensures
        apply_all(fs, actions)->0.dom().contains(place),
        apply_all(fs, actions)->0[place] == (NodeModel::File {
            content: last_written(actions, place)->0,
        }),
    decreases actions.len(),
{
    let mid = apply_all(fs, actions.drop_last())->0;
    let last = actions.last();
    if last is WriteFile && place_of(last->WriteFile_path) == place {
    } else {
        lemma_run_keeps_last_written(fs, actions.drop_last(), place);
        lemma_apply_keeps_kinds(mid, last, place);
        assert(place.segments.len() > 0) by {
            lemma_written_place_has_segments(fs, actions.drop_last(), place);
        }
    }
}

/// Only a place with a segment is ever written.
pub proof fn lemma_written_place_has_segments(
    fs: FsModel,
    actions: Seq<ActionModel>,
    place: Place,
)
    requires
        apply_all(fs, actions) is Some,
        last_written(actions, place) is Some,
    ensures
        place.segments.len() > 0,
    decreases actions.len(),
{
    let last = actions.last();
    if last is WriteFile && place_of(last->WriteFile_path) == place {
    } else {
        lemma_written_place_has_segments(fs, actions.drop_last(), place);
    }
}

/// After a run in which every action succeeded, every directory that an
/// action creates is a directory.
pub proof fn lemma_directory_exists(fs: FsModel, actions: Seq<ActionModel>, k: int)
    requires
        apply_all(fs, actions) is Some,
        0 <= k < actions.len(),
        actions[k] is CreateDir,
    ensures
        is_dir(apply_all(fs, actions)->0, place_of(actions[k]->CreateDir_path)),
{
    lemma_run_puts_in_place(fs, actions, k);
    let place = place_of(actions[k]->CreateDir_path);
    if place.segments.len() > 0 {
        assert(place.segments.take(place.segments.len() as int) =~= place.segments);
        assert(leads_to(place, place));
    }
}

/// No two writes among `actions` go to the same place.
pub open spec fn writes_are_apart(actions: Seq<ActionModel>) -> bool {
    forall|i: int, j: int|
        0 <= i < j < actions.len() && (#[trigger] actions[i]) is WriteFile && (
        #[trigger] actions[j]) is WriteFile ==> place_of(actions[i]->WriteFile_path) != place_of(
            actions[j]->WriteFile_path,
        )
}

/// A write after which no other goes to the same place is the last to it.
pub proof fn lemma_last_written_is(actions: Seq<ActionModel>, k: int)
    requires
        0 <= k < actions.len(),
        actions[k] is WriteFile,
        forall|j: int|
            k < j < actions.len() && (#[trigger] actions[j]) is WriteFile ==> place_of(
                actions[j]->WriteFile_path,
            ) != place_of(actions[k]->WriteFile_path),
    ensures
        last_written(actions, place_of(actions[k]->WriteFile_path)) == Some(
            actions[k]->WriteFile_content,
        ),
    decreases actions.len(),
{
    if k < actions.len() - 1 {
        let front = actions.drop_last();
        assert(front[k] == actions[k]);
        assert forall|j: int|
            k < j < front.len() && (#[trigger] front[j]) is WriteFile implies place_of(
            front[j]->WriteFile_path,
        ) != place_of(front[k]->WriteFile_path) by {
            assert(front[j] == actions[j]);
        }
        lemma_last_written_is(front, k);
        assert(actions[actions.len() - 1] == actions.last());
    }
}

/// After a run in which every action succeeded, a file holds what was
/// written to it, unless a later action wrote to the same place.
pub proof fn lemma_file_holds_content(fs: FsModel, actions: Seq<ActionModel>, k: int)
    requires
        apply_all(fs, actions) is Some,
        0 <= k < actions.len(),
        actions[k] is WriteFile,
        forall|j: int|
            k < j < actions.len() && (#[trigger] actions[j]) is WriteFile ==> place_of(
                actions[j]->WriteFile_path,
            ) != place_of(actions[k]->WriteFile_path),
    ensures
        apply_all(fs, actions)->0.dom().contains(place_of(actions[k]->WriteFile_path)),
        apply_all(fs, actions)->0[place_of(actions[k]->WriteFile_path)] == (NodeModel::File {
            content: actions[k]->WriteFile_content,
        }),
{
    lemma_last_written_is(actions, k);
    lemma_run_keeps_last_written(fs, actions, place_of(actions[k]->WriteFile_path));
}

/// `action` creates or writes at `q`, if `q` holds nothing yet.
pub open spec fn touches(action: ActionModel, q: Place) -> bool {
    match action {
        ActionModel::CreateDir { path } => leads_to(q, place_of(path)),
        ActionModel::WriteFile { parent, path, .. } => leads_to(q, place_of(parent)) || q
            == place_of(path),
    }
}

/// A run creates nothing but what its actions ask for: a place that holds
/// something after the run and held nothing before it is the place of a
/// written file, or of a created directory, or on the way to one. The
/// result is the index of such an action.
pub proof fn lemma_run_creates_only_planned(fs: FsModel, actions: Seq<ActionModel>, q: Place) -> (k:
    int)
    requires
        apply_all(fs, actions) is Some,
        apply_all(fs, actions)->0.dom().contains(q),
        !fs.dom().contains(q),
    ensures
        0 <= k < actions.len(),
        touches(actions[k], q),
    decreases actions.len(),
{
    let mid = apply_all(fs, actions.drop_last())->0;
    if mid.dom().contains(q) {
        lemma_run_creates_only_planned(fs, actions.drop_last(), q)
    } else {
        actions.len() - 1
    }
}

/// `fs` with each file that `actions` write holding what they write to it
/// last.
pub open spec fn rewritten(fs: FsModel, actions: Seq<ActionModel>) -> FsModel {
    Map::new(
        |q: Place| fs.dom().contains(q),
        |q: Place|
            match last_written(actions, q) {
                Some(content) => NodeModel::File { content },
                None => fs[q],
            },
    )
}

/// A place that `actions` write is the place of one of their writes.
pub proof fn lemma_last_written_by(actions: Seq<ActionModel>, place: Place) -> (k: int)
    requires
        last_written(actions, place) is Some,
    ensures
        0 <= k < actions.len(),
        actions[k] is WriteFile,
        place_of(actions[k]->WriteFile_path) == place,
    decreases actions.len(),
{
    let last = actions.last();
    if last is WriteFile && place_of(last->WriteFile_path) == place {
        actions.len() - 1
    } else {
        lemma_last_written_by(actions.drop_last(), place)
    }
}

/// Where everything that `actions` ask for is in place, rewriting their
/// files changes no kind.
pub proof fn lemma_rewritten_keeps_kinds(fs: FsModel, actions: Seq<ActionModel>, q: Place)
    requires
        forall|k: int| 0 <= k < actions.len() ==> in_place(fs, #[trigger] actions[k]),
    ensures
        is_dir(rewritten(fs, actions), q) == is_dir(fs, q),
        is_file(rewritten(fs, actions), q) == is_file(fs, q),
{
    if last_written(actions, q) is Some {
        let k = lemma_last_written_by(actions, q);
        assert(in_place(fs, actions[k]));
    }
}

/// Where everything that `actions` ask for is already in place, running
/// them succeeds and only rewrites their files.
pub proof fn lemma_run_in_place(fs: FsModel, actions: Seq<ActionModel>)
    requires
        forall|k: int| 0 <= k < actions.len() ==> in_place(fs, #[trigger] actions[k]),
    ensures
        apply_all(fs, actions) == Some(rewritten(fs, actions)),
    decreases actions.len(),
{
    if actions.len() == 0 {
        assert(rewritten(fs, actions) =~= fs);
    } else {
        let front = actions.drop_last();
        let last = actions.last();
        assert forall|k: int| 0 <= k < front.len() implies in_place(fs, #[trigger] front[k]) by {
            assert(front[k] == actions[k]);
        }
        lemma_run_in_place(fs, front);
        let mid = rewritten(fs, front);
        assert(in_place(fs, last));
        assert forall|q: Place| is_dir(mid, q) == is_dir(fs, q) && is_file(mid, q) == is_file(
            fs,
            q,
        ) by {
            lemma_rewritten_keeps_kinds(fs, front, q);
        }
        match last {
            ActionModel::CreateDir { path } => {
                assert forall|above: Place| #[trigger]
                    leads_to(above, place_of(path)) implies !is_file(mid, above) by {
                    assert(is_dir(fs, above));
                }
                assert(make_dirs(mid, place_of(path)) =~= mid) by {
                    assert forall|q: Place| leads_to(q, place_of(path)) implies mid.dom().contains(
                        q,
                    ) && mid[q] is Dir by {
                        assert(is_dir(fs, q));
                    }
                }
                assert(rewritten(fs, actions) =~= mid);
            },
            ActionModel::WriteFile { parent, path, content } => {
                assert forall|above: Place| #[trigger]
                    leads_to(above, place_of(parent)) implies !is_file(mid, above) by {
                    assert(is_dir(fs, above));
                }
                assert(make_dirs(mid, place_of(parent)) =~= mid) by {
                    assert forall|q: Place|
                        leads_to(q, place_of(parent)) implies mid.dom().contains(q)
                        && mid[q] is Dir by {
                        assert(is_dir(fs, q));
                    }
                }
                assert(rewritten(fs, actions) =~= mid.insert(
                    place_of(path),
                    NodeModel::File { content },
                ));
            },
        }
    }
}

/// A second run changes nothing: after a run in which every action
/// succeeded, running the same actions again succeeds and leaves the
/// filesystem as the first run left it.
pub proof fn lemma_second_run_changes_nothing(fs: FsModel, actions: Seq<ActionModel>)
    requires
        apply_all(fs, actions) is Some,
    ensures
        apply_all(apply_all(fs, actions)->0, actions) == apply_all(fs, actions),
{
    let end = apply_all(fs, actions)->0;
    assert forall|k: int| 0 <= k < actions.len() implies in_place(end, #[trigger] actions[k]) by {
        lemma_run_puts_in_place(fs, actions, k);
    }
    lemma_run_in_place(end, actions);
    assert(rewritten(end, actions) =~= end) by {
        assert forall|q: Place| end.dom().contains(q) implies rewritten(end, actions)[q]
            == end[q] by {
            if last_written(actions, q) is Some {
                lemma_run_keeps_last_written(fs, actions, q);
            }
        }
    }
}

} // verus!
