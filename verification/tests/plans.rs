use fs_scaffold::entry::{DecodeError, EntryKind, FileStructureEntry};
use fs_scaffold::plan::{plan_entries, process_entry, FsAction, PathViolation, Plan};
use fs_scaffold::run::{MaterializationError, Materializer};

fn file(path: &str, content: &str) -> FileStructureEntry {
    FileStructureEntry {
        path: path.to_string(),
        kind: EntryKind::File,
        content: content.to_string(),
        children: Vec::new(),
    }
}

fn dir(path: &str, children: Vec<FileStructureEntry>) -> FileStructureEntry {
    FileStructureEntry {
        path: path.to_string(),
        kind: EntryKind::Directory,
        content: String::new(),
        children,
    }
}

fn create(path: &str) -> FsAction {
    FsAction::CreateDir { path: path.to_string() }
}

fn write(parent: &str, path: &str, content: &str) -> FsAction {
    FsAction::WriteFile {
        parent: parent.to_string(),
        path: path.to_string(),
        content: content.to_string(),
    }
}

fn violation(base: &str, path: &str) -> PathViolation {
    PathViolation { base: base.to_string(), path: path.to_string() }
}

/// Runs `plan`, with the action at index `fail_at` failing for `reason`.
/// Returns the actions performed and the result.
fn run_failing_at(
    plan: Plan,
    fail_at: Option<usize>,
    reason: &str,
) -> (Vec<FsAction>, Result<(), MaterializationError>) {
    let mut run = Materializer::from_plan(plan);
    let mut performed = Vec::new();
    loop {
        let action = match run.pending() {
            Some(a) => a.clone(),
            None => break,
        };
        let index = performed.len();
        performed.push(action);
        if Some(index) == fail_at {
            run.record(Err(reason.to_string()));
        } else {
            run.record(Ok(()));
        }
    }
    (performed, run.result().unwrap())
}

#[test]
fn directory_with_file_is_created_then_written() {
    let entries = vec![dir("src", vec![file("main.txt", "hello")])];
    let plan = plan_entries(&entries, "/tmp/proj");
    assert_eq!(
        plan.actions,
        vec![
            create("/tmp/proj/src"),
            write("/tmp/proj/src", "/tmp/proj/src/main.txt", "hello"),
        ]
    );
    assert_eq!(plan.rejected, None);
}

#[test]
fn file_and_directory_side_by_side() {
    let entries = vec![file("a", ""), dir("b", Vec::new())];
    let plan = plan_entries(&entries, "root");
    assert_eq!(plan.actions, vec![write("root", "root/a", ""), create("root/b")]);
    assert_eq!(plan.rejected, None);
}

#[test]
fn empty_layout_has_empty_plan() {
    let plan = plan_entries(&Vec::new(), "/tmp/proj");
    assert_eq!(plan, Plan { actions: Vec::new(), rejected: None });
}

#[test]
fn single_file_entry_is_one_write() {
    let plan = process_entry(&file("notes/todo.txt", "x"), "/home/u");
    assert_eq!(plan.actions, vec![write("/home/u/notes", "/home/u/notes/todo.txt", "x")]);
    assert_eq!(plan.rejected, None);
}

#[test]
fn single_directory_entry_is_one_creation() {
    let plan = process_entry(&dir("a/b", Vec::new()), "/r/");
    assert_eq!(plan.actions, vec![create("/r/a/b")]);
    assert_eq!(plan.rejected, None);
}

#[test]
fn children_follow_their_directory_in_listed_order() {
    let entries = vec![
        dir(
            "top",
            vec![
                file("z.txt", "1"),
                dir("mid", vec![file("deep/x.txt", "2"), dir("leaf", Vec::new())]),
                file("a.txt", "3"),
            ],
        ),
        file("last.txt", "4"),
    ];
    let plan = plan_entries(&entries, "/r");
    assert_eq!(
        plan.actions,
        vec![
            create("/r/top"),
            write("/r/top", "/r/top/z.txt", "1"),
            create("/r/top/mid"),
            write("/r/top/mid/deep", "/r/top/mid/deep/x.txt", "2"),
            create("/r/top/mid/leaf"),
            write("/r/top", "/r/top/a.txt", "3"),
            write("/r", "/r/last.txt", "4"),
        ]
    );
    assert_eq!(plan.rejected, None);
}

#[test]
fn one_action_for_each_entry() {
    let entries = vec![
        dir("a", vec![dir("b", vec![file("c", ""), file("d", "")]), file("e", "")]),
        file("f", ""),
        dir("g", Vec::new()),
    ];
    let plan = plan_entries(&entries, "/r");
    assert_eq!(plan.actions.len(), 7);
    assert_eq!(plan.rejected, None);
}

#[test]
fn children_of_a_file_are_ignored() {
    let mut with_children = file("a.txt", "text");
    with_children.children = vec![file("../../ignored", "x"), dir("sub", Vec::new())];
    let plain = file("a.txt", "text");
    let plan = process_entry(&with_children, "/r");
    assert_eq!(plan, process_entry(&plain, "/r"));
    assert_eq!(plan.actions, vec![write("/r", "/r/a.txt", "text")]);
}

#[test]
fn escaping_entry_is_rejected_with_no_action() {
    let entry = dir("../escape", vec![file("inside.txt", "x")]);
    let plan = process_entry(&entry, "/tmp/proj");
    assert_eq!(plan.actions, Vec::new());
    assert_eq!(plan.rejected, Some(violation("/tmp/proj", "../escape")));
}

#[test]
fn absolute_entry_is_rejected() {
    let plan = plan_entries(&vec![file("/etc/passwd", "x")], "/tmp/proj");
    assert_eq!(plan.actions, Vec::new());
    assert_eq!(plan.rejected, Some(violation("/tmp/proj", "/etc/passwd")));
}

#[test]
fn empty_path_is_rejected() {
    let plan = plan_entries(&vec![dir("", Vec::new())], "/tmp/proj");
    assert_eq!(plan.actions, Vec::new());
    assert_eq!(plan.rejected, Some(violation("/tmp/proj", "")));
}

#[test]
fn planning_stops_at_the_first_rejected_entry() {
    let entries = vec![
        file("first.txt", "1"),
        dir("d", vec![file("ok.txt", "2"), file("x/../../y", "3"), file("never.txt", "4")]),
        file("after.txt", "5"),
    ];
    let plan = plan_entries(&entries, "/r");
    assert_eq!(
        plan.actions,
        vec![write("/r", "/r/first.txt", "1"), create("/r/d"), write("/r/d", "/r/d/ok.txt", "2")]
    );
    assert_eq!(plan.rejected, Some(violation("/r/d", "x/../../y")));
}

#[test]
fn every_planned_path_starts_with_the_root() {
    let entries = vec![dir("a/b", vec![file("c/d.txt", ""), dir("e", vec![file("f", "")])])];
    let plan = plan_entries(&entries, "/base");
    assert_eq!(plan.actions.len(), 4);
    for action in &plan.actions {
        match action {
            FsAction::CreateDir { path } => assert!(path.starts_with("/base/")),
            FsAction::WriteFile { parent, path, .. } => {
                assert!(path.starts_with("/base/"));
                assert!(parent.starts_with("/base"));
                assert!(path.starts_with(parent.as_str()));
            }
        }
    }
}

#[test]
fn planning_twice_gives_the_same_plan() {
    let entries = vec![dir("src", vec![file("main.txt", "hello")]), file("README", "r")];
    assert_eq!(plan_entries(&entries, "/tmp/proj"), plan_entries(&entries, "/tmp/proj"));
}

#[test]
fn run_performs_every_action_when_all_succeed() {
    let entries = vec![dir("src", vec![file("main.txt", "hello")])];
    let plan = plan_entries(&entries, "/tmp/proj");
    let expected = plan.actions.clone();
    let (performed, result) = run_failing_at(plan, None, "");
    assert_eq!(performed, expected);
    assert_eq!(result, Ok(()));
}

#[test]
fn run_of_new_starts_with_the_first_action() {
    let entries = vec![file("a", ""), dir("b", Vec::new())];
    let mut run = Materializer::new("root", &entries);
    assert_eq!(run.result(), None);
    assert_eq!(run.pending(), Some(&write("root", "root/a", "")));
    run.record(Ok(()));
    assert_eq!(run.result(), None);
    assert_eq!(run.pending(), Some(&create("root/b")));
    run.record(Ok(()));
    assert_eq!(run.pending(), None);
    assert_eq!(run.result(), Some(Ok(())));
}

#[test]
fn run_stops_at_the_first_failure() {
    let entries = vec![file("a", ""), dir("b", Vec::new()), file("c", "")];
    let plan = plan_entries(&entries, "root");
    let (performed, result) = run_failing_at(plan, Some(1), "permission denied");
    assert_eq!(performed, vec![write("root", "root/a", ""), create("root/b")]);
    assert_eq!(
        result,
        Err(MaterializationError::Io {
            path: "root/b".to_string(),
            reason: "permission denied".to_string(),
        })
    );
}

#[test]
fn failed_write_is_reported_at_the_file_path() {
    let plan = plan_entries(&vec![file("d/a.txt", "x"), dir("b", Vec::new())], "root");
    let (performed, result) = run_failing_at(plan, Some(0), "disk full");
    assert_eq!(performed, vec![write("root/d", "root/d/a.txt", "x")]);
    assert_eq!(
        result,
        Err(MaterializationError::Io {
            path: "root/d/a.txt".to_string(),
            reason: "disk full".to_string(),
        })
    );
}

#[test]
fn reports_after_the_end_change_nothing() {
    let mut run = Materializer::new("root", &vec![file("a", "")]);
    run.record(Err("no space".to_string()));
    let ended = run.result();
    run.record(Ok(()));
    run.record(Err("other".to_string()));
    assert_eq!(run.pending(), None);
    assert_eq!(run.result(), ended);
    assert_eq!(
        ended,
        Some(Err(MaterializationError::Io {
            path: "root/a".to_string(),
            reason: "no space".to_string(),
        }))
    );
}

#[test]
fn run_of_rejected_plan_ends_in_the_violation() {
    let entries = vec![file("ok.txt", "1"), file("../escape", "2"), file("later.txt", "3")];
    let plan = plan_entries(&entries, "/r");
    let (performed, result) = run_failing_at(plan, None, "");
    assert_eq!(performed, vec![write("/r", "/r/ok.txt", "1")]);
    assert_eq!(
        result,
        Err(MaterializationError::PathViolation {
            base: "/r".to_string(),
            path: "../escape".to_string(),
        })
    );
}

#[test]
fn run_of_empty_plan_is_over_at_once() {
    let run = Materializer::new("/r", &Vec::new());
    assert_eq!(run.pending(), None);
    assert_eq!(run.result(), Some(Ok(())));
}

#[test]
fn tags_name_the_two_kinds() {
    assert_eq!(EntryKind::from_tag("dir"), Some(EntryKind::Directory));
    assert_eq!(EntryKind::from_tag("file"), Some(EntryKind::File));
    assert_eq!(EntryKind::from_tag("Dir"), None);
    assert_eq!(EntryKind::from_tag("files"), None);
    assert_eq!(EntryKind::from_tag("fil"), None);
    assert_eq!(EntryKind::from_tag(""), None);
    assert_eq!(EntryKind::from_tag("symlink"), None);
}

#[test]
fn entry_without_type_is_not_decoded() {
    let decoded = FileStructureEntry::from_parts(Some("a".to_string()), None, None, None);
    assert_eq!(decoded, Err(DecodeError::MissingType));
}

#[test]
fn entry_without_path_is_not_decoded() {
    let decoded = FileStructureEntry::from_parts(None, Some("dir".to_string()), None, None);
    assert_eq!(decoded, Err(DecodeError::MissingPath));
    let neither = FileStructureEntry::from_parts(None, None, None, None);
    assert_eq!(neither, Err(DecodeError::MissingPath));
}

#[test]
fn entry_of_unknown_type_is_not_decoded() {
    let decoded =
        FileStructureEntry::from_parts(Some("a".to_string()), Some("link".to_string()), None, None);
    assert_eq!(decoded, Err(DecodeError::UnknownType { found: "link".to_string() }));
}

#[test]
fn absent_content_and_children_are_empty() {
    let decoded =
        FileStructureEntry::from_parts(Some("a".to_string()), Some("file".to_string()), None, None);
    assert_eq!(decoded, Ok(file("a", "")));
    let plan = process_entry(&decoded.unwrap(), "/r");
    assert_eq!(plan.actions, vec![write("/r", "/r/a", "")]);
}

#[test]
fn absent_children_are_the_same_as_none() {
    let omitted =
        FileStructureEntry::from_parts(Some("d".to_string()), Some("dir".to_string()), None, None);
    let empty = FileStructureEntry::from_parts(
        Some("d".to_string()),
        Some("dir".to_string()),
        None,
        Some(Vec::new()),
    );
    assert_eq!(omitted, empty);
    assert_eq!(omitted, Ok(dir("d", Vec::new())));
}

#[test]
fn declared_fields_are_kept() {
    let decoded = FileStructureEntry::from_parts(
        Some("d".to_string()),
        Some("dir".to_string()),
        Some("unused".to_string()),
        Some(vec![file("a", "x")]),
    );
    let entry = decoded.unwrap();
    assert_eq!(entry.path, "d");
    assert_eq!(entry.kind, EntryKind::Directory);
    assert_eq!(entry.content, "unused");
    assert_eq!(entry.children, vec![file("a", "x")]);
}
