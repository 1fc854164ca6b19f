use batch_convert::aggregate::{totals, ConversionOutcome};
use batch_convert::discover::{collect_batch, remove_dot, ProcessableEntities, WalkedEntry};
use batch_convert::dispatch::dispatch_plan;
use batch_convert::error::Error;
use batch_convert::fix_mangled_name;
use batch_convert::fs_path::{extension_matches, replace_extension, FsPath};
use batch_convert::output::{plan_conversions, resolve_output};
use batch_convert::sanitize::{is_mangled, plan_renames};

fn path(root: &str, names: &[&str]) -> FsPath {
    FsPath::new(root.to_string(), names.iter().map(|n| n.to_string()).collect())
}

fn file(root: &str, names: &[&str]) -> WalkedEntry {
    WalkedEntry { path: path(root, names), is_file: true }
}

fn dir(root: &str, names: &[&str]) -> WalkedEntry {
    WalkedEntry { path: path(root, names), is_file: false }
}

fn names_of(p: &FsPath) -> Vec<&str> {
    p.names.iter().map(|s| s.as_str()).collect()
}

#[test]
fn test_fix_mangled_name() {
    let name = "some~file$";
    let fixed = fix_mangled_name(name).to_string();
    assert_eq!(fixed, "some_file_");
}

#[test]
fn fix_mangled_name_keeps_clean_names_and_is_idempotent() {
    assert_eq!(fix_mangled_name("plain-name.docx"), "plain-name.docx");
    assert_eq!(fix_mangled_name(""), "");
    let once = fix_mangled_name("$~a$$b~");
    assert_eq!(once, "__a__b_");
    assert_eq!(fix_mangled_name(&once), once);
    assert!(is_mangled("a$b"));
    assert!(is_mangled("~"));
    assert!(!is_mangled("ab"));
}

#[test]
fn remove_dot_strips_one_leading_dot() {
    assert_eq!(remove_dot(".docx"), "docx");
    assert_eq!(remove_dot("docx"), "docx");
    assert_eq!(remove_dot("..x"), ".x");
    assert_eq!(remove_dot(""), "");
}

#[test]
fn extension_rules_follow_path_semantics() {
    assert!(extension_matches("a.docx", "docx"));
    assert!(!extension_matches("a.DOCX", "docx"));
    assert!(extension_matches("a.tar.gz", "gz"));
    assert!(!extension_matches(".docx", "docx"));
    assert!(!extension_matches("docx", "docx"));
    assert!(!extension_matches("..", ""));
    assert_eq!(replace_extension("a.tar.gz", "md"), "a.tar.md");
    assert_eq!(replace_extension("a", "md"), "a.md");
    assert_eq!(replace_extension("a.docx", ""), "a");
    assert_eq!(replace_extension(".bashrc", "md"), ".bashrc.md");
}

fn sample_walk() -> Vec<WalkedEntry> {
    vec![
        dir("/", &["notes"]),
        file("/", &["notes", "a.docx"]),
        dir("/", &["notes", "sub"]),
        file("/", &["notes", "sub", "b.docx"]),
        file("/", &["notes", "sub", "deeper", "c.docx"]),
        file("/", &["notes", "x.txt"]),
        file("/", &["notes", "upper.DOCX"]),
        dir("/", &["notes", "folder.docx"]),
        file("/", &["other", "d.docx"]),
        file("/", &["notes", "..", "e.docx"]),
        file("", &["notes", "f.docx"]),
    ]
}

#[test]
fn discovered_entries_stay_below_root() {
    let root = path("/", &["notes"]);
    let set = collect_batch(&root, ".docx", &sample_walk());
    let rel: Vec<Vec<&str>> = set.files.iter().map(|f| names_of(&f.relative_path)).collect();
    assert_eq!(
        rel,
        vec![vec!["a.docx"], vec!["sub", "b.docx"], vec!["sub", "deeper", "c.docx"]]
    );
    for f in &set.files {
        assert!(!f.relative_path.names.is_empty());
        assert!(f.relative_path.names.iter().all(|n| n != ".."));
        assert_eq!(f.relative_path.root, "");
        assert_eq!(f.absolute_path.root, "/");
        assert_eq!(f.absolute_path.names[..1], root.names[..]);
        assert_eq!(f.absolute_path.names[1..], f.relative_path.names[..]);
    }
}

#[test]
fn discovered_depth_counts_added_components() {
    let root = path("/", &["notes"]);
    let set = collect_batch(&root, "docx", &sample_walk());
    let depths: Vec<usize> = set.files.iter().map(|f| f.depth).collect();
    assert_eq!(depths, vec![1, 2, 3]);
    for f in &set.files {
        assert_eq!(f.depth, f.absolute_path.names.len() - root.names.len());
    }
}

#[test]
fn discovery_tolerates_no_match() {
    let root = path("/", &["notes"]);
    let set = collect_batch(&root, "pdf", &sample_walk());
    assert!(set.files.is_empty());
    let empty = collect_batch(&root, "docx", &vec![]);
    assert!(empty.files.is_empty());
    assert_eq!(empty.root.names, vec!["notes".to_string()]);
}

#[test]
fn add_file_refuses_paths_outside_root() {
    let root = path("/", &["notes"]);
    let mut set = ProcessableEntities::new_with_capacity(&root, 4);
    assert!(set.add_file(&path("/", &["notes", "a.docx"])));
    assert!(!set.add_file(&path("/", &["notes"])));
    assert!(!set.add_file(&path("/", &["elsewhere", "a.docx"])));
    assert!(!set.add_file(&path("/", &["notes", "..", "a.docx"])));
    assert!(!set.add_file(&path("C:\\", &["notes", "a.docx"])));
    assert_eq!(set.files.len(), 1);
}

#[test]
fn clean_tree_needs_no_rename() {
    let root = path("/", &["r"]);
    let entries = vec![path("/", &["r", "a"]), path("/", &["r", "a", "b.docx"])];
    assert!(plan_renames(&root, &entries).is_empty());
}

#[test]
fn dirty_tree_is_renamed_shallow_first_and_once() {
    let root = path("/", &["r$"]);
    // deeper entry first: the plan still renames the parent first
    let entries = vec![
        path("/", &["r$", "a$", "b~.docx"]),
        path("/", &["r$", "a$"]),
        path("/", &["r$", "clean.docx"]),
        path("/", &["elsewhere$"]),
    ];
    let plan = plan_renames(&root, &entries);
    let pairs: Vec<(Vec<&str>, Vec<&str>)> =
        plan.iter().map(|r| (names_of(&r.from), names_of(&r.to))).collect();
    assert_eq!(
        pairs,
        vec![
            (vec!["r$", "a$"], vec!["r$", "a_"]),
            (vec!["r$", "a_", "b~.docx"], vec!["r$", "a_", "b_.docx"]),
        ]
    );
    // the tree after the plan is applied needs nothing more
    let after = vec![
        path("/", &["r$", "a_", "b_.docx"]),
        path("/", &["r$", "a_"]),
        path("/", &["r$", "clean.docx"]),
        path("/", &["elsewhere$"]),
    ];
    assert!(plan_renames(&root, &after).is_empty());
}

#[test]
fn output_mirrors_relative_path_under_output_root() {
    let root = path("", &["notes"]);
    let walk = vec![file("", &["notes", "sub", "a.docx"])];
    let set = collect_batch(&root, "docx", &walk);
    let out_root = path("", &["out"]);
    let out = resolve_output(&set.files[0], "md", Some(&out_root));
    assert_eq!(names_of(&out), vec!["out", "sub", "a.md"]);
    let tasks = plan_conversions(&set, "md", Some(&out_root));
    assert_eq!(names_of(&tasks[0].input), vec!["notes", "sub", "a.docx"]);
    assert_eq!(names_of(&tasks[0].output), vec!["out", "sub", "a.md"]);
    assert_eq!(names_of(&tasks[0].output_dir()), vec!["out", "sub"]);
}

#[test]
fn output_without_root_lands_beside_input() {
    let root = path("/", &["notes"]);
    let walk = vec![file("/", &["notes", "sub", "a.docx"])];
    let set = collect_batch(&root, "docx", &walk);
    let out = resolve_output(&set.files[0], "md", None);
    assert_eq!(out.root, "/");
    assert_eq!(names_of(&out), vec!["notes", "sub", "a.md"]);
}

#[test]
fn existing_output_is_skipped_and_not_counted() {
    let root = path("", &["notes"]);
    let walk = vec![
        file("", &["notes", "sub", "a.docx"]),
        file("", &["notes", "b.docx"]),
    ];
    let set = collect_batch(&root, "docx", &walk);
    let tasks = plan_conversions(&set, "md", Some(&path("", &["out"])));
    let exists: Vec<bool> = tasks.iter().map(|t| names_of(&t.output) == vec!["out", "sub", "a.md"]).collect();
    assert_eq!(exists, vec![true, false]);
    let pending = dispatch_plan(true, "pandoc", &tasks, &exists).unwrap();
    assert_eq!(pending.len(), 1);
    assert_eq!(names_of(&pending[0].output), vec!["out", "b.md"]);
    let outcomes: Vec<ConversionOutcome> = pending.iter().map(|_| ConversionOutcome::Success).collect();
    let report = totals(&outcomes);
    assert_eq!(report.total, 1);
    assert_eq!(report.succeeded, 1);
}

#[test]
fn success_rate_seventy_percent() {
    let mut outcomes = Vec::new();
    for i in 0..10 {
        if i < 3 {
            outcomes.push(ConversionOutcome::TaskFailure(format!("bad {i}")));
        } else {
            outcomes.push(ConversionOutcome::Success);
        }
    }
    let report = totals(&outcomes);
    assert_eq!(report.total, 10);
    assert_eq!(report.succeeded, 7);
    assert_eq!(report.task_failures, 3);
    assert_eq!(report.infrastructure_failures, 0);
    assert_eq!(report.failed(), 3);
    assert_eq!(report.success_rate_hundredths(), 7000);
    assert!(!report.all_succeeded());
}

#[test]
fn success_rate_of_nothing_is_full() {
    let report = totals(&vec![]);
    assert_eq!(report.total, 0);
    assert_eq!(report.success_rate_hundredths(), 10000);
    assert!(report.all_succeeded());
}

#[test]
fn success_rate_rounds_down() {
    let outcomes = vec![
        ConversionOutcome::Success,
        ConversionOutcome::Success,
        ConversionOutcome::InfrastructureFailure("aborted".to_string()),
    ];
    assert_eq!(totals(&outcomes).success_rate_hundredths(), 6666);
}

#[test]
fn not_installed_converter_fails_before_any_task() {
    let root = path("", &["notes"]);
    let set = collect_batch(&root, "docx", &vec![file("", &["notes", "a.docx"])]);
    let tasks = plan_conversions(&set, "md", None);
    let exists = vec![false];
    match dispatch_plan(false, "/usr/bin/pandoc", &tasks, &exists) {
        Err(Error::ConversionProgramNotInstalled(name)) => assert_eq!(name, "/usr/bin/pandoc"),
        other => panic!("unexpected: {:?}", other),
    }
}

#[test]
fn aborted_task_is_isolated_from_the_others() {
    let mut outcomes: Vec<ConversionOutcome> = (0..9).map(|_| ConversionOutcome::Success).collect();
    outcomes.insert(4, ConversionOutcome::InfrastructureFailure("task panicked".to_string()));
    let report = totals(&outcomes);
    assert_eq!(report.total, 10);
    assert_eq!(report.succeeded, 9);
    assert_eq!(report.infrastructure_failures, 1);
    assert_eq!(report.task_failures, 0);
    assert_eq!(report.success_rate_hundredths(), 9000);
}
