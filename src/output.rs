//! Output resolution: where the conversion of each discovered file is written.
use vstd::prelude::*;
use crate::fs_path::{FsPath, PathView, names_view, with_extension, replace_extension, copy_names};
use crate::discover::{FileEntry, FileEntryView, ProcessableEntities, entries_view};

verus! {

/// Names of a path whose last name has its extension replaced by `ext`.
pub open spec fn renamed_last(names: Seq<Seq<char>>, ext: Seq<char>) -> Seq<Seq<char>> {
    if names.len() == 0 {
        names
    } else {
        names.drop_last().push(with_extension(names.last(), ext))
    }
}

/// Where the conversion of entry `e` to extension `ext` is written: beside the
/// input where there is no output root, else below the output root at the
/// entry's relative path.
pub open spec fn resolved_output(e: FileEntryView, ext: Seq<char>, out: Option<PathView>) -> PathView {
    match out {
        None => PathView { root: e.absolute.root, names: renamed_last(e.absolute.names, ext) },
        Some(o) => PathView { root: o.root, names: o.names + renamed_last(e.relative.names, ext) },
    }
}

/// The value of a conversion task.
pub struct TaskView {
    pub input: PathView,
    pub output: PathView,
}

/// The conversion of one file: what is read and what is written.
#[derive(Debug)]
pub struct ConversionTask {
    pub input: FsPath,
    pub output: FsPath,
}

impl View for ConversionTask {
    type V = TaskView;

    open spec fn view(&self) -> TaskView {
        TaskView { input: self.input@, output: self.output@ }
    }
}

/// The values of a sequence of tasks.
pub open spec fn tasks_view(v: Seq<ConversionTask>) -> Seq<TaskView> {
    Seq::new(v.len(), |i: int| v[i]@)
}

/// The task that converts entry `e` to extension `ext`.
pub open spec fn task_of(e: FileEntryView, ext: Seq<char>, out: Option<PathView>) -> TaskView {
    TaskView { input: e.absolute, output: resolved_output(e, ext, out) }
}

/// The view of an optional path.
pub open spec fn opt_view(p: Option<&FsPath>) -> Option<PathView> {
    match p {
        Some(q) => Some(q@),
        None => None,
    }
}

/// `names` with its last name's extension replaced by `ext`, appended to `out`.
fn push_renamed_last(out: &mut Vec<String>, names: &Vec<String>, ext: &str)
    ensures
        names_view(final(out)@) == names_view(old(out)@) + renamed_last(names_view(names@), ext@),
{
    let n = names.len();
    if n == 0 {
        assert(names_view(final(out)@) =~= names_view(old(out)@) + renamed_last(
            names_view(names@),
            ext@,
        ));
        return;
    }
    let mut i: usize = 0;
    while i < n - 1
        invariant
            n == names.len(),
            0 < n,
            i <= n - 1,
            names_view(out@) =~= names_view(old(out)@) + names_view(names@).subrange(0, i as int),
        decreases n - 1 - i,
    {
        let ghost before = out@;
        out.push(names[i].clone());
        assert(names_view(out@) =~= names_view(before).push(names@[i as int]@));
        i += 1;
    }
    let last = replace_extension(names[n - 1].as_str(), ext);
    let ghost before = out@;
    out.push(last);
    assert(names_view(out@) =~= names_view(before).push(last@));
    assert(names_view(names@).subrange(0, n - 1) =~= names_view(names@).drop_last());
}

/// Where the conversion of `entry` to `target_ext` is written. Without an
/// output root it lands beside the input; with one, the entry's path relative
/// to the discovery root is reproduced below the output root.
pub fn resolve_output(entry: &FileEntry, target_ext: &str, output_root: Option<&FsPath>) -> (r:
    FsPath)
    ensures
        r@ == resolved_output(entry@, target_ext@, opt_view(output_root)),
{
    match output_root {
        None => {
            let mut names: Vec<String> = Vec::new();
            push_renamed_last(&mut names, &entry.absolute_path.names, target_ext);
            assert(names_view(names@) =~= renamed_last(entry@.absolute.names, target_ext@));
            FsPath { root: entry.absolute_path.root.clone(), names }
        },
        Some(o) => {
            let mut names = copy_names(&o.names, 0);
            assert(names_view(o.names@).subrange(0, o.names.len() as int) =~= o@.names);
            push_renamed_last(&mut names, &entry.relative_path.names, target_ext);
            FsPath { root: o.root.clone(), names }
        },
    }
}

impl ConversionTask {
    /// The directory that must exist before the output is written: the
    /// output's path without its last name.
    pub fn output_dir(&self) -> (r: FsPath)
        ensures
            r@.root == self.output@.root,
            r@.names == if self.output@.names.len() == 0 {
                self.output@.names
            } else {
                self.output@.names.drop_last()
            },
    {
        let n = self.output.names.len();
        let keep = if n == 0 {
            0
        } else {
            n - 1
        };
        let mut names: Vec<String> = Vec::new();
        let mut i: usize = 0;
        while i < keep
            invariant
                keep <= n,
                n == self.output.names.len(),
                i <= keep,
                names_view(names@) =~= names_view(self.output.names@).subrange(0, i as int),
            decreases keep - i,
        {
            let ghost before = names@;
            names.push(self.output.names[i].clone());
            assert(names_view(names@) =~= names_view(before).push(self.output.names@[i as int]@));
            i += 1;
        }
        FsPath { root: self.output.root.clone(), names }
    }
}

/// One task per discovered file, in order: each reads the file and writes its
/// resolved output.
pub fn plan_conversions(
    set: &ProcessableEntities,
    target_ext: &str,
    output_root: Option<&FsPath>,
) -> (r: Vec<ConversionTask>)
    ensures
        tasks_view(r@) == entries_view(set.files@).map_values(
            |e: FileEntryView| task_of(e, target_ext@, opt_view(output_root)),
        ),
{
    let mut out: Vec<ConversionTask> = Vec::new();
    let mut i: usize = 0;
    while i < set.files.len()
        invariant
            i <= set.files.len(),
            tasks_view(out@) =~= entries_view(set.files@).subrange(0, i as int).map_values(
                |e: FileEntryView| task_of(e, target_ext@, opt_view(output_root)),
            ),
        decreases set.files.len() - i,
    {
        let e = &set.files[i];
        let t = ConversionTask {
            input: e.absolute_path.copied(),
            output: resolve_output(e, target_ext, output_root),
        };
        let ghost before = out@;
        out.push(t);
        assert(tasks_view(out@) =~= tasks_view(before).push(t@));
        i += 1;
    }
    assert(entries_view(set.files@).subrange(0, set.files.len() as int) =~= entries_view(
        set.files@,
    ));
    out
}

} // verus!
