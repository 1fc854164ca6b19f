//! Dispatch planning: which tasks run, decided before any of them starts.
use vstd::prelude::*;
use crate::error::Error;
use crate::output::{ConversionTask, TaskView, tasks_view};

verus! {

/// The tasks of `t` whose output does not exist yet, in order: an existing
/// output counts as converted already and is never overwritten.
pub open spec fn pending_tasks(t: Seq<TaskView>, exists: Seq<bool>) -> Seq<TaskView>
    decreases t.len(),
{
    if t.len() == 0 {
        Seq::empty()
    } else {
        let rest = pending_tasks(t.drop_last(), exists);
        if exists[t.len() - 1] {
            rest
        } else {
            rest.push(t.last())
        }
    }
}

/// Whether `r` is the error that says the converter called `name` is not installed.
pub open spec fn is_not_installed(r: Error, name: Seq<char>) -> bool {
    match r {
        Error::ConversionProgramNotInstalled(n) => n@ == name,
        _ => false,
    }
}

/// The tasks to start. Where the converter does not report itself installed
/// the whole batch fails before any task, with an error that names the
/// converter. Otherwise every task runs but those whose output already exists
/// (`output_exists[i]` for `tasks[i]`), which are skipped.
pub fn dispatch_plan(
    installed: bool,
    converter_name: &str,
    tasks: &Vec<ConversionTask>,
    output_exists: &Vec<bool>,
) -> (r: Result<Vec<ConversionTask>, Error>)
    requires
        output_exists.len() == tasks.len(),
    ensures
        !installed ==> r is Err && is_not_installed(r->Err_0, converter_name@),
        installed ==> r is Ok && tasks_view(r->Ok_0@) == pending_tasks(
            tasks_view(tasks@),
            output_exists@,
        ),
{
    if !installed {
        return Err(Error::ConversionProgramNotInstalled(converter_name.to_string()));
    }
    let ghost all = tasks_view(tasks@);
    let mut out: Vec<ConversionTask> = Vec::new();
    let mut i: usize = 0;
    while i < tasks.len()
        invariant
            i <= tasks.len(),
            output_exists.len() == tasks.len(),
            all == tasks_view(tasks@),
            tasks_view(out@) == pending_tasks(all.subrange(0, i as int), output_exists@),
        decreases tasks.len() - i,
    {
        assert(all.subrange(0, i + 1).drop_last() =~= all.subrange(0, i as int));
        if !output_exists[i] {
            let t = ConversionTask { input: tasks[i].input.copied(), output: tasks[i].output.copied() };
            let ghost before = out@;
            out.push(t);
            assert(tasks_view(out@) =~= tasks_view(before).push(t@));
        }
        i += 1;
    }
    assert(all.subrange(0, tasks.len() as int) =~= all);
    Ok(out)
}

} // verus!
