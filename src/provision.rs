//! Locating the Pandoc program: the candidate paths to probe, and the outcome.
use vstd::prelude::*;
use vstd::string::*;
use crate::error::Error;
use crate::fs_path::{FsPath, PathView, names_view, copy_names};

verus! {

/// The names under which the Pandoc program may be installed, in the order
/// they are tried.
pub open spec fn candidate_names() -> Seq<Seq<char>> {
    seq!["pandoc"@, "pandoc-bin"@, "pandoc-cli"@]
}

/// Directory `d` joined with `name`.
pub open spec fn joined(d: PathView, name: Seq<char>) -> PathView {
    PathView { root: d.root, names: d.names.push(name) }
}

/// The paths to probe for the Pandoc program: each directory of the search
/// path in order, and within it each candidate name in order.
pub fn pandoc_candidates(dirs: &Vec<FsPath>) -> (r: Vec<FsPath>)
    requires
        dirs.len() * 3 <= usize::MAX,
    ensures
        r.len() == dirs.len() * 3,
        forall|i: int, j: int|
            0 <= i < dirs.len() && 0 <= j < 3 ==> #[trigger] r@[i * 3 + j]@ == joined(
                dirs@[i]@,
                candidate_names()[j],
            ),
{
    let mut out: Vec<FsPath> = Vec::new();
    let mut i: usize = 0;
    while i < dirs.len()
        invariant
            i <= dirs.len(),
            dirs.len() * 3 <= usize::MAX,
            out.len() == i * 3,
            forall|a: int, b: int|
                0 <= a < i && 0 <= b < 3 ==> #[trigger] out@[a * 3 + b]@ == joined(
                    dirs@[a]@,
                    candidate_names()[b],
                ),
        decreases dirs.len() - i,
    {
        let ghost before = out@;
        out.push(join_name(&dirs[i], "pandoc"));
        out.push(join_name(&dirs[i], "pandoc-bin"));
        out.push(join_name(&dirs[i], "pandoc-cli"));
        assert forall|a: int, b: int| 0 <= a < i + 1 && 0 <= b < 3 implies #[trigger] out@[a * 3
            + b]@ == joined(dirs@[a]@, candidate_names()[b]) by {
            if a < i {
                assert(a * 3 + b < i * 3) by (nonlinear_arith)
                    requires
                        a < i,
                        b < 3,
                ;
                assert(out@[a * 3 + b] == before[a * 3 + b]);
            } else {
                assert(a * 3 + b == i * 3 + b);
            }
        }
        i += 1;
    }
    out
}

/// Directory `d` joined with `name`.
fn join_name(d: &FsPath, name: &str) -> (r: FsPath)
    ensures
        r@ == joined(d@, name@),
{
    let mut names = copy_names(&d.names, 0);
    let ghost before = names@;
    names.push(name.to_string());
    assert(names_view(d.names@).subrange(0, d.names.len() as int) =~= d@.names);
    assert(names_view(names@) =~= names_view(before).push(name@));
    FsPath { root: d.root.clone(), names }
}

/// The Pandoc program's path where a probe found one; else the error that
/// says it was not found.
pub fn get_pandoc_path(found: Option<FsPath>) -> (r: Result<FsPath, Error>)
    ensures
        found is Some ==> r is Ok && r->Ok_0@ == found->Some_0@,
        found is None ==> r is Err && r->Err_0 is PandocNotFound,
{
    match found {
        Some(p) => Ok(p),
        None => Err(Error::PandocNotFound("Could not find pandoc binary in PATH".to_string())),
    }
}

} // verus!
