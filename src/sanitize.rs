//! Detection and repair of entry names holding characters that downstream
//! tools mis-read (`$`, `~`).
use vstd::prelude::*;
use vstd::string::*;
use crate::fs_path::{FsPath, PathView, names_view};
use crate::discover::{is_below, any_parent_segment, names_start_with};

verus! {

/// The characters that a name must not hold.
pub open spec fn is_danger_char(c: char) -> bool {
    c == '$' || c == '~'
}

/// A character after repair: each dangerous character becomes `_`.
pub open spec fn fixed_char(c: char) -> char {
    if is_danger_char(c) {
        '_'
    } else {
        c
    }
}

/// A name after repair, character by character.
pub open spec fn fixed_name(s: Seq<char>) -> Seq<char> {
    s.map_values(|c: char| fixed_char(c))
}

/// Whether a name holds at least one dangerous character.
pub open spec fn is_mangled_name(s: Seq<char>) -> bool {
    exists|i: int| 0 <= i < s.len() && is_danger_char(#[trigger] s[i])
}

/// Replaces every `$` and `~` of `name` with `_`, keeping all other characters.
pub fn fix_mangled_name(name: &str) -> (r: String)
    ensures
        r@ == fixed_name(name@),
{
    let n = name.unicode_len();
    let mut out = String::new();
    let mut i: usize = 0;
    while i < n
        invariant
            i <= n,
            n == name@.len(),
            out@ == fixed_name(name@.subrange(0, i as int)),
        decreases n - i,
    {
        let c = name.get_char(i);
        if c == '$' || c == '~' {
            proof {
                reveal_strlit("_");
            }
            assert("_"@ =~= seq!['_']);
            out.append("_");
        } else {
            let one = name.substring_char(i, i + 1);
            assert(one@ =~= seq![c]);
            out.append(one);
        }
        assert(name@.subrange(0, i + 1) =~= name@.subrange(0, i as int).push(c));
        assert(fixed_name(name@.subrange(0, i + 1)) =~= fixed_name(name@.subrange(0, i as int)).push(
            fixed_char(c),
        ));
        i += 1;
    }
    assert(name@.subrange(0, n as int) =~= name@);
    out
}

/// Whether `name` holds a `$` or a `~`.
pub fn is_mangled(name: &str) -> (r: bool)
    ensures
        r == is_mangled_name(name@),
{
    let n = name.unicode_len();
    let mut i: usize = 0;
    while i < n
        invariant
            i <= n,
            n == name@.len(),
            forall|j: int| 0 <= j < i ==> !is_danger_char(#[trigger] name@[j]),
        decreases n - i,
    {
        let c = name.get_char(i);
        if c == '$' || c == '~' {
            return true;
        }
        i += 1;
    }
    false
}

/// Names of a path once every name from index `k` on is repaired.
pub open spec fn sanitized_names(k: int, names: Seq<Seq<char>>) -> Seq<Seq<char>> {
    Seq::new(names.len(), |i: int| if i < k { names[i] } else { fixed_name(names[i]) })
}

/// Path `p` once every name of it below `root` is repaired.
pub open spec fn sanitized_path(root: PathView, p: PathView) -> PathView {
    PathView { root: p.root, names: sanitized_names(root.names.len() as int, p.names) }
}

/// Whether the entry at `p` must be renamed: it lies below `root` and its own
/// name holds a dangerous character.
pub open spec fn needs_rename(root: PathView, p: PathView) -> bool {
    is_below(root, p) && is_mangled_name(p.names.last())
}

/// The value of a rename.
pub struct RenameView {
    pub from: PathView,
    pub to: PathView,
}

/// The rename of the entry at `p`, made once every entry above it is repaired:
/// it moves the entry within its repaired parent to its repaired name.
pub open spec fn rename_of(root: PathView, p: PathView) -> RenameView {
    let parent = sanitized_names(root.names.len() as int, p.names.drop_last());
    RenameView {
        from: PathView { root: p.root, names: parent.push(p.names.last()) },
        to: sanitized_path(root, p),
    }
}

/// The renames of the entries of `e` whose paths hold `len` names, in order.
pub open spec fn level_renames(root: PathView, e: Seq<PathView>, len: int) -> Seq<RenameView>
    decreases e.len(),
{
    if e.len() == 0 {
        Seq::empty()
    } else {
        let rest = level_renames(root, e.drop_last(), len);
        if needs_rename(root, e.last()) && e.last().names.len() == len {
            rest.push(rename_of(root, e.last()))
        } else {
            rest
        }
    }
}

/// The renames of the entries of `e` whose paths hold at most `len` names,
/// shallower entries first.
pub open spec fn renames_upto(root: PathView, e: Seq<PathView>, len: int) -> Seq<RenameView>
    decreases len,
{
    if len <= 0 {
        Seq::empty()
    } else {
        renames_upto(root, e, len - 1) + level_renames(root, e, len)
    }
}

/// The greatest number of names of a path of `e`.
pub open spec fn max_names_len(e: Seq<PathView>) -> int
    decreases e.len(),
{
    if e.len() == 0 {
        0
    } else {
        let m = max_names_len(e.drop_last());
        if e.last().names.len() > m {
            e.last().names.len() as int
        } else {
            m
        }
    }
}

/// The renames that repair the tree of `e` below `root`.
pub open spec fn rename_plan(root: PathView, e: Seq<PathView>) -> Seq<RenameView> {
    renames_upto(root, e, max_names_len(e))
}

/// The values of a sequence of paths.
pub open spec fn paths_view(v: Seq<FsPath>) -> Seq<PathView> {
    Seq::new(v.len(), |i: int| v[i]@)
}

/// One rename of a filesystem entry.
#[derive(Debug)]
pub struct Rename {
    pub from: FsPath,
    pub to: FsPath,
}

impl View for Rename {
    type V = RenameView;

    open spec fn view(&self) -> RenameView {
        RenameView { from: self.from@, to: self.to@ }
    }
}

/// The values of a sequence of renames.
pub open spec fn renames_view(v: Seq<Rename>) -> Seq<RenameView> {
    Seq::new(v.len(), |i: int| v[i]@)
}

/// `names[..end]` with every name from index `k` on repaired.
fn sanitize_names(names: &Vec<String>, k: usize, end: usize) -> (r: Vec<String>)
    requires
        end <= names.len(),
    ensures
        names_view(r@) == sanitized_names(k as int, names_view(names@).subrange(0, end as int)),
{
    let mut out: Vec<String> = Vec::new();
    let mut i: usize = 0;
    while i < end
        invariant
            i <= end <= names.len(),
            names_view(out@) =~= sanitized_names(k as int, names_view(names@).subrange(0, i as int)),
        decreases end - i,
    {
        let name = if i < k {
            names[i].clone()
        } else {
            fix_mangled_name(names[i].as_str())
        };
        let ghost before = out@;
        out.push(name);
        assert(names_view(out@) =~= names_view(before).push(name@));
        assert(names_view(names@).subrange(0, i + 1) =~= names_view(names@).subrange(
            0,
            i as int,
        ).push(names@[i as int]@));
        i += 1;
    }
    out
}

/// The rename of the entry at `p`, which holds more than `k` names.
fn rename_for(k: usize, p: &FsPath) -> (r: Rename)
    requires
        k < p.names.len(),
    ensures
        r@ == rename_of(PathView { root: p@.root, names: p@.names.subrange(0, k as int) }, p@),
{
    let n = p.names.len();
    let mut from_names = sanitize_names(&p.names, k, n - 1);
    from_names.push(p.names[n - 1].clone());
    let to_names = sanitize_names(&p.names, k, n);
    let r = Rename {
        from: FsPath { root: p.root.clone(), names: from_names },
        to: FsPath { root: p.root.clone(), names: to_names },
    };
    assert(names_view(p.names@).subrange(0, n - 1) =~= p@.names.drop_last());
    assert(names_view(p.names@).subrange(0, n as int) =~= p@.names);
    assert(r@.from.names =~= rename_of(
        PathView { root: p@.root, names: p@.names.subrange(0, k as int) },
        p@,
    ).from.names);
    r
}

/// Whether the entry at `p` lies below `root` and its own name must be repaired.
fn needs_rename_exec(root: &FsPath, p: &FsPath) -> (r: bool)
    ensures
        r == needs_rename(root@, p@),
{
    let k = root.names.len();
    let n = p.names.len();
    root.root == p.root && n > k && names_start_with(&root.names, &p.names) && !any_parent_segment(
        &p.names,
        k,
    ) && is_mangled(p.names[n - 1].as_str())
}

/// The renames that repair every entry below `root` whose name holds `$` or
/// `~`: each entry keeps its place and has each dangerous character replaced
/// by `_`. Shallower entries come first, so that each rename finds its parent
/// already repaired.
pub fn plan_renames(root: &FsPath, entries: &Vec<FsPath>) -> (r: Vec<Rename>)
    ensures
        renames_view(r@) == rename_plan(root@, paths_view(entries@)),
{
    let ghost e = paths_view(entries@);
    let mut max_len: usize = 0;
    let mut i: usize = 0;
    while i < entries.len()
        invariant
            i <= entries.len(),
            e == paths_view(entries@),
            max_len == max_names_len(e.subrange(0, i as int)),
        decreases entries.len() - i,
    {
        assert(e.subrange(0, i + 1).drop_last() =~= e.subrange(0, i as int));
        if entries[i].names.len() > max_len {
            max_len = entries[i].names.len();
        }
        i += 1;
    }
    assert(e.subrange(0, entries.len() as int) =~= e);
    let mut out: Vec<Rename> = Vec::new();
    let mut len: usize = 0;
    while len < max_len
        invariant
            len <= max_len,
            e == paths_view(entries@),
            max_len == max_names_len(e),
            renames_view(out@) == renames_upto(root@, e, len as int),
        decreases max_len - len,
    {
        len += 1;
        let ghost done = renames_view(out@);
        let mut j: usize = 0;
        while j < entries.len()
            invariant
                j <= entries.len(),
                0 < len <= max_len,
                e == paths_view(entries@),
                done == renames_upto(root@, e, len - 1),
                renames_view(out@) == done + level_renames(root@, e.subrange(0, j as int), len as int),
            decreases entries.len() - j,
        {
            let p = &entries[j];
            assert(e.subrange(0, j + 1).drop_last() =~= e.subrange(0, j as int));
            if p.names.len() == len && needs_rename_exec(root, p) {
                let op = rename_for(root.names.len(), p);
                assert(p@.names.subrange(0, root.names.len() as int) == root@.names);
                let ghost before = renames_view(out@);
                out.push(op);
                assert(renames_view(out@) =~= before.push(op@));
            }
            j += 1;
        }
        assert(e.subrange(0, entries.len() as int) =~= e);
    }
    out
}

/// Repairing a name twice gives what repairing it once gives, and a repaired
/// name holds no dangerous character.
pub proof fn lemma_fix_mangled_name_idempotent(s: Seq<char>)
    ensures
        fixed_name(fixed_name(s)) == fixed_name(s),
        !is_mangled_name(fixed_name(s)),
{
    assert(fixed_name(fixed_name(s)) =~= fixed_name(s));
}

/// Whether no name of a path of `e` below `root` holds a dangerous character.
pub open spec fn is_clean_tree(root: PathView, e: Seq<PathView>) -> bool {
    forall|i: int, j: int|
        0 <= i < e.len() && root.names.len() <= j < e[i].names.len() ==> !is_mangled_name(
            #[trigger] e[i].names[j],
        )
}

proof fn lemma_level_renames_empty(root: PathView, e: Seq<PathView>, len: int)
    requires
        forall|i: int| 0 <= i < e.len() ==> !needs_rename(root, #[trigger] e[i]),
    ensures
        level_renames(root, e, len).len() == 0,
    decreases e.len(),
{
    if e.len() > 0 {
        assert(!needs_rename(root, e[e.len() - 1]));
        let rest = e.drop_last();
        assert forall|i: int| 0 <= i < rest.len() implies !needs_rename(root, #[trigger] rest[i]) by {
            assert(rest[i] == e[i]);
        }
        lemma_level_renames_empty(root, rest, len);
    }
}

proof fn lemma_renames_upto_empty(root: PathView, e: Seq<PathView>, len: int)
    requires
        forall|i: int| 0 <= i < e.len() ==> !needs_rename(root, #[trigger] e[i]),
    ensures
        renames_upto(root, e, len).len() == 0,
    decreases len,
{
    if len > 0 {
        lemma_renames_upto_empty(root, e, len - 1);
        lemma_level_renames_empty(root, e, len);
    }
}

/// On a tree whose names below `root` are all clean, repairing plans no
/// rename and changes no path.
pub proof fn lemma_clean_tree_unchanged(root: PathView, e: Seq<PathView>)
    requires
        is_clean_tree(root, e),
    ensures
        rename_plan(root, e).len() == 0,
        forall|i: int| 0 <= i < e.len() ==> sanitized_path(root, #[trigger] e[i]) == e[i],
{
    assert forall|i: int| 0 <= i < e.len() implies !needs_rename(root, #[trigger] e[i]) by {
        if is_below(root, e[i]) {
            assert(!is_mangled_name(e[i].names[e[i].names.len() - 1]));
        }
    }
    lemma_renames_upto_empty(root, e, max_names_len(e));
    assert forall|i: int| 0 <= i < e.len() implies sanitized_path(root, #[trigger] e[i]) == e[i] by {
        let p = e[i];
        assert forall|j: int| root.names.len() <= j < p.names.len() implies fixed_name(
            #[trigger] p.names[j],
        ) == p.names[j] by {
            assert(!is_mangled_name(e[i].names[j]));
            assert(fixed_name(p.names[j]) =~= p.names[j]);
        }
        assert(sanitized_path(root, p).names =~= p.names);
    }
}

/// Repairing a tree twice gives the paths that repairing it once gives, and
/// once repaired the tree needs no rename.
pub proof fn lemma_sanitize_twice(root: PathView, e: Seq<PathView>)
    ensures
        forall|i: int|
            0 <= i < e.len() ==> sanitized_path(root, sanitized_path(root, #[trigger] e[i]))
                == sanitized_path(root, e[i]),
        rename_plan(root, e.map_values(|p: PathView| sanitized_path(root, p))).len() == 0,
{
    let once = e.map_values(|p: PathView| sanitized_path(root, p));
    assert forall|i: int, j: int|
        0 <= i < once.len() && root.names.len() <= j < once[i].names.len() implies !is_mangled_name(
        #[trigger] once[i].names[j],
    ) by {
        lemma_fix_mangled_name_idempotent(e[i].names[j]);
    }
    lemma_clean_tree_unchanged(root, once);
    assert forall|i: int| 0 <= i < e.len() implies sanitized_path(
        root,
        sanitized_path(root, #[trigger] e[i]),
    ) == sanitized_path(root, e[i]) by {
        assert(once[i] == sanitized_path(root, e[i]));
    }
}

} // verus!
