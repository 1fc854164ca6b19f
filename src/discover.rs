//! Discovery: the documents of one extension found below a root, each with its
//! path relative to the root and its depth.
use vstd::prelude::*;
use vstd::string::*;
use crate::fs_path::{
    FsPath,
    PathView,
    names_view,
    parent_segment,
    extension_of,
    is_parent_segment,
    extension_matches,
    copy_names,
};

verus! {

/// An extension with one leading `.` taken off, if it has one.
pub open spec fn strip_one_dot(s: Seq<char>) -> Seq<char> {
    if s.len() > 0 && s[0] == '.' {
        s.subrange(1, s.len() as int)
    } else {
        s
    }
}

/// Whether some name of `names` is the parent-directory segment.
pub open spec fn has_parent_segment(names: Seq<Seq<char>>) -> bool {
    exists|i: int| 0 <= i < names.len() && #[trigger] names[i] == parent_segment()
}

/// Whether `p` lies strictly below `root` and, below it, never climbs back up.
pub open spec fn is_below(root: PathView, p: PathView) -> bool {
    &&& p.root == root.root
    &&& root.names.len() < p.names.len()
    &&& p.names.subrange(0, root.names.len() as int) == root.names
    &&& !has_parent_segment(p.names.subrange(root.names.len() as int, p.names.len() as int))
}

/// The value of a discovered file.
pub struct FileEntryView {
    pub absolute: PathView,
    pub relative: PathView,
    pub depth: int,
}

/// The entry for path `p` found below `root`.
pub open spec fn entry_of(root: PathView, p: PathView) -> FileEntryView {
    FileEntryView {
        absolute: p,
        relative: PathView {
            root: Seq::empty(),
            names: p.names.subrange(root.names.len() as int, p.names.len() as int),
        },
        depth: p.names.len() - root.names.len(),
    }
}

/// A discovered file: its path, its path relative to the discovery root, and
/// the number of names it adds to the root.
#[derive(Debug)]
pub struct FileEntry {
    pub absolute_path: FsPath,
    pub relative_path: FsPath,
    pub depth: usize,
}

impl View for FileEntry {
    type V = FileEntryView;

    open spec fn view(&self) -> FileEntryView {
        FileEntryView {
            absolute: self.absolute_path@,
            relative: self.relative_path@,
            depth: self.depth as int,
        }
    }
}

/// The values of a sequence of entries.
pub open spec fn entries_view(v: Seq<FileEntry>) -> Seq<FileEntryView> {
    Seq::new(v.len(), |i: int| v[i]@)
}

/// An entry of a directory walk: its path and whether it is a regular file.
#[derive(Debug)]
pub struct WalkedEntry {
    pub path: FsPath,
    pub is_file: bool,
}

/// Whether a walked entry is a document with extension `ext` below `root`.
pub open spec fn is_match(root: PathView, ext: Seq<char>, e: WalkedEntry) -> bool {
    &&& e.is_file
    &&& is_below(root, e.path@)
    &&& extension_of(e.path@.names.last()) == Some(ext)
}

/// The entries that discovery under `root` keeps of a walk, in walk order.
pub open spec fn discovered(root: PathView, ext: Seq<char>, w: Seq<WalkedEntry>) -> Seq<
    FileEntryView,
>
    decreases w.len(),
{
    if w.len() == 0 {
        Seq::empty()
    } else {
        let rest = discovered(root, ext, w.drop_last());
        if is_match(root, ext, w.last()) {
            rest.push(entry_of(root, w.last().path@))
        } else {
            rest
        }
    }
}

/// Validity of an entry found under `root`: its relative path is not empty,
/// never climbs back up, and is what its path adds to the root; its depth
/// counts those names.
pub open spec fn entry_wf(root: PathView, e: FileEntryView) -> bool {
    &&& e.absolute.root == root.root
    &&& e.absolute.names == root.names + e.relative.names
    &&& e.relative.root.len() == 0
    &&& e.relative.names.len() > 0
    &&& !has_parent_segment(e.relative.names)
    &&& e.depth == e.relative.names.len()
}

/// The files of one extension found below a root.
#[derive(Debug)]
pub struct ProcessableEntities {
    pub root: FsPath,
    pub files: Vec<FileEntry>,
}

impl ProcessableEntities {
    /// Every entry is valid for the root.
    pub open spec fn wf(&self) -> bool {
        forall|i: int| 0 <= i < self.files.len() ==> entry_wf(self.root@, #[trigger] self.files@[i]@)
    }

    /// An empty set under `root`, with room for `capacity` files.
    pub fn new_with_capacity(root: &FsPath, capacity: usize) -> (r: ProcessableEntities)
        ensures
            r.wf(),
            r.root@ == root@,
            r.files@.len() == 0,
    {
        ProcessableEntities { root: root.copied(), files: Vec::with_capacity(capacity) }
    }

    /// Adds `path` where it lies below the root and never climbs back up;
    /// says whether it did.
    pub fn add_file(&mut self, path: &FsPath) -> (r: bool)
        requires
            old(self).wf(),
        ensures
            final(self).wf(),
            final(self).root@ == old(self).root@,
            r == is_below(old(self).root@, path@),
            entries_view(final(self).files@) == if r {
                entries_view(old(self).files@).push(entry_of(old(self).root@, path@))
            } else {
                entries_view(old(self).files@)
            },
    {
        let k = self.root.names.len();
        let n = path.names.len();
        if self.root.root != path.root || n <= k || !names_start_with(&self.root.names, &path.names)
            || any_parent_segment(&path.names, k) {
            return false;
        }
        let entry = FileEntry {
            absolute_path: path.copied(),
            relative_path: FsPath { root: String::new(), names: copy_names(&path.names, k) },
            depth: n - k,
        };
        let ghost before = self.files@;
        self.files.push(entry);
        proof {
            let pv = path@;
            assert(pv.names =~= pv.names.subrange(0, k as int) + pv.names.subrange(
                k as int,
                n as int,
            ));
            assert(entries_view(self.files@) =~= entries_view(before).push(
                entry_of(self.root@, path@),
            ));
            assert forall|i: int| 0 <= i < self.files.len() implies entry_wf(
                self.root@,
                #[trigger] self.files@[i]@,
            ) by {
                if i < before.len() {
                    assert(self.files@[i] == before[i]);
                }
            }
        }
        true
    }
}

/// Whether `names` starts with all of `prefix`.
pub fn names_start_with(prefix: &Vec<String>, names: &Vec<String>) -> (r: bool)
    ensures
        r == (prefix.len() <= names.len() && names_view(names@).subrange(0, prefix.len() as int)
            == names_view(prefix@)),
{
    if prefix.len() > names.len() {
        return false;
    }
    let mut i: usize = 0;
    while i < prefix.len()
        invariant
            i <= prefix.len() <= names.len(),
            forall|j: int| 0 <= j < i ==> names@[j]@ == prefix@[j]@,
        decreases prefix.len() - i,
    {
        if names[i] != prefix[i] {
            assert(names_view(names@).subrange(0, prefix.len() as int)[i as int] != names_view(
                prefix@,
            )[i as int]);
            return false;
        }
        i += 1;
    }
    assert(names_view(names@).subrange(0, prefix.len() as int) =~= names_view(prefix@));
    true
}

/// Whether a name of `names` from index `from` on is the parent-directory segment.
pub fn any_parent_segment(names: &Vec<String>, from: usize) -> (r: bool)
    requires
        from <= names.len(),
    ensures
        r == has_parent_segment(names_view(names@).subrange(from as int, names.len() as int)),
{
    let ghost tail = names_view(names@).subrange(from as int, names.len() as int);
    let mut i: usize = from;
    while i < names.len()
        invariant
            from <= i <= names.len(),
            tail == names_view(names@).subrange(from as int, names.len() as int),
            forall|j: int| 0 <= j < i - from ==> tail[j] != parent_segment(),
        decreases names.len() - i,
    {
        if is_parent_segment(names[i].as_str()) {
            assert(tail[i - from] == parent_segment());
            return true;
        }
        i += 1;
    }
    false
}

/// `ext` with one leading `.` taken off, if it has one.
pub fn remove_dot(ext: &str) -> (r: &str)
    ensures
        r@ == strip_one_dot(ext@),
{
    let n = ext.unicode_len();
    if n > 0 && ext.get_char(0) == '.' {
        ext.substring_char(1, n)
    } else {
        ext
    }
}

/// The documents among the entries of a walk of `root` whose extension is
/// `ext` (given with or without its leading `.`), in walk order.
pub fn collect_batch(root: &FsPath, ext: &str, walked: &Vec<WalkedEntry>) -> (r:
    ProcessableEntities)
    ensures
        r.wf(),
        r.root@ == root@,
        entries_view(r.files@) == discovered(root@, strip_one_dot(ext@), walked@),
{
    let ext = remove_dot(ext);
    let mut set = ProcessableEntities::new_with_capacity(root, walked.len());
    let mut i: usize = 0;
    while i < walked.len()
        invariant
            i <= walked.len(),
            set.wf(),
            set.root@ == root@,
            entries_view(set.files@) == discovered(root@, ext@, walked@.subrange(0, i as int)),
        decreases walked.len() - i,
    {
        let e = &walked[i];
        assert(walked@.subrange(0, i + 1).drop_last() =~= walked@.subrange(0, i as int));
        let n = e.path.names.len();
        if e.is_file && n > 0 && extension_matches(e.path.names[n - 1].as_str(), ext) {
            set.add_file(&e.path);
        }
        i += 1;
    }
    assert(walked@.subrange(0, walked.len() as int) =~= walked@);
    set
}

/// Every entry that discovery keeps has a relative path that is not empty,
/// holds no parent-directory segment, and is exactly what the entry's path adds
/// below the root.
pub proof fn lemma_relative_path_below_root(root: PathView, ext: Seq<char>, w: Seq<WalkedEntry>)
    ensures
        forall|j: int|
            #![trigger discovered(root, ext, w)[j]]
            0 <= j < discovered(root, ext, w).len() ==> {
                let e = discovered(root, ext, w)[j];
                &&& e.relative.names.len() > 0
                &&& !has_parent_segment(e.relative.names)
                &&& e.absolute.root == root.root
                &&& e.absolute.names == root.names + e.relative.names
            },
    decreases w.len(),
{
    if w.len() > 0 {
        lemma_relative_path_below_root(root, ext, w.drop_last());
        let rest = discovered(root, ext, w.drop_last());
        let d = discovered(root, ext, w);
        let p = w.last().path@;
        if is_match(root, ext, w.last()) {
            assert(p.names =~= root.names + p.names.subrange(
                root.names.len() as int,
                p.names.len() as int,
            ));
            assert forall|j: int| 0 <= j < d.len() implies {
                let e = #[trigger] d[j];
                &&& e.relative.names.len() > 0
                &&& !has_parent_segment(e.relative.names)
                &&& e.absolute.root == root.root
                &&& e.absolute.names == root.names + e.relative.names
            } by {
                if j < rest.len() {
                    assert(d[j] == rest[j]);
                }
            }
        }
    }
}

/// The depth of every entry that discovery keeps is the number of names its
/// path adds to the root, at least one.
pub proof fn lemma_depth_counts_added_names(root: PathView, ext: Seq<char>, w: Seq<WalkedEntry>)
    ensures
        forall|j: int|
            #![trigger discovered(root, ext, w)[j]]
            0 <= j < discovered(root, ext, w).len() ==> {
                let e = discovered(root, ext, w)[j];
                &&& e.depth == e.absolute.names.len() - root.names.len()
                &&& e.depth == e.relative.names.len()
                &&& e.depth >= 1
            },
    decreases w.len(),
{
    if w.len() > 0 {
        lemma_depth_counts_added_names(root, ext, w.drop_last());
        let rest = discovered(root, ext, w.drop_last());
        let d = discovered(root, ext, w);
        if is_match(root, ext, w.last()) {
            assert forall|j: int| 0 <= j < d.len() implies {
                let e = #[trigger] d[j];
                &&& e.depth == e.absolute.names.len() - root.names.len()
                &&& e.depth == e.relative.names.len()
                &&& e.depth >= 1
            } by {
                if j < rest.len() {
                    assert(d[j] == rest[j]);
                }
            }
        }
    }
}

} // verus!
