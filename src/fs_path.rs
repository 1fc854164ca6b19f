//! A filesystem path as plain values: an anchor (the root directory or drive
//! prefix, empty for a relative path) and the sequence of names below it.
use vstd::prelude::*;
use vstd::string::*;

verus! {

/// A path as an anchor and its names, one per component.
#[derive(Debug)]
pub struct FsPath {
    pub root: String,
    pub names: Vec<String>,
}

/// The mathematical value of an `FsPath`.
pub struct PathView {
    pub root: Seq<char>,
    pub names: Seq<Seq<char>>,
}

/// The text of each name of a sequence of names.
pub open spec fn names_view(v: Seq<String>) -> Seq<Seq<char>> {
    Seq::new(v.len(), |i: int| v[i]@)
}

impl View for FsPath {
    type V = PathView;

    open spec fn view(&self) -> PathView {
        PathView { root: self.root@, names: names_view(self.names@) }
    }
}

/// The parent-directory segment `..`.
pub open spec fn parent_segment() -> Seq<char> {
    seq!['.', '.']
}

/// Index of the last occurrence of `c` in `s`, or -1 where there is none.
pub open spec fn last_index_of(s: Seq<char>, c: char) -> int
    decreases s.len(),
{
    if s.len() == 0 {
        -1
    } else if s.last() == c {
        s.len() - 1
    } else {
        last_index_of(s.drop_last(), c)
    }
}

/// Index of the dot that starts a name's extension, if the name has one: the
/// last dot, where it is not the first character, of any name but `..`.
pub open spec fn extension_dot(name: Seq<char>) -> Option<int> {
    let d = last_index_of(name, '.');
    if name == parent_segment() || d <= 0 {
        None
    } else {
        Some(d)
    }
}

/// The extension of a name: what follows its extension dot.
pub open spec fn extension_of(name: Seq<char>) -> Option<Seq<char>> {
    match extension_dot(name) {
        Some(d) => Some(name.subrange(d + 1, name.len() as int)),
        None => None,
    }
}

/// A name without its extension and extension dot.
pub open spec fn file_stem(name: Seq<char>) -> Seq<char> {
    match extension_dot(name) {
        Some(d) => name.subrange(0, d),
        None => name,
    }
}

/// A name whose extension is replaced by `ext` (removed where `ext` is empty).
pub open spec fn with_extension(name: Seq<char>, ext: Seq<char>) -> Seq<char> {
    if ext.len() == 0 {
        file_stem(name)
    } else {
        file_stem(name) + seq!['.'] + ext
    }
}

pub proof fn lemma_last_index_bounds(s: Seq<char>, c: char)
    ensures
        -1 <= last_index_of(s, c) < s.len(),
        last_index_of(s, c) >= 0 ==> s[last_index_of(s, c)] == c,
    decreases s.len(),
{
    if s.len() > 0 && s.last() != c {
        lemma_last_index_bounds(s.drop_last(), c);
    }
}

/// Whether two texts are equal, character by character.
pub fn same_text(a: &str, b: &str) -> (r: bool)
    ensures
        r == (a@ == b@),
{
    let n = a.unicode_len();
    let m = b.unicode_len();
    if n != m {
        return false;
    }
    let mut i: usize = 0;
    while i < n
        invariant
            i <= n,
            n == a@.len(),
            m == b@.len(),
            n == m,
            a@.subrange(0, i as int) == b@.subrange(0, i as int),
        decreases n - i,
    {
        if a.get_char(i) != b.get_char(i) {
            return false;
        }
        assert(a@.subrange(0, i + 1) =~= a@.subrange(0, i as int).push(a@[i as int]));
        assert(b@.subrange(0, i + 1) =~= b@.subrange(0, i as int).push(b@[i as int]));
        i += 1;
    }
    assert(a@ =~= a@.subrange(0, n as int));
    assert(b@ =~= b@.subrange(0, n as int));
    true
}

/// Whether a name is the parent-directory segment `..`.
pub fn is_parent_segment(name: &str) -> (r: bool)
    ensures
        r == (name@ == parent_segment()),
{
    let n = name.unicode_len();
    if n != 2 {
        return false;
    }
    let r = name.get_char(0) == '.' && name.get_char(1) == '.';
    assert(r ==> name@ =~= parent_segment());
    r
}

/// Index of the dot that starts the extension of `name`, if any.
pub fn find_extension_dot(name: &str) -> (r: Option<usize>)
    ensures
        r is Some ==> extension_dot(name@) == Some(r->Some_0 as int),
        r is None ==> extension_dot(name@) is None,
{
    if is_parent_segment(name) {
        return None;
    }
    let n = name.unicode_len();
    let mut i: usize = n;
    assert(name@.subrange(0, n as int) =~= name@);
    while i > 0
        invariant
            i <= n,
            n == name@.len(),
            name@ != parent_segment(),
            last_index_of(name@, '.') == last_index_of(name@.subrange(0, i as int), '.'),
        decreases i,
    {
        let ghost pre = name@.subrange(0, i as int);
        assert(pre.drop_last() =~= name@.subrange(0, i - 1));
        if name.get_char(i - 1) == '.' {
            assert(pre.last() == '.');
            assert(last_index_of(pre, '.') == i - 1);
            assert(last_index_of(name@, '.') == i - 1);
            if i - 1 == 0 {
                return None;
            }
            return Some(i - 1);
        }
        i -= 1;
    }
    None
}

/// Whether the extension of `name` is exactly `ext` (case-sensitive).
pub fn extension_matches(name: &str, ext: &str) -> (r: bool)
    ensures
        r == (extension_of(name@) == Some(ext@)),
{
    match find_extension_dot(name) {
        Some(d) => {
            proof {
                lemma_last_index_bounds(name@, '.');
            }
            let n = name.unicode_len();
            let tail = name.substring_char(d + 1, n);
            same_text(tail, ext)
        },
        None => false,
    }
}

/// `name` with its extension replaced by `ext`, removed where `ext` is empty.
pub fn replace_extension(name: &str, ext: &str) -> (r: String)
    ensures
        r@ == with_extension(name@, ext@),
{
    let n = name.unicode_len();
    let stem = match find_extension_dot(name) {
        Some(d) => {
            proof {
                lemma_last_index_bounds(name@, '.');
            }
            name.substring_char(0, d)
        },
        None => name.substring_char(0, n),
    };
    assert(name@.subrange(0, n as int) =~= name@);
    let mut out = String::new();
    out.append(stem);
    assert(out@ =~= file_stem(name@));
    if ext.unicode_len() > 0 {
        proof {
            reveal_strlit(".");
        }
        assert("."@ =~= seq!['.']);
        out.append(".");
        out.append(ext);
    }
    out
}

impl FsPath {
    /// A path from its anchor and names.
    pub fn new(root: String, names: Vec<String>) -> (r: FsPath)
        ensures
            r.root == root,
            r.names == names,
    {
        FsPath { root, names }
    }

    /// A copy of this path.
    pub fn copied(&self) -> (r: FsPath)
        ensures
            r@ == self@,
    {
        let names = copy_names(&self.names, 0);
        assert(names_view(self.names@).subrange(0, self.names.len() as int) =~= names_view(
            self.names@,
        ));
        FsPath { root: self.root.clone(), names }
    }
}

/// The names of `v` from index `from` on.
pub fn copy_names(v: &Vec<String>, from: usize) -> (r: Vec<String>)
    requires
        from <= v.len(),
    ensures
        names_view(r@) == names_view(v@).subrange(from as int, v.len() as int),
{
    let mut out: Vec<String> = Vec::new();
    let mut i: usize = from;
    while i < v.len()
        invariant
            from <= i <= v.len(),
            names_view(out@) =~= names_view(v@).subrange(from as int, i as int),
        decreases v.len() - i,
    {
        let s = v[i].clone();
        let ghost before = out@;
        out.push(s);
        assert(names_view(out@) =~= names_view(before).push(v@[i as int]@));
        assert(names_view(v@).subrange(from as int, i + 1) =~= names_view(v@).subrange(
            from as int,
            i as int,
        ).push(v@[i as int]@));
        i += 1;
    }
    out
}

} // verus!
