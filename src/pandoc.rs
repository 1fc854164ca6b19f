//! The Pandoc converter's configuration and the paths it derives.
use vstd::prelude::*;
use vstd::string::*;
use crate::error::Error;
use crate::fs_path::{FsPath, PathView, parent_segment, file_stem, names_view, copy_names};

verus! {

/// Whether the last name of `p` names an entry: there is one, and it is
/// neither `.` nor `..`.
pub open spec fn has_file_name(p: PathView) -> bool {
    p.names.len() > 0 && p.names.last() != seq!['.'] && p.names.last() != parent_segment()
}

/// The folder that receives the media extracted while writing `p`: a sibling
/// of `p` named after its stem.
pub open spec fn media_folder_of(p: PathView) -> PathView {
    PathView { root: p.root, names: p.names.drop_last().push(file_stem(p.names.last())) }
}

/// The converter that runs the Pandoc program found at `program_name`.
#[derive(Debug)]
pub struct PandocConverter {
    pub program_name: String,
}

impl PandocConverter {
    /// A converter for the program at `program_name`, resolved once at startup.
    pub fn new(program_name: String) -> (r: PandocConverter)
        ensures
            r.program_name@ == program_name@,
    {
        PandocConverter { program_name }
    }

    /// The name under which the converter is reported: its program's path.
    pub fn name(&self) -> (r: String)
        ensures
            r@ == self.program_name@,
    {
        self.program_name.clone()
    }

    /// The media folder for output `path`: `path` with its last name replaced
    /// by that name's stem. Fails where `path` names no entry.
    pub fn media_folder(path: &FsPath) -> (r: Result<FsPath, Error>)
        ensures
            has_file_name(path@) ==> r is Ok && r->Ok_0@ == media_folder_of(path@),
            !has_file_name(path@) ==> r is Err && r->Err_0 is Generic,
    {
        let n = path.names.len();
        if n == 0 {
            return Err(Error::Generic("Failed to get file stem from path".to_string()));
        }
        let last = path.names[n - 1].as_str();
        let k = last.unicode_len();
        if (k == 1 && last.get_char(0) == '.') || crate::fs_path::is_parent_segment(last) {
            assert(k == 1 && last@[0] == '.' ==> last@ =~= seq!['.']);
            return Err(Error::Generic("Failed to get file stem from path".to_string()));
        }
        assert(last@ == seq!['.'] ==> k == 1 && last@[0] == '.');
        let mut names = copy_names(&path.names, 0);
        assert(names_view(path.names@).subrange(0, n as int) =~= names_view(path.names@));
        let ghost full = names@;
        names.pop();
        assert(names_view(names@) =~= names_view(full).drop_last());
        let stem = stem_of(last);
        let ghost before = names@;
        names.push(stem);
        assert(names_view(names@) =~= names_view(path.names@).drop_last().push(stem@));
        Ok(FsPath { root: path.root.clone(), names })
    }
}

/// The stem of `name`: the name without its extension.
fn stem_of(name: &str) -> (r: String)
    ensures
        r@ == file_stem(name@),
{
    let n = name.unicode_len();
    let s = match crate::fs_path::find_extension_dot(name) {
        Some(d) => {
            proof {
                crate::fs_path::lemma_last_index_bounds(name@, '.');
            }
            name.substring_char(0, d)
        },
        None => name.substring_char(0, n),
    };
    assert(name@.subrange(0, n as int) =~= name@);
    s.to_string()
}

} // verus!
