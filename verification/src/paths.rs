//! Paths as text.

use crate::text::{chars_of, concat2, slashed, slashed_text};
use vstd::prelude::*;

verus! {

/// A directory: its path, and what the platform puts between the parts of a path
/// (`/`, or `\\` where drives have letters).
#[derive(Debug, Clone)]
pub struct Dir {
    pub path: String,
    pub separator: char,
}

pub struct DirModel {
    pub path: Seq<char>,
    pub separator: char,
}

impl View for Dir {
    type V = DirModel;

    open spec fn view(&self) -> DirModel {
        DirModel { path: self.path@, separator: self.separator }
    }
}

impl Dir {
    pub fn new(path: &str, separator: char) -> (r: Self)
        ensures
            r@ == (DirModel { path: path@, separator }),
    {
        Dir { path: path.to_string(), separator }
    }
}

/// Whether a path is a drive alone, such as `C:`.
pub open spec fn is_drive(d: DirModel) -> bool {
    d.separator == '\\' && d.path.len() == 2 && d.path[1] == ':'
}

/// Whether a name can follow the path of a directory as it is: the path is empty or
/// ends in a separator (`/` is one on every platform), or it is a drive alone.
pub open spec fn ends_open(d: DirModel) -> bool {
    d.path.len() == 0 || d.path.last() == '/' || d.path.last() == d.separator || is_drive(d)
}

/// The path of a file in a directory.
pub open spec fn joined(d: DirModel, name: Seq<char>) -> Seq<char> {
    if ends_open(d) {
        d.path + name
    } else {
        d.path.push(d.separator) + name
    }
}

pub fn join_path(dir: &Dir, name: &str) -> (r: String)
    ensures
        r@ == joined(dir@, name@),
{
    let chars = chars_of(dir.path.as_str());
    let n: usize = chars.len();
    if n == 0 || chars[n - 1] == '/' || chars[n - 1] == dir.separator || (dir.separator == '\\'
        && n == 2 && chars[1] == ':') {
        concat2(dir.path.as_str(), name)
    } else {
        let mut base = dir.path.clone();
        base.push(dir.separator);
        concat2(base.as_str(), name)
    }
}

/// A path with `/` separators only.
pub fn path_string(path: &str) -> (r: String)
    ensures
        r@ == slashed(path@),
{
    slashed_text(path)
}

/// In one directory different names give different paths.
pub proof fn names_give_different_paths(d: DirModel, a: Seq<char>, b: Seq<char>)
    requires
        a != b,
    ensures
        joined(d, a) != joined(d, b),
{
    let base = if ends_open(d) {
        d.path
    } else {
        d.path.push(d.separator)
    };
    if base + a == base + b {
        assert(a =~= (base + a).skip(base.len() as int));
        assert(b =~= (base + b).skip(base.len() as int));
    }
}

/// A file in a directory stands after the path of the directory and a separator: the one
/// of the platform where the path does not end in one already, and none after an empty
/// path or a drive alone.
pub proof fn paths_have_a_separator(dir: &Dir, name: &str, r: String)
    requires
        call_ensures(join_path, (dir, name), r),
    ensures
        ({
            let p = dir.path@;
            let open = p.len() == 0 || p.last() == '/' || p.last() == dir.separator || (
            dir.separator == '\\' && p.len() == 2 && p[1] == ':');
            &&& open ==> r@ == p + name@
            &&& !open ==> r@ == p + seq![dir.separator] + name@
        }),
{
    assert(dir.path@.push(dir.separator) + name@ =~= dir.path@ + seq![dir.separator] + name@);
}

} // verus!
