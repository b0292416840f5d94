use vstd::prelude::*;
use crate::path::{
    extension, extension_of, file_name, file_name_of, join, law_join_file_name,
    law_join_parent_file_name, law_join_parent_file_name_same_path, lemma_file_name_plain,
    same_path, lemma_parent_of_join, parent,
    parent_or_dot, parent_or_dot_of,
};

verus! {

/// The parts of a source path that the commands need.
pub struct ResolvedPath {
    /// The extension of the file name, or empty when it has none.
    pub ext: String,
    /// The file name, or empty when the path has none.
    pub filename: String,
    /// The directory that holds the file: the parent path, or `.` when there is none.
    pub dir: String,
}

/// The text inside an optional text, or the empty text.
pub open spec fn or_empty(o: Option<Seq<char>>) -> Seq<char> {
    match o {
        Some(s) => s,
        None => Seq::empty(),
    }
}

/// Splits `file` into its extension, its file name and its directory.
pub fn resolve(file: &str) -> (r: ResolvedPath)
    ensures
        r.ext@ == or_empty(extension(file@)),
        r.filename@ == or_empty(file_name(file@)),
        r.dir@ == parent_or_dot(file@),
{
    let ext = match extension_of(file) {
        Some(e) => e,
        None => String::new(),
    };
    let filename = match file_name_of(file) {
        Some(n) => n,
        None => String::new(),
    };
    let dir = parent_or_dot_of(file);
    ResolvedPath { ext, filename, dir }
}

/// Joining what `resolve` gives as the directory and the file name makes a path that
/// resolves to the same directory, file name and extension; when the file's parent is not
/// empty (so it is the directory), the joined path is the file's path as `std::path`
/// compares paths.
pub proof fn law_resolve_join_back(file: Seq<char>)
    requires
        file_name(file) is Some,
    ensures
        ({
            let q = join(parent_or_dot(file), or_empty(file_name(file)));
            &&& file_name(q) == file_name(file)
            &&& parent_or_dot(q) == parent_or_dot(file)
            &&& extension(q) == extension(file)
            &&& (parent(file) matches Some(d) && d.len() > 0 ==> same_path(q, file))
        }),
{
    let n = file_name(file)->0;
    lemma_file_name_plain(file);
    assert(parent(file) is Some);
    let d = parent(file)->0;
    if d.len() > 0 {
        law_join_parent_file_name(file);
        law_join_parent_file_name_same_path(file);
    } else {
        let dot = seq!['.'];
        lemma_dot_clean(dot);
        lemma_parent_of_join(dot, n);
        law_join_file_name(dot, n);
    }
}

/// `.` is a clean directory.
proof fn lemma_dot_clean(dot: Seq<char>)
    requires
        dot == seq!['.'],
    ensures
        crate::path::clean_dir(dot),
{
    assert(crate::path::body_start(dot) == 1);
}

} // verus!
