//! The scanned project as the analyses read it: files with their measures,
//! import and call edges, and detected entry points.
use crate::text::{text_eq, Text};
use vstd::prelude::*;

verus! {

/// One function of a file, as far as the analyses use it.
#[derive(Debug, Clone, Copy)]
pub struct FunctionFacts {
    pub cc: Option<u32>,
    pub cog: Option<u32>,
    pub is_public: bool,
}

/// One file (or directory) of the scan.
pub struct FileNode {
    pub path: String,
    pub is_dir: bool,
    pub lang: String,
    pub lines: u32,
    pub funcs: u32,
    pub functions: Option<Vec<FunctionFacts>>,
    pub tags: Option<Vec<String>>,
}

/// An import of one file by another.
pub struct ImportEdge {
    pub from_file: String,
    pub to_file: String,
}

/// A call from a function of one file to a function of another.
pub struct CallEdge {
    pub from_file: String,
    pub from_func: String,
    pub to_file: String,
    pub to_func: String,
}

/// A detected program entry point.
pub struct EntryPoint {
    pub file: String,
    pub func: String,
    pub lang: String,
    pub confidence: String,
}

/// The scan: every file and directory, flattened, with the graphs between them.
pub struct Snapshot {
    pub files: Vec<FileNode>,
    pub import_graph: Vec<ImportEdge>,
    pub call_graph: Vec<CallEdge>,
    pub entry_points: Vec<EntryPoint>,
}

/// The scan holds a file (not a directory) at path `p`.
pub open spec fn has_file(files: Seq<FileNode>, p: Text) -> bool {
    exists|i: int| 0 <= i < files.len() && !(#[trigger] files[i]).is_dir && files[i].path@ == p
}

/// Whether the scan holds a file (not a directory) at `path`.
pub fn snapshot_has_file(files: &Vec<FileNode>, path: &str) -> (r: bool)
    ensures
        r == has_file(files@, path@),
{
    let mut i: usize = 0;
    while i < files.len()
        invariant
            i <= files@.len(),
            forall|k: int| 0 <= k < i ==> !(!(#[trigger] files@[k]).is_dir && files@[k].path@ == path@),
        decreases files@.len() - i,
    {
        if !files[i].is_dir && text_eq(files[i].path.as_str(), path) {
            assert(!files@[i as int].is_dir && files@[i as int].path@ == path@);
            return true;
        }
        i = i + 1;
    }
    false
}

} // verus!
