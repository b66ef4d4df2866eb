//! Names under which versions of the fixed files are kept.
use crate::path::{
    child_path, components, components_of, file_name, file_name_of, find_last_dot, has_ext,
    has_extension, join_path, last_dot,
};
use crate::text::{decimal, decimal_of, join, joined, pieces, same};
use vstd::prelude::*;

verus! {

/// Working directory structure
#[derive(Debug)]
pub struct WorkingDirectory {
    pub root: String,
    pub history_dir: String,
    pub log_file: String,
    pub iteration_all_dir: String,
}

/// The paths of a working directory rooted at `root`.
pub open spec fn layout(root: Seq<char>) -> (Seq<char>, Seq<char>, Seq<char>, Seq<char>) {
    let history = child_path(root, ".fix_history"@);
    (root, history, child_path(history, "fix_log.jsonl"@), child_path(history, "iteration_all"@))
}

impl WorkingDirectory {
    /// The working directory rooted at `root`.
    pub fn at(root: &str) -> (r: WorkingDirectory)
        ensures
            (r.root@, r.history_dir@, r.log_file@, r.iteration_all_dir@) == layout(root@),
    {
        let history_dir = join_path(root, ".fix_history");
        WorkingDirectory {
            root: root.to_owned(),
            log_file: join_path(history_dir.as_str(), "fix_log.jsonl"),
            iteration_all_dir: join_path(history_dir.as_str(), "iteration_all"),
            history_dir,
        }
    }
}

/// `name` with the version number before its last extension: `base.N.ext`.
pub open spec fn versioned(name: Seq<char>, iteration: nat) -> Seq<char> {
    match last_dot(name, name.len() as int) {
        Some(k) => name.take(k) + "."@ + decimal_of(iteration) + name.skip(k),
        None => name + "."@ + decimal_of(iteration),
    }
}

/// The file name of version `iteration` of the file `file_name`.
pub fn versioned_name(file_name: &str, iteration: usize) -> (r: String)
    ensures
        r@ == versioned(file_name@, iteration as nat),
{
    match find_last_dot(file_name) {
        Some(k) => {
            let total: usize = file_name.unicode_len();
            let base = file_name.substring_char(0, k);
            let ext = file_name.substring_char(k, total);
            let mut out = base.to_owned();
            out.push_str(".");
            out.push_str(decimal(iteration).as_str());
            out.push_str(ext);
            proof {
                assert(base@ =~= file_name@.take(k as int));
                assert(ext@ =~= file_name@.skip(k as int));
            }
            out
        },
        None => {
            let mut out = file_name.to_owned();
            out.push_str(".");
            out.push_str(decimal(iteration).as_str());
            out
        },
    }
}

/// Where version `iteration` of the project file `path` is kept, relative to
/// the directory of all versions: next to where the file is in the project.
pub open spec fn version_path_of(path: Seq<char>, iteration: nat) -> Option<Seq<char>> {
    match file_name_of(path) {
        Some(name) => Some(
            child_path(
                joined(components_of(pieces(path, '/')).drop_last(), "/"@),
                versioned(name, iteration),
            ),
        ),
        None => None,
    }
}

/// Files are saved as `path/to/file.N.rs` where N is the iteration number.
/// `None` if the path names no file.
pub fn version_path(file_path: &str, iteration: usize) -> (r: Option<String>)
    ensures
        r.deep_view() == version_path_of(file_path@, iteration as nat),
{
    match file_name(file_path) {
        Some(name) => {
            let mut parent = components(file_path);
            let ghost all = parent.deep_view();
            let _ = parent.pop();
            proof {
                assert(parent.deep_view() =~= all.drop_last());
                assert(Seq::new(parent@.len(), |i: int| parent@[i]@) =~= parent.deep_view());
            }
            let dir = join(parent.as_slice(), "/");
            Some(join_path(dir.as_str(), versioned_name(name.as_str(), iteration).as_str()))
        },
        None => None,
    }
}

/// The directory of one iteration's snapshot inside the history.
pub fn iteration_dir_name(iteration: usize) -> (r: String)
    ensures
        r@ == "iteration_"@ + decimal_of(iteration as nat),
{
    let mut out = "iteration_".to_owned();
    out.push_str(decimal(iteration).as_str());
    out
}

/// Whether the initial versions leave out the entry `name`.
pub fn skips_entry(name: &str) -> (r: bool)
    ensures
        r == (name@ == ".fix_history"@ || name@ == "target"@),
{
    same(name, ".fix_history") || same(name, "target")
}

/// Whether a file gets an initial version: only Rust sources do.
pub fn keeps_version(path: &str) -> (r: bool)
    ensures
        r == has_ext(path@, "rs"@),
{
    has_extension(path, "rs")
}

} // verus!
