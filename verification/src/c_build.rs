//! What CMake built: the shared library or the executable in a build directory.
use crate::build_project_spec::ProjectKind;
use crate::path::{child_path, extension, extension_of, has_ext, has_extension, join_path};
use crate::text::same;
use vstd::prelude::*;

verus! {

/// An entry of a directory, with what is below it.
#[derive(Debug)]
pub enum TreeEntry {
    /// A file: its name, and whether its execute bit is set.
    File(String, bool),
    /// A directory: its name and its entries, in the order in which they are
    /// listed.
    Dir(String, Vec<TreeEntry>),
}

/// The first file below `dir` whose extension is exactly `so`, depth first.
pub open spec fn shared_lib_in(entries: Seq<TreeEntry>, dir: Seq<char>, i: int) -> Option<Seq<char>>
    decreases entries, entries.len() - i,
{
    if i < 0 || i >= entries.len() {
        None
    } else {
        let here = match entries[i] {
            TreeEntry::Dir(name, below) => shared_lib_in(below@, child_path(dir, name@), 0),
            TreeEntry::File(name, _) => if has_ext(name@, "so"@) {
                Some(child_path(dir, name@))
            } else {
                None
            },
        };
        if here is Some {
            here
        } else {
            shared_lib_in(entries, dir, i + 1)
        }
    }
}

/// The first file below `dir` with the execute bit and without an extension,
/// depth first, not looking into `CMakeFiles`.
pub open spec fn executable_in(entries: Seq<TreeEntry>, dir: Seq<char>, i: int) -> Option<Seq<char>>
    decreases entries, entries.len() - i,
{
    if i < 0 || i >= entries.len() {
        None
    } else {
        let here = match entries[i] {
            TreeEntry::Dir(name, below) => if name@ == "CMakeFiles"@ {
                None
            } else {
                executable_in(below@, child_path(dir, name@), 0)
            },
            TreeEntry::File(name, executable) => if extension_of(name@) is None && executable {
                Some(child_path(dir, name@))
            } else {
                None
            },
        };
        if here is Some {
            here
        } else {
            executable_in(entries, dir, i + 1)
        }
    }
}

/// Returns the first file whose extension is exactly `so`. Matches unversioned
/// names (`libfoo.so`) rather than versioned ones (`libfoo.so.1.0.0`).
pub fn find_shared_lib(entries: &Vec<TreeEntry>, dir: &str) -> (r: Option<String>)
    ensures
        r.deep_view() == shared_lib_in(entries@, dir@, 0),
    decreases entries,
{
    let mut i: usize = 0;
    while i < entries.len()
        invariant
            i <= entries@.len(),
            shared_lib_in(entries@, dir@, 0) == shared_lib_in(entries@, dir@, i as int),
        decreases entries@.len() - i,
    {
        match &entries[i] {
            TreeEntry::Dir(name, below) => {
                let found = find_shared_lib(below, join_path(dir, name.as_str()).as_str());
                if found.is_some() {
                    return found;
                }
            },
            TreeEntry::File(name, _) => {
                if has_extension(name.as_str(), "so") {
                    return Some(join_path(dir, name.as_str()));
                }
            },
        }
        i += 1;
    }
    None
}

/// Returns the first regular file that has the execute bit set and no file
/// extension. Skips `CMakeFiles` directories to avoid cmake build artifacts.
pub fn find_executable(entries: &Vec<TreeEntry>, dir: &str) -> (r: Option<String>)
    ensures
        r.deep_view() == executable_in(entries@, dir@, 0),
    decreases entries,
{
    let mut i: usize = 0;
    while i < entries.len()
        invariant
            i <= entries@.len(),
            executable_in(entries@, dir@, 0) == executable_in(entries@, dir@, i as int),
        decreases entries@.len() - i,
    {
        match &entries[i] {
            TreeEntry::Dir(name, below) => {
                if !same(name.as_str(), "CMakeFiles") {
                    let found = find_executable(below, join_path(dir, name.as_str()).as_str());
                    if found.is_some() {
                        return found;
                    }
                }
            },
            TreeEntry::File(name, executable) => {
                if extension(name.as_str()).is_none() && *executable {
                    return Some(join_path(dir, name.as_str()));
                }
            },
        }
        i += 1;
    }
    None
}

/// The compiled C artifact produced by running CMake on the C source. Exactly
/// one of `so_path` or `exe_path` is `Some` depending on the project kind.
#[derive(Debug)]
pub struct CArtifact {
    pub so_path: Option<String>,
    pub exe_path: Option<String>,
}

impl CArtifact {
    /// Exactly one of the two paths is there.
    pub open spec fn wf(self) -> bool {
        self.so_path is Some <==> self.exe_path is None
    }

    /// The artifact as text.
    pub open spec fn description(self) -> Seq<char> {
        match (self.so_path, self.exe_path) {
            (Some(p), _) => "CArtifact(so="@ + p@ + ")"@,
            (_, Some(p)) => "CArtifact(exe="@ + p@ + ")"@,
            _ => "CArtifact(not applicable)"@,
        }
    }

    /// The artifact as text.
    pub fn describe(&self) -> (r: String)
        ensures
            r@ == self.description(),
    {
        match &self.so_path {
            Some(p) => {
                let mut out = "CArtifact(so=".to_owned();
                out.push_str(p.as_str());
                out.push_str(")");
                out
            },
            None => match &self.exe_path {
                Some(p) => {
                    let mut out = "CArtifact(exe=".to_owned();
                    out.push_str(p.as_str());
                    out.push_str(")");
                    out
                },
                None => "CArtifact(not applicable)".to_owned(),
            },
        }
    }
}

/// The tool that builds the C project.
pub struct BuildCArtifact;

impl BuildCArtifact {
    /// The artifact of a project of this kind in its build directory; `None` if
    /// there is none.
    pub fn locate(kind: ProjectKind, entries: &Vec<TreeEntry>, build_dir: &str) -> (r: Option<
        CArtifact,
    >)
        ensures
            match r {
                Some(a) => a.wf() && match kind {
                    ProjectKind::Library => a.so_path.deep_view() == shared_lib_in(
                        entries@,
                        build_dir@,
                        0,
                    ) && a.so_path is Some,
                    ProjectKind::Executable => a.exe_path.deep_view() == executable_in(
                        entries@,
                        build_dir@,
                        0,
                    ) && a.exe_path is Some,
                },
                None => match kind {
                    ProjectKind::Library => shared_lib_in(entries@, build_dir@, 0) is None,
                    ProjectKind::Executable => executable_in(entries@, build_dir@, 0) is None,
                },
            },
    {
        match kind {
            ProjectKind::Library => match find_shared_lib(entries, build_dir) {
                Some(p) => Some(CArtifact { so_path: Some(p), exe_path: None }),
                None => None,
            },
            ProjectKind::Executable => match find_executable(entries, build_dir) {
                Some(p) => Some(CArtifact { so_path: None, exe_path: Some(p) }),
                None => None,
            },
        }
    }
}

/// The compiled C shared library. `so_path` is `None` when the project is not a
/// library (diff testing is skipped for executables).
#[derive(Debug)]
pub struct CLibraryArtifact {
    pub so_path: Option<String>,
}

impl CLibraryArtifact {
    /// The artifact as text.
    pub fn describe(&self) -> (r: String)
        ensures
            r@ == match self.so_path {
                Some(p) => "CLibraryArtifact("@ + p@ + ")"@,
                None => "CLibraryArtifact(not applicable)"@,
            },
    {
        match &self.so_path {
            Some(p) => {
                let mut out = "CLibraryArtifact(".to_owned();
                out.push_str(p.as_str());
                out.push_str(")");
                out
            },
            None => "CLibraryArtifact(not applicable)".to_owned(),
        }
    }
}

/// The tool that builds the C library.
pub struct BuildCLibrary;

impl BuildCLibrary {
    /// Only a library is built.
    pub fn is_built(kind: ProjectKind) -> (r: bool)
        ensures
            r == (kind == ProjectKind::Library),
    {
        match kind {
            ProjectKind::Library => true,
            ProjectKind::Executable => false,
        }
    }

    /// The library in the build directory; `None` if there is none. A project
    /// that is not a library has no artifact to look for.
    pub fn locate(kind: ProjectKind, entries: &Vec<TreeEntry>, build_dir: &str) -> (r: Option<
        CLibraryArtifact,
    >)
        ensures
            match r {
                Some(a) => a.so_path.deep_view() == (if kind == ProjectKind::Library {
                    shared_lib_in(entries@, build_dir@, 0)
                } else {
                    None
                }) && (kind == ProjectKind::Library ==> a.so_path is Some),
                None => kind == ProjectKind::Library && shared_lib_in(entries@, build_dir@, 0)
                    is None,
            },
    {
        if !BuildCLibrary::is_built(kind) {
            return Some(CLibraryArtifact { so_path: None });
        }
        match find_shared_lib(entries, build_dir) {
            Some(p) => Some(CLibraryArtifact { so_path: Some(p) }),
            None => None,
        }
    }
}

} // verus!
