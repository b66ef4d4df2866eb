//! Whether a project is a library or an executable.
use crate::build_config::ir::BuildConfigIR;
use crate::fs::RawDir;
use crate::text::{from_utf8_lossy, lines, lines_of, lossy_text, starts_with};
use vstd::prelude::*;

verus! {

/// What a project builds.
#[derive(Debug, Clone, Copy, PartialEq, Eq, Structural)]
pub enum ProjectKind {
    Library,
    Executable,
}

impl ProjectKind {
    /// The name of the kind.
    pub open spec fn label(self) -> Seq<char> {
        match self {
            ProjectKind::Library => "Library"@,
            ProjectKind::Executable => "Executable"@,
        }
    }

    /// The name of the kind.
    pub fn describe(&self) -> (r: String)
        ensures
            r@ == self.label(),
    {
        match self {
            ProjectKind::Library => "Library".to_owned(),
            ProjectKind::Executable => "Executable".to_owned(),
        }
    }
}

/// What is known of a project.
#[derive(Debug, Clone, Copy, PartialEq, Eq, Structural)]
pub struct ProjectSpec {
    pub kind: ProjectKind,
}

impl ProjectSpec {
    /// The spec as text.
    pub fn describe(&self) -> (r: String)
        ensures
            r@ == "ProjectSpec(kind="@ + self.kind.label() + ")"@,
    {
        let mut out = "ProjectSpec(kind=".to_owned();
        out.push_str(self.kind.describe().as_str());
        out.push_str(")");
        out
    }
}

/// Some line of `text` starts with `prefix`.
pub open spec fn line_starts(text: Seq<char>, prefix: Seq<char>) -> bool {
    exists|i: int|
        0 <= i < lines_of(text).len() && prefix.is_prefix_of(#[trigger] lines_of(text)[i])
}

/// The kind that the lines of a `CMakeLists.txt` show.
pub open spec fn kind_from_lines(text: Seq<char>) -> Option<ProjectKind> {
    if line_starts(text, "add_executable("@) {
        Some(ProjectKind::Executable)
    } else if line_starts(text, "add_library("@) {
        Some(ProjectKind::Library)
    } else {
        None
    }
}

fn any_line_starts(all: &Vec<String>, prefix: &str) -> (r: bool)
    ensures
        r == exists|i: int|
            0 <= i < all.deep_view().len() && prefix@.is_prefix_of(#[trigger] all.deep_view()[i]),
{
    let ghost view = all.deep_view();
    let mut i: usize = 0;
    while i < all.len()
        invariant
            view == all.deep_view(),
            i <= all@.len(),
            forall|j: int| 0 <= j < i ==> !prefix@.is_prefix_of(#[trigger] view[j]),
        decreases all@.len() - i,
    {
        if starts_with(all[i].as_str(), prefix) {
            proof {
                assert(prefix@.is_prefix_of(view[i as int]));
            }
            return true;
        }
        i += 1;
    }
    false
}

/// Determine project kind by line-prefix matching in the text of a
/// `CMakeLists.txt`.
pub fn kind_from_text(text: &str) -> (r: Option<ProjectKind>)
    ensures
        r == kind_from_lines(text@),
{
    let all = lines(text);
    if any_line_starts(&all, "add_executable(") {
        Some(ProjectKind::Executable)
    } else if any_line_starts(&all, "add_library(") {
        Some(ProjectKind::Library)
    } else {
        None
    }
}

/// Determine project kind by line-prefix matching in CMakeLists.txt content.
///
/// Returns `Some(ProjectKind::Executable)` when any line starts with
/// `add_executable(`, `Some(ProjectKind::Library)` when any line starts with
/// `add_library(`, and `None` otherwise.
pub fn project_kind_from_cmakelists(cmakelists: &[u8]) -> (r: Option<ProjectKind>)
    ensures
        r == kind_from_lines(lossy_text(cmakelists@)),
{
    kind_from_text(from_utf8_lossy(cmakelists).as_str())
}

/// The kind that the lines of the top-level `CMakeLists.txt` show.
pub open spec fn kind_of_files(dir: Map<Seq<char>, Seq<u8>>) -> Option<ProjectKind> {
    if dir.dom().contains("CMakeLists.txt"@) {
        kind_from_lines(lossy_text(dir["CMakeLists.txt"@]))
    } else {
        None
    }
}

/// The tool that determines the project kind.
pub struct BuildProjectSpec;

impl BuildProjectSpec {
    /// The kind of a project: an executable if its configuration has an
    /// executable target, else a library if it has a library target, else what
    /// the lines of `CMakeLists.txt` show. `None` if they show nothing or there
    /// is no such file. A project without configuration goes by the lines alone.
    pub fn run(&self, source: &RawDir, build_cfg: &BuildConfigIR) -> (r: Option<ProjectSpec>)
        ensures
            r == if !build_cfg.is_empty && exists|t: Seq<char>|
                #[trigger] build_cfg.deep_view().has_target(t)
                    && !build_cfg.deep_view().has_library(t) {
                Some(ProjectSpec { kind: ProjectKind::Executable })
            } else if !build_cfg.is_empty && exists|t: Seq<char>| #[trigger]
                build_cfg.deep_view().has_library(t) {
                Some(ProjectSpec { kind: ProjectKind::Library })
            } else {
                match kind_of_files(source@) {
                    Some(kind) => Some(ProjectSpec { kind }),
                    None => None,
                }
            },
            build_cfg.is_empty ==> (r is Some <==> kind_of_files(source@) is Some),
    {
        if !build_cfg.is_empty {
            if build_cfg.has_executable_target() {
                return Some(ProjectSpec { kind: ProjectKind::Executable });
            }
            if build_cfg.has_library_target() {
                return Some(ProjectSpec { kind: ProjectKind::Library });
            }
        }
        match source.get_file("CMakeLists.txt") {
            Some(cmakelists) => match project_kind_from_cmakelists(cmakelists.as_slice()) {
                Some(kind) => Some(ProjectSpec { kind }),
                None => None,
            },
            None => None,
        }
    }
}

} // verus!
