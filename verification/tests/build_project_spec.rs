use harvest_tools::build_project_spec::{project_kind_from_cmakelists, ProjectKind};

/// An `add_executable(` prefix must yield `Executable`.
#[test]
fn legacy_path_detects_executable() {
    let cmakelists =
        b"cmake_minimum_required(VERSION 3.10)\nproject(foo)\nadd_executable(foo main.c)\n";
    let kind = project_kind_from_cmakelists(cmakelists);
    assert!(
        matches!(kind, Some(ProjectKind::Executable)),
        "add_executable( prefix must yield Executable"
    );
}

/// An `add_library(` prefix must yield `Library`.
#[test]
fn legacy_path_detects_library() {
    let cmakelists =
        b"cmake_minimum_required(VERSION 3.10)\nproject(foo)\nadd_library(foo STATIC foo.c)\n";
    let kind = project_kind_from_cmakelists(cmakelists);
    assert!(
        matches!(kind, Some(ProjectKind::Library)),
        "add_library( prefix must yield Library"
    );
}

/// When neither directive is present, `None` is returned (which maps to
/// the error path in `run`).
#[test]
fn legacy_path_returns_none_when_neither() {
    let cmakelists = b"cmake_minimum_required(VERSION 3.10)\nproject(foo)\n";
    let kind = project_kind_from_cmakelists(cmakelists);
    assert!(kind.is_none(), "no add_* must yield None");
}

/// `add_executable(` must be a line-prefix match -- a line that contains
/// it mid-line does NOT trigger the executable path.
#[test]
fn legacy_path_requires_line_prefix() {
    // "foo_add_executable(" starts with foo_, not add_executable(
    let cmakelists = b"# foo_add_executable(bar)\nadd_library(baz STATIC x.c)\n";
    let kind = project_kind_from_cmakelists(cmakelists);
    assert!(
        matches!(kind, Some(ProjectKind::Library)),
        "mid-line occurrence must not trigger executable"
    );
}
