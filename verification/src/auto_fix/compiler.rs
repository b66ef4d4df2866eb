//! The outcome of a cargo build.
use crate::text::{count_matches, from_utf8_lossy, lossy_text, part_count};
use vstd::prelude::*;

verus! {

/// Result of a cargo build
#[derive(Debug)]
pub struct BuildResult {
    pub success: bool,
    pub stdout: String,
    pub stderr: String,
    pub error_count: usize,
    pub warning_count: usize,
    pub combined_output: String,
}

#[verifier::ext_equal]
pub ghost struct BuildResultView {
    pub success: bool,
    pub stdout: Seq<char>,
    pub stderr: Seq<char>,
    pub error_count: nat,
    pub warning_count: nat,
    pub combined_output: Seq<char>,
}

impl DeepView for BuildResult {
    type V = BuildResultView;

    open spec fn deep_view(&self) -> BuildResultView {
        BuildResultView {
            success: self.success,
            stdout: self.stdout@,
            stderr: self.stderr@,
            error_count: self.error_count as nat,
            warning_count: self.warning_count as nat,
            combined_output: self.combined_output@,
        }
    }
}

/// The result of a build that printed `stdout` and `stderr`. An error is
/// counted for each `error:` and each `error[` in the combined output, a
/// warning for each `warning:`.
pub open spec fn build_result(success: bool, stdout: Seq<char>, stderr: Seq<char>) -> BuildResultView {
    let combined = stdout + "\n"@ + stderr;
    BuildResultView {
        success,
        stdout,
        stderr,
        error_count: part_count(combined, "error:"@) + part_count(combined, "error["@),
        warning_count: part_count(combined, "warning:"@),
        combined_output: combined,
    }
}

impl BuildResult {
    /// Reads the raw output of `cargo build`.
    pub fn from_output(success: bool, stdout: &[u8], stderr: &[u8]) -> (r: BuildResult)
        ensures
            r.deep_view() == build_result(success, lossy_text(stdout@), lossy_text(stderr@)),
    {
        BuildResult::from_text(success, from_utf8_lossy(stdout), from_utf8_lossy(stderr))
    }

    /// Counts the errors and warnings in the printed texts.
    pub fn from_text(success: bool, stdout: String, stderr: String) -> (r: BuildResult)
        ensures
            r.deep_view() == build_result(success, stdout@, stderr@),
    {
        let mut combined_output = stdout.as_str().to_owned();
        combined_output.push_str("\n");
        combined_output.push_str(stderr.as_str());
        let total: usize = combined_output.as_str().unicode_len();
        proof {
            reveal_strlit("error:");
            reveal_strlit("error[");
            reveal_strlit("warning:");
        }
        let plain: usize = count_matches(combined_output.as_str(), "error:");
        let coded: usize = count_matches(combined_output.as_str(), "error[");
        let warning_count: usize = count_matches(combined_output.as_str(), "warning:");
        BuildResult {
            success,
            stdout,
            stderr,
            error_count: plain + coded,
            warning_count,
            combined_output,
        }
    }
}

} // verus!
