//! The outcome of a differential test run.
use crate::c_build::TreeEntry;
use crate::path::{child_path, has_ext, has_extension, join_path};
use crate::text::{decimal, decimal_of, lines, lines_of, starts_with};
use vstd::prelude::*;

verus! {

/// The results of a differential test run comparing C and Rust library outputs.
#[derive(Debug)]
pub struct DiffTestResult {
    pub passed: usize,
    pub failed: usize,
    pub total: usize,
    /// Raw FAIL and WARN lines from the test run, for use by the fix tool.
    pub failures: Vec<String>,
}

/// The line reports a test that passed.
pub open spec fn passing(line: Seq<char>) -> bool {
    "PASS "@.is_prefix_of(line)
}

/// The line reports a test that failed or could not be compared.
pub open spec fn failing(line: Seq<char>) -> bool {
    !passing(line) && ("FAIL "@.is_prefix_of(line) || "WARN "@.is_prefix_of(line))
}

/// The number of lines that report a test that passed.
pub open spec fn passes(all: Seq<Seq<char>>) -> nat
    decreases all.len(),
{
    if all.len() == 0 {
        0
    } else {
        passes(all.drop_last()) + (if passing(all.last()) {
            1nat
        } else {
            0
        })
    }
}

/// The lines that report a test that failed or could not be compared.
pub open spec fn failures_in(all: Seq<Seq<char>>) -> Seq<Seq<char>>
    decreases all.len(),
{
    if all.len() == 0 {
        seq![]
    } else {
        let rest = failures_in(all.drop_last());
        if failing(all.last()) {
            rest.push(all.last())
        } else {
            rest
        }
    }
}

impl DiffTestResult {
    /// Every test either passed or is among the failures.
    pub open spec fn wf(self) -> bool {
        self.failed == self.failures@.len() && self.total == self.passed + self.failed
    }

    /// The result as text.
    pub open spec fn description(self) -> Seq<char> {
        "DiffTestResult: "@ + decimal_of(self.passed as nat) + "/"@ + decimal_of(
            self.total as nat,
        ) + " passed\n"@ + failure_lines(self.failures.deep_view())
    }

    /// The result as text: how many tests passed, then each failure.
    pub fn describe(&self) -> (r: String)
        ensures
            r@ == self.description(),
    {
        let mut out = "DiffTestResult: ".to_owned();
        out.push_str(decimal(self.passed).as_str());
        out.push_str("/");
        out.push_str(decimal(self.total).as_str());
        out.push_str(" passed\n");
        let ghost head = out@;
        let ghost all = self.failures.deep_view();
        let mut i: usize = 0;
        while i < self.failures.len()
            invariant
                all == self.failures.deep_view(),
                i <= self.failures@.len(),
                out@ == head + failure_lines(all.take(i as int)),
            decreases self.failures@.len() - i,
        {
            proof {
                assert(all.take(i + 1).drop_last() =~= all.take(i as int));
                assert(all.take(i + 1).last() == self.failures@[i as int]@);
            }
            out.push_str("  ");
            out.push_str(self.failures[i].as_str());
            out.push_str("\n");
            proof {
                assert(out@ =~= head + failure_lines(all.take(i + 1)));
            }
            i += 1;
        }
        proof {
            assert(all.take(i as int) =~= all);
        }
        out
    }
}

/// One indented line per failure.
pub open spec fn failure_lines(all: Seq<Seq<char>>) -> Seq<char>
    decreases all.len(),
{
    if all.len() == 0 {
        seq![]
    } else {
        failure_lines(all.drop_last()) + "  "@ + all.last() + "\n"@
    }
}

/// Reads what the test binary printed: a line that starts with `PASS` counts as
/// passed, one that starts with `FAIL` or `WARN` is a failure.
pub fn parse_output(output: &str) -> (r: DiffTestResult)
    ensures
        r.wf(),
        r.passed == passes(lines_of(output@)),
        r.failures.deep_view() == failures_in(lines_of(output@)),
{
    let all = lines(output);
    let ghost view = all.deep_view();
    let mut passed: usize = 0;
    let mut failures: Vec<String> = Vec::new();
    let mut i: usize = 0;
    proof {
        assert(failures.deep_view() =~= failures_in(view.take(0)));
    }
    while i < all.len()
        invariant
            view == all.deep_view(),
            i <= all@.len(),
            passed + failures@.len() <= i,
            passed == passes(view.take(i as int)),
            failures.deep_view() == failures_in(view.take(i as int)),
        decreases all@.len() - i,
    {
        let line = all[i].as_str();
        let ghost before = failures.deep_view();
        proof {
            assert(view.take(i + 1).drop_last() =~= view.take(i as int));
            assert(view.take(i + 1).last() == line@);
        }
        if starts_with(line, "PASS ") {
            passed += 1;
        } else if starts_with(line, "FAIL ") || starts_with(line, "WARN ") {
            failures.push(line.to_owned());
            proof {
                assert(failures.deep_view() =~= before.push(line@));
            }
        }
        i += 1;
    }
    proof {
        assert(view.take(i as int) =~= view);
    }
    let failed: usize = failures.len();
    DiffTestResult { passed, failed, total: passed + failed, failures }
}

/// The first file of the directory itself whose extension is `so`.
pub open spec fn so_among(entries: Seq<TreeEntry>, dir: Seq<char>, i: int) -> Option<Seq<char>>
    decreases entries.len() - i,
{
    if i < 0 || i >= entries.len() {
        None
    } else {
        match entries[i] {
            TreeEntry::File(name, _) => if has_ext(name@, "so"@) {
                Some(child_path(dir, name@))
            } else {
                so_among(entries, dir, i + 1)
            },
            TreeEntry::Dir(_, _) => so_among(entries, dir, i + 1),
        }
    }
}

/// Returns the first `.so` file found directly in `dir` (skips subdirectories).
pub fn find_so_in_dir(entries: &Vec<TreeEntry>, dir: &str) -> (r: Option<String>)
    ensures
        r.deep_view() == so_among(entries@, dir@, 0),
{
    let mut i: usize = 0;
    while i < entries.len()
        invariant
            i <= entries@.len(),
            so_among(entries@, dir@, 0) == so_among(entries@, dir@, i as int),
        decreases entries@.len() - i,
    {
        match &entries[i] {
            TreeEntry::File(name, _) => {
                if has_extension(name.as_str(), "so") {
                    return Some(join_path(dir, name.as_str()));
                }
            },
            TreeEntry::Dir(_, _) => {},
        }
        i += 1;
    }
    None
}

/// The tool that runs a differential test suite.
pub struct RunDiffTest;

} // verus!
