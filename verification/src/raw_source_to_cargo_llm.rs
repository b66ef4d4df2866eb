//! Turns a C project into a Cargo project in one request.
use crate::agentic::{load_prompt, preferred, BuiltinPrompts};
use crate::build_config::ir::BuildConfigIR;
use crate::build_config::prompt_ext::{build_system_prompt, system_prompt};
use crate::build_project_spec::ProjectKind;
use crate::fs::RawDir;
use crate::generate_test_suite::{files_as_text, source_texts};
use crate::text::{bytes_of, opt_view};
use vstd::prelude::*;

verus! {

/// What comes with the request.
pub const REQUEST: &'static str =
    "Please translate the following C project into a Rust project including Cargo manifest:";

/// A file of the request or of the reply.
#[derive(Debug)]
pub struct OutputFile {
    pub contents: String,
    pub path: String,
}

#[verifier::ext_equal]
pub ghost struct OutputFileView {
    pub contents: Seq<char>,
    pub path: Seq<char>,
}

impl DeepView for OutputFile {
    type V = OutputFileView;

    open spec fn deep_view(&self) -> OutputFileView {
        OutputFileView { contents: self.contents@, path: self.path@ }
    }
}

/// The files of a reply; of files with one path the last counts.
pub open spec fn files_of(files: Seq<OutputFileView>) -> Map<Seq<char>, Seq<u8>>
    decreases files.len(),
{
    if files.len() == 0 {
        Map::empty()
    } else {
        files_of(files.drop_last()).insert(
            files.last().path,
            vstd::utf8::encode_utf8(files.last().contents),
        )
    }
}

/// What is sent for a project.
#[derive(Debug)]
pub struct CargoRequest {
    pub system_prompt: String,
    /// The path and the text of every file of the project.
    pub files: Vec<(String, String)>,
    /// Whether the build configuration is sent along.
    pub with_configuration: bool,
}

/// The tool that has a whole project rewritten at once.
pub struct RawSourceToCargoLlm;

impl RawSourceToCargoLlm {
    /// What is sent for a project: the prompt for its kind, the user's before
    /// the built-in one, extended by the configurable variables; its files; and
    /// its build configuration, if it has one.
    pub fn request(
        &self,
        source: &RawDir,
        kind: ProjectKind,
        build_cfg: &BuildConfigIR,
        prompt_executable: Option<&str>,
        prompt_library: Option<&str>,
        builtin: &BuiltinPrompts,
    ) -> (r: CargoRequest)
        ensures
            r.system_prompt@ == system_prompt(
                match kind {
                    ProjectKind::Executable => preferred(
                        opt_view(prompt_executable),
                        builtin.executable@,
                    ),
                    ProjectKind::Library => preferred(opt_view(prompt_library), builtin.library@),
                },
                build_cfg.deep_view(),
            ),
            r.files.deep_view() == files_as_text(source@),
            r.with_configuration == !build_cfg.is_empty,
    {
        let base = load_prompt(prompt_executable, prompt_library, kind, builtin);
        CargoRequest {
            system_prompt: build_system_prompt(base.as_str(), build_cfg),
            files: source_texts(source),
            with_configuration: !build_cfg.is_empty,
        }
    }

    /// The package that a reply describes.
    pub fn package(&self, files: &Vec<OutputFile>) -> (r: RawDir)
        ensures
            r@ == files_of(files.deep_view()),
    {
        let ghost all = files.deep_view();
        let mut out = RawDir::new();
        let mut i: usize = 0;
        while i < files.len()
            invariant
                all == files.deep_view(),
                i <= files@.len(),
                out@ == files_of(all.take(i as int)),
            decreases files@.len() - i,
        {
            proof {
                assert(all.take(i + 1).drop_last() =~= all.take(i as int));
                assert(all.take(i + 1).last() == files@[i as int].deep_view());
            }
            out.set_file(files[i].path.as_str(), bytes_of(files[i].contents.as_str()));
            i += 1;
        }
        proof {
            assert(all.take(i as int) =~= all);
        }
        out
    }
}

} // verus!
