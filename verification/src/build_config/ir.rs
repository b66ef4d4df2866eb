//! The [`BuildConfigIR`] representation and supporting types.
//!
//! `BuildConfigIR` captures the deterministic projection of a C project's
//! `configuration.json` plus the `CMakeLists.txt` patterns that mention those
//! variables. Each type has a ghost view over sequences of characters; the
//! contracts of the scanner speak of those views.
use crate::text::{decimal, decimal_of, ends_with, same};
use vstd::prelude::*;

verus! {

/// Structured view of the configurable variables, defines, and conditional
/// targets that drive a C project's build.
///
/// `is_empty == true` is the short-circuit for projects without configurable
/// variables.
#[derive(Debug, PartialEq, Eq)]
pub struct BuildConfigIR {
    pub variables: Vec<ConfigVariable>,
    pub defines: Vec<DefineMapping>,
    pub source_selections: Vec<SourceSelection>,
    pub conditional_targets: Vec<ConditionalTarget>,
    /// Subdirectory trees selected by a configurable variable: one
    /// [`SubdirSelection`] per `add_subdirectory(${VAR})` site.
    pub subdir_selections: Vec<SubdirSelection>,
    pub is_empty: bool,
}

/// A single configurable variable declared in `configuration.json` and
/// (optionally) refined by `CMakeLists.txt` (`set(... CACHE STRING ...)` or
/// `option(...)`).
#[derive(Debug, PartialEq, Eq)]
pub struct ConfigVariable {
    pub name: String,
    pub kind: ConfigVarKind,
    pub default: Option<String>,
}

/// Kind of a configurable variable.
#[derive(Debug, PartialEq, Eq)]
pub enum ConfigVarKind {
    Boolean,
    Enum {
        values: Vec<String>,
        /// `true` when every value parses as a signed integer.
        numeric: bool,
    },
}

/// A C-side `#define` produced by CMake, classified by the shape of the
/// substitution.
#[derive(Debug, PartialEq, Eq)]
pub struct DefineMapping {
    pub c_name: String,
    pub kind: DefineKind,
    pub source_vars: Vec<String>,
}

/// Shape of a CMake-emitted `#define`.
#[derive(Debug, PartialEq, Eq)]
pub enum DefineKind {
    /// `-DNAME="${VAR}"`: the variable's value, quoted.
    QuotedString { var: String },
    /// `-DNAME=${VAR}`: the variable's value, bare.
    Bare { var: String },
    /// `-DNAME=${X}_${Y}`: a template with a placeholder for each contributing
    /// variable (`{X}_{Y}`).
    Composed { template: String },
    /// A `#define` that is emitted iff `gate_var` is truthy in CMake.
    GatedFlag { gate_var: String },
}

/// Per-target source selection driven by a configurable variable.
#[derive(Debug, PartialEq, Eq)]
pub struct SourceSelection {
    pub target: String,
    pub driving_var: String,
    pub variants: Vec<SourceVariant>,
}

/// One value of a [`SourceSelection`]'s driving variable, mapping to the file
/// list compiled when the variable takes that value.
#[derive(Debug, PartialEq, Eq)]
pub struct SourceVariant {
    pub value: String,
    pub files: Vec<String>,
}

/// A target whose entire definition lives inside `if(VAR) ... endif()`.
#[derive(Debug, PartialEq, Eq)]
pub struct ConditionalTarget {
    pub target: String,
    pub gate_var: String,
    pub files: Vec<String>,
}

/// What a declared target builds.
#[derive(Debug, Clone, Copy, PartialEq, Eq, Structural)]
pub enum TargetKind {
    Executable,
    Library,
}

/// A plain target declaration with the files that it compiles.
#[derive(Debug, PartialEq, Eq)]
pub struct TargetDecl {
    pub name: String,
    pub kind: TargetKind,
    pub files: Vec<String>,
}

/// One `add_subdirectory(${VAR})` invocation. Two variants under the same
/// selection never see each other's defines, target definitions, or source
/// lists.
#[derive(Debug, PartialEq, Eq)]
pub struct SubdirSelection {
    /// The configurable variable that drives subdirectory selection.
    pub driving_var: String,
    /// One entry per value of `driving_var` whose `CMakeLists.txt` was found.
    pub variants: Vec<SubdirVariant>,
}

/// IR fragment captured by scanning one subdirectory of a [`SubdirSelection`].
#[derive(Debug, PartialEq, Eq)]
pub struct SubdirVariant {
    /// The value of the driving variable selecting this variant.
    pub value: String,
    /// Project-relative path of the subdirectory.
    pub path: String,
    /// Defines emitted inside this variant subtree.
    pub defines: Vec<DefineMapping>,
    /// Per-target source selections inside this variant subtree.
    pub source_selections: Vec<SourceSelection>,
    /// `if(VAR) ... endif()`-gated targets inside this variant subtree.
    pub conditional_targets: Vec<ConditionalTarget>,
    /// Plain targets attached to this variant subtree. The scanner records
    /// none.
    pub targets: Vec<TargetDecl>,
    /// Nested selections of this variant's subtree.
    pub subdir_selections: Vec<SubdirSelection>,
}

// ---------------------------------------------------------------------------
// Views
// ---------------------------------------------------------------------------

#[verifier::ext_equal]
pub ghost enum ConfigVarKindView {
    Boolean,
    Enum { values: Seq<Seq<char>>, numeric: bool },
}

#[verifier::ext_equal]
pub ghost struct ConfigVariableView {
    pub name: Seq<char>,
    pub kind: ConfigVarKindView,
    pub default: Option<Seq<char>>,
}

#[verifier::ext_equal]
pub ghost enum DefineKindView {
    QuotedString { var: Seq<char> },
    Bare { var: Seq<char> },
    Composed { template: Seq<char> },
    GatedFlag { gate_var: Seq<char> },
}

#[verifier::ext_equal]
pub ghost struct DefineMappingView {
    pub c_name: Seq<char>,
    pub kind: DefineKindView,
    pub source_vars: Seq<Seq<char>>,
}

#[verifier::ext_equal]
pub ghost struct SourceVariantView {
    pub value: Seq<char>,
    pub files: Seq<Seq<char>>,
}

#[verifier::ext_equal]
pub ghost struct SourceSelectionView {
    pub target: Seq<char>,
    pub driving_var: Seq<char>,
    pub variants: Seq<SourceVariantView>,
}

#[verifier::ext_equal]
pub ghost struct ConditionalTargetView {
    pub target: Seq<char>,
    pub gate_var: Seq<char>,
    pub files: Seq<Seq<char>>,
}

#[verifier::ext_equal]
pub ghost struct TargetDeclView {
    pub name: Seq<char>,
    pub kind: TargetKind,
    pub files: Seq<Seq<char>>,
}

#[verifier::ext_equal]
pub ghost struct SubdirSelectionView {
    pub driving_var: Seq<char>,
    pub variants: Seq<SubdirVariantView>,
}

#[verifier::ext_equal]
pub ghost struct SubdirVariantView {
    pub value: Seq<char>,
    pub path: Seq<char>,
    pub defines: Seq<DefineMappingView>,
    pub source_selections: Seq<SourceSelectionView>,
    pub conditional_targets: Seq<ConditionalTargetView>,
    pub targets: Seq<TargetDeclView>,
    pub subdir_selections: Seq<SubdirSelectionView>,
}

#[verifier::ext_equal]
pub ghost struct BuildConfigView {
    pub variables: Seq<ConfigVariableView>,
    pub defines: Seq<DefineMappingView>,
    pub source_selections: Seq<SourceSelectionView>,
    pub conditional_targets: Seq<ConditionalTargetView>,
    pub subdir_selections: Seq<SubdirSelectionView>,
    pub is_empty: bool,
}

impl DeepView for ConfigVarKind {
    type V = ConfigVarKindView;

    open spec fn deep_view(&self) -> ConfigVarKindView {
        match self {
            ConfigVarKind::Boolean => ConfigVarKindView::Boolean,
            ConfigVarKind::Enum { values, numeric } => ConfigVarKindView::Enum {
                values: values.deep_view(),
                numeric: *numeric,
            },
        }
    }
}

impl DeepView for ConfigVariable {
    type V = ConfigVariableView;

    open spec fn deep_view(&self) -> ConfigVariableView {
        ConfigVariableView {
            name: self.name@,
            kind: self.kind.deep_view(),
            default: self.default.deep_view(),
        }
    }
}

impl DeepView for DefineKind {
    type V = DefineKindView;

    open spec fn deep_view(&self) -> DefineKindView {
        match self {
            DefineKind::QuotedString { var } => DefineKindView::QuotedString { var: var@ },
            DefineKind::Bare { var } => DefineKindView::Bare { var: var@ },
            DefineKind::Composed { template } => DefineKindView::Composed { template: template@ },
            DefineKind::GatedFlag { gate_var } => DefineKindView::GatedFlag { gate_var: gate_var@ },
        }
    }
}

impl DeepView for DefineMapping {
    type V = DefineMappingView;

    open spec fn deep_view(&self) -> DefineMappingView {
        DefineMappingView {
            c_name: self.c_name@,
            kind: self.kind.deep_view(),
            source_vars: self.source_vars.deep_view(),
        }
    }
}

impl DeepView for SourceVariant {
    type V = SourceVariantView;

    open spec fn deep_view(&self) -> SourceVariantView {
        SourceVariantView { value: self.value@, files: self.files.deep_view() }
    }
}

impl DeepView for SourceSelection {
    type V = SourceSelectionView;

    open spec fn deep_view(&self) -> SourceSelectionView {
        SourceSelectionView {
            target: self.target@,
            driving_var: self.driving_var@,
            variants: self.variants.deep_view(),
        }
    }
}

impl DeepView for ConditionalTarget {
    type V = ConditionalTargetView;

    open spec fn deep_view(&self) -> ConditionalTargetView {
        ConditionalTargetView {
            target: self.target@,
            gate_var: self.gate_var@,
            files: self.files.deep_view(),
        }
    }
}

impl DeepView for TargetDecl {
    type V = TargetDeclView;

    open spec fn deep_view(&self) -> TargetDeclView {
        TargetDeclView { name: self.name@, kind: self.kind, files: self.files.deep_view() }
    }
}

impl SubdirSelection {
    pub open spec fn model(self) -> SubdirSelectionView
        decreases self,
    {
        SubdirSelectionView {
            driving_var: self.driving_var@,
            variants: Seq::new(
                self.variants@.len(),
                |i: int|
                    if 0 <= i < self.variants@.len() {
                        self.variants@[i].model()
                    } else {
                        arbitrary()
                    },
            ),
        }
    }
}

impl SubdirVariant {
    pub open spec fn model(self) -> SubdirVariantView
        decreases self,
    {
        SubdirVariantView {
            value: self.value@,
            path: self.path@,
            defines: self.defines.deep_view(),
            source_selections: self.source_selections.deep_view(),
            conditional_targets: self.conditional_targets.deep_view(),
            targets: self.targets.deep_view(),
            subdir_selections: Seq::new(
                self.subdir_selections@.len(),
                |i: int|
                    if 0 <= i < self.subdir_selections@.len() {
                        self.subdir_selections@[i].model()
                    } else {
                        arbitrary()
                    },
            ),
        }
    }
}

impl DeepView for SubdirSelection {
    type V = SubdirSelectionView;

    open spec fn deep_view(&self) -> SubdirSelectionView {
        self.model()
    }
}

impl DeepView for SubdirVariant {
    type V = SubdirVariantView;

    open spec fn deep_view(&self) -> SubdirVariantView {
        self.model()
    }
}

impl DeepView for BuildConfigIR {
    type V = BuildConfigView;

    open spec fn deep_view(&self) -> BuildConfigView {
        BuildConfigView {
            variables: self.variables.deep_view(),
            defines: self.defines.deep_view(),
            source_selections: self.source_selections.deep_view(),
            conditional_targets: self.conditional_targets.deep_view(),
            subdir_selections: self.subdir_selections.deep_view(),
            is_empty: self.is_empty,
        }
    }
}

/// The name is that of a library by convention: it ends in `_lib`.
pub open spec fn named_library(name: Seq<char>) -> bool {
    "_lib"@.is_suffix_of(name)
}

impl BuildConfigView {
    /// The view with no variable, define, selection or target.
    pub open spec fn nothing(is_empty: bool) -> BuildConfigView {
        BuildConfigView {
            variables: seq![],
            defines: seq![],
            source_selections: seq![],
            conditional_targets: seq![],
            subdir_selections: seq![],
            is_empty,
        }
    }

    /// `name` is the target of a source selection.
    pub open spec fn selects(self, name: Seq<char>) -> bool {
        exists|i: int|
            0 <= i < self.source_selections.len() && (#[trigger] self.source_selections[i]).target
                == name
    }

    /// `name` is a target that the view mentions.
    pub open spec fn has_target(self, name: Seq<char>) -> bool {
        self.selects(name) || exists|i: int|
            0 <= i < self.conditional_targets.len()
                && (#[trigger] self.conditional_targets[i]).target == name
    }

    /// `name` is taken for a library: a target whose name ends in `_lib`, or a
    /// conditional target that is not the target of a source selection.
    pub open spec fn has_library(self, name: Seq<char>) -> bool {
        self.has_target(name) && (named_library(name) || !self.selects(name))
    }

    /// The one-line description of the view.
    pub open spec fn summary(self) -> Seq<char> {
        if self.is_empty {
            "BuildConfigIR { empty }"@
        } else {
            "BuildConfigIR { "@ + decimal_of(self.variables.len()) + " vars, "@ + decimal_of(
                self.defines.len(),
            ) + " defines, "@ + decimal_of(self.source_selections.len()) + " source_selections, "@
                + decimal_of(self.conditional_targets.len()) + " conditional_targets, "@
                + decimal_of(self.subdir_selections.len()) + " subdir_selections }"@
        }
    }
}

impl Default for BuildConfigIR {
    fn default() -> (r: BuildConfigIR)
        ensures
            r.deep_view() == BuildConfigView::nothing(false),
    {
        let r = BuildConfigIR {
            variables: Vec::new(),
            defines: Vec::new(),
            source_selections: Vec::new(),
            conditional_targets: Vec::new(),
            subdir_selections: Vec::new(),
            is_empty: false,
        };
        proof {
            assert(r.deep_view() =~= BuildConfigView::nothing(false));
        }
        r
    }
}

impl BuildConfigIR {
    /// The IR of a project without configurable variables.
    pub fn empty() -> (r: BuildConfigIR)
        ensures
            r.deep_view() == BuildConfigView::nothing(true),
    {
        let r = BuildConfigIR {
            variables: Vec::new(),
            defines: Vec::new(),
            source_selections: Vec::new(),
            conditional_targets: Vec::new(),
            subdir_selections: Vec::new(),
            is_empty: true,
        };
        proof {
            assert(r.deep_view() =~= BuildConfigView::nothing(true));
        }
        r
    }

    /// Returns `true` when the IR records at least one target that is not taken
    /// for a library. That is so exactly when a source selection has a target
    /// whose name does not end in `_lib`. When the IR `is_empty` this always
    /// returns `false`, so callers can fall back to matching lines of
    /// `CMakeLists.txt`.
    pub fn has_executable_target(&self) -> (r: bool)
        ensures
            r == (!self.is_empty && exists|t: Seq<char>|
                #[trigger] self.deep_view().has_target(t) && !self.deep_view().has_library(t)),
            r == (!self.is_empty && exists|i: int|
                0 <= i < self.source_selections@.len() && !named_library(
                    (#[trigger] self.source_selections@[i]).target@,
                )),
    {
        if self.is_empty {
            return false;
        }
        let ghost v = self.deep_view();
        let mut i: usize = 0;
        while i < self.source_selections.len()
            invariant
                v == self.deep_view(),
                !self.is_empty,
                i <= self.source_selections@.len(),
                forall|j: int|
                    0 <= j < i ==> named_library((#[trigger] self.source_selections@[j]).target@),
            decreases self.source_selections@.len() - i,
        {
            let name = self.source_selections[i].target.as_str();
            if !ends_with(name, "_lib") {
                proof {
                    assert(v.source_selections[i as int].target == name@);
                    assert(v.selects(name@));
                    assert(v.has_target(name@) && !v.has_library(name@));
                }
                return true;
            }
            i += 1;
        }
        proof {
            assert forall|t: Seq<char>| #[trigger] v.has_target(t) implies v.has_library(t) by {
                if v.selects(t) {
                    let k = choose|k: int|
                        0 <= k < v.source_selections.len()
                            && (#[trigger] v.source_selections[k]).target == t;
                    assert(self.source_selections@[k].target@ == t);
                }
            }
        }
        false
    }

    /// Returns `true` when the IR records at least one library target: one whose
    /// name ends in `_lib`, or a conditional target that no source selection
    /// names. When `is_empty` this returns `false` unconditionally.
    pub fn has_library_target(&self) -> (r: bool)
        ensures
            r == (!self.is_empty && exists|t: Seq<char>| #[trigger]
                self.deep_view().has_library(t)),
    {
        if self.is_empty {
            return false;
        }
        let ghost v = self.deep_view();
        let mut i: usize = 0;
        while i < self.source_selections.len()
            invariant
                v == self.deep_view(),
                !self.is_empty,
                i <= self.source_selections@.len(),
                forall|j: int|
                    0 <= j < i ==> !named_library((#[trigger] v.source_selections[j]).target),
            decreases self.source_selections@.len() - i,
        {
            let name = self.source_selections[i].target.as_str();
            if ends_with(name, "_lib") {
                proof {
                    assert(v.source_selections[i as int].target == name@);
                    assert(v.selects(name@));
                    assert(v.has_library(name@));
                }
                return true;
            }
            i += 1;
        }
        let mut k: usize = 0;
        while k < self.conditional_targets.len()
            invariant
                v == self.deep_view(),
                !self.is_empty,
                k <= self.conditional_targets@.len(),
                forall|j: int|
                    0 <= j < k ==> !v.has_library((#[trigger] v.conditional_targets[j]).target),
            decreases self.conditional_targets@.len() - k,
        {
            let name = self.conditional_targets[k].target.as_str();
            proof {
                assert(v.conditional_targets[k as int].target == name@);
                assert(v.has_target(name@));
            }
            if ends_with(name, "_lib") || !self.selects_target(name) {
                proof {
                    assert(v.has_library(name@));
                }
                return true;
            }
            k += 1;
        }
        proof {
            assert forall|t: Seq<char>| !(#[trigger] v.has_library(t)) by {
                if v.selects(t) {
                    let j = choose|j: int|
                        0 <= j < v.source_selections.len()
                            && (#[trigger] v.source_selections[j]).target == t;
                    assert(!named_library(v.source_selections[j].target));
                }
            }
        }
        false
    }

    fn selects_target(&self, name: &str) -> (r: bool)
        ensures
            r == self.deep_view().selects(name@),
    {
        let ghost v = self.deep_view();
        let mut i: usize = 0;
        while i < self.source_selections.len()
            invariant
                v == self.deep_view(),
                i <= self.source_selections@.len(),
                forall|j: int| 0 <= j < i ==> (#[trigger] v.source_selections[j]).target != name@,
            decreases self.source_selections@.len() - i,
        {
            if same(self.source_selections[i].target.as_str(), name) {
                proof {
                    assert(v.source_selections[i as int].target == name@);
                }
                return true;
            }
            i += 1;
        }
        false
    }

    /// A one-line description of the IR.
    pub fn summary(&self) -> (r: String)
        ensures
            r@ == self.deep_view().summary(),
    {
        if self.is_empty {
            return "BuildConfigIR { empty }".to_owned();
        }
        let mut out = "BuildConfigIR { ".to_owned();
        out.push_str(decimal(self.variables.len()).as_str());
        out.push_str(" vars, ");
        out.push_str(decimal(self.defines.len()).as_str());
        out.push_str(" defines, ");
        out.push_str(decimal(self.source_selections.len()).as_str());
        out.push_str(" source_selections, ");
        out.push_str(decimal(self.conditional_targets.len()).as_str());
        out.push_str(" conditional_targets, ");
        out.push_str(decimal(self.subdir_selections.len()).as_str());
        out.push_str(" subdir_selections }");
        out
    }
}

} // verus!
