//! Reads the outcome of `cargo build --release`, and the Cargo features that a
//! test case asks for in its CMake presets.
use crate::cargo_output::{
    all_read, cargo_messages, parse_stream, CargoMessage, MessagePart, OutputError,
};
use crate::json::{json_value, member, parse_json, text_in, Json};
use crate::names::NameMap;
use crate::order::{is_listing, list_names, listing};
use crate::text::{join, joined, read_utf8, same, starts_with, utf8_text};
use vstd::prelude::*;

verus! {

/// The build tool.
pub struct TryCargoBuild;

/// What `cargo build` did.
#[derive(Debug)]
pub struct CargoBuildResult {
    /// The files of each compiled target.
    pub artifacts: Vec<Vec<String>>,
    /// Each diagnostic of the compiler: what it says followed by its notes.
    pub diagnostics: Vec<Vec<MessagePart>>,
    pub success: bool,
    pub err: String,
}

#[verifier::ext_equal]
pub ghost struct CargoBuildResultView {
    pub artifacts: Seq<Vec<String>>,
    pub diagnostics: Seq<Vec<MessagePart>>,
    pub success: bool,
    pub err: Seq<char>,
}

impl DeepView for CargoBuildResult {
    type V = CargoBuildResultView;

    open spec fn deep_view(&self) -> CargoBuildResultView {
        CargoBuildResultView {
            artifacts: self.artifacts@,
            diagnostics: self.diagnostics@,
            success: self.success,
            err: self.err@,
        }
    }
}

/// The artifacts among the messages, in order.
pub open spec fn artifacts_in(messages: Seq<CargoMessage>) -> Seq<Vec<String>>
    decreases messages.len(),
{
    if messages.len() == 0 {
        seq![]
    } else {
        let rest = artifacts_in(messages.drop_last());
        match messages.last() {
            CargoMessage::Artifact(files) => rest.push(files),
            _ => rest,
        }
    }
}

/// The diagnostics among the messages, in order.
pub open spec fn diagnostics_in(messages: Seq<CargoMessage>) -> Seq<Vec<MessagePart>>
    decreases messages.len(),
{
    if messages.len() == 0 {
        seq![]
    } else {
        let rest = diagnostics_in(messages.drop_last());
        match messages.last() {
            CargoMessage::Diagnostic(parts, _, _) => rest.push(parts),
            _ => rest,
        }
    }
}

/// What the last message about the end of the build says; a build without one
/// failed.
pub open spec fn success_in(messages: Seq<CargoMessage>) -> bool
    decreases messages.len(),
{
    if messages.len() == 0 {
        false
    } else {
        match messages.last() {
            CargoMessage::Finished(success) => success,
            _ => success_in(messages.drop_last()),
        }
    }
}

/// What the messages and the standard error of a build amount to.
pub open spec fn build_outcome(messages: Seq<CargoMessage>, stderr: Seq<u8>) -> Result<
    CargoBuildResultView,
    OutputError,
> {
    if !all_read(messages) {
        Err(OutputError::Unreadable)
    } else {
        match utf8_text(stderr) {
            None => Err(OutputError::NotUtf8),
            Some(err) => Ok(
                CargoBuildResultView {
                    artifacts: artifacts_in(messages),
                    diagnostics: diagnostics_in(messages),
                    success: success_in(messages),
                    err,
                },
            ),
        }
    }
}

/// The view of a build result that may be missing.
pub open spec fn outcome_view(r: Result<CargoBuildResult, OutputError>) -> Result<
    CargoBuildResultView,
    OutputError,
> {
    match r {
        Ok(v) => Ok(v.deep_view()),
        Err(e) => Err(e),
    }
}

/// The lines that name the files of a target.
pub open spec fn file_lines(files: Seq<String>) -> Seq<char>
    decreases files.len(),
{
    if files.len() == 0 {
        seq![]
    } else {
        file_lines(files.drop_last()) + "    "@ + files.last()@ + "\n"@
    }
}

/// The lines that name the files of all targets.
pub open spec fn artifact_lines(artifacts: Seq<Vec<String>>) -> Seq<char>
    decreases artifacts.len(),
{
    if artifacts.len() == 0 {
        seq![]
    } else {
        artifact_lines(artifacts.drop_last()) + file_lines(artifacts.last()@)
    }
}

impl CargoBuildResultView {
    /// The build as text.
    pub open spec fn description(self) -> Seq<char> {
        if self.success {
            "Built Rust artifact:\n"@ + "  Build succeeded. Artifacts:\n"@ + artifact_lines(
                self.artifacts,
            )
        } else {
            "Built Rust artifact:\n"@ + "  Build failed: "@ + self.err + "\n"@
        }
    }
}

fn push_files(out: &mut String, files: &Vec<String>)
    ensures
        final(out)@ == old(out)@ + file_lines(files@),
{
    let ghost start = out@;
    let mut i: usize = 0;
    while i < files.len()
        invariant
            i <= files@.len(),
            out@ == start + file_lines(files@.take(i as int)),
        decreases files@.len() - i,
    {
        proof {
            assert(files@.take(i + 1).drop_last() =~= files@.take(i as int));
        }
        out.push_str("    ");
        out.push_str(files[i].as_str());
        out.push_str("\n");
        proof {
            assert(out@ =~= start + file_lines(files@.take(i + 1)));
        }
        i += 1;
    }
    proof {
        assert(files@.take(i as int) =~= files@);
    }
}

impl CargoBuildResult {
    /// What the messages and the standard error of a build amount to.
    pub fn from_messages(messages: Vec<CargoMessage>, stderr: &[u8]) -> (r: Result<
        CargoBuildResult,
        OutputError,
    >)
        ensures
            outcome_view(r) == build_outcome(messages@, stderr@),
    {
        let ghost all = messages@;
        let mut artifacts: Vec<Vec<String>> = Vec::new();
        let mut diagnostics: Vec<Vec<MessagePart>> = Vec::new();
        let mut success = false;
        for message in it: messages.into_iter()
            invariant
                it.seq() == all,
                all_read(all.take(it.index())),
                artifacts@ == artifacts_in(all.take(it.index())),
                diagnostics@ == diagnostics_in(all.take(it.index())),
                success == success_in(all.take(it.index())),
        {
            let ghost k = it.index();
            proof {
                assert(all.take(k + 1).drop_last() =~= all.take(k));
                assert(all.take(k + 1).last() == message);
            }
            match message {
                CargoMessage::Artifact(files) => {
                    artifacts.push(files);
                },
                CargoMessage::Diagnostic(parts, _, _) => {
                    diagnostics.push(parts);
                },
                CargoMessage::Finished(b) => {
                    success = b;
                },
                CargoMessage::Unreadable => {
                    proof {
                        assert(all[k] is Unreadable);
                    }
                    return Err(OutputError::Unreadable);
                },
                CargoMessage::Other => {},
            }
            proof {
                assert forall|i: int| 0 <= i < k + 1 implies !(#[trigger] all.take(k + 1)[i] is Unreadable) by {
                    if i < k {
                        assert(all.take(k)[i] == all.take(k + 1)[i]);
                    }
                }
            }
        }
        proof {
            assert(all.take(all.len() as int) =~= all);
        }
        match read_utf8(stderr) {
            Some(err) => Ok(CargoBuildResult { artifacts, diagnostics, success, err }),
            None => Err(OutputError::NotUtf8),
        }
    }

    /// Reads what a build printed.
    pub fn from_output(stdout: &[u8], stderr: &[u8]) -> (r: Result<CargoBuildResult, OutputError>)
        ensures
            outcome_view(r) == build_outcome(cargo_messages(stdout@), stderr@),
    {
        CargoBuildResult::from_messages(parse_stream(stdout), stderr)
    }

    /// The build as text: the files that it made, or what it printed on
    /// standard error.
    pub fn describe(&self) -> (r: String)
        ensures
            r@ == self.deep_view().description(),
    {
        let mut out = String::new();
        out.push_str("Built Rust artifact:\n");
        if self.success {
            out.push_str("  Build succeeded. Artifacts:\n");
            let ghost head = out@;
            let ghost all = self.artifacts@;
            let mut i: usize = 0;
            while i < self.artifacts.len()
                invariant
                    all == self.artifacts@,
                    i <= all.len(),
                    out@ == head + artifact_lines(all.take(i as int)),
                decreases all.len() - i,
            {
                proof {
                    assert(all.take(i + 1).drop_last() =~= all.take(i as int));
                }
                push_files(&mut out, &self.artifacts[i]);
                proof {
                    assert(out@ =~= head + artifact_lines(all.take(i + 1)));
                }
                i += 1;
            }
            proof {
                assert(all.take(i as int) =~= all);
                assert(out@ =~= self.deep_view().description());
            }
        } else {
            out.push_str("  Build failed: ");
            out.push_str(self.err.as_str());
            out.push_str("\n");
            proof {
                assert(out@ =~= self.deep_view().description());
            }
        }
        out
    }
}

// ---------------------------------------------------------------------------
// Arguments
// ---------------------------------------------------------------------------

/// The arguments of cargo for a build with these features.
pub open spec fn build_arguments(features: Seq<Seq<char>>) -> Seq<Seq<char>> {
    let plain = seq!["build"@, "--release"@, "--message-format=json"@];
    if features.len() == 0 {
        plain
    } else {
        plain + seq!["--no-default-features"@, "--features"@, joined(features, ","@)]
    }
}

/// The arguments of cargo: with features, only those, so that the binary
/// matches the variant that the test case expects.
pub fn build_args(features: &Vec<String>) -> (r: Vec<String>)
    ensures
        r.deep_view() == build_arguments(features.deep_view()),
{
    let mut args: Vec<String> = Vec::new();
    args.push("build".to_owned());
    args.push("--release".to_owned());
    args.push("--message-format=json".to_owned());
    if features.len() > 0 {
        args.push("--no-default-features".to_owned());
        args.push("--features".to_owned());
        args.push(join(features.as_slice(), ","));
        proof {
            assert(Seq::new(features@.len(), |i: int| features@[i]@) =~= features.deep_view());
        }
    }
    proof {
        assert(args.deep_view() =~= build_arguments(features.deep_view()));
    }
    args
}

// ---------------------------------------------------------------------------
// Features
// ---------------------------------------------------------------------------

/// The configure presets of a presets file.
pub open spec fn presets_of(j: Json) -> Seq<Json> {
    match member(j, "configurePresets"@) {
        Some(Json::Array(presets)) => presets@,
        _ => seq![],
    }
}

/// The text of a member that is a string.
pub open spec fn text_member(j: Json, key: Seq<char>) -> Option<Seq<char>> {
    match member(j, key) {
        Some(v) => text_in(v),
        None => None,
    }
}

/// The last preset with this name.
pub open spec fn preset_named(presets: Seq<Json>, name: Seq<char>) -> Option<Json>
    decreases presets.len(),
{
    if presets.len() == 0 {
        None
    } else if text_member(presets.last(), "name"@) == Some(name) {
        Some(presets.last())
    } else {
        preset_named(presets.drop_last(), name)
    }
}

/// The preset is only there to be inherited.
pub open spec fn hidden(preset: Json) -> bool {
    member(preset, "hidden"@) matches Some(Json::Bool(b)) && b
}

/// The last preset that is not hidden.
pub open spec fn last_visible(presets: Seq<Json>) -> Option<Json>
    decreases presets.len(),
{
    if presets.len() == 0 {
        None
    } else if !hidden(presets.last()) {
        Some(presets.last())
    } else {
        last_visible(presets.drop_last())
    }
}

/// The preset of the test case: the one named `test`, else the last one that
/// is not hidden.
pub open spec fn target_preset(presets: Seq<Json>) -> Option<Json> {
    match preset_named(presets, "test"@) {
        Some(p) => Some(p),
        None => last_visible(presets),
    }
}

/// The strings among the values.
pub open spec fn texts_in(values: Seq<Json>) -> Seq<Seq<char>>
    decreases values.len(),
{
    if values.len() == 0 {
        seq![]
    } else {
        let rest = texts_in(values.drop_last());
        match text_in(values.last()) {
            Some(s) => rest.push(s),
            None => rest,
        }
    }
}

/// The names of the presets that `preset` inherits.
pub open spec fn parents_of(preset: Json) -> Seq<Seq<char>> {
    match member(preset, "inherits"@) {
        Some(Json::Text(s)) => seq![s@],
        Some(Json::Array(values)) => texts_in(values@),
        _ => seq![],
    }
}

/// Cache variables and their values.
pub type Cache = Map<Seq<char>, Seq<char>>;

/// `cache` with the string values among `members`.
pub open spec fn with_members(cache: Cache, members: Seq<(String, Json)>) -> Cache
    decreases members.len(),
{
    if members.len() == 0 {
        cache
    } else {
        let rest = with_members(cache, members.drop_last());
        match text_in(members.last().1) {
            Some(v) => rest.insert(members.last().0@, v),
            None => rest,
        }
    }
}

/// `cache` with the variables that `preset` sets itself.
pub open spec fn with_own(cache: Cache, preset: Json) -> Cache {
    match member(preset, "cacheVariables"@) {
        Some(Json::Object(members)) => with_members(cache, members@),
        _ => cache,
    }
}

/// `cache` with what `preset` inherits and then with what it sets itself;
/// `None` if the inheritance is deeper than `depth`.
pub open spec fn with_preset(cache: Cache, preset: Json, presets: Seq<Json>, depth: nat) -> Option<
    Cache,
>
    decreases depth, 1nat, 0nat,
{
    if depth == 0 {
        None
    } else {
        match with_parents(cache, parents_of(preset), presets, (depth - 1) as nat) {
            Some(c) => Some(with_own(c, preset)),
            None => None,
        }
    }
}

/// `cache` with each of the named presets in turn; names of no preset are
/// passed over.
pub open spec fn with_parents(
    cache: Cache,
    names: Seq<Seq<char>>,
    presets: Seq<Json>,
    depth: nat,
) -> Option<Cache>
    decreases depth, 2nat, names.len(),
{
    if names.len() == 0 {
        Some(cache)
    } else {
        match with_parents(cache, names.drop_last(), presets, depth) {
            None => None,
            Some(c) => match preset_named(presets, names.last()) {
                Some(p) => with_preset(c, p, presets, depth),
                None => Some(c),
            },
        }
    }
}

/// The variables that CMake itself does not define.
pub open spec fn own_variables(cache: Cache) -> Set<Seq<char>> {
    Set::new(|k: Seq<char>| cache.dom().contains(k) && !"CMAKE_"@.is_prefix_of(k))
}

/// The values of the variables that CMake itself does not define, in the order
/// of their names.
pub open spec fn feature_values(cache: Cache) -> Seq<Seq<char>> {
    listing(own_variables(cache)).map_values(|k: Seq<char>| cache[k])
}

/// The features of a presets file: none without a preset to take them from;
/// `None` if a preset inherits from itself.
pub open spec fn features_in(j: Json) -> Option<Seq<Seq<char>>> {
    let presets = presets_of(j);
    match target_preset(presets) {
        None => Some(seq![]),
        Some(target) => match with_preset(Map::empty(), target, presets, presets.len()) {
            Some(cache) => Some(feature_values(cache)),
            None => None,
        },
    }
}

/// A greater depth changes no answer: once the inheritance is within `depth`,
/// it is within every greater one, with the same variables.
pub proof fn depth_changes_no_answer(
    cache: Cache,
    preset: Json,
    presets: Seq<Json>,
    depth: nat,
    greater: nat,
)
    requires
        depth <= greater,
        with_preset(cache, preset, presets, depth) is Some,
    ensures
        with_preset(cache, preset, presets, greater) == with_preset(cache, preset, presets, depth),
    decreases depth, 1nat, 0nat,
{
    parents_depth(
        cache,
        parents_of(preset),
        presets,
        (depth - 1) as nat,
        (greater - 1) as nat,
    );
}

proof fn parents_depth(
    cache: Cache,
    names: Seq<Seq<char>>,
    presets: Seq<Json>,
    depth: nat,
    greater: nat,
)
    requires
        depth <= greater,
        with_parents(cache, names, presets, depth) is Some,
    ensures
        with_parents(cache, names, presets, greater) == with_parents(cache, names, presets, depth),
    decreases depth, 2nat, names.len(),
{
    if names.len() > 0 {
        parents_depth(cache, names.drop_last(), presets, depth, greater);
        let c = with_parents(cache, names.drop_last(), presets, depth)->0;
        match preset_named(presets, names.last()) {
            Some(p) => {
                depth_changes_no_answer(c, p, presets, depth, greater);
            },
            None => {},
        }
    }
}

/// Whether the inheritance is within `depth` does not depend on the variables
/// that are set before.
proof fn preset_course(a: Cache, b: Cache, preset: Json, presets: Seq<Json>, depth: nat)
    ensures
        with_preset(a, preset, presets, depth) is Some == with_preset(
            b,
            preset,
            presets,
            depth,
        ) is Some,
    decreases depth, 1nat, 0nat,
{
    if depth > 0 {
        parents_course(a, b, parents_of(preset), presets, (depth - 1) as nat);
    }
}

proof fn parents_course(
    a: Cache,
    b: Cache,
    names: Seq<Seq<char>>,
    presets: Seq<Json>,
    depth: nat,
)
    ensures
        with_parents(a, names, presets, depth) is Some == with_parents(
            b,
            names,
            presets,
            depth,
        ) is Some,
    decreases depth, 2nat, names.len(),
{
    if names.len() > 0 {
        parents_course(a, b, names.drop_last(), presets, depth);
        if with_parents(a, names.drop_last(), presets, depth) is Some {
            match preset_named(presets, names.last()) {
                Some(p) => {
                    preset_course(
                        with_parents(a, names.drop_last(), presets, depth)->0,
                        with_parents(b, names.drop_last(), presets, depth)->0,
                        p,
                        presets,
                        depth,
                    );
                },
                None => {},
            }
        }
    }
}

/// The preset inherits within `depth`.
spec fn inherits_within(preset: Json, presets: Seq<Json>, depth: nat) -> bool {
    with_preset(Map::empty(), preset, presets, depth) is Some
}

proof fn inherits_deeper(preset: Json, presets: Seq<Json>, depth: nat, greater: nat)
    requires
        depth <= greater,
        inherits_within(preset, presets, depth),
    ensures
        inherits_within(preset, presets, greater),
{
    depth_changes_no_answer(Map::empty(), preset, presets, depth, greater);
}

/// The least depth within which a preset inherits.
proof fn least_inheritance(preset: Json, presets: Seq<Json>, depth: nat) -> (g: nat)
    requires
        inherits_within(preset, presets, depth),
    ensures
        0 < g <= depth,
        inherits_within(preset, presets, g),
        !inherits_within(preset, presets, (g - 1) as nat),
    decreases depth,
{
    if inherits_within(preset, presets, (depth - 1) as nat) {
        least_inheritance(preset, presets, (depth - 1) as nat)
    } else {
        depth
    }
}

proof fn named_preset_is_listed(presets: Seq<Json>, name: Seq<char>)
    ensures
        preset_named(presets, name) matches Some(p) ==> presets.contains(p),
    decreases presets.len(),
{
    if presets.len() > 0 {
        let rest = presets.drop_last();
        if text_member(presets.last(), "name"@) == Some(name) {
            assert(presets[presets.len() - 1] == presets.last());
        } else {
            named_preset_is_listed(rest, name);
            match preset_named(rest, name) {
                Some(p) => {
                    let i = choose|i: int| 0 <= i < rest.len() && rest[i] == p;
                    assert(presets[i] == p);
                },
                None => {},
            }
        }
    }
}

/// `heirs` are the presets that inherit from this one: none of them inherits
/// within a depth that is enough for it.
proof fn inheritance_fits(
    cache: Cache,
    preset: Json,
    presets: Seq<Json>,
    g: nat,
    e: nat,
    heirs: Set<Json>,
)
    requires
        presets.contains(preset),
        0 < g,
        inherits_within(preset, presets, g),
        !inherits_within(preset, presets, (g - 1) as nat),
        forall|a: Json| #[trigger] heirs.contains(a) ==> !inherits_within(a, presets, g),
        e >= presets.to_set().difference(heirs).len(),
    ensures
        with_preset(cache, preset, presets, e) is Some,
    decreases g, 1nat, 0nat,
{
    broadcast use vstd::seq_lib::seq_to_set_is_finite;

    let all = presets.to_set();
    let more = heirs.insert(preset);
    assert(!heirs.contains(preset));
    assert(all.difference(more) =~= all.difference(heirs).remove(preset));
    assert(all.difference(heirs).contains(preset));
    assert(all.difference(heirs).len() == all.difference(more).len() + 1);
    let below = (g - 1) as nat;
    preset_course(Map::empty(), cache, preset, presets, g);
    assert forall|a: Json| #[trigger] more.contains(a) implies !inherits_within(
        a,
        presets,
        below,
    ) by {
        if inherits_within(a, presets, below) {
            inherits_deeper(a, presets, below, g);
        }
    }
    parents_fit(cache, parents_of(preset), presets, below, (e - 1) as nat, more);
}

proof fn parents_fit(
    cache: Cache,
    names: Seq<Seq<char>>,
    presets: Seq<Json>,
    d: nat,
    e: nat,
    heirs: Set<Json>,
)
    requires
        with_parents(cache, names, presets, d) is Some,
        forall|a: Json| #[trigger] heirs.contains(a) ==> !inherits_within(a, presets, d),
        e >= presets.to_set().difference(heirs).len(),
    ensures
        with_parents(cache, names, presets, e) is Some,
    decreases d, 2nat, names.len(),
{
    if names.len() > 0 {
        let rest = names.drop_last();
        parents_fit(cache, rest, presets, d, e, heirs);
        match preset_named(presets, names.last()) {
            Some(p) => {
                named_preset_is_listed(presets, names.last());
                let c = with_parents(cache, rest, presets, d)->0;
                preset_course(c, Map::empty(), p, presets, d);
                let g = least_inheritance(p, presets, d);
                assert forall|a: Json| #[trigger] heirs.contains(a) implies !inherits_within(
                    a,
                    presets,
                    g,
                ) by {
                    if inherits_within(a, presets, g) {
                        inherits_deeper(a, presets, g, d);
                    }
                }
                inheritance_fits(
                    with_parents(cache, rest, presets, e)->0,
                    p,
                    presets,
                    g,
                    e,
                    heirs,
                );
            },
            None => {},
        }
    }
}

/// The number of presets is depth enough: an inheritance that ends at all is no
/// deeper.
pub proof fn presets_limit_the_inheritance(
    cache: Cache,
    preset: Json,
    presets: Seq<Json>,
    depth: nat,
)
    requires
        presets.contains(preset),
        with_preset(cache, preset, presets, depth) is Some,
    ensures
        with_preset(cache, preset, presets, presets.len()) == with_preset(
            cache,
            preset,
            presets,
            depth,
        ),
{
    preset_course(cache, Map::empty(), preset, presets, depth);
    let g = least_inheritance(preset, presets, depth);
    presets.lemma_cardinality_of_set();
    assert(presets.to_set().difference(Set::empty()) =~= presets.to_set());
    inheritance_fits(cache, preset, presets, g, presets.len(), Set::empty());
    if depth <= presets.len() {
        depth_changes_no_answer(cache, preset, presets, depth, presets.len());
    } else {
        depth_changes_no_answer(cache, preset, presets, presets.len(), depth);
    }
}

fn text_member_of<'a>(j: &'a Json, key: &str) -> (r: Option<&'a str>)
    ensures
        crate::text::opt_view(r) == text_member(*j, key@),
{
    match j.get(key) {
        Some(v) => v.as_str(),
        None => None,
    }
}

fn find_preset<'a>(presets: &'a Vec<Json>, name: &str) -> (r: Option<&'a Json>)
    ensures
        match r {
            Some(p) => preset_named(presets@, name@) == Some(*p),
            None => preset_named(presets@, name@) is None,
        },
{
    let ghost all = presets@;
    let mut n: usize = presets.len();
    proof {
        assert(all.take(n as int) =~= all);
    }
    while n > 0
        invariant
            all == presets@,
            n <= all.len(),
            preset_named(all, name@) == preset_named(all.take(n as int), name@),
        decreases n,
    {
        proof {
            assert(all.take(n as int).drop_last() =~= all.take(n - 1));
        }
        match text_member_of(&presets[n - 1], "name") {
            Some(s) => {
                if same(s, name) {
                    return Some(&presets[n - 1]);
                }
            },
            None => {},
        }
        n -= 1;
    }
    None
}

fn find_visible<'a>(presets: &'a Vec<Json>) -> (r: Option<&'a Json>)
    ensures
        match r {
            Some(p) => last_visible(presets@) == Some(*p),
            None => last_visible(presets@) is None,
        },
{
    let ghost all = presets@;
    let mut n: usize = presets.len();
    proof {
        assert(all.take(n as int) =~= all);
    }
    while n > 0
        invariant
            all == presets@,
            n <= all.len(),
            last_visible(all) == last_visible(all.take(n as int)),
        decreases n,
    {
        proof {
            assert(all.take(n as int).drop_last() =~= all.take(n - 1));
        }
        let is_hidden = match presets[n - 1].get("hidden") {
            Some(Json::Bool(b)) => *b,
            _ => false,
        };
        if !is_hidden {
            return Some(&presets[n - 1]);
        }
        n -= 1;
    }
    None
}

fn parent_names(preset: &Json) -> (r: Vec<String>)
    ensures
        r.deep_view() == parents_of(*preset),
{
    let mut out: Vec<String> = Vec::new();
    match preset.get("inherits") {
        Some(Json::Text(s)) => {
            out.push(s.as_str().to_owned());
        },
        Some(Json::Array(values)) => {
            let ghost all = values@;
            let mut i: usize = 0;
            proof {
                assert(out.deep_view() =~= texts_in(all.take(0)));
            }
            while i < values.len()
                invariant
                    all == values@,
                    i <= all.len(),
                    out.deep_view() == texts_in(all.take(i as int)),
                decreases all.len() - i,
            {
                let ghost before = out.deep_view();
                proof {
                    assert(all.take(i + 1).drop_last() =~= all.take(i as int));
                }
                match values[i].as_str() {
                    Some(s) => {
                        out.push(s.to_owned());
                        proof {
                            assert(out.deep_view() =~= before.push(s@));
                        }
                    },
                    None => {},
                }
                i += 1;
            }
            proof {
                assert(all.take(i as int) =~= all);
            }
        },
        _ => {},
    }
    proof {
        assert(out.deep_view() =~= parents_of(*preset));
    }
    out
}

fn add_own(cache: &mut NameMap<String>, preset: &Json)
    ensures
        final(cache)@ == with_own(old(cache)@, *preset),
{
    let ghost start = cache@;
    match preset.get("cacheVariables") {
        Some(Json::Object(members)) => {
            let ghost all = members@;
            let mut i: usize = 0;
            while i < members.len()
                invariant
                    all == members@,
                    i <= all.len(),
                    cache@ == with_members(start, all.take(i as int)),
                decreases all.len() - i,
            {
                proof {
                    assert(all.take(i + 1).drop_last() =~= all.take(i as int));
                }
                match members[i].1.as_str() {
                    Some(v) => {
                        cache.insert(members[i].0.as_str(), v.to_owned());
                    },
                    None => {},
                }
                i += 1;
            }
            proof {
                assert(all.take(i as int) =~= all);
            }
        },
        _ => {},
    }
}

fn add_preset(cache: &mut NameMap<String>, preset: &Json, presets: &Vec<Json>, depth: usize) -> (r:
    bool)
    ensures
        r == (with_preset(old(cache)@, *preset, presets@, depth as nat) is Some),
        r ==> with_preset(old(cache)@, *preset, presets@, depth as nat) == Some(final(cache)@),
    decreases depth,
{
    if depth == 0 {
        return false;
    }
    let names = parent_names(preset);
    let ghost all = names.deep_view();
    let ghost start = cache@;
    let mut i: usize = 0;
    while i < names.len()
        invariant
            depth > 0,
            start == old(cache)@,
            all == names.deep_view(),
            all == parents_of(*preset),
            i <= names@.len(),
            with_parents(start, all.take(i as int), presets@, (depth - 1) as nat) == Some(cache@),
        decreases names@.len() - i,
    {
        proof {
            assert(all.take(i + 1).drop_last() =~= all.take(i as int));
        }
        match find_preset(presets, names[i].as_str()) {
            Some(p) => {
                if !add_preset(cache, p, presets, depth - 1) {
                    proof {
                        parents_stay_too_deep(start, all, presets@, (depth - 1) as nat, i + 1);
                    }
                    return false;
                }
            },
            None => {},
        }
        i += 1;
    }
    proof {
        assert(all.take(i as int) =~= all);
    }
    add_own(cache, preset);
    true
}

proof fn parents_stay_too_deep(
    cache: Cache,
    names: Seq<Seq<char>>,
    presets: Seq<Json>,
    depth: nat,
    n: int,
)
    requires
        0 <= n <= names.len(),
        with_parents(cache, names.take(n), presets, depth) is None,
    ensures
        with_parents(cache, names, presets, depth) is None,
    decreases names.len() - n,
{
    if n < names.len() {
        assert(names.take(n + 1).drop_last() =~= names.take(n));
        parents_stay_too_deep(cache, names, presets, depth, n + 1);
    } else {
        assert(names.take(n) =~= names);
    }
}

/// The features that a presets file asks for: the values of the cache
/// variables of the test preset, of what it inherits first, without those whose
/// name starts with `CMAKE_`. `None` if the presets inherit in a circle.
pub fn features_from_presets(json: &Json) -> (r: Option<Vec<String>>)
    ensures
        r.deep_view() == features_in(*json),
{
    let empty: Vec<Json> = Vec::new();
    let presets: &Vec<Json> = match json.get("configurePresets") {
        Some(Json::Array(v)) => v,
        _ => &empty,
    };
    proof {
        assert(presets@ =~= presets_of(*json));
    }
    let target = match find_preset(presets, "test") {
        Some(p) => p,
        None => match find_visible(presets) {
            Some(p) => p,
            None => {
                let none: Vec<String> = Vec::new();
                proof {
                    assert(none.deep_view() =~= seq![]);
                }
                return Some(none);
            },
        },
    };
    let mut cache: NameMap<String> = NameMap::new();
    if !add_preset(&mut cache, target, presets, presets.len()) {
        return None;
    }
    Some(values_in_order(&cache))
}

fn values_in_order(cache: &NameMap<String>) -> (r: Vec<String>)
    ensures
        r.deep_view() == feature_values(cache@),
{
    let keys = cache.keys();
    let mut own = crate::names::NameSet::new();
    let ghost all = keys.names.deep_view();
    let mut i: usize = 0;
    while i < keys.names.len()
        invariant
            all == keys.names.deep_view(),
            i <= keys.names@.len(),
            forall|k: Seq<char>|
                #[trigger] own@.contains(k) == (all.take(i as int).contains(k)
                    && !"CMAKE_"@.is_prefix_of(k)),
        decreases keys.names@.len() - i,
    {
        let ghost before = own@;
        let ghost had = all.take(i as int);
        let ghost now = all.take(i + 1);
        if !starts_with(keys.names[i].as_str(), "CMAKE_") {
            let _ = own.insert(keys.names[i].as_str());
        }
        proof {
            assert(now =~= had.push(all[i as int]));
            assert forall|k: Seq<char>|
                #[trigger] own@.contains(k) == (now.contains(k) && !"CMAKE_"@.is_prefix_of(k)) by {
                assert(before.contains(k) == (had.contains(k) && !"CMAKE_"@.is_prefix_of(k)));
                assert(now[i as int] == all[i as int]);
                if had.contains(k) {
                    let j = choose|j: int| 0 <= j < had.len() && had[j] == k;
                    assert(now[j] == k);
                }
                if now.contains(k) && k != all[i as int] {
                    let j = choose|j: int| 0 <= j < now.len() && now[j] == k;
                    assert(had[j] == k);
                }
            }
        }
        i += 1;
    }
    proof {
        assert(all.take(i as int) =~= all);
        assert(own@ =~= own_variables(cache@)) by {
            assert forall|k: Seq<char>| own@.contains(k) == own_variables(cache@).contains(k) by {
                assert(keys@.contains(k) == all.contains(k));
            }
        }
    }
    let order = list_names(&own);
    let ghost names = order.deep_view();
    let mut out: Vec<String> = Vec::new();
    let mut j: usize = 0;
    while j < order.len()
        invariant
            names == order.deep_view(),
            is_listing(own_variables(cache@), names),
            j <= order@.len(),
            out.deep_view() == names.take(j as int).map_values(|k: Seq<char>| cache@[k]),
        decreases order@.len() - j,
    {
        let ghost before = out.deep_view();
        proof {
            assert(names[j as int] == order@[j as int]@);
            assert(names.contains(names[j as int]));
            assert(own_variables(cache@).contains(names[j as int]));
        }
        match cache.get(order[j].as_str()) {
            Some(v) => {
                out.push(v.as_str().to_owned());
                proof {
                    assert(out.deep_view() =~= before.push(v@));
                    assert(names.take(j + 1).map_values(|k: Seq<char>| cache@[k]) =~= before.push(
                        v@,
                    ));
                }
            },
            None => {},
        }
        j += 1;
    }
    proof {
        assert(names.take(j as int) =~= names);
    }
    out
}

/// What a presets file says of the features; a file that is not JSON says
/// nothing.
pub open spec fn features_of_text(j: Option<Json>) -> Option<Seq<Seq<char>>> {
    match j {
        None => Some(seq![]),
        Some(j) => features_in(j),
    }
}

/// The features that the text of a presets file asks for; without a file, or
/// with one that is not JSON, the build uses the default features. `None` if
/// the presets inherit in a circle.
pub fn read_test_features(presets: Option<&str>) -> (r: Option<Vec<String>>)
    ensures
        r.deep_view() == match presets {
            None => Some(Seq::<Seq<char>>::empty()),
            Some(text) => features_of_text(json_value(text@)),
        },
{
    let none: Vec<String> = Vec::new();
    proof {
        assert(none.deep_view() =~= seq![]);
    }
    match presets {
        None => Some(none),
        Some(text) => match parse_json(text) {
            None => Some(none),
            Some(json) => features_from_presets(&json),
        },
    }
}

// ---------------------------------------------------------------------------
// Laws
// ---------------------------------------------------------------------------

/// A build has the artifacts and the diagnostics of its messages, all of them and
/// in order, and succeeded if the last message that says so says so.
pub proof fn builds_hold_their_messages(messages: Seq<CargoMessage>)
    ensures
        artifacts_in(messages) == messages.filter_map(
            |m: CargoMessage|
                match m {
                    CargoMessage::Artifact(files) => Some(files),
                    _ => None,
                },
        ),
        diagnostics_in(messages) == messages.filter_map(
            |m: CargoMessage|
                match m {
                    CargoMessage::Diagnostic(parts, _, _) => Some(parts),
                    _ => None,
                },
        ),
        success_in(messages) == ({
            let ends = messages.filter(|m: CargoMessage| m is Finished);
            ends.len() > 0 && ends.last() == CargoMessage::Finished(true)
        }),
    decreases messages.len(),
{
    reveal(Seq::filter);
    let a = |m: CargoMessage|
        match m {
            CargoMessage::Artifact(files) => Some(files),
            _ => None,
        };
    let d = |m: CargoMessage|
        match m {
            CargoMessage::Diagnostic(parts, _, _) => Some(parts),
            _ => None,
        };
    if messages.len() > 0 {
        builds_hold_their_messages(messages.drop_last());
        assert(artifacts_in(messages) =~= messages.filter_map(a));
        assert(diagnostics_in(messages) =~= messages.filter_map(d));
    } else {
        assert(artifacts_in(messages) =~= messages.filter_map(a));
        assert(diagnostics_in(messages) =~= messages.filter_map(d));
    }
}

/// The output is refused if a line of it cannot be read, or if what was printed
/// beside it is no text; else the build is what the messages say.
pub proof fn outcomes_are_refused_or_read(messages: Seq<CargoMessage>, stderr: Seq<u8>)
    ensures
        (exists|i: int| 0 <= i < messages.len() && #[trigger] messages[i] is Unreadable)
            ==> build_outcome(messages, stderr) == Err::<CargoBuildResultView, OutputError>(
            OutputError::Unreadable,
        ),
        (forall|i: int| 0 <= i < messages.len() ==> !(#[trigger] messages[i] is Unreadable))
            && utf8_text(stderr) is None ==> build_outcome(messages, stderr) == Err::<
            CargoBuildResultView,
            OutputError,
        >(OutputError::NotUtf8),
        (forall|i: int| 0 <= i < messages.len() ==> !(#[trigger] messages[i] is Unreadable))
            && utf8_text(stderr) is Some ==> (build_outcome(messages, stderr) matches Ok(r)
            && r.artifacts == artifacts_in(messages) && r.diagnostics == diagnostics_in(messages)
            && r.success == success_in(messages) && Some(r.err) == utf8_text(stderr)),
{
}

/// The description of a build that worked has a line for every file of every
/// artifact, in order.
pub proof fn every_artifact_is_listed(artifacts: Seq<Vec<String>>)
    ensures
        artifact_lines(artifacts) == artifacts.flat_map(
            |a: Vec<String>| a@.flat_map(|f: String| "    "@ + f@ + "\n"@),
        ),
    decreases artifacts.len(),
{
    let f = |a: Vec<String>| a@.flat_map(|f: String| "    "@ + f@ + "\n"@);
    crate::seqs::flat_map_last(artifacts, f);
    if artifacts.len() > 0 {
        every_artifact_is_listed(artifacts.drop_last());
        every_file_is_listed(artifacts.last()@);
    } else {
        assert(artifact_lines(artifacts) =~= artifacts.flat_map(f));
    }
}

proof fn every_file_is_listed(files: Seq<String>)
    ensures
        file_lines(files) == files.flat_map(|f: String| "    "@ + f@ + "\n"@),
    decreases files.len(),
{
    let g = |f: String| "    "@ + f@ + "\n"@;
    crate::seqs::flat_map_last(files, g);
    if files.len() > 0 {
        every_file_is_listed(files.drop_last());
        assert(file_lines(files) =~= file_lines(files.drop_last()) + g(files.last()));
    } else {
        assert(file_lines(files) =~= files.flat_map(g));
    }
}

/// A build is a release build with its messages as JSON; features are given
/// separated by commas, without the default ones.
pub proof fn features_are_passed_on(features: Seq<Seq<char>>)
    ensures
        seq!["build"@, "--release"@, "--message-format=json"@].is_prefix_of(
            build_arguments(features),
        ),
        features.len() == 0 ==> build_arguments(features).len() == 3,
        features.len() > 0 ==> build_arguments(features).skip(3) == seq![
            "--no-default-features"@,
            "--features"@,
            joined(features, ","@),
        ],
{
    let plain = seq!["build"@, "--release"@, "--message-format=json"@];
    assert(build_arguments(features).subrange(0, 3) =~= plain);
    if features.len() > 0 {
        assert(build_arguments(features).skip(3) =~= seq![
            "--no-default-features"@,
            "--features"@,
            joined(features, ","@),
        ]);
    }
}

/// A preset is found by its name, the last one of several; the preset of the tests
/// is the one named `test`, else the last that is not hidden.
pub proof fn last_preset_of_a_name_counts(presets: Seq<Json>, name: Seq<char>)
    ensures
        ({
            let all = presets.filter(|p: Json| text_member(p, "name"@) == Some(name));
            preset_named(presets, name) == (if all.len() > 0 {
                Some(all.last())
            } else {
                None
            })
        }),
        ({
            let shown = presets.filter(|p: Json| !hidden(p));
            last_visible(presets) == (if shown.len() > 0 {
                Some(shown.last())
            } else {
                None
            })
        }),
        target_preset(presets) == (match preset_named(presets, "test"@) {
            Some(p) => Some(p),
            None => last_visible(presets),
        }),
        forall|p: Json|
            #[trigger] hidden(p) <==> member(p, "hidden"@) == Some(Json::Bool(true)),
    decreases presets.len(),
{
    reveal(Seq::filter);
    if presets.len() > 0 {
        last_preset_of_a_name_counts(presets.drop_last(), name);
    }
}

/// The texts of a list are those of its elements that are texts, in order.
pub proof fn texts_are_kept_in_order(values: Seq<Json>)
    ensures
        texts_in(values) == values.filter_map(|v: Json| text_in(v)),
    decreases values.len(),
{
    if values.len() > 0 {
        texts_are_kept_in_order(values.drop_last());
    }
    assert(texts_in(values) =~= values.filter_map(|v: Json| text_in(v)));
}

/// A preset inherits from the one that it names, or from all that it lists, in
/// order.
pub proof fn parents_are_named_or_listed(preset: Json)
    ensures
        member(preset, "inherits"@) matches Some(Json::Text(s)) ==> parents_of(preset) == seq![s@],
        member(preset, "inherits"@) matches Some(Json::Array(values)) ==> parents_of(preset)
            == values@.filter_map(|v: Json| text_in(v)),
        member(preset, "inherits"@) is None ==> parents_of(preset).len() == 0,
{
    match member(preset, "inherits"@) {
        Some(Json::Array(values)) => {
            texts_are_kept_in_order(values@);
        },
        _ => {},
    }
}

/// What a preset sets itself counts over what it inherits: every variable with a
/// text has that text, the last one where it is set twice, and every other variable
/// is what it was.
pub proof fn own_variables_count_over_inherited_ones(
    cache: Cache,
    members: Seq<(String, Json)>,
)
    ensures
        forall|i: int|
            0 <= i < members.len() && text_in((#[trigger] members[i]).1) is Some && (forall|j: int|
                i < j < members.len() ==> (#[trigger] members[j]).0@ != members[i].0@)
                ==> with_members(cache, members).dom().contains(members[i].0@) && with_members(
                cache,
                members,
            )[members[i].0@] == text_in(members[i].1)->0,
        forall|k: Seq<char>|
            (forall|i: int| 0 <= i < members.len() ==> (#[trigger] members[i]).0@ != k)
                ==> #[trigger] with_members(cache, members).dom().contains(k)
                == cache.dom().contains(k) && with_members(cache, members)[k] == cache[k],
    decreases members.len(),
{
    if members.len() > 0 {
        let rest = members.drop_last();
        let n = members.len() - 1;
        own_variables_count_over_inherited_ones(cache, rest);
        assert forall|i: int|
            0 <= i < members.len() && text_in((#[trigger] members[i]).1) is Some && (forall|j: int|
                i < j < members.len() ==> (#[trigger] members[j]).0@ != members[i].0@) implies
            with_members(cache, members).dom().contains(members[i].0@) && with_members(
            cache,
            members,
        )[members[i].0@] == text_in(members[i].1)->0 by {
            if i < n {
                assert(rest[i] == members[i]);
                assert(members[n].0@ != members[i].0@);
                assert forall|j: int| i < j < rest.len() implies (#[trigger] rest[j]).0@
                    != rest[i].0@ by {
                    assert(members[j].0@ != members[i].0@);
                }
            }
        }
        assert forall|k: Seq<char>|
            (forall|i: int| 0 <= i < members.len() ==> (#[trigger] members[i]).0@ != k) implies
            #[trigger] with_members(cache, members).dom().contains(k) == cache.dom().contains(k)
            && with_members(cache, members)[k] == cache[k] by {
            assert(members[n].0@ != k);
            assert forall|i: int| 0 <= i < rest.len() implies (#[trigger] rest[i]).0@ != k by {
                assert(members[i].0@ != k);
            }
            assert(with_members(cache, rest).dom().contains(k) == cache.dom().contains(k));
        }
    }
}

/// What a preset ends up with is what its parents give it, one after the other, and
/// then what it sets itself.
pub proof fn presets_build_on_their_parents(
    cache: Cache,
    preset: Json,
    presets: Seq<Json>,
    depth: nat,
    first: Seq<Seq<char>>,
    name: Seq<char>,
)
    requires
        depth > 0,
    ensures
        parents_of(preset).len() == 0 ==> with_preset(cache, preset, presets, depth) == Some(
            with_own(cache, preset),
        ),
        with_preset(cache, preset, presets, depth) matches Some(c) ==> (with_parents(
            cache,
            parents_of(preset),
            presets,
            (depth - 1) as nat,
        ) matches Some(d) && c == with_own(d, preset)),
        with_parents(cache, first, presets, depth) matches Some(d) ==> with_parents(
            cache,
            first.push(name),
            presets,
            depth,
        ) == (match preset_named(presets, name) {
            Some(p) => with_preset(d, p, presets, depth),
            None => Some(d),
        }),
{
    assert(first.push(name).drop_last() =~= first);
}

/// The features are the values of the variables that are not those of the build
/// tool itself, in the order of the names.
pub proof fn features_are_the_values_of_own_variables(cache: Cache)
    requires
        cache.dom().finite(),
    ensures
        feature_values(cache).len() == listing(own_variables(cache)).len(),
        forall|k: Seq<char>|
            cache.dom().contains(k) && !"CMAKE_"@.is_prefix_of(k) ==> feature_values(
                cache,
            ).contains(#[trigger] cache[k]),
        forall|v: Seq<char>| #[trigger]
            feature_values(cache).contains(v) ==> exists|k: Seq<char>|
                cache.dom().contains(k) && !"CMAKE_"@.is_prefix_of(k) && #[trigger] cache[k] == v,
{
    let own = own_variables(cache);
    assert(own.subset_of(cache.dom()));
    vstd::set_lib::lemma_set_subset_finite(cache.dom(), own);
    crate::order::finite_sets_have_a_listing(own);
    let list = listing(own);
    let out = feature_values(cache);
    assert forall|k: Seq<char>|
        cache.dom().contains(k) && !"CMAKE_"@.is_prefix_of(k) implies out.contains(
        #[trigger] cache[k],
    ) by {
        assert(own.contains(k));
        assert(list.contains(k));
        let i = choose|i: int| 0 <= i < list.len() && list[i] == k;
        assert(out[i] == cache[k]);
    }
    assert forall|v: Seq<char>| #[trigger] out.contains(v) implies exists|k: Seq<char>|
        cache.dom().contains(k) && !"CMAKE_"@.is_prefix_of(k) && #[trigger] cache[k] == v by {
        let i = choose|i: int| 0 <= i < out.len() && out[i] == v;
        assert(list.contains(list[i]));
        assert(own.contains(list[i]));
        assert(cache[list[i]] == v);
    }
}

/// The features of presets are those of the preset of the tests; presets without one
/// have none, and so does a text that is no document.
pub proof fn features_are_those_of_the_tests(j: Json)
    ensures
        target_preset(presets_of(j)) is None ==> features_in(j) == Some(
            Seq::<Seq<char>>::empty(),
        ),
        features_of_text(None) == Some(Seq::<Seq<char>>::empty()),
        features_of_text(Some(j)) == features_in(j),
        member(j, "configurePresets"@) is None ==> presets_of(j).len() == 0,
        member(j, "configurePresets"@) matches Some(Json::Array(presets)) ==> presets_of(j)
            == presets@,
        target_preset(presets_of(j)) matches Some(p) ==> (parents_of(p).len() == 0 && presets_of(
            j,
        ).len() > 0 ==> features_in(j) == Some(
            feature_values(with_own(Map::<Seq<char>, Seq<char>>::empty(), p)),
        )),
{
    match target_preset(presets_of(j)) {
        Some(p) => {
            if parents_of(p).len() == 0 && presets_of(j).len() > 0 {
                presets_build_on_their_parents(
                    Map::empty(),
                    p,
                    presets_of(j),
                    presets_of(j).len(),
                    seq![],
                    seq![],
                );
            }
        },
        None => {},
    }
}

/// A build that succeeded is told by its files, one that failed by its error.
pub proof fn builds_are_told(build: CargoBuildResultView)
    ensures
        build.success ==> build.description()
            == "Built Rust artifact:\n  Build succeeded. Artifacts:\n"@ + build.artifacts.flat_map(
            |a: Vec<String>| a@.flat_map(|f: String| "    "@ + f@ + "\n"@),
        ),
        !build.success ==> build.description() == "Built Rust artifact:\n  Build failed: "@
            + build.err + "\n"@,
{
    reveal_strlit("Built Rust artifact:\n");
    reveal_strlit("  Build succeeded. Artifacts:\n");
    reveal_strlit("  Build failed: ");
    reveal_strlit("Built Rust artifact:\n  Build succeeded. Artifacts:\n");
    reveal_strlit("Built Rust artifact:\n  Build failed: ");
    assert("Built Rust artifact:\n"@ + "  Build succeeded. Artifacts:\n"@
        =~= "Built Rust artifact:\n  Build succeeded. Artifacts:\n"@);
    assert("Built Rust artifact:\n"@ + "  Build failed: "@
        =~= "Built Rust artifact:\n  Build failed: "@);
    every_artifact_is_listed(build.artifacts);
}

} // verus!
