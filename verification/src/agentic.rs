//! The agent workflow: its prompts, the build flags of a case, and what is
//! taken from the agent's output.
use crate::build_project_spec::ProjectKind;
use crate::fs::{files_without, RawDir};
use crate::json::{json_value, member, parse_json, text_in, Json};
use crate::text::{decimal_of, decimal_u64, join, joined, replace, replaced, same};
use vstd::prelude::*;

verus! {

/// Seconds after which the verification agent is stopped (45 minutes).
pub const VERIFY_TIMEOUT_SECS: u64 = 2700;

/// The shell command that has the agent `program` work for at most `timeout`
/// seconds on the prompt in `$PROMPT`, and keeps what it prints in `$LOG`.
pub open spec fn chat_line(program: Seq<char>, timeout: nat) -> Seq<char> {
    "timeout "@ + decimal_of(timeout) + " "@ + program
        + " chat --no-interactive --trust-all-tools \"$PROMPT\" < /dev/null 2>&1 | tee \"$LOG\""@
}

/// The shell command that has the agent `program` work for at most
/// `timeout_secs` seconds on the prompt in `$PROMPT`, and keeps what it prints
/// in `$LOG`.
pub fn chat_command(program: &str, timeout_secs: u64) -> (r: String)
    ensures
        r@ == chat_line(program@, timeout_secs as nat),
{
    let mut out = "timeout ".to_owned();
    out.push_str(decimal_u64(timeout_secs).as_str());
    out.push_str(" ");
    out.push_str(program);
    out.push_str(
        " chat --no-interactive --trust-all-tools \"$PROMPT\" < /dev/null 2>&1 | tee \"$LOG\"",
    );
    out
}

/// The text that is preferred: the user's, else the built-in one.
pub open spec fn preferred(user: Option<Seq<char>>, builtin: Seq<char>) -> Seq<char> {
    match user {
        Some(text) => text,
        None => builtin,
    }
}

/// Chooses the user's text over the built-in one.
pub fn prefer(user: Option<&str>, builtin: &str) -> (r: String)
    ensures
        r@ == preferred(crate::text::opt_view(user), builtin@),
{
    match user {
        Some(text) => text.to_owned(),
        None => builtin.to_owned(),
    }
}

/// The built-in prompts of the translation stage.
#[derive(Debug)]
pub struct BuiltinPrompts {
    pub executable: String,
    pub library: String,
}

/// Loads the translate prompt for the given project kind: the text that the
/// user provides for it, else the built-in one.
pub fn load_prompt(
    prompt_executable: Option<&str>,
    prompt_library: Option<&str>,
    kind: ProjectKind,
    builtin: &BuiltinPrompts,
) -> (r: String)
    ensures
        r@ == match kind {
            ProjectKind::Executable => preferred(
                crate::text::opt_view(prompt_executable),
                builtin.executable@,
            ),
            ProjectKind::Library => preferred(
                crate::text::opt_view(prompt_library),
                builtin.library@,
            ),
        },
{
    match kind {
        ProjectKind::Executable => prefer(prompt_executable, builtin.executable.as_str()),
        ProjectKind::Library => prefer(prompt_library, builtin.library.as_str()),
    }
}

/// The prompt of the verification stage: the template with the directory of the
/// case and then the build flags filled in.
pub fn verify_prompt(template: &str, case_dir: &str, cmake_flags: &str) -> (r: String)
    ensures
        r@ == replaced(
            replaced(template@, "CASE_DIR_PLACEHOLDER"@, case_dir@),
            "CMAKE_BUILD_FLAGS"@,
            cmake_flags@,
        ),
{
    proof {
        reveal_strlit("CASE_DIR_PLACEHOLDER");
        reveal_strlit("CMAKE_BUILD_FLAGS");
    }
    let with_dir = replace(template, "CASE_DIR_PLACEHOLDER", case_dir);
    replace(with_dir.as_str(), "CMAKE_BUILD_FLAGS", cmake_flags)
}

/// The second element of an array, or the member `1` of an object.
pub open spec fn second(j: Json) -> Option<Json> {
    match j {
        Json::Array(v) => if v@.len() > 1 {
            Some(v@[1])
        } else {
            None
        },
        _ => member(j, "1"@),
    }
}

/// The cache variables of the second configure preset.
pub open spec fn second_cache(j: Json) -> Option<Json> {
    match member(j, "configurePresets"@) {
        Some(presets) => match second(presets) {
            Some(p) => member(p, "cacheVariables"@),
            None => None,
        },
        None => None,
    }
}

/// The flag of a cache variable; a value that is not a string counts as empty.
pub open spec fn cache_flag(key: Seq<char>, value: Json) -> Seq<char> {
    "-D"@ + key + "="@ + match text_in(value) {
        Some(s) => s,
        None => seq![],
    }
}

/// The flags of the cache variables, without the C standard and the build type.
pub open spec fn cache_flags(members: Seq<(String, Json)>) -> Seq<Seq<char>>
    decreases members.len(),
{
    if members.len() == 0 {
        seq![]
    } else {
        let rest = cache_flags(members.drop_last());
        let (key, value) = members.last();
        if key@ == "CMAKE_C_STANDARD"@ || key@ == "CMAKE_BUILD_TYPE"@ {
            rest
        } else {
            rest.push(cache_flag(key@, value))
        }
    }
}

/// The flags of a presets file.
pub open spec fn flags_in(j: Json) -> Seq<char> {
    match second_cache(j) {
        Some(Json::Object(members)) => joined(cache_flags(members@), " "@),
        _ => seq![],
    }
}

fn second_of<'a>(j: &'a Json) -> (r: Option<&'a Json>)
    ensures
        match r {
            Some(v) => second(*j) == Some(*v),
            None => second(*j) is None,
        },
{
    match j {
        Json::Array(v) => if v.len() > 1 {
            Some(&v[1])
        } else {
            None
        },
        _ => j.get("1"),
    }
}

fn cache_of<'a>(j: &'a Json) -> (r: Option<&'a Json>)
    ensures
        match r {
            Some(v) => second_cache(*j) == Some(*v),
            None => second_cache(*j) is None,
        },
{
    match j.get("configurePresets") {
        Some(presets) => match second_of(presets) {
            Some(p) => p.get("cacheVariables"),
            None => None,
        },
        None => None,
    }
}

/// The CMake cache variable flags of a presets file.
pub fn flags_from_presets(json: &Json) -> (r: String)
    ensures
        r@ == flags_in(*json),
{
    let members = match cache_of(json) {
        Some(Json::Object(members)) => members,
        _ => {
            let empty = String::new();
            proof {
                assert(empty@ =~= seq![]);
            }
            return empty;
        },
    };
    let ghost all = members@;
    let mut flags: Vec<String> = Vec::new();
    let mut i: usize = 0;
    proof {
        assert(flags.deep_view() =~= cache_flags(all.take(0)));
    }
    while i < members.len()
        invariant
            all == members@,
            i <= all.len(),
            flags.deep_view() == cache_flags(all.take(i as int)),
        decreases all.len() - i,
    {
        let ghost before = flags.deep_view();
        let key = members[i].0.as_str();
        proof {
            assert(all.take(i + 1).drop_last() =~= all.take(i as int));
            assert(all.take(i + 1).last() == members@[i as int]);
        }
        if !same(key, "CMAKE_C_STANDARD") && !same(key, "CMAKE_BUILD_TYPE") {
            let mut flag = "-D".to_owned();
            flag.push_str(key);
            flag.push_str("=");
            match members[i].1.as_str() {
                Some(s) => {
                    flag.push_str(s);
                },
                None => {},
            }
            proof {
                assert(flag@ =~= cache_flag(key@, members@[i as int].1));
            }
            flags.push(flag);
            proof {
                assert(flags.deep_view() =~= before.push(flag@));
            }
        }
        i += 1;
    }
    proof {
        assert(all.take(i as int) =~= all);
        assert(Seq::new(flags@.len(), |k: int| flags@[k]@) =~= flags.deep_view());
    }
    join(flags.as_slice(), " ")
}

/// Extracts CMake cache variable flags from the text of `CMakePresets.json`, if
/// present. Without a file, or with one that is not JSON, there are none.
pub fn extract_cmake_flags(presets: Option<&str>) -> (r: String)
    ensures
        r@ == match presets {
            None => Seq::<char>::empty(),
            Some(text) => match json_value(text@) {
                None => Seq::<char>::empty(),
                Some(j) => flags_in(j),
            },
        },
{
    let empty = String::new();
    proof {
        assert(empty@ =~= seq![]);
    }
    match presets {
        None => empty,
        Some(text) => match parse_json(text) {
            None => empty,
            Some(json) => flags_from_presets(&json),
        },
    }
}

/// The directories that are not carried into the package: the C source and the
/// build output.
pub open spec fn left_behind() -> Seq<Seq<char>> {
    seq!["c_src/"@, "target/"@]
}

/// The prefixes of the files that are not carried into the package.
pub fn prefixes_left_behind() -> (r: Vec<String>)
    ensures
        r.deep_view() == left_behind(),
{
    let mut out: Vec<String> = Vec::new();
    out.push("c_src/".to_owned());
    out.push("target/".to_owned());
    proof {
        assert(out.deep_view() =~= left_behind());
    }
    out
}

/// The agent tool.
pub struct AgenticTool;

impl AgenticTool {
    /// The package that the agent left: everything but the C source and the
    /// build output. `None` if there is no `Cargo.toml`.
    pub fn collect(&self, translated: &RawDir) -> (r: Option<RawDir>)
        ensures
            match r {
                Some(dir) => translated@.dom().contains("Cargo.toml"@) && dir@ == files_without(
                    translated@,
                    seq![],
                    left_behind(),
                ),
                None => !translated@.dom().contains("Cargo.toml"@),
            },
    {
        if translated.get_file("Cargo.toml").is_none() {
            return None;
        }
        let none: Vec<String> = Vec::new();
        proof {
            assert(none.deep_view() =~= seq![]);
        }
        Some(translated.without(&none, &prefixes_left_behind()))
    }
}

/// The text of the user is taken where there is one, and the built-in one else.
pub proof fn texts_of_the_user_count(user: Seq<char>, builtin: Seq<char>)
    ensures
        preferred(Some(user), builtin) == user,
        preferred(None, builtin) == builtin,
{
}

/// A chat runs its program within the time, without asking, on the prompt and nothing
/// else, and keeps what it prints.
pub proof fn chats_run_without_asking(program: Seq<char>, timeout: nat)
    ensures
        ("timeout "@ + decimal_of(timeout) + " "@ + program
            + " chat --no-interactive --trust-all-tools "@).is_prefix_of(
            chat_line(program, timeout),
        ),
        "\"$PROMPT\" < /dev/null 2>&1 | tee \"$LOG\""@.is_suffix_of(chat_line(program, timeout)),
        chat_line(program, timeout).len() == ("timeout "@ + decimal_of(timeout) + " "@ + program
            + " chat --no-interactive --trust-all-tools "@).len()
            + "\"$PROMPT\" < /dev/null 2>&1 | tee \"$LOG\""@.len(),
{
    let front = " chat --no-interactive --trust-all-tools "@;
    let back = "\"$PROMPT\" < /dev/null 2>&1 | tee \"$LOG\""@;
    let all = " chat --no-interactive --trust-all-tools \"$PROMPT\" < /dev/null 2>&1 | tee \"$LOG\""@;
    reveal_strlit(" chat --no-interactive --trust-all-tools ");
    reveal_strlit("\"$PROMPT\" < /dev/null 2>&1 | tee \"$LOG\"");
    reveal_strlit(
        " chat --no-interactive --trust-all-tools \"$PROMPT\" < /dev/null 2>&1 | tee \"$LOG\"",
    );
    assert(all =~= front + back);
    let head = "timeout "@ + decimal_of(timeout) + " "@ + program + front;
    let line = chat_line(program, timeout);
    assert(line =~= head + back);
    assert(line.subrange(0, head.len() as int) =~= head);
    assert(line.subrange(line.len() - back.len(), line.len() as int) =~= back);
}

} // verus!
