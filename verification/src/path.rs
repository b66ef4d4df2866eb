//! Project-relative paths, written with `/` between their components.
use crate::text::{
    char_from, char_from_facts, chars_of, join, joined, pieces, pieces_of_sum, same, split,
};
use vstd::prelude::*;

verus! {

/// Walks `parts` from the directory whose components are `segments`: empty
/// parts and `.` stay, `..` goes up, anything else goes down. `None` when a
/// `..` would leave the root.
pub open spec fn walk(segments: Seq<Seq<char>>, parts: Seq<Seq<char>>) -> Option<Seq<Seq<char>>>
    decreases parts.len(),
{
    if parts.len() == 0 {
        Some(segments)
    } else if parts[0] == ""@ || parts[0] == "."@ {
        walk(segments, parts.skip(1))
    } else if parts[0] == ".."@ {
        if segments.len() == 0 {
            None
        } else {
            walk(segments.drop_last(), parts.skip(1))
        }
    } else {
        walk(segments.push(parts[0]), parts.skip(1))
    }
}

/// `path` starts at the root of the file system.
pub open spec fn absolute(path: Seq<char>) -> bool {
    path.len() > 0 && path[0] == '/'
}

/// The components of `path`, seen from `rel_dir`.
pub open spec fn joined_segments(rel_dir: Seq<char>, path: Seq<char>) -> Option<Seq<Seq<char>>> {
    if absolute(rel_dir) || absolute(path) {
        None
    } else {
        walk(seq![], pieces(rel_dir, '/') + pieces(path, '/'))
    }
}

/// `path` seen from `rel_dir`, without `.` and `..`; `None` when that leaves
/// the project.
pub open spec fn normal_join(rel_dir: Seq<char>, path: Seq<char>) -> Option<Seq<char>> {
    match joined_segments(rel_dir, path) {
        Some(segments) => Some(joined(segments, "/"@)),
        None => None,
    }
}

/// The project-relative spelling of a source path declared in `rel_dir`.
pub open spec fn prefixed(rel_dir: Seq<char>, src: Seq<char>) -> Seq<char> {
    if rel_dir.len() == 0 {
        src
    } else {
        match normal_join(rel_dir, src) {
            Some(p) => p,
            None => src,
        }
    }
}

/// The path of the file `name` in the directory `dir`.
pub open spec fn child_path(dir: Seq<char>, name: Seq<char>) -> Seq<char> {
    if dir.len() == 0 {
        name
    } else if dir.last() == '/' {
        dir + name
    } else {
        dir + "/"@ + name
    }
}

/// A component that names an entry of a directory.
pub open spec fn plain_segment(s: Seq<char>) -> bool {
    s != ""@ && s != "."@ && s != ".."@
}

/// Whatever [`walk`] adds to its start names an entry: no `.`, no `..` and no
/// empty component is left in the result.
pub proof fn walk_is_plain(segments: Seq<Seq<char>>, parts: Seq<Seq<char>>)
    requires
        forall|i: int| 0 <= i < segments.len() ==> plain_segment(#[trigger] segments[i]),
    ensures
        walk(segments, parts) matches Some(r) ==> forall|i: int|
            0 <= i < r.len() ==> plain_segment(#[trigger] r[i]),
    decreases parts.len(),
{
    if parts.len() > 0 {
        if parts[0] == ""@ || parts[0] == "."@ {
            walk_is_plain(segments, parts.skip(1));
        } else if parts[0] == ".."@ {
            if segments.len() > 0 {
                walk_is_plain(segments.drop_last(), parts.skip(1));
            }
        } else {
            walk_is_plain(segments.push(parts[0]), parts.skip(1));
        }
    }
}

/// The components of a joined path name entries inside the project: none of
/// them is empty, `.` or `..`.
pub proof fn joined_segments_stay_inside(rel_dir: Seq<char>, path: Seq<char>)
    ensures
        joined_segments(rel_dir, path) matches Some(r) ==> forall|i: int|
            0 <= i < r.len() ==> plain_segment(#[trigger] r[i]),
{
    walk_is_plain(seq![], pieces(rel_dir, '/') + pieces(path, '/'));
}

proof fn walk_in_two_steps(segments: Seq<Seq<char>>, a: Seq<Seq<char>>, b: Seq<Seq<char>>)
    ensures
        walk(segments, a + b) == (match walk(segments, a) {
            Some(r) => walk(r, b),
            None => None,
        }),
    decreases a.len(),
{
    if a.len() == 0 {
        assert(a + b =~= b);
    } else {
        assert((a + b)[0] == a[0]);
        assert((a + b).skip(1) =~= a.skip(1) + b);
        if a[0] == ""@ || a[0] == "."@ {
            walk_in_two_steps(segments, a.skip(1), b);
        } else if a[0] == ".."@ {
            if segments.len() > 0 {
                walk_in_two_steps(segments.drop_last(), a.skip(1), b);
            }
        } else {
            walk_in_two_steps(segments.push(a[0]), a.skip(1), b);
        }
    }
}

proof fn walk_of_plain(segments: Seq<Seq<char>>, parts: Seq<Seq<char>>)
    requires
        forall|i: int| 0 <= i < parts.len() ==> plain_segment(#[trigger] parts[i]),
    ensures
        walk(segments, parts) == Some(segments + parts),
    decreases parts.len(),
{
    if parts.len() == 0 {
        assert(segments + parts =~= segments);
    } else {
        assert(plain_segment(parts[0]));
        assert forall|i: int| 0 <= i < parts.skip(1).len() implies plain_segment(
            #[trigger] parts.skip(1)[i],
        ) by {
            assert(plain_segment(parts[i + 1]));
        }
        walk_of_plain(segments.push(parts[0]), parts.skip(1));
        assert(segments.push(parts[0]) + parts.skip(1) =~= segments + parts);
    }
}

spec fn without_slash(s: Seq<char>) -> bool {
    forall|i: int| 0 <= i < s.len() ==> #[trigger] s[i] != '/'
}

proof fn pieces_without_slash(s: Seq<char>)
    ensures
        forall|i: int|
            0 <= i < pieces(s, '/').len() ==> without_slash(#[trigger] pieces(s, '/')[i]),
    decreases s.len(),
{
    char_from_facts(s, '/', 0);
    let k = char_from(s, '/', 0);
    if k < s.len() {
        pieces_without_slash(s.skip(k + 1));
    }
    let all = pieces(s, '/');
    assert forall|i: int| 0 <= i < all.len() implies without_slash(#[trigger] all[i]) by {
        if k < s.len() && i > 0 {
            assert(all[i] == pieces(s.skip(k + 1), '/')[i - 1]);
        }
    }
}

proof fn walk_without_slash(segments: Seq<Seq<char>>, parts: Seq<Seq<char>>)
    requires
        forall|i: int| 0 <= i < segments.len() ==> without_slash(#[trigger] segments[i]),
        forall|i: int| 0 <= i < parts.len() ==> without_slash(#[trigger] parts[i]),
    ensures
        walk(segments, parts) matches Some(r) ==> forall|i: int|
            0 <= i < r.len() ==> without_slash(#[trigger] r[i]),
    decreases parts.len(),
{
    if parts.len() > 0 {
        let rest = parts.skip(1);
        assert forall|i: int| 0 <= i < rest.len() implies without_slash(#[trigger] rest[i]) by {
            assert(rest[i] == parts[i + 1]);
        }
        if parts[0] == ""@ || parts[0] == "."@ {
            walk_without_slash(segments, rest);
        } else if parts[0] == ".."@ {
            if segments.len() > 0 {
                walk_without_slash(segments.drop_last(), rest);
            }
        } else {
            walk_without_slash(segments.push(parts[0]), rest);
        }
    }
}

proof fn pieces_without_separator(s: Seq<char>)
    requires
        without_slash(s),
    ensures
        pieces(s, '/') == seq![s],
{
    char_from_facts(s, '/', 0);
}

proof fn pieces_of_joined(segments: Seq<Seq<char>>)
    requires
        segments.len() > 0,
        forall|i: int| 0 <= i < segments.len() ==> without_slash(#[trigger] segments[i]),
    ensures
        pieces(joined(segments, "/"@), '/') == segments,
    decreases segments.len(),
{
    reveal_strlit("/");
    assert("/"@ =~= seq!['/']);
    if segments.len() == 1 {
        assert(without_slash(segments[0]));
        pieces_without_separator(segments[0]);
        assert(segments =~= seq![segments[0]]);
    } else {
        let rest = segments.drop_last();
        assert forall|i: int| 0 <= i < rest.len() implies without_slash(#[trigger] rest[i]) by {
            assert(rest[i] == segments[i]);
        }
        pieces_of_joined(rest);
        assert(without_slash(segments[segments.len() - 1]));
        pieces_without_separator(segments.last());
        pieces_of_sum(joined(rest, "/"@), segments.last(), '/');
        assert(rest + seq![segments.last()] =~= segments);
    }
}

proof fn joined_starts_plain(segments: Seq<Seq<char>>)
    requires
        segments.len() > 0,
        segments[0].len() > 0,
    ensures
        joined(segments, "/"@).len() > 0,
        joined(segments, "/"@)[0] == segments[0][0],
    decreases segments.len(),
{
    if segments.len() > 1 {
        joined_starts_plain(segments.drop_last());
    }
}

/// Walking the parts of `b` and then those of `c` is walking those of `c` in `b`.
proof fn walk_of_child(segments: Seq<Seq<char>>, b: Seq<char>, c: Seq<char>)
    ensures
        walk(segments, pieces(child_path(b, c), '/')) == walk(
            segments,
            pieces(b, '/') + pieces(c, '/'),
        ),
{
    let none = Seq::<char>::empty();
    reveal_strlit("");
    reveal_strlit("/");
    assert(""@ =~= none);
    assert("/"@ =~= seq!['/']);
    pieces_without_separator(none);
    let blank = seq![none];
    let more = pieces(c, '/');
    assert((blank + more)[0] == ""@);
    assert((blank + more).skip(1) =~= more);
    if b.len() == 0 {
        assert(b =~= none);
    } else if b.last() == '/' {
        let x = b.drop_last();
        assert(b =~= x + seq!['/'] + none);
        assert(child_path(b, c) =~= x + seq!['/'] + c);
        pieces_of_sum(x, none, '/');
        pieces_of_sum(x, c, '/');
        let first = pieces(x, '/');
        walk_in_two_steps(segments, first, more);
        walk_in_two_steps(segments, first, blank + more);
        assert(first + blank + more =~= first + (blank + more));
        match walk(segments, first) {
            Some(r) => {
                assert(walk(r, blank + more) == walk(r, more));
            },
            None => {},
        }
    } else {
        pieces_of_sum(b, c, '/');
    }
}

/// Joining in two steps is joining at once: what `c` is in the directory that
/// `b` is in `a`, the path `c` below `b` is in `a`.
pub proof fn joining_in_two_steps(a: Seq<char>, b: Seq<char>, c: Seq<char>)
    requires
        !absolute(b),
        !absolute(c),
        normal_join(a, b) is Some,
    ensures
        normal_join(normal_join(a, b)->0, c) == normal_join(a, child_path(b, c)),
{
    let segments = joined_segments(a, b)->0;
    let ab = joined(segments, "/"@);
    let first = pieces(a, '/');
    let second = pieces(b, '/');
    let third = pieces(c, '/');
    let none = Seq::<Seq<char>>::empty();
    reveal_strlit("");
    pieces_without_slash(a);
    pieces_without_slash(b);
    assert forall|i: int| 0 <= i < (first + second).len() implies without_slash(
        #[trigger] (first + second)[i],
    ) by {
        if i < first.len() {
            assert((first + second)[i] == first[i]);
        } else {
            assert((first + second)[i] == second[i - first.len()]);
        }
    }
    walk_without_slash(none, first + second);
    joined_segments_stay_inside(a, b);
    // From `a` over `b` and `c`.
    walk_in_two_steps(none, first, pieces(child_path(b, c), '/'));
    walk_in_two_steps(none, first, second);
    let start = walk(none, first)->0;
    walk_of_child(start, b, c);
    walk_in_two_steps(start, second, third);
    assert(!absolute(child_path(b, c)));
    assert(joined_segments(a, child_path(b, c)) == walk(segments, third));
    // From the directory that was reached over `c`.
    if segments.len() == 0 {
        assert(ab =~= ""@);
        assert(ab =~= Seq::<char>::empty());
        pieces_without_separator(ab);
        let all = pieces(ab, '/') + third;
        assert(all[0] == ""@);
        assert(all.skip(1) =~= third);
        assert(segments =~= none);
    } else {
        assert(plain_segment(segments[0]));
        assert(segments[0].len() > 0) by {
            if segments[0].len() == 0 {
                assert(segments[0] =~= ""@);
            }
        }
        assert(without_slash(segments[0]));
        assert(segments[0][0] != '/');
        joined_starts_plain(segments);
        pieces_of_joined(segments);
        walk_in_two_steps(none, segments, third);
        walk_of_plain(none, segments);
        assert(none + segments =~= segments);
    }
}

fn is_absolute(path: &str) -> (r: bool)
    ensures
        r == absolute(path@),
{
    let cs = chars_of(path);
    cs.len() > 0 && cs[0] == '/'
}

fn walk_parts(parts: &Vec<String>) -> (r: Option<Vec<String>>)
    ensures
        r.deep_view() == walk(seq![], parts.deep_view()),
{
    let ghost all = parts.deep_view();
    let mut segments: Vec<String> = Vec::new();
    let mut i: usize = 0;
    proof {
        assert(all.skip(0) =~= all);
        assert(segments.deep_view() =~= seq![]);
    }
    while i < parts.len()
        invariant
            all == parts.deep_view(),
            i <= parts@.len(),
            walk(segments.deep_view(), all.skip(i as int)) == walk(seq![], all),
        decreases parts@.len() - i,
    {
        let part = &parts[i];
        let ghost before = segments.deep_view();
        proof {
            assert(all.skip(i as int)[0] == part@);
            assert(all.skip(i as int).skip(1) =~= all.skip(i + 1));
        }
        if same(part.as_str(), "") || same(part.as_str(), ".") {
        } else if same(part.as_str(), "..") {
            if segments.len() == 0 {
                return None;
            }
            let _ = segments.pop();
            proof {
                assert(segments.deep_view() =~= before.drop_last());
            }
        } else {
            segments.push(part.as_str().to_owned());
            proof {
                assert(segments.deep_view() =~= before.push(part@));
            }
        }
        i += 1;
    }
    proof {
        assert(all.skip(i as int) =~= seq![]);
    }
    Some(segments)
}

/// Join `rel_dir` and `path`, normalizing `.` and `..` components. Returns
/// `None` if the result escapes the project root.
pub fn normalize_join(rel_dir: &str, path: &str) -> (r: Option<String>)
    ensures
        r.deep_view() == normal_join(rel_dir@, path@),
{
    if is_absolute(rel_dir) || is_absolute(path) {
        return None;
    }
    let mut parts = split(rel_dir, '/');
    let mut more = split(path, '/');
    let ghost first = parts.deep_view();
    let ghost second = more.deep_view();
    parts.append(&mut more);
    proof {
        assert(parts.deep_view() =~= first + second);
    }
    match walk_parts(&parts) {
        Some(segments) => {
            let path = join(segments.as_slice(), "/");
            proof {
                assert(Seq::new(segments@.len(), |i: int| segments@[i]@) =~= segments.deep_view());
            }
            Some(path)
        },
        None => None,
    }
}

/// Prefix a source path declared inside `<rel_dir>/CMakeLists.txt` with
/// `rel_dir` and normalize the result. A path that escapes the project keeps
/// its spelling.
pub fn prefix_source_path(rel_dir: &str, src: &str) -> (r: String)
    ensures
        r@ == prefixed(rel_dir@, src@),
{
    if rel_dir.is_empty() {
        return src.to_owned();
    }
    match normalize_join(rel_dir, src) {
        Some(p) => p,
        None => src.to_owned(),
    }
}

/// The path of the file `name` in the directory `dir`.
pub fn join_path(dir: &str, name: &str) -> (r: String)
    ensures
        r@ == child_path(dir@, name@),
{
    if dir.is_empty() {
        return name.to_owned();
    }
    let mut out = dir.to_owned();
    let cs = chars_of(dir);
    if cs[cs.len() - 1] != '/' {
        out.push_str("/");
    }
    out.push_str(name);
    out
}

// ---------------------------------------------------------------------------
// Names and extensions
// ---------------------------------------------------------------------------

/// The components of a path other than empty ones and `.`.
pub open spec fn components_of(parts: Seq<Seq<char>>) -> Seq<Seq<char>>
    decreases parts.len(),
{
    if parts.len() == 0 {
        seq![]
    } else {
        let rest = components_of(parts.drop_last());
        if parts.last() == ""@ || parts.last() == "."@ {
            rest
        } else {
            rest.push(parts.last())
        }
    }
}

/// The last component of `path`, unless that is `..`.
pub open spec fn file_name_of(path: Seq<char>) -> Option<Seq<char>> {
    let c = components_of(pieces(path, '/'));
    if c.len() == 0 || c.last() == ".."@ {
        None
    } else {
        Some(c.last())
    }
}

/// The position of the last `.` of `name` before position `n`.
pub open spec fn last_dot(name: Seq<char>, n: int) -> Option<int>
    decreases n,
{
    if n <= 0 {
        None
    } else if name[n - 1] == '.' {
        Some(n - 1)
    } else {
        last_dot(name, n - 1)
    }
}

/// The extension of a file name: what follows its last `.`, unless that is the
/// only one and starts the name.
pub open spec fn name_extension(name: Seq<char>) -> Option<Seq<char>> {
    match last_dot(name, name.len() as int) {
        Some(k) => if k == 0 || name == ".."@ {
            None
        } else {
            Some(name.skip(k + 1))
        },
        None => None,
    }
}

/// The extension of the file that `path` names.
pub open spec fn extension_of(path: Seq<char>) -> Option<Seq<char>> {
    match file_name_of(path) {
        Some(name) => name_extension(name),
        None => None,
    }
}

pub proof fn last_dot_bound(name: Seq<char>, n: int)
    requires
        0 <= n <= name.len(),
    ensures
        last_dot(name, n) matches Some(k) ==> 0 <= k < n && name[k] == '.' && forall|j: int|
            k < j < n ==> name[j] != '.',
        last_dot(name, n) is None ==> forall|j: int| 0 <= j < n ==> name[j] != '.',
    decreases n,
{
    if n > 0 && name[n - 1] != '.' {
        last_dot_bound(name, n - 1);
    }
}

/// The components of `path` other than empty ones and `.`.
pub fn components(path: &str) -> (r: Vec<String>)
    ensures
        r.deep_view() == components_of(pieces(path@, '/')),
{
    let parts = split(path, '/');
    let ghost all = parts.deep_view();
    let mut out: Vec<String> = Vec::new();
    let mut i: usize = 0;
    proof {
        assert(out.deep_view() =~= components_of(all.take(0)));
    }
    while i < parts.len()
        invariant
            all == parts.deep_view(),
            i <= parts@.len(),
            out.deep_view() == components_of(all.take(i as int)),
        decreases parts@.len() - i,
    {
        let part = parts[i].as_str();
        let ghost before = out.deep_view();
        proof {
            assert(all.take(i + 1).drop_last() =~= all.take(i as int));
        }
        if !(same(part, "") || same(part, ".")) {
            out.push(part.to_owned());
            proof {
                assert(out.deep_view() =~= before.push(part@));
            }
        }
        i += 1;
    }
    proof {
        assert(all.take(i as int) =~= all);
    }
    out
}

/// The name of the file or directory that `path` leads to.
pub fn file_name(path: &str) -> (r: Option<String>)
    ensures
        r.deep_view() == file_name_of(path@),
{
    let mut parts = components(path);
    let ghost all = parts.deep_view();
    match parts.pop() {
        Some(last) => {
            proof {
                assert(all.last() == last@);
            }
            if same(last.as_str(), "..") {
                None
            } else {
                Some(last)
            }
        },
        None => None,
    }
}

pub fn find_last_dot(name: &str) -> (r: Option<usize>)
    ensures
        match r {
            Some(k) => last_dot(name@, name@.len() as int) == Some(k as int) && k < name@.len(),
            None => last_dot(name@, name@.len() as int) is None,
        },
{
    let cs = chars_of(name);
    let mut n: usize = cs.len();
    while n > 0
        invariant
            cs@ == name@,
            n <= cs@.len(),
            last_dot(name@, n as int) == last_dot(name@, name@.len() as int),
        decreases n,
    {
        if cs[n - 1] == '.' {
            return Some(n - 1);
        }
        n -= 1;
    }
    None
}

/// The extension of the file that `path` names.
pub fn extension(path: &str) -> (r: Option<String>)
    ensures
        r.deep_view() == extension_of(path@),
{
    let name = match file_name(path) {
        Some(n) => n,
        None => {
            return None;
        },
    };
    match find_last_dot(name.as_str()) {
        Some(k) => {
            if k == 0 || same(name.as_str(), "..") {
                None
            } else {
                let total: usize = name.as_str().unicode_len();
                let ext = name.as_str().substring_char(k + 1, total);
                proof {
                    assert(ext@ =~= name@.skip(k + 1));
                }
                Some(ext.to_owned())
            }
        },
        None => None,
    }
}

/// The path has the extension `ext`.
pub open spec fn has_ext(path: Seq<char>, ext: Seq<char>) -> bool {
    extension_of(path) == Some(ext)
}

pub fn has_extension(path: &str, ext: &str) -> (r: bool)
    ensures
        r == has_ext(path@, ext@),
{
    match extension(path) {
        Some(e) => same(e.as_str(), ext),
        None => false,
    }
}

// ---------------------------------------------------------------------------
// What paths are made of
// ---------------------------------------------------------------------------

/// The component names an entry: it is not empty, not `.` or `..`, and holds no
/// slash.
pub open spec fn entry_name(s: Seq<char>) -> bool {
    plain_segment(s) && !s.contains('/')
}

/// The components of a path are its parts between slashes, without the empty
/// ones and `.`.
pub proof fn components_are_the_parts(parts: Seq<Seq<char>>)
    ensures
        components_of(parts) == parts.filter(|p: Seq<char>| p != ""@ && p != "."@),
    decreases parts.len(),
{
    reveal(Seq::filter);
    if parts.len() > 0 {
        components_are_the_parts(parts.drop_last());
    }
}

proof fn components_of_plain(parts: Seq<Seq<char>>)
    requires
        forall|i: int| 0 <= i < parts.len() ==> plain_segment(#[trigger] parts[i]),
    ensures
        components_of(parts) == parts,
    decreases parts.len(),
{
    if parts.len() > 0 {
        let rest = parts.drop_last();
        assert forall|i: int| 0 <= i < rest.len() implies plain_segment(#[trigger] rest[i]) by {
            assert(plain_segment(parts[i]));
        }
        components_of_plain(rest);
        assert(plain_segment(parts[parts.len() - 1]));
        assert(rest.push(parts.last()) =~= parts);
    } else {
        assert(components_of(parts) =~= parts);
    }
}

proof fn components_of_sum(a: Seq<Seq<char>>, b: Seq<Seq<char>>)
    ensures
        components_of(a + b) == components_of(a) + components_of(b),
    decreases b.len(),
{
    if b.len() == 0 {
        assert(a + b =~= a);
        assert(components_of(a) + components_of(b) =~= components_of(a));
    } else {
        components_of_sum(a, b.drop_last());
        assert((a + b).drop_last() =~= a + b.drop_last());
        assert(components_of(a + b) =~= components_of(a) + components_of(b));
    }
}

proof fn no_slash(s: Seq<char>)
    requires
        !s.contains('/'),
    ensures
        without_slash(s),
{
    assert forall|i: int| 0 <= i < s.len() implies #[trigger] s[i] != '/' by {
        assert(s.contains(s[i]));
    }
}

/// Names joined by slashes are the components of the path that they make, with
/// or without a slash in front.
pub proof fn joined_names_are_components(names: Seq<Seq<char>>)
    requires
        names.len() > 0,
        forall|i: int| 0 <= i < names.len() ==> entry_name(#[trigger] names[i]),
    ensures
        components_of(pieces(joined(names, "/"@), '/')) == names,
        components_of(pieces("/"@ + joined(names, "/"@), '/')) == names,
        !absolute(joined(names, "/"@)),
        absolute("/"@ + joined(names, "/"@)),
{
    assert forall|i: int| 0 <= i < names.len() implies without_slash(#[trigger] names[i]) by {
        assert(entry_name(names[i]));
        no_slash(names[i]);
    }
    assert forall|i: int| 0 <= i < names.len() implies plain_segment(#[trigger] names[i]) by {
        assert(entry_name(names[i]));
    }
    let path = joined(names, "/"@);
    let none = Seq::<char>::empty();
    pieces_of_joined(names);
    components_of_plain(names);
    reveal_strlit("/");
    reveal_strlit("");
    assert("/"@ =~= seq!['/']);
    assert("/"@ + path =~= none + seq!['/'] + path);
    pieces_of_sum(none, path, '/');
    pieces_without_separator(none);
    assert(""@ =~= none);
    components_of_sum(seq![none], names);
    assert(seq![none].drop_last() =~= Seq::<Seq<char>>::empty());
    assert(components_of(Seq::<Seq<char>>::empty()) =~= Seq::<Seq<char>>::empty());
    assert(seq![none].last() == ""@);
    assert(components_of(seq![none]) =~= Seq::<Seq<char>>::empty());
    assert(Seq::<Seq<char>>::empty() + names =~= names);
    assert(entry_name(names[0]));
    assert(names[0].len() > 0) by {
        if names[0].len() == 0 {
            assert(names[0] =~= ""@);
        }
    }
    joined_starts_plain(names);
    assert(without_slash(names[0]));
    assert(names[0][0] != '/');
}

/// The file name of a path is what follows its last slash.
pub proof fn file_name_is_the_last_name(dir: Seq<char>, name: Seq<char>)
    requires
        entry_name(name),
    ensures
        file_name_of(name) == Some(name),
        file_name_of(dir + "/"@ + name) == Some(name),
        file_name_of(child_path(dir, name)) == Some(name),
{
    no_slash(name);
    pieces_without_separator(name);
    reveal_strlit("/");
    assert("/"@ =~= seq!['/']);
    let none = Seq::<Seq<char>>::empty();
    assert(seq![name].drop_last() =~= none);
    assert(components_of(none) =~= none);
    assert(seq![name].last() == name);
    assert(none.push(name) =~= seq![name]);
    assert(components_of(seq![name]) =~= seq![name]);
    pieces_of_sum(dir, name, '/');
    components_of_sum(pieces(dir, '/'), seq![name]);
    assert((components_of(pieces(dir, '/')) + seq![name]).last() == name);
    if dir.len() > 0 && dir.last() == '/' {
        let x = dir.drop_last();
        assert(dir + name =~= x + seq!['/'] + name);
        pieces_of_sum(x, name, '/');
        components_of_sum(pieces(x, '/'), seq![name]);
        assert((components_of(pieces(x, '/')) + seq![name]).last() == name);
    } else if dir.len() == 0 {
        assert(child_path(dir, name) == name);
    }
}

/// The last dot of a name is the one with none behind it.
pub proof fn last_dot_is(stem: Seq<char>, ext: Seq<char>, n: int)
    requires
        !ext.contains('.'),
        stem.len() < n <= stem.len() + 1 + ext.len(),
    ensures
        last_dot(stem + "."@ + ext, n) == Some(stem.len() as int),
    decreases n,
{
    reveal_strlit(".");
    let s = stem + "."@ + ext;
    if n == stem.len() + 1 {
        assert(s[n - 1] == '.');
    } else {
        assert(s[n - 1] == ext[n - 2 - stem.len()]);
        assert(ext.contains(ext[n - 2 - stem.len()]));
        last_dot_is(stem, ext, n - 1);
    }
}

/// A name without a dot has no last one.
pub proof fn no_dot(name: Seq<char>, n: int)
    requires
        !name.contains('.'),
        0 <= n <= name.len(),
    ensures
        last_dot(name, n) is None,
    decreases n,
{
    if n > 0 {
        assert(name.contains(name[n - 1]));
        no_dot(name, n - 1);
    }
}

/// The extension of a file is what follows the last dot of its name, unless that
/// dot is the first character; a name without a dot has none.
pub proof fn extension_follows_the_last_dot(dir: Seq<char>, stem: Seq<char>, ext: Seq<char>)
    requires
        stem.len() > 0,
        !stem.contains('/'),
        !ext.contains('/'),
        !ext.contains('.'),
        entry_name(stem + "."@ + ext),
    ensures
        extension_of(dir + "/"@ + (stem + "."@ + ext)) == Some(ext),
        extension_of(stem + "."@ + ext) == Some(ext),
        has_ext(child_path(dir, stem + "."@ + ext), ext),
{
    let name = stem + "."@ + ext;
    reveal_strlit(".");
    file_name_is_the_last_name(dir, name);
    last_dot_is(stem, ext, name.len() as int);
    assert(name.skip(stem.len() as int + 1) =~= ext);
}

/// A name without a dot has no extension, nor has one whose only dot comes first.
pub proof fn names_without_extension(dir: Seq<char>, name: Seq<char>)
    requires
        entry_name(name),
        !name.skip(1).contains('.'),
    ensures
        extension_of(child_path(dir, name)) is None,
        extension_of(name) is None,
{
    file_name_is_the_last_name(dir, name);
    last_dot_bound(name, name.len() as int);
    match last_dot(name, name.len() as int) {
        Some(k) => {
            if k > 0 {
                assert(name.skip(1)[k - 1] == '.');
                assert(name.skip(1).contains('.'));
            }
        },
        None => {},
    }
}

/// From a directory, a name goes down, `..` goes up and `.` stays; going up from
/// the root of the project fails, and so does an absolute path.
pub proof fn joining_walks_the_tree(dir: Seq<Seq<char>>, names: Seq<Seq<char>>)
    requires
        forall|i: int| 0 <= i < dir.len() ==> entry_name(#[trigger] dir[i]),
        forall|i: int| 0 <= i < names.len() ==> entry_name(#[trigger] names[i]),
    ensures
        names.len() > 0 ==> normal_join(joined(dir, "/"@), joined(names, "/"@)) == Some(
            joined(dir + names, "/"@),
        ),
        dir.len() > 0 ==> normal_join(joined(dir, "/"@), ".."@) == Some(
            joined(dir.drop_last(), "/"@),
        ),
        normal_join(joined(dir, "/"@), "."@) == Some(joined(dir, "/"@)),
        normal_join(""@, ".."@) is None,
        forall|p: Seq<char>| absolute(p) ==> #[trigger] normal_join(joined(dir, "/"@), p) is None,
{
    let none = Seq::<Seq<char>>::empty();
    let empty = Seq::<char>::empty();
    reveal_strlit("");
    reveal_strlit(".");
    reveal_strlit("..");
    assert(""@ =~= empty);
    assert(!"."@.contains('/'));
    assert(!".."@.contains('/'));
    no_slash("."@);
    no_slash(".."@);
    no_slash(empty);
    pieces_without_separator("."@);
    pieces_without_separator(".."@);
    pieces_without_separator(empty);
    let base = joined(dir, "/"@);
    let start = pieces(base, '/');
    assert forall|i: int| 0 <= i < dir.len() implies plain_segment(#[trigger] dir[i]) by {
        assert(entry_name(dir[i]));
    }
    assert forall|i: int| 0 <= i < dir.len() implies without_slash(#[trigger] dir[i]) by {
        assert(entry_name(dir[i]));
        no_slash(dir[i]);
    }
    assert(walk(none, start) == Some(dir)) by {
        if dir.len() == 0 {
            assert(start =~= seq![empty]);
            assert(start.skip(1) =~= none);
            assert(dir =~= none);
            assert(walk(none, none) == Some(none));
            assert(start[0] == ""@);
        } else {
            joined_names_are_components(dir);
            pieces_of_joined(dir);
            walk_of_plain(none, dir);
            assert(none + dir =~= dir);
        }
    }
    assert(!absolute(base)) by {
        if dir.len() > 0 {
            joined_names_are_components(dir);
        }
    }
    if names.len() > 0 {
        assert forall|i: int| 0 <= i < names.len() implies plain_segment(#[trigger] names[i]) by {
            assert(entry_name(names[i]));
        }
        assert forall|i: int| 0 <= i < names.len() implies without_slash(#[trigger] names[i]) by {
            assert(entry_name(names[i]));
            no_slash(names[i]);
        }
        joined_names_are_components(names);
        pieces_of_joined(names);
        walk_in_two_steps(none, start, names);
        walk_of_plain(dir, names);
    }
    assert("."@ != ".."@ && "."@ != ""@ && ".."@ != ""@) by {
        assert("."@.len() == 1);
        assert(".."@.len() == 2);
    }
    walk_in_two_steps(none, start, seq![".."@]);
    walk_in_two_steps(none, start, seq!["."@]);
    assert(seq![".."@].skip(1) =~= none);
    assert(seq!["."@].skip(1) =~= none);
    if dir.len() > 0 {
        assert(seq![".."@][0] == ".."@);
        assert(walk(dir.drop_last(), none) == Some(dir.drop_last()));
        assert(walk(dir, seq![".."@]) == Some(dir.drop_last()));
    }
    assert(walk(dir, none) == Some(dir));
    assert(seq!["."@][0] == "."@);
    assert(walk(dir, seq!["."@]) == Some(dir));
    assert((seq![empty] + seq![".."@]).skip(1) =~= seq![".."@]);
    assert((seq![empty] + seq![".."@])[0] == ""@);
    assert(seq![".."@][0] == ".."@);
    assert(walk(none, seq![".."@]) is None);
    assert(walk(none, seq![empty] + seq![".."@]) is None);
}

/// The path of a file in a directory is the two with one slash between them; in no
/// directory it is its name. A path is absolute if it starts with a slash.
pub proof fn children_stand_below_their_directory(dir: Seq<char>, name: Seq<char>)
    ensures
        dir.len() > 0 && dir.last() != '/' ==> child_path(dir, name) == dir + "/"@ + name,
        dir.len() > 0 && dir.last() == '/' ==> child_path(dir, name) == dir + name,
        child_path(Seq::<char>::empty(), name) == name,
        absolute("/"@ + name),
        name.len() > 0 && name[0] != '/' ==> !absolute(name),
{
    reveal_strlit("/");
    assert(("/"@ + name)[0] == '/');
}

/// A source that a script names is seen from the top of the project.
pub proof fn sources_are_seen_from_the_top(dir: Seq<Seq<char>>, names: Seq<Seq<char>>)
    requires
        names.len() > 0,
        forall|i: int| 0 <= i < dir.len() ==> entry_name(#[trigger] dir[i]),
        forall|i: int| 0 <= i < names.len() ==> entry_name(#[trigger] names[i]),
    ensures
        prefixed(joined(dir, "/"@), joined(names, "/"@)) == joined(dir + names, "/"@),
        prefixed(Seq::<char>::empty(), joined(names, "/"@)) == joined(names, "/"@),
{
    joining_walks_the_tree(dir, names);
    if dir.len() == 0 {
        assert(dir + names =~= names);
        assert(joined(dir, "/"@) =~= Seq::<char>::empty());
    } else {
        joined_names_are_components(dir);
        if joined(dir, "/"@).len() == 0 {
            reveal_strlit("");
            assert(entry_name(dir[0]));
            if dir[0].len() == 0 {
                assert(dir[0] =~= ""@);
            }
            joined_starts_plain(dir);
        }
    }
}

} // verus!
