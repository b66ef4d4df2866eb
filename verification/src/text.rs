//! Text as sequences of characters: the string operations that the tools are
//! built from, each specified on the view of its arguments.
use vstd::prelude::*;

verus! {

/// `String::push` appends one character.
pub assume_specification[ String::push ](s: &mut String, c: char)
    ensures
        final(s)@ == old(s)@.push(c),
;

/// `String::push_str` appends a string slice.
pub assume_specification[ String::push_str ](s: &mut String, t: &str)
    ensures
        final(s)@ == old(s)@ + t@,
;

/// What `String::from_utf8_lossy` makes of `bytes`.
pub uninterp spec fn lossy_text(bytes: Seq<u8>) -> Seq<char>;

/// `String::from_utf8_lossy` reads bytes as UTF-8. Its result is a function of
/// the bytes, and it encodes to them again where they are valid UTF-8; what
/// stands in for an invalid sequence is left to std.
#[verifier::external_body]
pub(crate) fn from_utf8_lossy(bytes: &[u8]) -> (r: String)
    ensures
        r@ == lossy_text(bytes@),
        vstd::utf8::valid_utf8(bytes@) ==> vstd::utf8::encode_utf8(r@) == bytes@,
{
    String::from_utf8_lossy(bytes).into_owned()
}

/// `String::from_utf8` accepts exactly the valid UTF-8 byte strings and reads
/// them.
#[verifier::external_body]
pub(crate) fn from_utf8(bytes: &[u8]) -> (r: Option<String>)
    ensures
        match r {
            Some(s) => vstd::utf8::valid_utf8(bytes@) && vstd::utf8::encode_utf8(s@) == bytes@,
            None => !vstd::utf8::valid_utf8(bytes@),
        },
{
    String::from_utf8(bytes.to_vec()).ok()
}

/// The text that `bytes` encodes, if they are valid UTF-8.
pub open spec fn utf8_text(bytes: Seq<u8>) -> Option<Seq<char>> {
    if vstd::utf8::valid_utf8(bytes) {
        Some(vstd::utf8::decode_utf8(bytes))
    } else {
        None
    }
}

/// Reads bytes as UTF-8 text.
pub fn read_utf8(bytes: &[u8]) -> (r: Option<String>)
    ensures
        r.deep_view() == utf8_text(bytes@),
{
    let r = from_utf8(bytes);
    proof {
        if r is Some {
            vstd::utf8::encode_utf8_decode_utf8(r->0@);
        }
    }
    r
}

/// The UTF-8 bytes of a text.
pub fn bytes_of(s: &str) -> (r: Vec<u8>)
    ensures
        r@ == vstd::utf8::encode_utf8(s@),
{
    s.as_bytes_vec()
}

// ---------------------------------------------------------------------------
// Character classes
// ---------------------------------------------------------------------------

/// The code points with the Unicode `White_Space` property.
pub open spec fn white_space(c: char) -> bool {
    ||| '\u{9}' <= c <= '\u{d}'
    ||| c == ' '
    ||| c == '\u{85}'
    ||| c == '\u{a0}'
    ||| c == '\u{1680}'
    ||| '\u{2000}' <= c <= '\u{200a}'
    ||| c == '\u{2028}'
    ||| c == '\u{2029}'
    ||| c == '\u{202f}'
    ||| c == '\u{205f}'
    ||| c == '\u{3000}'
}

/// The five ASCII whitespace characters: tab, line feed, form feed, carriage
/// return and space.
pub open spec fn ascii_space(c: char) -> bool {
    c == '\t' || c == '\n' || c == '\u{c}' || c == '\r' || c == ' '
}

/// ASCII letters, digits and the underscore.
pub open spec fn ident_char(c: char) -> bool {
    ('a' <= c <= 'z') || ('A' <= c <= 'Z') || ('0' <= c <= '9') || c == '_'
}

/// Every character of `s` is an identifier character.
pub open spec fn all_ident(s: Seq<char>) -> bool {
    forall|i: int| 0 <= i < s.len() ==> ident_char(#[trigger] s[i])
}

pub fn is_white_space(c: char) -> (r: bool)
    ensures
        r == white_space(c),
{
    ('\u{9}' <= c && c <= '\u{d}') || c == ' ' || c == '\u{85}' || c == '\u{a0}' || c == '\u{1680}'
        || ('\u{2000}' <= c && c <= '\u{200a}') || c == '\u{2028}' || c == '\u{2029}' || c
        == '\u{202f}' || c == '\u{205f}' || c == '\u{3000}'
}

pub fn is_ascii_space(c: char) -> (r: bool)
    ensures
        r == ascii_space(c),
{
    c == '\t' || c == '\n' || c == '\u{c}' || c == '\r' || c == ' '
}

pub fn is_ident_char(c: char) -> (r: bool)
    ensures
        r == ident_char(c),
{
    ('a' <= c && c <= 'z') || ('A' <= c && c <= 'Z') || ('0' <= c && c <= '9') || c == '_'
}

// ---------------------------------------------------------------------------
// Between strings and vectors of characters
// ---------------------------------------------------------------------------

/// The characters of `s`.
pub fn chars_of(s: &str) -> (r: Vec<char>)
    ensures
        r@ == s@,
{
    let mut out: Vec<char> = Vec::new();
    for c in it: s.chars()
        invariant
            it.seq() == s@,
            out@ == s@.take(it.index()),
    {
        out.push(c);
        proof {
            assert(s@.take(it.index() + 1) =~= s@.take(it.index()).push(c));
        }
    }
    proof {
        assert(s@.take(s@.len() as int) =~= s@);
    }
    out
}

/// The string made of the characters `cs[a..b]`.
pub fn string_of(cs: &[char], a: usize, b: usize) -> (r: String)
    requires
        a <= b <= cs@.len(),
    ensures
        r@ == cs@.subrange(a as int, b as int),
{
    let mut out = String::new();
    let mut i: usize = a;
    while i < b
        invariant
            a <= i <= b <= cs@.len(),
            out@ == cs@.subrange(a as int, i as int),
        decreases b - i,
    {
        out.push(cs[i]);
        i += 1;
        proof {
            assert(cs@.subrange(a as int, i as int) =~= cs@.subrange(a as int, i - 1).push(
                cs@[i - 1],
            ));
        }
    }
    out
}

/// Whether two strings hold the same characters.
pub fn same(a: &str, b: &str) -> (r: bool)
    ensures
        r == (a@ == b@),
{
    let x = chars_of(a);
    let y = chars_of(b);
    if x.len() != y.len() {
        return false;
    }
    let mut i: usize = 0;
    while i < x.len()
        invariant
            x@ == a@,
            y@ == b@,
            x@.len() == y@.len(),
            i <= x@.len(),
            forall|j: int| 0 <= j < i ==> x@[j] == y@[j],
        decreases x@.len() - i,
    {
        if x[i] != y[i] {
            return false;
        }
        i += 1;
    }
    proof {
        assert(a@ =~= b@);
    }
    true
}

/// An owned copy of `s`.
pub fn owned(s: &str) -> (r: String)
    ensures
        r@ == s@,
{
    s.to_owned()
}

// ---------------------------------------------------------------------------
// Prefixes, suffixes, occurrences
// ---------------------------------------------------------------------------

/// `part` stands in `s` at position `i`.
pub open spec fn occurs_at(s: Seq<char>, part: Seq<char>, i: int) -> bool {
    0 <= i && i + part.len() <= s.len() && s.subrange(i, i + part.len()) == part
}

/// The first position at or after `i` at which `part` stands in `s`.
pub open spec fn find_from(s: Seq<char>, part: Seq<char>, i: int) -> Option<int>
    decreases s.len() - i + 1,
{
    if i < 0 || i + part.len() > s.len() {
        None
    } else if occurs_at(s, part, i) {
        Some(i)
    } else {
        find_from(s, part, i + 1)
    }
}

/// `part` stands somewhere in `s`.
pub open spec fn has_part(s: Seq<char>, part: Seq<char>) -> bool {
    find_from(s, part, 0) is Some
}

/// The first position at or after `i` that holds `c`, or the length of `s`.
pub open spec fn char_from(s: Seq<char>, c: char, i: int) -> int
    decreases s.len() - i,
{
    if i >= s.len() || s[i] == c {
        i
    } else {
        char_from(s, c, i + 1)
    }
}

pub proof fn char_from_facts(s: Seq<char>, c: char, i: int)
    requires
        0 <= i <= s.len(),
    ensures
        i <= char_from(s, c, i) <= s.len(),
        forall|j: int| i <= j < char_from(s, c, i) ==> s[j] != c,
        char_from(s, c, i) < s.len() ==> s[char_from(s, c, i)] == c,
        s.contains(c) && i == 0 ==> char_from(s, c, i) < s.len(),
    decreases s.len() - i,
{
    if i < s.len() && s[i] != c {
        char_from_facts(s, c, i + 1);
    }
    if s.contains(c) && i == 0 {
        let k = choose|k: int| 0 <= k < s.len() && s[k] == c;
        assert(s[k] == c);
    }
}

pub proof fn find_from_facts(s: Seq<char>, part: Seq<char>, i: int)
    requires
        0 <= i,
    ensures
        find_from(s, part, i) matches Some(k) ==> i <= k && occurs_at(s, part, k),
        find_from(s, part, i) matches Some(k) ==> forall|j: int|
            i <= j < k ==> !occurs_at(s, part, j),
        find_from(s, part, i) is None ==> forall|j: int| i <= j ==> !occurs_at(s, part, j),
    decreases s.len() - i + 1,
{
    if i + part.len() <= s.len() && !occurs_at(s, part, i) {
        find_from_facts(s, part, i + 1);
    }
}

fn occurs(cs: &[char], part: &[char], i: usize) -> (r: bool)
    requires
        i <= cs@.len(),
    ensures
        r == occurs_at(cs@, part@, i as int),
{
    let n: usize = cs.len();
    if part.len() > n - i {
        return false;
    }
    let mut j: usize = 0;
    while j < part.len()
        invariant
            i + part@.len() <= cs@.len() == n,
            j <= part@.len(),
            forall|k: int| 0 <= k < j ==> cs@[i + k] == part@[k],
        decreases part@.len() - j,
    {
        if cs[i + j] != part[j] {
            proof {
                assert(cs@.subrange(i as int, i + part@.len())[j as int] == cs@[i + j]);
            }
            return false;
        }
        j += 1;
    }
    proof {
        assert(cs@.subrange(i as int, i + part@.len()) =~= part@);
    }
    true
}

fn find_chars(cs: &[char], part: &[char], from: usize) -> (r: Option<usize>)
    requires
        from <= cs@.len(),
    ensures
        match r {
            Some(k) => find_from(cs@, part@, from as int) == Some(k as int),
            None => find_from(cs@, part@, from as int) is None,
        },
        r matches Some(k) ==> k + part@.len() <= cs@.len(),
{
    let mut i: usize = from;
    while part.len() <= cs.len() - i
        invariant
            from <= i <= cs@.len(),
            find_from(cs@, part@, i as int) == find_from(cs@, part@, from as int),
        decreases cs@.len() - i,
    {
        if occurs(cs, part, i) {
            return Some(i);
        }
        if i == cs.len() {
            proof {
                assert(cs@.subrange(i as int, i as int) =~= part@);
            }
            return None;
        }
        i += 1;
    }
    None
}

/// The position, counted in characters, of the first occurrence of `part`.
pub fn find(s: &str, part: &str) -> (r: Option<usize>)
    ensures
        match r {
            Some(k) => find_from(s@, part@, 0) == Some(k as int),
            None => find_from(s@, part@, 0) is None,
        },
        r matches Some(k) ==> k + part@.len() <= s@.len(),
{
    let cs = chars_of(s);
    let ps = chars_of(part);
    find_chars(cs.as_slice(), ps.as_slice(), 0)
}

/// Whether `part` stands somewhere in `s`.
pub fn contains(s: &str, part: &str) -> (r: bool)
    ensures
        r == has_part(s@, part@),
{
    find(s, part).is_some()
}

/// Whether `s` holds the character `c`.
pub fn contains_char(s: &str, c: char) -> (r: bool)
    ensures
        r == s@.contains(c),
{
    let cs = chars_of(s);
    let mut i: usize = 0;
    while i < cs.len()
        invariant
            cs@ == s@,
            i <= cs@.len(),
            forall|j: int| 0 <= j < i ==> cs@[j] != c,
        decreases cs@.len() - i,
    {
        if cs[i] == c {
            proof {
                assert(s@[i as int] == c);
            }
            return true;
        }
        i += 1;
    }
    false
}

pub fn starts_with(s: &str, prefix: &str) -> (r: bool)
    ensures
        r == prefix@.is_prefix_of(s@),
{
    let cs = chars_of(s);
    let ps = chars_of(prefix);
    occurs(cs.as_slice(), ps.as_slice(), 0)
}

pub fn ends_with(s: &str, suffix: &str) -> (r: bool)
    ensures
        r == suffix@.is_suffix_of(s@),
{
    let cs = chars_of(s);
    let ps = chars_of(suffix);
    if ps.len() > cs.len() {
        return false;
    }
    occurs(cs.as_slice(), ps.as_slice(), cs.len() - ps.len())
}

/// What follows `prefix` in `s`.
pub open spec fn after_prefix(s: Seq<char>, prefix: Seq<char>) -> Option<Seq<char>> {
    if prefix.is_prefix_of(s) {
        Some(s.skip(prefix.len() as int))
    } else {
        None
    }
}

/// What comes before `suffix` in `s`.
pub open spec fn before_suffix(s: Seq<char>, suffix: Seq<char>) -> Option<Seq<char>> {
    if suffix.is_suffix_of(s) {
        Some(s.take(s.len() - suffix.len()))
    } else {
        None
    }
}

/// The view of an optional string slice.
pub open spec fn opt_view(o: Option<&str>) -> Option<Seq<char>> {
    match o {
        Some(s) => Some(s@),
        None => None,
    }
}

pub fn strip_prefix<'a>(s: &'a str, prefix: &str) -> (r: Option<&'a str>)
    ensures
        opt_view(r) == after_prefix(s@, prefix@),
{
    if starts_with(s, prefix) {
        let n: usize = prefix.unicode_len();
        let rest = s.substring_char(n, s.unicode_len());
        proof {
            assert(rest@ =~= s@.skip(n as int));
        }
        Some(rest)
    } else {
        None
    }
}

pub fn strip_suffix<'a>(s: &'a str, suffix: &str) -> (r: Option<&'a str>)
    ensures
        opt_view(r) == before_suffix(s@, suffix@),
{
    if ends_with(s, suffix) {
        let n: usize = s.unicode_len() - suffix.unicode_len();
        let rest = s.substring_char(0, n);
        proof {
            assert(rest@ =~= s@.take(n as int));
        }
        Some(rest)
    } else {
        None
    }
}

// ---------------------------------------------------------------------------
// Trimming and splitting
// ---------------------------------------------------------------------------

/// `s` without its leading whitespace.
pub open spec fn trim_start_of(s: Seq<char>) -> Seq<char>
    decreases s.len(),
{
    if s.len() > 0 && white_space(s[0]) {
        trim_start_of(s.skip(1))
    } else {
        s
    }
}

/// `s` without its trailing whitespace.
pub open spec fn trim_end_of(s: Seq<char>) -> Seq<char>
    decreases s.len(),
{
    if s.len() > 0 && white_space(s.last()) {
        trim_end_of(s.drop_last())
    } else {
        s
    }
}

/// `s` without its leading and trailing whitespace.
pub open spec fn trimmed(s: Seq<char>) -> Seq<char> {
    trim_end_of(trim_start_of(s))
}

fn leading_space(cs: &[char]) -> (r: usize)
    ensures
        r <= cs@.len(),
        cs@.skip(r as int) == trim_start_of(cs@),
{
    let mut i: usize = 0;
    proof {
        assert(cs@.skip(0) =~= cs@);
    }
    while i < cs.len() && is_white_space(cs[i])
        invariant
            i <= cs@.len(),
            trim_start_of(cs@.skip(i as int)) == trim_start_of(cs@),
        decreases cs@.len() - i,
    {
        proof {
            assert(cs@.skip(i as int).skip(1) =~= cs@.skip(i + 1));
        }
        i += 1;
    }
    i
}

fn trailing_end(cs: &[char], from: usize) -> (r: usize)
    requires
        from <= cs@.len(),
    ensures
        from <= r <= cs@.len(),
        cs@.subrange(from as int, r as int) == trim_end_of(cs@.skip(from as int)),
{
    let mut n: usize = cs.len();
    proof {
        assert(cs@.subrange(from as int, n as int) =~= cs@.skip(from as int));
    }
    while n > from && is_white_space(cs[n - 1])
        invariant
            from <= n <= cs@.len(),
            trim_end_of(cs@.subrange(from as int, n as int)) == trim_end_of(cs@.skip(from as int)),
        decreases n,
    {
        proof {
            assert(cs@.subrange(from as int, n as int).drop_last() =~= cs@.subrange(
                from as int,
                n - 1,
            ));
        }
        n -= 1;
    }
    n
}

pub fn trim<'a>(s: &'a str) -> (r: &'a str)
    ensures
        r@ == trimmed(s@),
{
    let cs = chars_of(s);
    let a: usize = leading_space(cs.as_slice());
    let b: usize = trailing_end(cs.as_slice(), a);
    s.substring_char(a, b)
}

pub fn trim_start<'a>(s: &'a str) -> (r: &'a str)
    ensures
        r@ == trim_start_of(s@),
{
    let cs = chars_of(s);
    let a: usize = leading_space(cs.as_slice());
    proof {
        assert(s@.subrange(a as int, s@.len() as int) =~= s@.skip(a as int));
    }
    s.substring_char(a, cs.len())
}

/// `s` without the line feeds at its end.
pub open spec fn without_newlines(s: Seq<char>) -> Seq<char>
    decreases s.len(),
{
    if s.len() > 0 && s.last() == '\n' {
        without_newlines(s.drop_last())
    } else {
        s
    }
}

pub fn trim_newlines<'a>(s: &'a str) -> (r: &'a str)
    ensures
        r@ == without_newlines(s@),
{
    let cs = chars_of(s);
    let mut n: usize = cs.len();
    proof {
        assert(s@.subrange(0, n as int) =~= s@);
    }
    while n > 0 && cs[n - 1] == '\n'
        invariant
            cs@ == s@,
            n <= cs@.len(),
            without_newlines(s@.subrange(0, n as int)) == without_newlines(s@),
        decreases n,
    {
        proof {
            assert(s@.subrange(0, n as int).drop_last() =~= s@.subrange(0, n - 1));
        }
        n -= 1;
    }
    s.substring_char(0, n)
}

/// Trimming line feeds twice is trimming them once.
pub proof fn without_newlines_settles(s: Seq<char>)
    ensures
        without_newlines(without_newlines(s)) == without_newlines(s),
    decreases s.len(),
{
    if s.len() > 0 && s.last() == '\n' {
        without_newlines_settles(s.drop_last());
    }
}

/// `s` cut at the first `c`, which is dropped.
pub open spec fn cut_at(s: Seq<char>, c: char) -> Option<(Seq<char>, Seq<char>)> {
    let k = char_from(s, c, 0);
    if k < s.len() {
        Some((s.take(k), s.skip(k + 1)))
    } else {
        None
    }
}

/// The view of an optional pair of string slices.
pub open spec fn opt_pair_view(o: Option<(&str, &str)>) -> Option<(Seq<char>, Seq<char>)> {
    match o {
        Some(p) => Some((p.0@, p.1@)),
        None => None,
    }
}

fn find_char(cs: &[char], c: char, from: usize) -> (r: usize)
    requires
        from <= cs@.len(),
    ensures
        r == char_from(cs@, c, from as int),
        from <= r <= cs@.len(),
{
    let mut i: usize = from;
    while i < cs.len() && cs[i] != c
        invariant
            from <= i <= cs@.len(),
            char_from(cs@, c, i as int) == char_from(cs@, c, from as int),
        decreases cs@.len() - i,
    {
        i += 1;
    }
    i
}

pub fn split_once<'a>(s: &'a str, c: char) -> (r: Option<(&'a str, &'a str)>)
    ensures
        opt_pair_view(r) == cut_at(s@, c),
{
    let cs = chars_of(s);
    let k: usize = find_char(cs.as_slice(), c, 0);
    if k < cs.len() {
        let a = s.substring_char(0, k);
        let b = s.substring_char(k + 1, cs.len());
        proof {
            assert(a@ =~= s@.take(k as int));
            assert(b@ =~= s@.skip(k + 1));
        }
        Some((a, b))
    } else {
        None
    }
}

/// The parts of `s` between occurrences of `c`.
pub open spec fn pieces(s: Seq<char>, c: char) -> Seq<Seq<char>>
    decreases s.len(),
{
    let k = char_from(s, c, 0);
    if 0 <= k < s.len() {
        seq![s.take(k)] + pieces(s.skip(k + 1), c)
    } else {
        seq![s]
    }
}

proof fn char_from_in_sum(a: Seq<char>, b: Seq<char>, c: char, i: int)
    requires
        0 <= i <= a.len(),
    ensures
        char_from(a, c, i) < a.len() ==> char_from(a + b, c, i) == char_from(a, c, i),
        char_from(a, c, i) >= a.len() && b.len() > 0 && b[0] == c ==> char_from(a + b, c, i)
            == a.len(),
    decreases a.len() - i,
{
    if i < a.len() {
        assert((a + b)[i] == a[i]);
        if a[i] != c {
            char_from_in_sum(a, b, c, i + 1);
        }
    } else if b.len() > 0 {
        assert((a + b)[i] == b[0]);
    }
}

/// Splitting a text at a separator between two parts splits each part.
pub proof fn pieces_of_sum(a: Seq<char>, b: Seq<char>, c: char)
    ensures
        pieces(a + seq![c] + b, c) == pieces(a, c) + pieces(b, c),
    decreases a.len(),
{
    let s = a + seq![c] + b;
    let tail = seq![c] + b;
    assert(s =~= a + tail);
    char_from_facts(a, c, 0);
    char_from_in_sum(a, tail, c, 0);
    let k = char_from(a, c, 0);
    if k < a.len() {
        let rest = a.skip(k + 1);
        assert(s.take(k) =~= a.take(k));
        assert(s.skip(k + 1) =~= rest + seq![c] + b);
        pieces_of_sum(rest, b, c);
        assert(pieces(s, c) =~= seq![a.take(k)] + (pieces(rest, c) + pieces(b, c)));
        assert(pieces(a, c) + pieces(b, c) =~= seq![a.take(k)] + (pieces(rest, c) + pieces(b, c)));
    } else {
        assert(s.take(a.len() as int) =~= a);
        assert(s.skip(a.len() as int + 1) =~= b);
    }
}

/// A line without the carriage return that ends it.
pub open spec fn without_cr(s: Seq<char>) -> Seq<char> {
    if s.len() > 0 && s.last() == '\r' {
        s.drop_last()
    } else {
        s
    }
}

/// The lines of `s`: each ends at a line feed, with the carriage return before
/// it, and the last may end with the text.
pub open spec fn lines_of(s: Seq<char>) -> Seq<Seq<char>>
    decreases s.len(),
{
    let k = char_from(s, '\n', 0);
    if s.len() == 0 {
        seq![]
    } else if 0 <= k < s.len() {
        seq![without_cr(s.take(k))] + lines_of(s.skip(k + 1))
    } else {
        seq![s]
    }
}

proof fn char_from_skip(s: Seq<char>, c: char, from: int, i: int)
    requires
        0 <= from <= i <= s.len(),
    ensures
        char_from(s, c, i) == from + char_from(s.skip(from), c, i - from),
    decreases s.len() - i,
{
    if i < s.len() {
        assert(s.skip(from)[i - from] == s[i]);
        if s[i] != c {
            char_from_skip(s, c, from, i + 1);
        }
    }
}

pub fn split(s: &str, c: char) -> (r: Vec<String>)
    ensures
        r.deep_view() == pieces(s@, c),
{
    let cs = chars_of(s);
    let mut out: Vec<String> = Vec::new();
    let mut from: usize = 0;
    proof {
        assert(s@.skip(0) =~= s@);
        assert(out.deep_view() + pieces(s@.skip(0), c) =~= pieces(s@, c));
    }
    loop
        invariant
            cs@ == s@,
            from <= cs@.len(),
            out.deep_view() + pieces(s@.skip(from as int), c) == pieces(s@, c),
        decreases cs@.len() - from,
    {
        let k: usize = find_char(cs.as_slice(), c, from);
        proof {
            char_from_skip(s@, c, from as int, from as int);
        }
        let piece = string_of(cs.as_slice(), from, k);
        let ghost rest = s@.skip(from as int);
        let ghost before = out.deep_view();
        out.push(piece);
        proof {
            assert(out.deep_view() =~= before.push(piece@));
            if k < cs@.len() {
                assert(rest.take(k - from) =~= piece@);
                assert(rest.skip(k - from + 1) =~= s@.skip(k + 1));
                assert(out.deep_view() + pieces(s@.skip(k + 1), c) =~= before + (seq![piece@]
                    + pieces(s@.skip(k + 1), c)));
            } else {
                assert(rest =~= piece@);
                assert(out.deep_view() =~= before + seq![rest]);
            }
        }
        if k >= cs.len() {
            return out;
        }
        from = k + 1;
    }
}

pub fn lines(s: &str) -> (r: Vec<String>)
    ensures
        r.deep_view() == lines_of(s@),
{
    let cs = chars_of(s);
    let mut out: Vec<String> = Vec::new();
    let mut from: usize = 0;
    proof {
        assert(s@.skip(0) =~= s@);
        assert(out.deep_view() + lines_of(s@.skip(0)) =~= lines_of(s@));
    }
    while from < cs.len()
        invariant
            cs@ == s@,
            from <= cs@.len(),
            out.deep_view() + lines_of(s@.skip(from as int)) == lines_of(s@),
        decreases cs@.len() - from,
    {
        let k: usize = find_char(cs.as_slice(), '\n', from);
        proof {
            char_from_skip(s@, '\n', from as int, from as int);
        }
        let ghost rest = s@.skip(from as int);
        let ghost before = out.deep_view();
        if k < cs.len() {
            let end: usize = if k > from && cs[k - 1] == '\r' {
                k - 1
            } else {
                k
            };
            let line = string_of(cs.as_slice(), from, end);
            out.push(line);
            proof {
                assert(rest.take(k - from) =~= s@.subrange(from as int, k as int));
                assert(without_cr(rest.take(k - from)) =~= line@);
                assert(rest.skip(k - from + 1) =~= s@.skip(k + 1));
                assert(out.deep_view() =~= before.push(line@));
                assert(out.deep_view() + lines_of(s@.skip(k + 1)) =~= before + (seq![line@]
                    + lines_of(s@.skip(k + 1))));
            }
            from = k + 1;
        } else {
            let line = string_of(cs.as_slice(), from, k);
            out.push(line);
            proof {
                assert(rest =~= line@);
                assert(out.deep_view() =~= before.push(line@));
                assert(lines_of(s@.skip(k as int)) =~= seq![]);
                assert(out.deep_view() + lines_of(s@.skip(k as int)) =~= before + seq![rest]);
            }
            from = k;
        }
    }
    proof {
        assert(lines_of(s@.skip(from as int)) =~= seq![]);
        assert(out.deep_view() + lines_of(s@.skip(from as int)) =~= out.deep_view());
    }
    out
}

/// The end of the run of non-whitespace characters that starts at `i`.
pub open spec fn word_end(s: Seq<char>, i: int) -> int
    decreases s.len() - i,
{
    if i >= s.len() || ascii_space(s[i]) {
        i
    } else {
        word_end(s, i + 1)
    }
}

/// The end of the run of ASCII whitespace that starts at `i`.
pub open spec fn space_end(s: Seq<char>, i: int) -> int
    decreases s.len() - i,
{
    if i >= s.len() || !ascii_space(s[i]) {
        i
    } else {
        space_end(s, i + 1)
    }
}

/// The end of the run of identifier characters that starts at `i`.
pub open spec fn ident_end(s: Seq<char>, i: int) -> int
    decreases s.len() - i,
{
    if i >= s.len() || !ident_char(s[i]) {
        i
    } else {
        ident_end(s, i + 1)
    }
}

pub proof fn word_end_bound(s: Seq<char>, i: int)
    requires
        0 <= i <= s.len(),
    ensures
        i <= word_end(s, i) <= s.len(),
        i < s.len() && !ascii_space(s[i]) ==> i < word_end(s, i),
    decreases s.len() - i,
{
    if i < s.len() && !ascii_space(s[i]) {
        word_end_bound(s, i + 1);
    }
}

pub proof fn space_end_bound(s: Seq<char>, i: int)
    requires
        0 <= i <= s.len(),
    ensures
        i <= space_end(s, i) <= s.len(),
        space_end(s, i) < s.len() ==> !ascii_space(s[space_end(s, i)]),
    decreases s.len() - i,
{
    if i < s.len() && ascii_space(s[i]) {
        space_end_bound(s, i + 1);
    }
}

pub proof fn ident_end_bound(s: Seq<char>, i: int)
    requires
        0 <= i <= s.len(),
    ensures
        i <= ident_end(s, i) <= s.len(),
        all_ident(s.subrange(i, ident_end(s, i))),
        ident_end(s, i) < s.len() ==> !ident_char(s[ident_end(s, i)]),
    decreases s.len() - i,
{
    if i < s.len() && ident_char(s[i]) {
        ident_end_bound(s, i + 1);
        let e = ident_end(s, i);
        assert forall|j: int| 0 <= j < e - i implies ident_char(
            #[trigger] s.subrange(i, e)[j],
        ) by {
            if j > 0 {
                assert(s.subrange(i + 1, e)[j - 1] == s[i + j]);
            }
        }
    }
}

pub fn skip_word(cs: &[char], from: usize) -> (r: usize)
    requires
        from <= cs@.len(),
    ensures
        r == word_end(cs@, from as int),
        from <= r <= cs@.len(),
        from < cs@.len() && !ascii_space(cs@[from as int]) ==> from < r,
{
    let mut i: usize = from;
    while i < cs.len() && !is_ascii_space(cs[i])
        invariant
            from <= i <= cs@.len(),
            word_end(cs@, i as int) == word_end(cs@, from as int),
        decreases cs@.len() - i,
    {
        i += 1;
    }
    proof {
        word_end_bound(cs@, from as int);
    }
    i
}

pub fn skip_space(cs: &[char], from: usize) -> (r: usize)
    requires
        from <= cs@.len(),
    ensures
        r == space_end(cs@, from as int),
        from <= r <= cs@.len(),
        r < cs@.len() ==> !ascii_space(cs@[r as int]),
{
    let mut i: usize = from;
    while i < cs.len() && is_ascii_space(cs[i])
        invariant
            from <= i <= cs@.len(),
            space_end(cs@, i as int) == space_end(cs@, from as int),
        decreases cs@.len() - i,
    {
        i += 1;
    }
    i
}

pub fn skip_ident(cs: &[char], from: usize) -> (r: usize)
    requires
        from <= cs@.len(),
    ensures
        r == ident_end(cs@, from as int),
        from <= r <= cs@.len(),
        all_ident(cs@.subrange(from as int, r as int)),
{
    let mut i: usize = from;
    while i < cs.len() && is_ident_char(cs[i])
        invariant
            from <= i <= cs@.len(),
            ident_end(cs@, i as int) == ident_end(cs@, from as int),
        decreases cs@.len() - i,
    {
        i += 1;
    }
    proof {
        ident_end_bound(cs@, from as int);
    }
    i
}

/// Whether every character of `s` is an identifier character.
pub fn is_all_ident(s: &str) -> (r: bool)
    ensures
        r == all_ident(s@),
{
    let cs = chars_of(s);
    let mut i: usize = 0;
    while i < cs.len()
        invariant
            cs@ == s@,
            i <= cs@.len(),
            forall|j: int| 0 <= j < i ==> ident_char(#[trigger] cs@[j]),
        decreases cs@.len() - i,
    {
        if !is_ident_char(cs[i]) {
            proof {
                assert(!ident_char(s@[i as int]));
            }
            return false;
        }
        i += 1;
    }
    true
}

/// The words of `s` from position `i` on: its longest runs without ASCII
/// whitespace.
pub open spec fn words_from(s: Seq<char>, i: int) -> Seq<Seq<char>>
    decreases s.len() - i,
{
    let a = space_end(s, i);
    let b = word_end(s, a);
    if 0 <= i <= a < b <= s.len() {
        seq![s.subrange(a, b)] + words_from(s, b)
    } else {
        seq![]
    }
}

pub fn split_ascii_whitespace(s: &str) -> (r: Vec<String>)
    ensures
        r.deep_view() == words_from(s@, 0),
{
    let cs = chars_of(s);
    let mut out: Vec<String> = Vec::new();
    let mut i: usize = 0;
    proof {
        assert(out.deep_view() + words_from(s@, 0) =~= words_from(s@, 0));
    }
    loop
        invariant
            cs@ == s@,
            i <= cs@.len(),
            out.deep_view() + words_from(s@, i as int) == words_from(s@, 0),
        decreases cs@.len() - i,
    {
        let a: usize = skip_space(cs.as_slice(), i);
        if a >= cs.len() {
            proof {
                assert(word_end(s@, a as int) == a);
                assert(out.deep_view() + words_from(s@, i as int) =~= out.deep_view());
            }
            return out;
        }
        let b: usize = skip_word(cs.as_slice(), a);
        let ghost before = out.deep_view();
        let word = string_of(cs.as_slice(), a, b);
        out.push(word);
        proof {
            assert(out.deep_view() =~= before.push(word@));
            assert(out.deep_view() + words_from(s@, b as int) =~= before + (seq![word@]
                + words_from(s@, b as int)));
        }
        i = b;
    }
}

// ---------------------------------------------------------------------------
// Joining, replacing, counting
// ---------------------------------------------------------------------------

/// The parts one after another, with `sep` between neighbours.
pub open spec fn joined(parts: Seq<Seq<char>>, sep: Seq<char>) -> Seq<char>
    decreases parts.len(),
{
    if parts.len() == 0 {
        seq![]
    } else if parts.len() == 1 {
        parts[0]
    } else {
        joined(parts.drop_last(), sep) + sep + parts.last()
    }
}

pub fn join(parts: &[String], sep: &str) -> (r: String)
    ensures
        r@ == joined(Seq::new(parts@.len(), |i: int| parts@[i]@), sep@),
{
    let mut out = String::new();
    let mut i: usize = 0;
    let ghost all = Seq::new(parts@.len(), |i: int| parts@[i]@);
    while i < parts.len()
        invariant
            i <= parts@.len(),
            all == Seq::new(parts@.len(), |i: int| parts@[i]@),
            out@ == joined(all.take(i as int), sep@),
        decreases parts@.len() - i,
    {
        if i > 0 {
            out.push_str(sep);
        }
        out.push_str(parts[i].as_str());
        proof {
            assert(all.take(i + 1).drop_last() =~= all.take(i as int));
            assert(all.take(i + 1).last() == parts@[i as int]@);
            if i == 0 {
                assert(out@ =~= joined(all.take(1), sep@));
            }
        }
        i += 1;
    }
    proof {
        assert(all.take(parts@.len() as int) =~= all);
    }
    out
}

/// `s` with every occurrence of `from`, taken from left to right without
/// overlap, replaced by `to`. Nothing is replaced where `from` is empty.
pub open spec fn replaced(s: Seq<char>, from: Seq<char>, to: Seq<char>) -> Seq<char>
    decreases s.len(),
{
    match find_from(s, from, 0) {
        Some(k) => if 0 < from.len() && 0 <= k && k + from.len() <= s.len() {
            s.take(k) + to + replaced(s.skip(k + from.len()), from, to)
        } else {
            s
        },
        None => s,
    }
}

/// How many occurrences of `part`, taken from left to right without overlap,
/// `s` holds.
pub open spec fn part_count(s: Seq<char>, part: Seq<char>) -> nat
    decreases s.len(),
{
    match find_from(s, part, 0) {
        Some(k) => if 0 < part.len() && 0 <= k && k + part.len() <= s.len() {
            1 + part_count(s.skip(k + part.len()), part)
        } else {
            0
        },
        None => 0,
    }
}

proof fn find_from_skip(s: Seq<char>, part: Seq<char>, from: int, i: int)
    requires
        0 <= from <= i,
        from <= s.len(),
    ensures
        find_from(s, part, i) == (match find_from(s.skip(from), part, i - from) {
            Some(k) => Some(from + k),
            None => None,
        }),
    decreases s.len() - i + 1,
{
    if i + part.len() <= s.len() {
        assert(s.skip(from).subrange(i - from, i - from + part.len()) =~= s.subrange(
            i,
            i + part.len(),
        ));
        if !occurs_at(s, part, i) {
            find_from_skip(s, part, from, i + 1);
        }
    }
}

pub fn replace(s: &str, from: &str, to: &str) -> (r: String)
    requires
        from@.len() > 0,
    ensures
        r@ == replaced(s@, from@, to@),
{
    let cs = chars_of(s);
    let fs = chars_of(from);
    let n: usize = fs.len();
    let total: usize = cs.len();
    let mut out = String::new();
    let mut i: usize = 0;
    proof {
        assert(s@.skip(0) =~= s@);
        assert(out@ + replaced(s@.skip(0), from@, to@) =~= replaced(s@, from@, to@));
    }
    loop
        invariant
            cs@ == s@,
            fs@ == from@,
            total == cs@.len(),
            n == fs@.len(),
            0 < n,
            i <= cs@.len(),
            out@ + replaced(s@.skip(i as int), from@, to@) == replaced(s@, from@, to@),
        decreases cs@.len() - i,
    {
        let ghost rest = s@.skip(i as int);
        let ghost before = out@;
        proof {
            find_from_skip(s@, from@, i as int, i as int);
        }
        match find_chars(cs.as_slice(), fs.as_slice(), i) {
            Some(k) => {
                proof {
                    find_from_facts(rest, from@, 0);
                }
                let head = string_of(cs.as_slice(), i, k);
                out.push_str(head.as_str());
                out.push_str(to);
                proof {
                    assert(rest.take(k - i) =~= head@);
                    assert(rest.skip(k - i + n) =~= s@.skip(k + n));
                    assert(out@ + replaced(s@.skip(k + n), from@, to@) =~= before + (head@ + to@
                        + replaced(s@.skip(k + n), from@, to@)));
                }
                i = k + n;
            },
            None => {
                let tail = string_of(cs.as_slice(), i, total);
                out.push_str(tail.as_str());
                proof {
                    assert(rest =~= tail@);
                }
                return out;
            },
        }
    }
}

pub fn count_matches(s: &str, part: &str) -> (r: usize)
    requires
        part@.len() > 0,
    ensures
        r == part_count(s@, part@),
        part@.len() >= 2 ==> 2 * r <= s@.len(),
{
    let cs = chars_of(s);
    let ps = chars_of(part);
    let n: usize = ps.len();
    let total: usize = cs.len();
    let mut count: usize = 0;
    let mut i: usize = 0;
    proof {
        assert(s@.skip(0) =~= s@);
    }
    loop
        invariant
            cs@ == s@,
            ps@ == part@,
            total == cs@.len(),
            n == ps@.len(),
            0 < n,
            count <= i <= cs@.len(),
            n >= 2 ==> 2 * count <= i,
            count + part_count(s@.skip(i as int), part@) == part_count(s@, part@),
        decreases cs@.len() - i,
    {
        let ghost rest = s@.skip(i as int);
        proof {
            find_from_skip(s@, part@, i as int, i as int);
        }
        match find_chars(cs.as_slice(), ps.as_slice(), i) {
            Some(k) => {
                proof {
                    find_from_facts(rest, part@, 0);
                    assert(rest.skip(k - i + n) =~= s@.skip(k + n));
                }
                i = k + n;
                count += 1;
            },
            None => {
                return count;
            },
        }
    }
}

// ---------------------------------------------------------------------------
// Numbers in text
// ---------------------------------------------------------------------------

/// The decimal digit of `d`.
pub open spec fn digit(d: int) -> char {
    ('0' as int + d) as char
}

/// The decimal notation of `n`.
pub open spec fn decimal_of(n: nat) -> Seq<char>
    decreases n,
{
    if n < 10 {
        seq![digit(n as int)]
    } else {
        decimal_of(n / 10).push(digit((n % 10) as int))
    }
}

pub fn decimal(n: usize) -> (r: String)
    ensures
        r@ == decimal_of(n as nat),
{
    decimal_u64(n as u64)
}

pub fn decimal_u64(n: u64) -> (r: String)
    ensures
        r@ == decimal_of(n as nat),
    decreases n,
{
    let d: u8 = (n % 10) as u8;
    let c: char = (48u8 + d) as char;
    proof {
        assert(c == digit((n % 10) as int));
    }
    if n < 10 {
        let mut out = String::new();
        out.push(c);
        proof {
            assert(out@ =~= seq![c]);
        }
        out
    } else {
        let mut out = decimal_u64(n / 10);
        out.push(c);
        out
    }
}

pub open spec fn digit_char(c: char) -> bool {
    '0' <= c <= '9'
}

/// `s` is one or more decimal digits.
pub open spec fn all_digits(s: Seq<char>) -> bool {
    s.len() > 0 && forall|i: int| 0 <= i < s.len() ==> digit_char(#[trigger] s[i])
}

/// The number that the digits of `s` denote.
pub open spec fn digits_value(s: Seq<char>) -> nat
    decreases s.len(),
{
    if s.len() == 0 {
        0
    } else {
        (digits_value(s.drop_last()) * 10 + (s.last() as int - '0' as int)) as nat
    }
}

/// The `u32` that `s` spells: decimal digits after an optional `+`.
pub open spec fn u32_of(s: Seq<char>) -> Option<u32> {
    let t = if s.len() > 0 && s[0] == '+' {
        s.skip(1)
    } else {
        s
    };
    if all_digits(t) && digits_value(t) <= u32::MAX {
        Some(digits_value(t) as u32)
    } else {
        None
    }
}

/// `s` spells an `i64`: decimal digits after an optional sign.
pub open spec fn spells_i64(s: Seq<char>) -> bool {
    if s.len() > 0 && s[0] == '-' {
        all_digits(s.skip(1)) && digits_value(s.skip(1)) <= 0x8000_0000_0000_0000
    } else if s.len() > 0 && s[0] == '+' {
        all_digits(s.skip(1)) && digits_value(s.skip(1)) <= i64::MAX
    } else {
        all_digits(s) && digits_value(s) <= i64::MAX
    }
}

proof fn digits_value_grows(s: Seq<char>, i: int)
    requires
        all_digits(s),
        0 <= i <= s.len(),
    ensures
        digits_value(s.take(i)) <= digits_value(s),
    decreases s.len(),
{
    if i == s.len() {
        assert(s.take(i) =~= s);
    } else {
        assert(digit_char(s.last()));
        if s.len() > 1 {
            assert forall|j: int| 0 <= j < s.drop_last().len() implies digit_char(
                #[trigger] s.drop_last()[j],
            ) by {
                assert(digit_char(s[j]));
            }
            digits_value_grows(s.drop_last(), i);
            assert(s.drop_last().take(i) =~= s.take(i));
        } else {
            assert(s.take(i) =~= seq![]);
        }
    }
}

/// The number that `cs[from..]` denotes, if those are digits and the number is
/// at most `limit`.
fn digits_up_to(cs: &[char], from: usize, limit: u64) -> (r: Option<u64>)
    requires
        from <= cs@.len(),
        limit <= 0x8000_0000_0000_0000,
    ensures
        match r {
            Some(v) => all_digits(cs@.skip(from as int)) && v == digits_value(cs@.skip(from as int))
                && v <= limit,
            None => !(all_digits(cs@.skip(from as int)) && digits_value(cs@.skip(from as int))
                <= limit),
        },
{
    let ghost t = cs@.skip(from as int);
    if from == cs.len() {
        return None;
    }
    let mut i: usize = from;
    let mut value: u128 = 0;
    proof {
        assert(t.take(0) =~= seq![]);
    }
    while i < cs.len()
        invariant
            from <= i <= cs@.len(),
            from < cs@.len(),
            limit <= 0x8000_0000_0000_0000,
            t == cs@.skip(from as int),
            value == digits_value(t.take(i - from)),
            value <= limit,
            forall|j: int| 0 <= j < i - from ==> digit_char(#[trigger] t[j]),
        decreases cs@.len() - i,
    {
        let c: char = cs[i];
        if !('0' <= c && c <= '9') {
            proof {
                assert(!digit_char(t[i - from]));
            }
            return None;
        }
        let d: u32 = (c as u32) - 48;
        value = value * 10 + (d as u128);
        proof {
            assert(t[i - from] == c);
            assert(t.take(i - from + 1).drop_last() =~= t.take(i - from));
            assert(value == digits_value(t.take(i - from + 1)));
        }
        if value > limit as u128 {
            proof {
                if all_digits(t) {
                    digits_value_grows(t, i - from + 1);
                }
            }
            return None;
        }
        i += 1;
    }
    proof {
        assert(t.take(i - from) =~= t);
    }
    Some(value as u64)
}

pub fn parse_u32(s: &str) -> (r: Option<u32>)
    ensures
        r == u32_of(s@),
{
    let cs = chars_of(s);
    let from: usize = if cs.len() > 0 && cs[0] == '+' {
        1
    } else {
        0
    };
    proof {
        assert(s@.skip(0) =~= s@);
    }
    match digits_up_to(cs.as_slice(), from, 0xffff_ffff) {
        Some(v) => Some(v as u32),
        None => None,
    }
}

/// Whether `s` parses as an `i64`.
pub fn parses_as_i64(s: &str) -> (r: bool)
    ensures
        r == spells_i64(s@),
{
    let cs = chars_of(s);
    proof {
        assert(s@.skip(0) =~= s@);
    }
    if cs.len() > 0 && cs[0] == '-' {
        digits_up_to(cs.as_slice(), 1, 0x8000_0000_0000_0000).is_some()
    } else if cs.len() > 0 && cs[0] == '+' {
        digits_up_to(cs.as_slice(), 1, 0x7fff_ffff_ffff_ffff).is_some()
    } else {
        digits_up_to(cs.as_slice(), 0, 0x7fff_ffff_ffff_ffff).is_some()
    }
}

} // verus!
