//! The lexical level of CMake scripts: comments, statements, arguments and
//! `${VAR}` references.
use crate::names::NameSet;
use crate::text::{
    all_ident, chars_of, ident_char, ident_end, ident_end_bound, is_all_ident, is_ident_char,
    opt_view, skip_ident, skip_space, skip_word, space_end, string_of, trim, trimmed, word_end,
};
use vstd::prelude::*;

verus! {

// ---------------------------------------------------------------------------
// Comments
// ---------------------------------------------------------------------------

/// The position of the line feed that ends the line of position `i`, or the
/// end of the text.
pub open spec fn line_end(s: Seq<char>, i: int) -> int
    decreases s.len() - i,
{
    if i >= s.len() || s[i] == '\n' {
        i
    } else {
        line_end(s, i + 1)
    }
}

pub proof fn line_end_bound(s: Seq<char>, i: int)
    requires
        0 <= i <= s.len(),
    ensures
        i <= line_end(s, i) <= s.len(),
    decreases s.len() - i,
{
    if i < s.len() && s[i] != '\n' {
        line_end_bound(s, i + 1);
    }
}

/// What is left of `s` from position `i` on without `#` comments. Inside
/// double quotes a `#` is text and a backslash takes the next character with
/// it; `quoted` says whether position `i` is inside.
pub open spec fn uncommented(s: Seq<char>, i: int, quoted: bool) -> Seq<char>
    decreases s.len() - i,
{
    if i < 0 || i >= s.len() {
        seq![]
    } else if quoted && s[i] == '\\' && i + 1 < s.len() {
        seq![s[i], s[i + 1]] + uncommented(s, i + 2, true)
    } else if quoted {
        seq![s[i]] + uncommented(s, i + 1, s[i] != '"')
    } else if s[i] == '#' {
        proof {
            line_end_bound(s, i + 1);
        }
        uncommented(s, line_end(s, i + 1), false)
    } else {
        seq![s[i]] + uncommented(s, i + 1, s[i] == '"')
    }
}

/// Strip `#`-comments outside of double-quoted strings.
pub fn strip_comments(text: &str) -> (r: String)
    ensures
        r@ == uncommented(text@, 0, false),
{
    let cs = chars_of(text);
    let out = uncommented_chars(&cs);
    let r = string_of(out.as_slice(), 0, out.len());
    proof {
        assert(out@.subrange(0, out@.len() as int) =~= out@);
    }
    r
}

fn uncommented_chars(cs: &Vec<char>) -> (out: Vec<char>)
    ensures
        out@ == uncommented(cs@, 0, false),
{
    let mut out: Vec<char> = Vec::new();
    let mut i: usize = 0;
    let mut quoted = false;
    proof {
        assert(out@ + uncommented(cs@, 0, false) =~= uncommented(cs@, 0, false));
    }
    while i < cs.len()
        invariant
            i <= cs@.len(),
            out@ + uncommented(cs@, i as int, quoted) == uncommented(cs@, 0, false),
        decreases cs@.len() - i,
    {
        let c = cs[i];
        let ghost before = out@;
        if quoted && c == '\\' && i + 1 < cs.len() {
            out.push(c);
            out.push(cs[i + 1]);
            proof {
                assert(out@ + uncommented(cs@, i + 2, true) =~= before + (seq![
                    c,
                    cs@[i + 1],
                ] + uncommented(cs@, i + 2, true)));
            }
            i += 2;
        } else if quoted {
            out.push(c);
            quoted = c != '"';
            proof {
                assert(out@ + uncommented(cs@, i + 1, quoted) =~= before + (seq![c] + uncommented(
                    cs@,
                    i + 1,
                    quoted,
                )));
            }
            i += 1;
        } else if c == '#' {
            let ghost start = i + 1;
            i += 1;
            while i < cs.len() && cs[i] != '\n'
                invariant
                    start <= i <= cs@.len(),
                    line_end(cs@, i as int) == line_end(cs@, start),
                decreases cs@.len() - i,
            {
                i += 1;
            }
        } else {
            out.push(c);
            quoted = c == '"';
            proof {
                assert(out@ + uncommented(cs@, i + 1, quoted) =~= before + (seq![c] + uncommented(
                    cs@,
                    i + 1,
                    quoted,
                )));
            }
            i += 1;
        }
    }
    proof {
        assert(out@ + uncommented(cs@, i as int, quoted) =~= out@);
    }
    out
}

// ---------------------------------------------------------------------------
// Arguments
// ---------------------------------------------------------------------------

/// The position after the quoted argument whose inside starts at `i`.
pub open spec fn quote_end(s: Seq<char>, i: int) -> int
    decreases s.len() - i,
{
    if i >= s.len() {
        s.len() as int
    } else if s[i] == '\\' && i + 1 < s.len() {
        quote_end(s, i + 2)
    } else if s[i] == '"' {
        i + 1
    } else {
        quote_end(s, i + 1)
    }
}

pub proof fn quote_end_bound(s: Seq<char>, i: int)
    requires
        0 <= i <= s.len(),
    ensures
        i <= quote_end(s, i) <= s.len(),
    decreases s.len() - i,
{
    if i >= s.len() {
    } else if s[i] == '\\' && i + 1 < s.len() {
        quote_end_bound(s, i + 2);
    } else if s[i] == '"' {
    } else {
        quote_end_bound(s, i + 1);
    }
}

/// The position after the argument that starts at `i`.
pub open spec fn token_end(s: Seq<char>, i: int) -> int {
    if i < s.len() && s[i] == '"' {
        quote_end(s, i + 1)
    } else {
        word_end(s, i)
    }
}

/// The arguments of `s` from position `i` on: quoted strings, with their
/// quotes, and words.
pub open spec fn tokens_from(s: Seq<char>, i: int) -> Seq<Seq<char>>
    decreases s.len() - i,
{
    let a = space_end(s, i);
    let b = token_end(s, a);
    if 0 <= i <= a < b <= s.len() {
        seq![s.subrange(a, b)] + tokens_from(s, b)
    } else {
        seq![]
    }
}

/// Tokenize the inside of a `(...)` into individual arguments. Honors
/// double-quoted strings (preserving inner whitespace and backslash escapes).
pub fn tokenize_args(s: &str) -> (r: Vec<String>)
    ensures
        r.deep_view() == tokens_from(s@, 0),
{
    let cs = chars_of(s);
    tokenize_chars(cs.as_slice())
}

fn skip_quoted(cs: &[char], from: usize) -> (r: usize)
    requires
        from <= cs@.len(),
    ensures
        r == quote_end(cs@, from as int),
        from <= r <= cs@.len(),
{
    let mut i: usize = from;
    proof {
        quote_end_bound(cs@, from as int);
    }
    while i < cs.len()
        invariant
            from <= i <= cs@.len(),
            from <= quote_end(cs@, from as int) <= cs@.len(),
            quote_end(cs@, i as int) == quote_end(cs@, from as int),
        decreases cs@.len() - i,
    {
        if cs[i] == '\\' && i + 1 < cs.len() {
            i += 2;
        } else if cs[i] == '"' {
            return i + 1;
        } else {
            i += 1;
        }
    }
    i
}

fn tokenize_chars(cs: &[char]) -> (r: Vec<String>)
    ensures
        r.deep_view() == tokens_from(cs@, 0),
{
    let mut out: Vec<String> = Vec::new();
    let mut i: usize = 0;
    proof {
        assert(out.deep_view() + tokens_from(cs@, 0) =~= tokens_from(cs@, 0));
    }
    loop
        invariant
            i <= cs@.len(),
            out.deep_view() + tokens_from(cs@, i as int) == tokens_from(cs@, 0),
        decreases cs@.len() - i,
    {
        let a: usize = skip_space(cs, i);
        if a >= cs.len() {
            proof {
                assert(token_end(cs@, a as int) == a);
                assert(out.deep_view() + tokens_from(cs@, i as int) =~= out.deep_view());
            }
            return out;
        }
        let b: usize = if cs[a] == '"' {
            skip_quoted(cs, a + 1)
        } else {
            skip_word(cs, a)
        };
        let ghost before = out.deep_view();
        let token = string_of(cs, a, b);
        out.push(token);
        proof {
            assert(out.deep_view() =~= before.push(token@));
            assert(out.deep_view() + tokens_from(cs@, b as int) =~= before + (seq![token@]
                + tokens_from(cs@, b as int)));
        }
        i = b;
    }
}

// ---------------------------------------------------------------------------
// Statements
// ---------------------------------------------------------------------------

/// One command invocation.
#[derive(Debug, PartialEq, Eq)]
pub struct Statement {
    pub command: String,
    pub args: Vec<String>,
}

#[verifier::ext_equal]
pub ghost struct StatementView {
    pub command: Seq<char>,
    pub args: Seq<Seq<char>>,
}

impl DeepView for Statement {
    type V = StatementView;

    open spec fn deep_view(&self) -> StatementView {
        StatementView { command: self.command@, args: self.args.deep_view() }
    }
}

/// The position of the `)` that closes `depth` open parentheses, looking from
/// `i` on, or the end of the text. Parentheses inside double quotes do not
/// count.
pub open spec fn closing_paren(s: Seq<char>, i: int, depth: int, quoted: bool) -> int
    decreases s.len() - i,
{
    if i >= s.len() {
        s.len() as int
    } else if quoted && s[i] == '\\' && i + 1 < s.len() {
        closing_paren(s, i + 2, depth, true)
    } else if quoted {
        closing_paren(s, i + 1, depth, s[i] != '"')
    } else if s[i] == '"' {
        closing_paren(s, i + 1, depth, true)
    } else if s[i] == '(' {
        closing_paren(s, i + 1, depth + 1, false)
    } else if s[i] == ')' {
        if depth <= 1 {
            i
        } else {
            closing_paren(s, i + 1, depth - 1, false)
        }
    } else {
        closing_paren(s, i + 1, depth, false)
    }
}

pub proof fn closing_paren_bound(s: Seq<char>, i: int, depth: int, quoted: bool)
    requires
        0 <= i <= s.len(),
    ensures
        i <= closing_paren(s, i, depth, quoted) <= s.len(),
    decreases s.len() - i,
{
    if i >= s.len() {
    } else if quoted && s[i] == '\\' && i + 1 < s.len() {
        closing_paren_bound(s, i + 2, depth, true);
    } else if quoted {
        closing_paren_bound(s, i + 1, depth, s[i] != '"');
    } else if s[i] == '"' {
        closing_paren_bound(s, i + 1, depth, true);
    } else if s[i] == '(' {
        closing_paren_bound(s, i + 1, depth + 1, false);
    } else if s[i] == ')' {
        if depth > 1 {
            closing_paren_bound(s, i + 1, depth - 1, false);
        }
    } else {
        closing_paren_bound(s, i + 1, depth, false);
    }
}

/// The statements of the comment-free text `s` from position `i` on: each is
/// an identifier, optional whitespace and a parenthesized argument list that
/// runs to its matching `)` or to the end of the text. Anything else is
/// skipped.
pub open spec fn statements_from(s: Seq<char>, i: int) -> Seq<StatementView>
    decreases s.len() - i,
{
    let name = space_end(s, i);
    let name_end = ident_end(s, name);
    let open = space_end(s, name_end);
    let close = closing_paren(s, open + 1, 1, false);
    if !(0 <= i <= name < s.len()) {
        seq![]
    } else if name_end <= name {
        statements_from(s, name + 1)
    } else if !(name_end <= open < s.len() && s[open] == '(') {
        if i < open <= s.len() {
            statements_from(s, open)
        } else {
            seq![]
        }
    } else if !(open < close <= s.len()) {
        seq![]
    } else {
        seq![
            StatementView {
                command: s.subrange(name, name_end),
                args: tokens_from(s.subrange(open + 1, close), 0),
            },
        ] + statements_from(
            s,
            if close < s.len() {
                close + 1
            } else {
                close
            },
        )
    }
}

/// The statements of a script.
pub open spec fn statements_of(text: Seq<char>) -> Seq<StatementView> {
    statements_from(uncommented(text, 0, false), 0)
}

fn find_closing_paren(cs: &[char], from: usize) -> (r: usize)
    requires
        1 <= from <= cs@.len(),
    ensures
        r == closing_paren(cs@, from as int, 1, false),
        from <= r <= cs@.len(),
{
    let n: usize = cs.len();
    let mut i: usize = from;
    let mut depth: usize = 1;
    let mut quoted = false;
    proof {
        closing_paren_bound(cs@, from as int, 1, false);
    }
    while i < cs.len()
        invariant
            1 <= from <= i <= cs@.len(),
            1 <= depth <= 1 + (i - from),
            n == cs@.len(),
            from <= closing_paren(cs@, from as int, 1, false) <= cs@.len(),
            closing_paren(cs@, i as int, depth as int, quoted) == closing_paren(
                cs@,
                from as int,
                1,
                false,
            ),
        decreases cs@.len() - i,
    {
        let c = cs[i];
        if quoted {
            if c == '\\' && i + 1 < cs.len() {
                i += 2;
            } else {
                quoted = c != '"';
                i += 1;
            }
        } else if c == '"' {
            quoted = true;
            i += 1;
        } else if c == '(' {
            depth += 1;
            i += 1;
        } else if c == ')' {
            if depth == 1 {
                return i;
            }
            depth -= 1;
            i += 1;
        } else {
            i += 1;
        }
    }
    i
}

/// Joins multi-line `(...)` statements into single logical statements.
///
/// CMake commands have the shape `name(args...)`. Arguments may span
/// multiple lines. This function returns one [`Statement`] per logical
/// invocation. Comments (`#...`) are stripped first.
pub fn join_statements(text: &str) -> (r: Vec<Statement>)
    ensures
        r.deep_view() == statements_of(text@),
{
    let raw = chars_of(text);
    let cs = uncommented_chars(&raw);
    let cs = cs.as_slice();
    let mut out: Vec<Statement> = Vec::new();
    let mut i: usize = 0;
    proof {
        assert(out.deep_view() + statements_from(cs@, 0) =~= statements_from(cs@, 0));
    }
    loop
        invariant
            cs@ == uncommented(text@, 0, false),
            i <= cs@.len(),
            out.deep_view() + statements_from(cs@, i as int) == statements_from(cs@, 0),
        decreases cs@.len() - i,
    {
        let name: usize = skip_space(cs, i);
        if name >= cs.len() {
            proof {
                assert(out.deep_view() + statements_from(cs@, i as int) =~= out.deep_view());
            }
            return out;
        }
        let name_end: usize = skip_ident(cs, name);
        if name_end == name {
            i = name + 1;
            continue;
        }
        let open: usize = skip_space(cs, name_end);
        if open >= cs.len() || cs[open] != '(' {
            i = open;
            continue;
        }
        let close: usize = find_closing_paren(cs, open + 1);
        let command = string_of(cs, name, name_end);
        let inside = vstd::slice::slice_subrange(cs, open + 1, close);
        let args = tokenize_chars(inside);
        let ghost before = out.deep_view();
        let statement = Statement { command, args };
        out.push(statement);
        let next: usize = if close < cs.len() {
            close + 1
        } else {
            close
        };
        proof {
            assert(out.deep_view() =~= before.push(statement.deep_view()));
            assert(out.deep_view() + statements_from(cs@, next as int) =~= before + (seq![
                statement.deep_view(),
            ] + statements_from(cs@, next as int)));
        }
        i = next;
    }
}

/// Whether `c` may stand in a CMake identifier.
pub fn is_cmake_ident_char(c: u8) -> (r: bool)
    ensures
        r == ident_char(c as char),
{
    is_ident_char(c as char)
}

// ---------------------------------------------------------------------------
// Argument texts
// ---------------------------------------------------------------------------

/// `s` from position `i` on with every backslash dropped and the character
/// after it kept.
pub open spec fn unescaped(s: Seq<char>, i: int) -> Seq<char>
    decreases s.len() - i,
{
    if i < 0 || i >= s.len() {
        seq![]
    } else if s[i] != '\\' {
        seq![s[i]] + unescaped(s, i + 1)
    } else if i + 1 < s.len() {
        seq![s[i + 1]] + unescaped(s, i + 2)
    } else {
        seq![]
    }
}

/// The argument stands in double quotes.
pub open spec fn is_quoted(arg: Seq<char>) -> bool {
    arg.len() >= 2 && arg[0] == '"' && arg.last() == '"'
}

/// The text inside a quoted argument.
pub open spec fn unquoted(arg: Seq<char>) -> Option<Seq<char>> {
    if is_quoted(arg) {
        Some(unescaped(arg.subrange(1, arg.len() - 1), 0))
    } else {
        None
    }
}

/// The text of an argument, quoted or not.
pub open spec fn arg_text_of(arg: Seq<char>) -> Seq<char> {
    match unquoted(arg) {
        Some(t) => t,
        None => arg,
    }
}

/// Strip the outer double quotes (and unescape `\"`) from a quoted CMake
/// argument. Returns `None` if the argument is not quoted.
pub fn unquote(arg: &str) -> (r: Option<String>)
    ensures
        r.deep_view() == unquoted(arg@),
{
    let cs = chars_of(arg);
    if cs.len() < 2 || cs[0] != '"' || cs[cs.len() - 1] != '"' {
        return None;
    }
    let inner = vstd::slice::slice_subrange(cs.as_slice(), 1, cs.len() - 1);
    let mut out = String::new();
    let mut i: usize = 0;
    proof {
        assert(out@ + unescaped(inner@, 0) =~= unescaped(inner@, 0));
    }
    while i < inner.len()
        invariant
            is_quoted(arg@),
            inner@ == arg@.subrange(1, arg@.len() - 1),
            i <= inner@.len(),
            out@ + unescaped(inner@, i as int) == unescaped(inner@, 0),
        decreases inner@.len() - i,
    {
        let c = inner[i];
        let ghost before = out@;
        if c != '\\' {
            out.push(c);
            proof {
                assert(out@ + unescaped(inner@, i + 1) =~= before + (seq![c] + unescaped(
                    inner@,
                    i + 1,
                )));
            }
            i += 1;
        } else if i + 1 < inner.len() {
            let d = inner[i + 1];
            out.push(d);
            proof {
                assert(out@ + unescaped(inner@, i + 2) =~= before + (seq![d] + unescaped(
                    inner@,
                    i + 2,
                )));
            }
            i += 2;
        } else {
            i += 1;
        }
    }
    proof {
        assert(out@ + unescaped(inner@, i as int) =~= out@);
    }
    Some(out)
}

/// Returns the contents of an argument with any leading/trailing double-quote
/// stripped. Useful for the simple/common case of a "literal" string argument.
pub fn arg_text(arg: &str) -> (r: String)
    ensures
        r@ == arg_text_of(arg@),
{
    match unquote(arg) {
        Some(t) => t,
        None => arg.to_owned(),
    }
}

// ---------------------------------------------------------------------------
// Variable references
// ---------------------------------------------------------------------------

/// The name in a text that, without surrounding whitespace, is one `${NAME}`.
pub open spec fn single_ref(s: Seq<char>) -> Option<Seq<char>> {
    let t = trimmed(s);
    let inner = t.subrange(2, t.len() - 1);
    if t.len() > 3 && t[0] == '$' && t[1] == '{' && t.last() == '}' && all_ident(inner) {
        Some(inner)
    } else {
        None
    }
}

/// Extract a `${VAR}` reference if the entire string is a single ref.
pub fn as_single_var_ref<'a>(s: &'a str) -> (r: Option<&'a str>)
    ensures
        opt_view(r) == single_ref(s@),
{
    let t = trim(s);
    let cs = chars_of(t);
    let n: usize = cs.len();
    if n > 3 && cs[0] == '$' && cs[1] == '{' && cs[n - 1] == '}' {
        let inner = t.substring_char(2, n - 1);
        if is_all_ident(inner) {
            return Some(inner);
        }
    }
    None
}

/// A closed `${NAME}` starts at position `i`.
pub open spec fn ref_at(s: Seq<char>, i: int) -> bool {
    &&& 0 <= i && i + 1 < s.len()
    &&& s[i] == '$' && s[i + 1] == '{'
    &&& ident_end(s, i + 2) < s.len() && s[ident_end(s, i + 2)] == '}'
}

/// The position after the `${NAME}` that starts at position `i`.
pub open spec fn ref_end(s: Seq<char>, i: int) -> int {
    ident_end(s, i + 2) + 1
}

/// The name in the `${NAME}` that starts at position `i`.
pub open spec fn ref_name(s: Seq<char>, i: int) -> Seq<char> {
    s.subrange(i + 2, ident_end(s, i + 2))
}

/// The closed `${NAME}` references of `s` from position `i` on: where each
/// starts, where it ends, and its name.
pub open spec fn refs_from(s: Seq<char>, i: int) -> Seq<(usize, usize, Seq<char>)>
    decreases s.len() - i,
{
    if i < 0 || i + 1 >= s.len() {
        seq![]
    } else if ref_at(s, i) {
        proof {
            ident_end_bound(s, i + 2);
        }
        seq![(i as usize, ref_end(s, i) as usize, ref_name(s, i))] + refs_from(s, ref_end(s, i))
    } else {
        refs_from(s, i + 1)
    }
}

/// No reference starts inside the name of one that is not closed.
proof fn refs_skip_ident(s: Seq<char>, i: int, to: int)
    requires
        0 <= i <= to <= s.len(),
        forall|j: int| i <= j < to ==> s[j] != '$',
    ensures
        refs_from(s, i) == refs_from(s, to),
    decreases to - i,
{
    if i < to {
        if i + 1 < s.len() {
            refs_skip_ident(s, i + 1, to);
        } else {
            assert(refs_from(s, to) =~= seq![]);
        }
    }
}

fn refs_in_chars(cs: &[char]) -> (r: Vec<(usize, usize, String)>)
    ensures
        r.deep_view() == refs_from(cs@, 0),
{
    let mut out: Vec<(usize, usize, String)> = Vec::new();
    let n: usize = cs.len();
    let mut i: usize = 0;
    proof {
        assert(out.deep_view() + refs_from(cs@, 0) =~= refs_from(cs@, 0));
    }
    while n - i > 1
        invariant
            n == cs@.len(),
            i <= n,
            out.deep_view() + refs_from(cs@, i as int) == refs_from(cs@, 0),
        decreases n - i,
    {
        if cs[i] == '$' && cs[i + 1] == '{' {
            let start: usize = i;
            let e: usize = skip_ident(cs, i + 2);
            if e < n && cs[e] == '}' {
                let ghost before = out.deep_view();
                let name = string_of(cs, i + 2, e);
                let item = (start, e + 1, name);
                out.push(item);
                proof {
                    assert(item.deep_view() == (start, (e + 1) as usize, name@));
                    assert(out.deep_view() =~= before.push(item.deep_view()));
                    assert(out.deep_view() + refs_from(cs@, e + 1) =~= before + (seq![
                        item.deep_view(),
                    ] + refs_from(cs@, e + 1)));
                }
                i = e + 1;
            } else {
                proof {
                    assert forall|j: int| i + 1 <= j < e implies cs@[j] != '$' by {
                        if j >= i + 2 {
                            assert(ident_char(cs@.subrange(i + 2, e as int)[j - (i + 2)]));
                        }
                    }
                    refs_skip_ident(cs@, i + 1, e as int);
                }
                i = e;
            }
        } else {
            i += 1;
        }
    }
    proof {
        assert(out.deep_view() + refs_from(cs@, i as int) =~= out.deep_view());
    }
    out
}

/// A text with each byte of its UTF-8 encoding read as one character. ASCII
/// text reads as itself.
pub open spec fn byte_chars(s: Seq<char>) -> Seq<char> {
    vstd::utf8::encode_utf8(s).map_values(|b: u8| b as char)
}

/// ASCII text reads as itself.
pub proof fn byte_chars_of_ascii(s: Seq<char>)
    requires
        vstd::utf8::is_ascii_chars(s),
    ensures
        byte_chars(s) == s,
{
    vstd::utf8::is_ascii_chars_encode_utf8(s);
    assert(byte_chars(s) =~= s);
}

fn bytes_as_chars(s: &str) -> (r: Vec<char>)
    ensures
        r@ == byte_chars(s@),
{
    let bytes = s.as_bytes();
    let mut out: Vec<char> = Vec::new();
    let mut i: usize = 0;
    while i < bytes.len()
        invariant
            bytes@ == vstd::utf8::encode_utf8(s@),
            i <= bytes@.len(),
            out@ == byte_chars(s@).take(i as int),
        decreases bytes@.len() - i,
    {
        out.push(bytes[i] as char);
        proof {
            assert(byte_chars(s@).take(i + 1) =~= byte_chars(s@).take(i as int).push(
                bytes@[i as int] as char,
            ));
        }
        i += 1;
    }
    proof {
        assert(byte_chars(s@).take(i as int) =~= byte_chars(s@));
    }
    out
}

/// The `${NAME}` references of a text, with positions counted in the bytes of
/// its UTF-8 encoding.
pub open spec fn var_refs(s: Seq<char>) -> Seq<(usize, usize, Seq<char>)> {
    refs_from(byte_chars(s), 0)
}

/// Find every `${VAR}` reference within a string. Returns them in order of
/// appearance.
pub fn find_var_refs(s: &str) -> (r: Vec<(usize, usize, String)>)
    ensures
        r.deep_view() == var_refs(s@),
{
    let cs = bytes_as_chars(s);
    refs_in_chars(cs.as_slice())
}

/// The names of the references that are in `known`, in order.
pub open spec fn known_names(
    refs: Seq<(usize, usize, Seq<char>)>,
    known: Set<Seq<char>>,
) -> Seq<Seq<char>>
    decreases refs.len(),
{
    if refs.len() == 0 {
        seq![]
    } else {
        let rest = known_names(refs.drop_last(), known);
        if known.contains(refs.last().2) {
            rest.push(refs.last().2)
        } else {
            rest
        }
    }
}

/// The known variables that a text refers to, in order of appearance.
pub open spec fn known_refs_of(s: Seq<char>, known: Set<Seq<char>>) -> Seq<Seq<char>> {
    known_names(var_refs(s), known)
}

/// The known variables that `value` refers to, in order of appearance.
pub fn known_refs(value: &str, known_vars: &NameSet) -> (r: Vec<String>)
    ensures
        r.deep_view() == known_refs_of(value@, known_vars@),
{
    let refs = find_var_refs(value);
    let ghost all = refs.deep_view();
    let mut out: Vec<String> = Vec::new();
    let mut i: usize = 0;
    proof {
        assert(out.deep_view() =~= known_names(all.take(0), known_vars@));
    }
    while i < refs.len()
        invariant
            all == refs.deep_view(),
            i <= refs@.len(),
            out.deep_view() == known_names(all.take(i as int), known_vars@),
        decreases refs@.len() - i,
    {
        let name = refs[i].2.as_str();
        let ghost before = out.deep_view();
        proof {
            assert(all.take(i + 1).drop_last() =~= all.take(i as int));
            assert(all[i as int] == refs@[i as int].deep_view());
        }
        if known_vars.contains(name) {
            out.push(name.to_owned());
            proof {
                assert(out.deep_view() =~= before.push(name@));
            }
        }
        i += 1;
    }
    proof {
        assert(all.take(i as int) =~= all);
    }
    out
}

/// `s` from position `i` on with each `${VAR}` for a known `VAR` written as
/// `{VAR}`.
pub open spec fn template_from(s: Seq<char>, i: int, known: Set<Seq<char>>) -> Seq<char>
    decreases s.len() - i,
{
    if i < 0 || i >= s.len() {
        seq![]
    } else if ref_at(s, i) {
        proof {
            ident_end_bound(s, i + 2);
        }
        (if known.contains(ref_name(s, i)) {
            seq!['{'] + ref_name(s, i) + seq!['}']
        } else {
            s.subrange(i, ref_end(s, i))
        }) + template_from(s, ref_end(s, i), known)
    } else {
        seq![s[i]] + template_from(s, i + 1, known)
    }
}

/// The template of a value.
pub open spec fn template_of(value: Seq<char>, known: Set<Seq<char>>) -> Seq<char> {
    template_from(value, 0, known)
}

/// Replace each `${VAR}` (where VAR in known_vars) with `{VAR}` to form a
/// Composed template. Other `${...}` references are left untouched.
pub fn substitute_var_template(value: &str, known_vars: &NameSet) -> (r: String)
    ensures
        r@ == template_of(value@, known_vars@),
{
    let cs = chars_of(value);
    let cs = cs.as_slice();
    let ghost known = known_vars@;
    let n: usize = cs.len();
    let mut out = String::new();
    let mut i: usize = 0;
    proof {
        assert(out@ + template_from(cs@, 0, known) =~= template_from(cs@, 0, known));
    }
    while i < n
        invariant
            cs@ == value@,
            known == known_vars@,
            n == cs@.len(),
            i <= n,
            out@ + template_from(cs@, i as int, known) == template_from(cs@, 0, known),
        decreases n - i,
    {
        let ghost before = out@;
        if n - i > 1 && cs[i] == '$' && cs[i + 1] == '{' {
            let e: usize = skip_ident(cs, i + 2);
            if e < n && cs[e] == '}' {
                let name = string_of(cs, i + 2, e);
                if known_vars.contains(name.as_str()) {
                    out.push('{');
                    out.push_str(name.as_str());
                    out.push('}');
                    proof {
                        assert(out@ + template_from(cs@, e + 1, known) =~= before + ((seq!['{']
                            + name@ + seq!['}']) + template_from(cs@, e + 1, known)));
                    }
                } else {
                    let whole = string_of(cs, i, e + 1);
                    out.push_str(whole.as_str());
                    proof {
                        assert(out@ + template_from(cs@, e + 1, known) =~= before + (whole@
                            + template_from(cs@, e + 1, known)));
                    }
                }
                i = e + 1;
                continue;
            }
        }
        out.push(cs[i]);
        proof {
            assert(out@ + template_from(cs@, i + 1, known) =~= before + (seq![cs@[i as int]]
                + template_from(cs@, i + 1, known)));
        }
        i += 1;
    }
    proof {
        assert(out@ + template_from(cs@, i as int, known) =~= out@);
    }
    out
}

} // verus!
