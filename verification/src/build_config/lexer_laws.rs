//! How scripts are read: comments, commands, arguments and their text.
use crate::build_config::laws::uncommented_shift;
use crate::build_config::lexer::{
    arg_text_of, closing_paren, closing_paren_bound, line_end, quote_end, quote_end_bound,
    statements_from, statements_of, token_end, tokens_from, uncommented, unescaped, StatementView,
};
use crate::text::{
    all_ident, ascii_space, ident_char, ident_end, ident_end_bound, space_end, space_end_bound,
    word_end, word_end_bound,
};
use crate::text_laws::{solid, spacing};
use vstd::prelude::*;

verus! {

/// The texts are the same from these places on.
spec fn alike(s: Seq<char>, t: Seq<char>, i: int, j: int) -> bool {
    0 <= i <= s.len() && 0 <= j <= t.len() && s.skip(i) == t.skip(j)
}

proof fn alike_on(s: Seq<char>, t: Seq<char>, i: int, j: int, n: int)
    requires
        alike(s, t, i, j),
        0 <= n <= s.len() - i,
    ensures
        s.len() - i == t.len() - j,
        alike(s, t, i + n, j + n),
        n < s.len() - i ==> s[i + n] == t[j + n],
        s.subrange(i, i + n) == t.subrange(j, j + n),
{
    let u = s.skip(i);
    assert(u.len() == s.len() - i);
    assert(u == t.skip(j) && u.len() == t.len() - j);
    assert(s.skip(i + n) =~= u.skip(n));
    assert(t.skip(j + n) =~= u.skip(n));
    if n < u.len() {
        assert(u[n] == s[i + n]);
        assert(u[n] == t[j + n]);
    }
    assert(s.subrange(i, i + n) =~= u.subrange(0, n));
    assert(t.subrange(j, j + n) =~= u.subrange(0, n));
}

proof fn space_end_alike(s: Seq<char>, t: Seq<char>, i: int, j: int)
    requires
        alike(s, t, i, j),
    ensures
        space_end(s, i) - i == space_end(t, j) - j,
    decreases s.len() - i,
{
    alike_on(s, t, i, j, 0);
    if i < s.len() {
        alike_on(s, t, i, j, 1);
        space_end_alike(s, t, i + 1, j + 1);
    }
}

proof fn word_end_alike(s: Seq<char>, t: Seq<char>, i: int, j: int)
    requires
        alike(s, t, i, j),
    ensures
        word_end(s, i) - i == word_end(t, j) - j,
    decreases s.len() - i,
{
    alike_on(s, t, i, j, 0);
    if i < s.len() {
        alike_on(s, t, i, j, 1);
        word_end_alike(s, t, i + 1, j + 1);
    }
}

proof fn ident_end_alike(s: Seq<char>, t: Seq<char>, i: int, j: int)
    requires
        alike(s, t, i, j),
    ensures
        ident_end(s, i) - i == ident_end(t, j) - j,
    decreases s.len() - i,
{
    alike_on(s, t, i, j, 0);
    if i < s.len() {
        alike_on(s, t, i, j, 1);
        ident_end_alike(s, t, i + 1, j + 1);
    }
}

proof fn quote_end_alike(s: Seq<char>, t: Seq<char>, i: int, j: int)
    requires
        alike(s, t, i, j),
    ensures
        quote_end(s, i) - i == quote_end(t, j) - j,
    decreases s.len() - i,
{
    alike_on(s, t, i, j, 0);
    if i < s.len() {
        alike_on(s, t, i, j, 1);
        quote_end_alike(s, t, i + 1, j + 1);
        if i + 1 < s.len() {
            alike_on(s, t, i, j, 2);
            quote_end_alike(s, t, i + 2, j + 2);
        }
    }
}

proof fn closing_paren_alike(
    s: Seq<char>,
    t: Seq<char>,
    i: int,
    j: int,
    depth: int,
    quoted: bool,
)
    requires
        alike(s, t, i, j),
    ensures
        closing_paren(s, i, depth, quoted) - i == closing_paren(t, j, depth, quoted) - j,
    decreases s.len() - i,
{
    alike_on(s, t, i, j, 0);
    if i < s.len() {
        alike_on(s, t, i, j, 1);
        if quoted && s[i] == '\\' && i + 1 < s.len() {
            alike_on(s, t, i, j, 2);
            closing_paren_alike(s, t, i + 2, j + 2, depth, true);
        } else if quoted {
            closing_paren_alike(s, t, i + 1, j + 1, depth, s[i] != '"');
        } else if s[i] == '"' {
            closing_paren_alike(s, t, i + 1, j + 1, depth, true);
        } else if s[i] == '(' {
            closing_paren_alike(s, t, i + 1, j + 1, depth + 1, false);
        } else if s[i] == ')' {
            if depth > 1 {
                closing_paren_alike(s, t, i + 1, j + 1, depth - 1, false);
            }
        } else {
            closing_paren_alike(s, t, i + 1, j + 1, depth, false);
        }
    }
}

proof fn token_end_alike(s: Seq<char>, t: Seq<char>, i: int, j: int)
    requires
        alike(s, t, i, j),
    ensures
        token_end(s, i) - i == token_end(t, j) - j,
        i <= token_end(s, i) <= s.len(),
{
    alike_on(s, t, i, j, 0);
    word_end_alike(s, t, i, j);
    word_end_bound(s, i);
    if i < s.len() {
        alike_on(s, t, i, j, 1);
        quote_end_alike(s, t, i + 1, j + 1);
        quote_end_bound(s, i + 1);
    }
}

proof fn tokens_alike(s: Seq<char>, t: Seq<char>, i: int, j: int)
    requires
        alike(s, t, i, j),
    ensures
        tokens_from(s, i) == tokens_from(t, j),
    decreases s.len() - i,
{
    alike_on(s, t, i, j, 0);
    space_end_alike(s, t, i, j);
    space_end_bound(s, i);
    let a = space_end(s, i);
    let c = space_end(t, j);
    alike_on(s, t, i, j, a - i);
    token_end_alike(s, t, a, c);
    let b = token_end(s, a);
    let d = token_end(t, c);
    alike_on(s, t, a, c, b - a);
    if a < b {
        tokens_alike(s, t, b, d);
    }
}

proof fn statements_alike(s: Seq<char>, t: Seq<char>, i: int, j: int)
    requires
        alike(s, t, i, j),
    ensures
        statements_from(s, i) == statements_from(t, j),
    decreases s.len() - i,
{
    alike_on(s, t, i, j, 0);
    space_end_alike(s, t, i, j);
    space_end_bound(s, i);
    let name = space_end(s, i);
    let d = j - i;
    alike_on(s, t, i, j, name - i);
    ident_end_alike(s, t, name, name + d);
    if name < s.len() {
        ident_end_bound(s, name);
        let name_end = ident_end(s, name);
        alike_on(s, t, name, name + d, name_end - name);
        space_end_alike(s, t, name_end, name_end + d);
        space_end_bound(s, name_end);
        let open = space_end(s, name_end);
        alike_on(s, t, name_end, name_end + d, open - name_end);
        if name_end <= name {
            alike_on(s, t, name, name + d, 1);
            statements_alike(s, t, name + 1, name + 1 + d);
        } else if !(open < s.len() && s[open] == '(') {
            statements_alike(s, t, open, open + d);
        } else {
            alike_on(s, t, open, open + d, 1);
            closing_paren_alike(s, t, open + 1, open + 1 + d, 1, false);
            closing_paren_bound(s, open + 1, 1, false);
            let close = closing_paren(s, open + 1, 1, false);
            alike_on(s, t, open + 1, open + 1 + d, close - open - 1);
            if close < s.len() {
                alike_on(s, t, close, close + d, 1);
                statements_alike(s, t, close + 1, close + 1 + d);
            } else {
                statements_alike(s, t, close, close + d);
            }
        }
    }
}

proof fn spaces_end(s: Seq<char>, i: int, k: int)
    requires
        0 <= i <= k <= s.len(),
        forall|j: int| i <= j < k ==> ascii_space(#[trigger] s[j]),
        k < s.len() ==> !ascii_space(s[k]),
    ensures
        space_end(s, i) == k,
    decreases k - i,
{
    if i < k {
        assert(ascii_space(s[i]));
        spaces_end(s, i + 1, k);
    }
}

proof fn word_ends(s: Seq<char>, i: int, k: int)
    requires
        0 <= i <= k <= s.len(),
        forall|j: int| i <= j < k ==> !ascii_space(#[trigger] s[j]),
        k < s.len() ==> ascii_space(s[k]),
    ensures
        word_end(s, i) == k,
    decreases k - i,
{
    if i < k {
        assert(!ascii_space(s[i]));
        word_ends(s, i + 1, k);
    }
}

proof fn name_ends(s: Seq<char>, i: int, k: int)
    requires
        0 <= i <= k < s.len(),
        forall|j: int| i <= j < k ==> ident_char(#[trigger] s[j]),
        !ident_char(s[k]),
    ensures
        ident_end(s, i) == k,
    decreases k - i,
{
    if i < k {
        assert(ident_char(s[i]));
        name_ends(s, i + 1, k);
    }
}

proof fn quote_ends(s: Seq<char>, i: int, k: int)
    requires
        0 <= i <= k < s.len(),
        forall|j: int| i <= j < k ==> #[trigger] s[j] != '"' && s[j] != '\\',
        s[k] == '"',
    ensures
        quote_end(s, i) == k + 1,
    decreases k - i,
{
    if i < k {
        assert(s[i] != '"');
        quote_ends(s, i + 1, k);
    }
}

proof fn paren_closes(s: Seq<char>, i: int, k: int)
    requires
        0 <= i <= k < s.len(),
        forall|j: int| i <= j < k ==> #[trigger] s[j] != '"' && s[j] != '(' && s[j] != ')',
        s[k] == ')',
    ensures
        closing_paren(s, i, 1, false) == k,
    decreases k - i,
{
    if i < k {
        assert(s[i] != '"');
        paren_closes(s, i + 1, k);
    }
}

// ---------------------------------------------------------------------------
// Comments
// ---------------------------------------------------------------------------

proof fn plain_text_stays(s: Seq<char>, i: int, k: int)
    requires
        0 <= i <= k <= s.len(),
        forall|j: int| i <= j < k ==> #[trigger] s[j] != '#' && s[j] != '"',
    ensures
        uncommented(s, i, false) == s.subrange(i, k) + uncommented(s, k, false),
    decreases k - i,
{
    if i < k {
        plain_text_stays(s, i + 1, k);
        assert(s[i] != '#');
        assert(seq![s[i]] + s.subrange(i + 1, k) =~= s.subrange(i, k));
        assert(uncommented(s, i, false) =~= s.subrange(i, k) + uncommented(s, k, false));
    } else {
        assert(s.subrange(i, k) + uncommented(s, k, false) =~= uncommented(s, k, false));
    }
}

proof fn line_ends(s: Seq<char>, i: int, k: int)
    requires
        0 <= i <= k <= s.len(),
        forall|j: int| i <= j < k ==> #[trigger] s[j] != '\n',
        k < s.len() ==> s[k] == '\n',
    ensures
        line_end(s, i) == k,
    decreases k - i,
{
    if i < k {
        assert(s[i] != '\n');
        line_ends(s, i + 1, k);
    }
}

/// A comment goes up to the end of its line, which stays; what stands before it
/// and on the following lines is kept.
pub proof fn comments_are_dropped(before: Seq<char>, comment: Seq<char>, rest: Seq<char>)
    requires
        !before.contains('#'),
        !before.contains('"'),
        !comment.contains('\n'),
    ensures
        uncommented(before + "#"@ + comment + "\n"@ + rest, 0, false) == before + "\n"@
            + uncommented(rest, 0, false),
        uncommented(before + "#"@ + comment, 0, false) == before,
        uncommented(before, 0, false) == before,
{
    reveal_strlit("#");
    reveal_strlit("\n");
    let s = before + "#"@ + comment + "\n"@ + rest;
    let t = before + "#"@ + comment;
    let k = before.len() as int;
    let e = k + 1 + comment.len();
    assert forall|j: int| 0 <= j < k implies #[trigger] s[j] != '#' && s[j] != '"' by {
        assert(before.contains(before[j]));
    }
    assert forall|j: int| 0 <= j < k implies #[trigger] t[j] != '#' && t[j] != '"' by {
        assert(before.contains(before[j]));
    }
    assert forall|j: int| 0 <= j < k implies #[trigger] before[j] != '#' && before[j] != '"' by {
        assert(before.contains(before[j]));
    }
    plain_text_stays(s, 0, k);
    plain_text_stays(t, 0, k);
    plain_text_stays(before, 0, k);
    assert forall|j: int| k + 1 <= j < e implies #[trigger] s[j] != '\n' by {
        assert(comment.contains(comment[j - k - 1]));
        assert(s[j] == comment[j - k - 1]);
    }
    assert forall|j: int| k + 1 <= j < e implies #[trigger] t[j] != '\n' by {
        assert(comment.contains(comment[j - k - 1]));
        assert(t[j] == comment[j - k - 1]);
    }
    line_ends(s, k + 1, e);
    line_ends(t, k + 1, e);
    assert(s[k] == '#');
    assert(t[k] == '#');
    assert(s[e] == '\n');
    assert(s.skip(e + 1) =~= rest);
    assert(rest.skip(0) =~= rest);
    uncommented_shift(s, rest, e + 1, 0, false);
    assert(uncommented(s, k, false) == uncommented(s, e, false));
    assert(uncommented(s, e, false) == seq!['\n'] + uncommented(s, e + 1, false));
    assert(s.subrange(0, k) =~= before);
    assert(t.subrange(0, k) =~= before);
    assert(before.subrange(0, k) =~= before);
    assert(uncommented(t, e, false) =~= seq![]);
    assert(uncommented(before, k, false) =~= seq![]);
    assert("\n"@ =~= seq!['\n']);
    assert(before + (seq!['\n'] + uncommented(rest, 0, false)) =~= before + "\n"@ + uncommented(
        rest,
        0,
        false,
    ));
}

proof fn quoted_text_stays(s: Seq<char>, i: int, k: int)
    requires
        0 <= i <= k < s.len(),
        forall|j: int| i <= j < k ==> #[trigger] s[j] != '"' && s[j] != '\\',
        s[k] == '"',
    ensures
        uncommented(s, i, true) == s.subrange(i, k + 1) + uncommented(s, k + 1, false),
    decreases k - i,
{
    if i < k {
        assert(s[i] != '"');
        quoted_text_stays(s, i + 1, k);
        assert(uncommented(s, i, true) =~= s.subrange(i, k + 1) + uncommented(s, k + 1, false));
    } else {
        assert(uncommented(s, i, true) =~= s.subrange(i, k + 1) + uncommented(s, k + 1, false));
    }
}

/// A hash sign in quotes starts no comment: a quoted text stays as it is.
pub proof fn quoted_hashes_stay(before: Seq<char>, quoted: Seq<char>, rest: Seq<char>)
    requires
        !before.contains('#'),
        !before.contains('"'),
        !quoted.contains('"'),
        !quoted.contains('\\'),
    ensures
        uncommented(before + "\""@ + quoted + "\""@ + rest, 0, false) == before + "\""@ + quoted
            + "\""@ + uncommented(rest, 0, false),
{
    reveal_strlit("\"");
    let s = before + "\""@ + quoted + "\""@ + rest;
    let k = before.len() as int;
    let e = k + 1 + quoted.len();
    assert forall|j: int| 0 <= j < k implies #[trigger] s[j] != '#' && s[j] != '"' by {
        assert(before.contains(before[j]));
    }
    plain_text_stays(s, 0, k);
    assert forall|j: int| k + 1 <= j < e implies #[trigger] s[j] != '"' && s[j] != '\\' by {
        assert(quoted.contains(quoted[j - k - 1]));
        assert(s[j] == quoted[j - k - 1]);
    }
    assert(s[k] == '"' && s[e] == '"');
    quoted_text_stays(s, k + 1, e);
    assert(s.skip(e + 1) =~= rest);
    assert(rest.skip(0) =~= rest);
    uncommented_shift(s, rest, e + 1, 0, false);
    assert(uncommented(s, k, false) == seq!['"'] + uncommented(s, k + 1, true));
    assert(s.subrange(0, k) + (seq!['"'] + (s.subrange(k + 1, e + 1) + uncommented(rest, 0, false)))
        =~= before + "\""@ + quoted + "\""@ + uncommented(rest, 0, false));
}

// ---------------------------------------------------------------------------
// Commands and arguments
// ---------------------------------------------------------------------------

/// A command is read with its name and its arguments, with blanks before the
/// name and before the bracket or not; the rest of the script follows.
pub proof fn commands_are_read(
    space: Seq<char>,
    name: Seq<char>,
    gap: Seq<char>,
    args: Seq<char>,
    rest: Seq<char>,
)
    requires
        spacing(space),
        name.len() > 0,
        all_ident(name),
        spacing(gap),
        !args.contains('"'),
        !args.contains('('),
        !args.contains(')'),
    ensures
        statements_from(space + name + gap + "("@ + args + ")"@ + rest, 0) == seq![
            StatementView { command: name, args: tokens_from(args, 0) },
        ] + statements_from(rest, 0),
        statements_from(space, 0) == Seq::<StatementView>::empty(),
{
    reveal_strlit("(");
    reveal_strlit(")");
    let s = space + name + gap + "("@ + args + ")"@ + rest;
    let a = space.len() as int;
    let b = a + name.len();
    let c = b + gap.len();
    let d = c + 1 + args.len();
    assert forall|j: int| 0 <= j < a implies ascii_space(#[trigger] s[j]) by {
        assert(s[j] == space[j]);
    }
    assert(s[a] == name[0]);
    assert(ident_char(name[0]));
    spaces_end(s, 0, a);
    assert forall|j: int| a <= j < b implies ident_char(#[trigger] s[j]) by {
        assert(s[j] == name[j - a]);
    }
    assert(!ident_char(s[b])) by {
        if gap.len() > 0 {
            assert(s[b] == gap[0]);
        } else {
            assert(s[b] == '(');
        }
    }
    name_ends(s, a, b);
    assert forall|j: int| b <= j < c implies ascii_space(#[trigger] s[j]) by {
        assert(s[j] == gap[j - b]);
    }
    assert(s[c] == '(');
    spaces_end(s, b, c);
    assert forall|j: int| c + 1 <= j < d implies #[trigger] s[j] != '"' && s[j] != '(' && s[j]
        != ')' by {
        assert(s[j] == args[j - c - 1]);
        assert(args.contains(args[j - c - 1]));
    }
    assert(s[d] == ')');
    paren_closes(s, c + 1, d);
    assert(s.subrange(a, b) =~= name);
    assert(s.subrange(c + 1, d) =~= args);
    assert(s.skip(d + 1) =~= rest);
    assert(rest.skip(0) =~= rest);
    statements_alike(s, rest, d + 1, 0);
    assert forall|j: int| 0 <= j < a implies ascii_space(#[trigger] space[j]) by {}
    spaces_end(space, 0, a);
}

/// Arguments are separated by blanks; one in quotes goes up to the closing quote
/// and keeps its quotes and its blanks.
pub proof fn arguments_are_separated(
    space: Seq<char>,
    word: Seq<char>,
    quoted: Seq<char>,
    rest: Seq<char>,
)
    requires
        spacing(space),
        solid(word),
        word.len() > 0,
        word[0] != '"',
        !quoted.contains('"'),
        !quoted.contains('\\'),
    ensures
        (rest.len() > 0 ==> ascii_space(rest[0])) ==> tokens_from(space + word + rest, 0) == seq![
            word,
        ] + tokens_from(rest, 0),
        tokens_from(space + ("\""@ + quoted + "\""@) + rest, 0) == seq![
            "\""@ + quoted + "\""@,
        ] + tokens_from(rest, 0),
        tokens_from(space, 0) == Seq::<Seq<char>>::empty(),
{
    reveal_strlit("\"");
    let a = space.len() as int;
    assert(rest.skip(0) =~= rest);
    if rest.len() > 0 ==> ascii_space(rest[0]) {
        let s = space + word + rest;
        let b = a + word.len();
        assert forall|j: int| 0 <= j < a implies ascii_space(#[trigger] s[j]) by {
            assert(s[j] == space[j]);
        }
        assert(s[a] == word[0]);
        spaces_end(s, 0, a);
        assert forall|j: int| a <= j < b implies !ascii_space(#[trigger] s[j]) by {
            assert(s[j] == word[j - a]);
        }
        if b < s.len() {
            assert(s[b] == rest[0]);
        }
        word_ends(s, a, b);
        assert(s.subrange(a, b) =~= word);
        assert(s.skip(b) =~= rest);
        tokens_alike(s, rest, b, 0);
    }
    let mark = "\""@ + quoted + "\""@;
    let s = space + mark + rest;
    let b = a + mark.len();
    assert forall|j: int| 0 <= j < a implies ascii_space(#[trigger] s[j]) by {
        assert(s[j] == space[j]);
    }
    assert(s[a] == '"');
    spaces_end(s, 0, a);
    assert forall|j: int| a + 1 <= j < b - 1 implies #[trigger] s[j] != '"' && s[j] != '\\' by {
        assert(s[j] == quoted[j - a - 1]);
        assert(quoted.contains(quoted[j - a - 1]));
    }
    assert(s[b - 1] == '"');
    quote_ends(s, a + 1, b - 1);
    assert(s.subrange(a, b) =~= mark);
    assert(s.skip(b) =~= rest);
    tokens_alike(s, rest, b, 0);
    spaces_end(space, 0, a);
}

proof fn nothing_is_unescaped(s: Seq<char>, i: int)
    requires
        !s.contains('\\'),
        0 <= i <= s.len(),
    ensures
        unescaped(s, i) == s.skip(i),
    decreases s.len() - i,
{
    if i < s.len() {
        assert(s.contains(s[i]));
        nothing_is_unescaped(s, i + 1);
        assert(seq![s[i]] + s.skip(i + 1) =~= s.skip(i));
    } else {
        assert(s.skip(i) =~= seq![]);
    }
}

proof fn unescaped_alike(s: Seq<char>, t: Seq<char>, i: int, j: int)
    requires
        alike(s, t, i, j),
    ensures
        unescaped(s, i) == unescaped(t, j),
    decreases s.len() - i,
{
    alike_on(s, t, i, j, 0);
    if i < s.len() {
        alike_on(s, t, i, j, 1);
        unescaped_alike(s, t, i + 1, j + 1);
        if i + 1 < s.len() {
            alike_on(s, t, i, j, 2);
            unescaped_alike(s, t, i + 2, j + 2);
        }
    }
}

/// The text of an argument is what stands between its quotes, with the character
/// behind each backslash taken as it is; an argument without quotes is its own
/// text.
pub proof fn quotes_are_taken_off(text: Seq<char>, c: char, rest: Seq<char>)
    requires
        !text.contains('\\'),
    ensures
        arg_text_of("\""@ + text + "\""@) == text,
        text.len() > 0 && text[0] != '"' ==> arg_text_of(text) == text,
        unescaped(text + "\\"@ + seq![c] + rest, 0) == text + seq![c] + unescaped(rest, 0),
{
    reveal_strlit("\"");
    reveal_strlit("\\");
    let arg = "\""@ + text + "\""@;
    assert(arg[0] == '"' && arg.last() == '"');
    assert(arg.subrange(1, arg.len() - 1) =~= text);
    nothing_is_unescaped(text, 0);
    assert(text.skip(0) =~= text);
    escape_stands(text, c, rest);
}

proof fn escape_stands(text: Seq<char>, c: char, rest: Seq<char>)
    requires
        !text.contains('\\'),
    ensures
        unescaped(text + "\\"@ + seq![c] + rest, 0) == text + seq![c] + unescaped(rest, 0),
    decreases text.len(),
{
    reveal_strlit("\\");
    let s = text + "\\"@ + seq![c] + rest;
    if text.len() == 0 {
        assert(s[0] == '\\' && s[1] == c);
        assert(s.skip(2) =~= rest);
        assert(rest.skip(0) =~= rest);
        unescaped_alike(s, rest, 2, 0);
        assert(seq![c] + unescaped(rest, 0) =~= text + seq![c] + unescaped(rest, 0));
    } else {
        let less = text.skip(1);
        let t = less + "\\"@ + seq![c] + rest;
        assert(text.contains(text[0]));
        assert(!less.contains('\\')) by {
            if less.contains('\\') {
                let i = choose|i: int| 0 <= i < less.len() && less[i] == '\\';
                assert(text[i + 1] == '\\');
            }
        }
        escape_stands(less, c, rest);
        assert(s.skip(1) =~= t);
        assert(t.skip(0) =~= t);
        unescaped_alike(s, t, 1, 0);
        assert(s[0] == text[0]);
        assert(seq![text[0]] + (less + seq![c] + unescaped(rest, 0)) =~= text + seq![c]
            + unescaped(rest, 0));
    }
}

/// A script without comments and quotes is read as it stands.
pub proof fn plain_scripts_are_read_as_they_stand(text: Seq<char>)
    requires
        !text.contains('#'),
        !text.contains('"'),
    ensures
        statements_of(text) == statements_from(text, 0),
{
    comments_are_dropped(text, seq![], seq![]);
}

} // verus!
