//! What the operations on texts give back.
use crate::text::{
    after_prefix, all_digits, ascii_space, before_suffix, char_from, char_from_facts, cut_at,
    decimal_of, digit_char, digits_value, find_from, find_from_facts, has_part, ident_char, joined,
    lines_of, occurs_at, part_count, pieces, replaced, space_end, space_end_bound, spells_i64,
    trim_end_of, trim_start_of, trimmed, u32_of, white_space, without_cr, without_newlines,
    word_end, word_end_bound, words_from,
};
use vstd::prelude::*;

verus! {

// ---------------------------------------------------------------------------
// Ends
// ---------------------------------------------------------------------------

/// What follows a prefix is found again, and nothing is found without it.
pub proof fn prefix_is_taken_off(prefix: Seq<char>, s: Seq<char>)
    ensures
        after_prefix(prefix + s, prefix) == Some(s),
        forall|t: Seq<char>|
            #[trigger] after_prefix(t, prefix) matches Some(rest) ==> prefix + rest == t,
{
    assert((prefix + s).subrange(0, prefix.len() as int) =~= prefix);
    assert((prefix + s).skip(prefix.len() as int) =~= s);
    assert forall|t: Seq<char>|
        #[trigger] after_prefix(t, prefix) matches Some(rest) ==> prefix + rest == t by {
        if after_prefix(t, prefix) is Some {
            assert(prefix + t.skip(prefix.len() as int) =~= t);
        }
    }
}

/// What comes before a suffix is found again.
pub proof fn suffix_is_taken_off(s: Seq<char>, suffix: Seq<char>)
    ensures
        before_suffix(s + suffix, suffix) == Some(s),
        forall|t: Seq<char>|
            #[trigger] before_suffix(t, suffix) matches Some(rest) ==> rest + suffix == t,
{
    let all = s + suffix;
    assert(all.subrange(s.len() as int, all.len() as int) =~= suffix);
    assert(all.take(s.len() as int) =~= s);
    assert forall|t: Seq<char>|
        #[trigger] before_suffix(t, suffix) matches Some(rest) ==> rest + suffix == t by {
        if before_suffix(t, suffix) is Some {
            assert(t.take(t.len() - suffix.len()) + suffix =~= t);
        }
    }
}

/// All characters are white space.
pub open spec fn blank(s: Seq<char>) -> bool {
    forall|i: int| 0 <= i < s.len() ==> white_space(#[trigger] s[i])
}

/// The text does not start or end with white space.
pub open spec fn tight(s: Seq<char>) -> bool {
    s.len() > 0 ==> !white_space(s[0]) && !white_space(s.last())
}

/// A text that is tight is left alone by trimming.
pub proof fn tight_is_trimmed(s: Seq<char>)
    requires
        tight(s),
    ensures
        trimmed(s) == s,
        trim_start_of(s) == s,
        trim_end_of(s) == s,
{
}

/// Blanks in front of a text do not change what is left of it without them.
pub proof fn start_without_blank(a: Seq<char>, s: Seq<char>)
    requires
        blank(a),
    ensures
        trim_start_of(a + s) == trim_start_of(s),
    decreases a.len(),
{
    if a.len() == 0 {
        assert(a + s =~= s);
    } else {
        assert((a + s)[0] == a[0]);
        assert((a + s).skip(1) =~= a.skip(1) + s);
        assert forall|i: int| 0 <= i < a.skip(1).len() implies white_space(
            #[trigger] a.skip(1)[i],
        ) by {
            assert(white_space(a[i + 1]));
        }
        start_without_blank(a.skip(1), s);
    }
}

proof fn end_without_blank(s: Seq<char>, b: Seq<char>)
    requires
        blank(b),
    ensures
        trim_end_of(s + b) == trim_end_of(s),
    decreases b.len(),
{
    if b.len() == 0 {
        assert(s + b =~= s);
    } else {
        assert((s + b).last() == b[b.len() - 1]);
        assert((s + b).drop_last() =~= s + b.drop_last());
        assert forall|i: int| 0 <= i < b.drop_last().len() implies white_space(
            #[trigger] b.drop_last()[i],
        ) by {
            assert(white_space(b[i]));
        }
        end_without_blank(s, b.drop_last());
    }
}

/// Trimming takes the white space off both ends and nothing else.
pub proof fn trimming_takes_blanks_off(a: Seq<char>, s: Seq<char>, b: Seq<char>)
    requires
        blank(a),
        blank(b),
        tight(s),
    ensures
        trimmed(a + s + b) == s,
{
    start_without_blank(a, s + b);
    assert(a + s + b =~= a + (s + b));
    if s.len() == 0 {
        assert(s + b =~= b);
        start_without_blank(b, Seq::empty());
        assert(b + Seq::empty() =~= b);
        assert(trim_start_of(b) =~= s);
    } else {
        assert((s + b)[0] == s[0]);
        end_without_blank(s, b);
    }
}

proof fn start_leaves(s: Seq<char>) -> (k: int)
    ensures
        0 <= k <= s.len(),
        trim_start_of(s) == s.skip(k),
        blank(s.take(k)),
        k < s.len() ==> !white_space(s[k]),
    decreases s.len(),
{
    if s.len() > 0 && white_space(s[0]) {
        let k = start_leaves(s.skip(1));
        assert(s.skip(1).skip(k) =~= s.skip(k + 1));
        assert forall|i: int| 0 <= i < s.take(k + 1).len() implies white_space(
            #[trigger] s.take(k + 1)[i],
        ) by {
            if i > 0 {
                assert(white_space(s.skip(1).take(k)[i - 1]));
            }
        }
        k + 1
    } else {
        assert(s.skip(0) =~= s);
        0
    }
}

proof fn end_leaves(s: Seq<char>) -> (k: int)
    ensures
        0 <= k <= s.len(),
        trim_end_of(s) == s.take(k),
        blank(s.skip(k)),
        k > 0 ==> !white_space(s[k - 1]),
    decreases s.len(),
{
    if s.len() > 0 && white_space(s.last()) {
        let k = end_leaves(s.drop_last());
        assert(s.drop_last().take(k) =~= s.take(k));
        assert forall|i: int| 0 <= i < s.skip(k).len() implies white_space(
            #[trigger] s.skip(k)[i],
        ) by {
            if i < s.skip(k).len() - 1 {
                assert(white_space(s.drop_last().skip(k)[i]));
            }
        }
        k
    } else {
        assert(s.take(s.len() as int) =~= s);
        s.len() as int
    }
}

/// A text is its trimmed part between two blank ends.
pub proof fn trimming_leaves_the_middle(s: Seq<char>)
    ensures
        tight(trimmed(s)),
        exists|a: Seq<char>, b: Seq<char>|
            blank(a) && blank(b) && #[trigger] (a + trimmed(s) + b) == s,
        trimmed(s).len() == 0 <==> blank(s),
{
    let i = start_leaves(s);
    let t = s.skip(i);
    let j = end_leaves(t);
    let a = s.take(i);
    let b = t.skip(j);
    assert(a + t.take(j) + b =~= s);
    if t.take(j).len() > 0 {
        assert(t.take(j)[0] == s[i]);
        assert(t.take(j).last() == t[j - 1]);
    }
    if trimmed(s).len() == 0 {
        assert forall|k: int| 0 <= k < s.len() implies white_space(#[trigger] s[k]) by {
            if k < i {
                assert(white_space(a[k]));
            } else {
                assert(white_space(b[k - i]));
            }
        }
    }
    if blank(s) && i < s.len() {
        assert(white_space(s[i]));
    }
}

/// Only line feeds are taken off the end, and all of them.
pub proof fn line_feeds_are_taken_off(s: Seq<char>)
    ensures
        without_newlines(s).is_prefix_of(s),
        without_newlines(s).len() > 0 ==> without_newlines(s).last() != '\n',
        forall|i: int| without_newlines(s).len() <= i < s.len() ==> #[trigger] s[i] == '\n',
    decreases s.len(),
{
    if s.len() > 0 && s.last() == '\n' {
        let rest = s.drop_last();
        line_feeds_are_taken_off(rest);
        let k = without_newlines(s).len() as int;
        assert(s.subrange(0, k) =~= rest.subrange(0, k));
        assert forall|i: int| k <= i < s.len() implies #[trigger] s[i] == '\n' by {
            if i < rest.len() {
                assert(rest[i] == '\n');
            }
        }
    } else {
        assert(s.subrange(0, s.len() as int) =~= s);
    }
}

// ---------------------------------------------------------------------------
// Cutting
// ---------------------------------------------------------------------------

proof fn char_from_at(a: Seq<char>, c: char, b: Seq<char>, i: int)
    requires
        0 <= i <= a.len(),
        !a.contains(c),
    ensures
        char_from(a + seq![c] + b, c, i) == a.len(),
    decreases a.len() - i,
{
    let s = a + seq![c] + b;
    if i < a.len() {
        assert(s[i] == a[i]);
        assert(a.contains(a[i]));
        char_from_at(a, c, b, i + 1);
    } else {
        assert(s[i] == c);
    }
}

/// A text is cut at the first occurrence of a character, and at nothing else.
pub proof fn cutting_finds_the_first(a: Seq<char>, c: char, b: Seq<char>)
    requires
        !a.contains(c),
    ensures
        cut_at(a + seq![c] + b, c) == Some((a, b)),
        cut_at(a, c) is None,
{
    let s = a + seq![c] + b;
    char_from_at(a, c, b, 0);
    assert(s.take(a.len() as int) =~= a);
    assert(s.skip(a.len() as int + 1) =~= b);
    char_from_facts(a, c, 0);
    let k = char_from(a, c, 0);
    if k < a.len() {
        assert(a.contains(a[k]));
    }
}

/// What was cut in two is put together again by the character between.
pub proof fn cut_parts_make_the_whole(s: Seq<char>, c: char)
    ensures
        match cut_at(s, c) {
            Some((a, b)) => a + seq![c] + b == s && !a.contains(c),
            None => !s.contains(c),
        },
{
    char_from_facts(s, c, 0);
    let k = char_from(s, c, 0);
    if k < s.len() {
        assert(s.take(k) + seq![c] + s.skip(k + 1) =~= s);
        if s.take(k).contains(c) {
            let i = choose|i: int| 0 <= i < k && s.take(k)[i] == c;
            assert(s[i] == c);
        }
    }
}

/// Joining two lists of parts is joining each and putting the separator between.
pub proof fn joining_lists(a: Seq<Seq<char>>, b: Seq<Seq<char>>, sep: Seq<char>)
    requires
        a.len() > 0,
        b.len() > 0,
    ensures
        joined(a + b, sep) == joined(a, sep) + sep + joined(b, sep),
    decreases b.len(),
{
    let all = a + b;
    assert(all.last() == b.last());
    if b.len() == 1 {
        assert(all.drop_last() =~= a);
    } else {
        joining_lists(a, b.drop_last(), sep);
        assert(all.drop_last() =~= a + b.drop_last());
        assert(joined(a, sep) + sep + joined(b.drop_last(), sep) + sep + b.last() =~= joined(a, sep)
            + sep + (joined(b.drop_last(), sep) + sep + b.last()));
    }
}

/// Nothing is joined to nothing, and one part to itself.
pub proof fn joining_few(part: Seq<char>, sep: Seq<char>)
    ensures
        joined(seq![], sep) == Seq::<char>::empty(),
        joined(seq![part], sep) == part,
{
}

/// Every part stands in what the parts are joined to.
pub proof fn joined_has_its_parts(parts: Seq<Seq<char>>, sep: Seq<char>, i: int)
    requires
        0 <= i < parts.len(),
    ensures
        exists|a: Seq<char>, b: Seq<char>| #[trigger] (a + parts[i] + b) == joined(parts, sep),
        has_part(joined(parts, sep), parts[i]),
    decreases parts.len(),
{
    let none = Seq::<char>::empty();
    if parts.len() == 1 {
        assert(none + parts[i] + none =~= joined(parts, sep));
    } else if i == parts.len() - 1 {
        let a = joined(parts.drop_last(), sep) + sep;
        assert(a + parts[i] + none =~= joined(parts, sep));
    } else {
        joined_has_its_parts(parts.drop_last(), sep, i);
        let (a, b) = choose|a: Seq<char>, b: Seq<char>|
            #[trigger] (a + parts.drop_last()[i] + b) == joined(parts.drop_last(), sep);
        assert(a + parts[i] + (b + sep + parts.last()) =~= joined(parts, sep));
    }
    let (a, b) = choose|a: Seq<char>, b: Seq<char>|
        #[trigger] (a + parts[i] + b) == joined(parts, sep);
    parts_are_found(a, parts[i], b);
}

/// A text has every text that stands in it.
pub proof fn parts_are_found(a: Seq<char>, part: Seq<char>, b: Seq<char>)
    ensures
        has_part(a + part + b, part),
{
    let s = a + part + b;
    find_from_facts(s, part, 0);
    assert(s.subrange(a.len() as int, a.len() as int + part.len()) =~= part);
    if find_from(s, part, 0) is None {
        assert(!occurs_at(s, part, a.len() as int));
    }
}

/// A text that has a part holds it between two others.
pub proof fn found_parts_stand_there(s: Seq<char>, part: Seq<char>)
    requires
        has_part(s, part),
    ensures
        exists|a: Seq<char>, b: Seq<char>| #[trigger] (a + part + b) == s,
{
    find_from_facts(s, part, 0);
    let k = find_from(s, part, 0)->0;
    assert(s.take(k) + part + s.skip(k + part.len()) =~= s);
}

/// The parts between the separators hold none of them, and joined by them they
/// are the text again.
pub proof fn splitting_and_joining(s: Seq<char>, c: char)
    ensures
        pieces(s, c).len() > 0,
        joined(pieces(s, c), seq![c]) == s,
        forall|i: int| 0 <= i < pieces(s, c).len() ==> !(#[trigger] pieces(s, c)[i]).contains(c),
    decreases s.len(),
{
    char_from_facts(s, c, 0);
    let k = char_from(s, c, 0);
    let all = pieces(s, c);
    if k < s.len() {
        let rest = s.skip(k + 1);
        let first = s.take(k);
        splitting_and_joining(rest, c);
        joining_lists(seq![first], pieces(rest, c), seq![c]);
        assert(first + seq![c] + rest =~= s);
        assert forall|i: int| 0 <= i < all.len() implies !(#[trigger] all[i]).contains(c) by {
            if i == 0 {
                if first.contains(c) {
                    let j = choose|j: int| 0 <= j < first.len() && first[j] == c;
                    assert(s[j] == c);
                }
            } else {
                assert(all[i] == pieces(rest, c)[i - 1]);
            }
        }
    } else if s.contains(c) {
        let j = choose|j: int| 0 <= j < s.len() && s[j] == c;
        assert(s[j] != c);
    }
}

/// Each line feed ends a line, without a carriage return before it; what follows
/// the last one is a line unless it is empty.
pub proof fn lines_end_at_line_feeds(a: Seq<char>, b: Seq<char>)
    requires
        !a.contains('\n'),
    ensures
        lines_of(a + seq!['\n'] + b) == seq![without_cr(a)] + lines_of(b),
        lines_of(a) == (if a.len() > 0 {
            seq![a]
        } else {
            seq![]
        }),
        without_cr(a.push('\r')) == a,
        a.len() > 0 && a.last() != '\r' ==> without_cr(a) == a,
{
    let s = a + seq!['\n'] + b;
    char_from_at(a, '\n', b, 0);
    assert(s.take(a.len() as int) =~= a);
    assert(s.skip(a.len() as int + 1) =~= b);
    char_from_facts(a, '\n', 0);
    let k = char_from(a, '\n', 0);
    if k < a.len() {
        assert(a.contains(a[k]));
    }
    assert(a.push('\r').drop_last() =~= a);
}

// ---------------------------------------------------------------------------
// Words
// ---------------------------------------------------------------------------

/// No character is ASCII white space.
pub open spec fn solid(s: Seq<char>) -> bool {
    forall|i: int| 0 <= i < s.len() ==> !ascii_space(#[trigger] s[i])
}

/// All characters are ASCII white space.
pub open spec fn spacing(s: Seq<char>) -> bool {
    forall|i: int| 0 <= i < s.len() ==> ascii_space(#[trigger] s[i])
}

proof fn space_end_is(s: Seq<char>, i: int, k: int)
    requires
        0 <= i <= k <= s.len(),
        forall|j: int| i <= j < k ==> ascii_space(#[trigger] s[j]),
        k < s.len() ==> !ascii_space(s[k]),
    ensures
        space_end(s, i) == k,
    decreases k - i,
{
    if i < k {
        assert(ascii_space(s[i]));
        space_end_is(s, i + 1, k);
    }
}

proof fn word_end_is(s: Seq<char>, i: int, k: int)
    requires
        0 <= i <= k <= s.len(),
        forall|j: int| i <= j < k ==> !ascii_space(#[trigger] s[j]),
        k < s.len() ==> ascii_space(s[k]),
    ensures
        word_end(s, i) == k,
    decreases k - i,
{
    if i < k {
        assert(!ascii_space(s[i]));
        word_end_is(s, i + 1, k);
    }
}

proof fn words_shift(s: Seq<char>, i: int)
    requires
        0 <= i <= s.len(),
    ensures
        words_from(s, i) == words_from(s.skip(i), 0),
    decreases s.len() - i,
{
    let t = s.skip(i);
    let a = space_end(s, i);
    space_end_bound(s, i);
    space_end_facts(s, i);
    space_end_is(t, 0, a - i);
    let b = word_end(s, a);
    word_end_bound(s, a);
    word_end_facts(s, a);
    word_end_is(t, a - i, b - i);
    if a < b {
        words_shift(s, b);
        words_shift(t, b - i);
        assert(t.skip(b - i) =~= s.skip(b));
        assert(t.subrange(a - i, b - i) =~= s.subrange(a, b));
    }
}

proof fn space_end_facts(s: Seq<char>, i: int)
    requires
        0 <= i <= s.len(),
    ensures
        forall|j: int| i <= j < space_end(s, i) ==> ascii_space(#[trigger] s[j]),
    decreases s.len() - i,
{
    if i < s.len() && ascii_space(s[i]) {
        space_end_facts(s, i + 1);
    }
}

proof fn word_end_facts(s: Seq<char>, i: int)
    requires
        0 <= i <= s.len(),
    ensures
        forall|j: int| i <= j < word_end(s, i) ==> !ascii_space(#[trigger] s[j]),
        word_end(s, i) < s.len() ==> ascii_space(s[word_end(s, i)]),
    decreases s.len() - i,
{
    if i < s.len() && !ascii_space(s[i]) {
        word_end_facts(s, i + 1);
    }
}

/// White space is followed by the words of what is behind it; a word that white
/// space or nothing follows is the first word, before the words of the rest.
pub proof fn words_are_split_off(space: Seq<char>, word: Seq<char>, rest: Seq<char>)
    requires
        spacing(space),
        solid(word),
        word.len() > 0,
        rest.len() > 0 ==> ascii_space(rest[0]),
    ensures
        words_from(space + word + rest, 0) == seq![word] + words_from(rest, 0),
        words_from(space, 0) == Seq::<Seq<char>>::empty(),
{
    let s = space + word + rest;
    let a = space.len() as int;
    let b = a + word.len();
    assert(s[a] == word[0]);
    assert forall|j: int| 0 <= j < a implies ascii_space(#[trigger] s[j]) by {
        assert(s[j] == space[j]);
    }
    space_end_is(s, 0, a);
    assert forall|j: int| a <= j < b implies !ascii_space(#[trigger] s[j]) by {
        assert(s[j] == word[j - a]);
    }
    if b < s.len() {
        assert(s[b] == rest[0]);
    }
    word_end_is(s, a, b);
    assert(s.subrange(a, b) =~= word);
    words_shift(s, b);
    assert(s.skip(b) =~= rest);
    space_end_is(space, 0, a);
    word_end_is(space, a, a);
}

// ---------------------------------------------------------------------------
// Replacing
// ---------------------------------------------------------------------------

/// A text without the part is left alone; otherwise the first occurrence is
/// replaced, and then the rest.
pub proof fn first_occurrence_is_replaced(
    a: Seq<char>,
    from: Seq<char>,
    b: Seq<char>,
    to: Seq<char>,
)
    requires
        from.len() > 0,
        forall|i: int| 0 <= i < a.len() ==> !#[trigger] occurs_at(a + from + b, from, i),
    ensures
        replaced(a + from + b, from, to) == a + to + replaced(b, from, to),
{
    let s = a + from + b;
    find_from_facts(s, from, 0);
    assert(s.subrange(a.len() as int, a.len() as int + from.len()) =~= from);
    assert(occurs_at(s, from, a.len() as int));
    let k = find_from(s, from, 0)->0;
    assert(k == a.len());
    assert(s.take(k) =~= a);
    assert(s.skip(k + from.len()) =~= b);
}

/// A text without the part is left alone.
pub proof fn nothing_to_replace(s: Seq<char>, from: Seq<char>, to: Seq<char>)
    requires
        !has_part(s, from),
    ensures
        replaced(s, from, to) == s,
{
}

/// Occurrences are counted one behind the other: the first one is one more than
/// there are behind it, and a text without one counts none.
pub proof fn occurrences_are_counted(a: Seq<char>, part: Seq<char>, b: Seq<char>)
    requires
        part.len() > 0,
        forall|i: int| 0 <= i < a.len() ==> !#[trigger] occurs_at(a + part + b, part, i),
    ensures
        part_count(a + part + b, part) == 1 + part_count(b, part),
        !has_part(b, part) ==> part_count(b, part) == 0,
{
    let s = a + part + b;
    let k = a.len() as int;
    find_from_facts(s, part, 0);
    assert(s.subrange(k, k + part.len()) =~= part);
    assert(occurs_at(s, part, k));
    match find_from(s, part, 0) {
        Some(j) => {
            if j < k {
                assert(!occurs_at(s, part, j));
            }
            assert(j == k);
        },
        None => {},
    }
    assert(s.skip(k + part.len()) =~= b);
}

// ---------------------------------------------------------------------------
// Numbers
// ---------------------------------------------------------------------------

/// The decimal form of a number is made of digits, has that value, and does not
/// start with a zero unless it is one.
pub proof fn decimals_denote_their_number(n: nat)
    ensures
        all_digits(decimal_of(n)),
        digits_value(decimal_of(n)) == n,
        n > 0 ==> decimal_of(n)[0] != '0',
    decreases n,
{
    let s = decimal_of(n);
    if n < 10 {
        assert(s.drop_last() =~= Seq::<char>::empty());
        assert(digits_value(s.drop_last()) == 0);
    } else {
        let rest = decimal_of(n / 10);
        decimals_denote_their_number(n / 10);
        assert(s.drop_last() =~= rest);
        assert(s.last() as int - '0' as int == n % 10);
        assert forall|i: int| 0 <= i < s.len() implies digit_char(#[trigger] s[i]) by {
            if i < rest.len() {
                assert(digit_char(rest[i]));
            }
        }
        assert(rest.len() > 0);
    }
}

/// A number that fits is read from its decimal form.
pub proof fn decimals_are_read(n: u32)
    ensures
        u32_of(decimal_of(n as nat)) == Some(n),
{
    decimals_denote_their_number(n as nat);
    let s = decimal_of(n as nat);
    assert(digit_char(s[0]));
}

/// Blanks, tabs and the ends of lines are white space; no letter, digit or other
/// visible ASCII character is.
pub proof fn visible_characters_are_no_white_space()
    ensures
        white_space(' ') && white_space('\t') && white_space('\n') && white_space('\r'),
        forall|c: char| '!' <= c <= '~' ==> !#[trigger] white_space(c),
        forall|c: char| #[trigger] ascii_space(c) ==> white_space(c),
        forall|c: char| #[trigger] ident_char(c) ==> !white_space(c),
{
}

/// A number is spelled by its decimal form with or without a sign, as long as it
/// fits; a text without digits, or with anything but digits behind the sign, spells
/// none.
pub proof fn signed_numbers_are_spelled(n: nat, s: Seq<char>, i: int)
    requires
        1 <= i < s.len(),
        !('0' <= s[i] <= '9'),
    ensures
        spells_i64(decimal_of(n)) <==> n <= 0x7fff_ffff_ffff_ffff,
        spells_i64("+"@ + decimal_of(n)) <==> n <= 0x7fff_ffff_ffff_ffff,
        spells_i64("-"@ + decimal_of(n)) <==> n <= 0x8000_0000_0000_0000,
        !spells_i64(s),
        !spells_i64(seq![]),
        !spells_i64("+"@),
        !spells_i64("-"@),
{
    reveal_strlit("+");
    reveal_strlit("-");
    decimals_denote_their_number(n);
    let d = decimal_of(n);
    assert(digit_char(d[0]));
    let plus = "+"@ + d;
    let minus = "-"@ + d;
    assert(plus[0] == "+"@[0]);
    assert(minus[0] == "-"@[0]);
    assert(plus.skip(1) =~= d);
    assert(minus.skip(1) =~= d);
    assert(!digit_char(s[i]));
    assert(s.skip(1)[i - 1] == s[i]);
    assert("+"@[0] == '+' && "-"@[0] == '-');
    assert("+"@.skip(1).len() == 0);
    assert("-"@.skip(1).len() == 0);
}

/// Identifiers are made of ASCII letters, digits and underscores, and of nothing that
/// stands before, between or behind these.
pub proof fn identifiers_are_made_of_letters_and_digits(c: char)
    ensures
        'a' <= c <= 'z' ==> ident_char(c),
        'A' <= c <= 'Z' ==> ident_char(c),
        '0' <= c <= '9' ==> ident_char(c),
        ident_char('_'),
        c < '0' ==> !ident_char(c),
        '9' < c < 'A' ==> !ident_char(c),
        'Z' < c < '_' ==> !ident_char(c),
        '_' < c < 'a' ==> !ident_char(c),
        c > 'z' ==> !ident_char(c),
{
}

} // verus!
