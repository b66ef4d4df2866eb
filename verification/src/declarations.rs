//! Top-level declarations assembled into one source, and the lines that each
//! of them occupies there.
use crate::text::{
    char_from, char_from_facts, join, joined, lines, lines_of, pieces, pieces_of_sum,
    trim_newlines, without_newlines,
};
use vstd::prelude::*;

verus! {

/// The declarations without their trailing line feeds.
pub open spec fn trimmed_all(decls: Seq<Seq<char>>) -> Seq<Seq<char>> {
    Seq::new(decls.len(), |i: int| without_newlines(decls[i]))
}

/// The declarations joined by blank lines.
pub open spec fn assembled(decls: Seq<Seq<char>>) -> Seq<char> {
    joined(trimmed_all(decls), "\n\n"@)
}

/// How many lines a declaration occupies; an empty one occupies one.
pub open spec fn decl_lines(decl: Seq<char>) -> nat {
    let n = lines_of(without_newlines(decl)).len();
    if n > 1 {
        n
    } else {
        1
    }
}

/// The line, counted from one, on which declaration `i` starts.
pub open spec fn start_line(decls: Seq<Seq<char>>, i: int) -> nat
    decreases i,
{
    if i <= 0 {
        1
    } else {
        start_line(decls, i - 1) + decl_lines(decls[i - 1]) + 1
    }
}

/// The last line of declaration `i`.
pub open spec fn end_line(decls: Seq<Seq<char>>, i: int) -> int {
    start_line(decls, i) + decl_lines(decls[i]) - 1
}

/// The line numbers of all declarations fit the machine.
pub open spec fn lines_fit(decls: Seq<Seq<char>>) -> bool {
    decls.len() > 0 ==> end_line(decls, decls.len() - 1) <= usize::MAX
}

/// `(start_line, end_line, decl_idx)` for every declaration, in order.
pub open spec fn index_of(decls: Seq<Seq<char>>) -> Seq<(usize, usize, usize)> {
    Seq::new(
        decls.len(),
        |i: int| (start_line(decls, i) as usize, end_line(decls, i) as usize, i as usize),
    )
}

/// The lines of an index entry hold `line`.
pub open spec fn covers(entry: (usize, usize, usize), line: int) -> bool {
    entry.0 <= line <= entry.1
}

/// The declaration that an index gives to a line: that of the first entry whose
/// lines hold it.
pub open spec fn owner(index: Seq<(usize, usize, usize)>, line: int) -> Option<usize>
    decreases index.len(),
{
    if index.len() == 0 {
        None
    } else if covers(index[0], line) {
        Some(index[0].2)
    } else {
        owner(index.skip(1), line)
    }
}

proof fn start_line_grows(decls: Seq<Seq<char>>, i: int, j: int)
    requires
        0 <= i <= j,
    ensures
        start_line(decls, i) + (j - i) <= start_line(decls, j),
        i < j ==> end_line(decls, i) + 2 <= start_line(decls, j),
    decreases j - i,
{
    if i < j {
        start_line_grows(decls, i, j - 1);
    }
}

/// The declarations stand one after another with one blank line between
/// neighbours: none shares a line with another.
pub proof fn declarations_do_not_overlap(decls: Seq<Seq<char>>, i: int, j: int)
    requires
        0 <= i < j < decls.len(),
    ensures
        end_line(decls, i) + 1 < start_line(decls, j),
        j == i + 1 ==> end_line(decls, i) + 2 == start_line(decls, j),
{
    start_line_grows(decls, i, j);
}

proof fn owner_of_first(index: Seq<(usize, usize, usize)>, line: int, k: int)
    requires
        0 <= k < index.len(),
        covers(index[k], line),
        forall|j: int| 0 <= j < k ==> !covers(#[trigger] index[j], line),
    ensures
        owner(index, line) == Some(index[k].2),
    decreases index.len(),
{
    if k > 0 {
        assert(index.skip(1)[k - 1] == index[k]);
        assert forall|j: int| 0 <= j < k - 1 implies !covers(
            #[trigger] index.skip(1)[j],
            line,
        ) by {
            assert(index.skip(1)[j] == index[j + 1]);
        }
        owner_of_first(index.skip(1), line, k - 1);
    }
}

proof fn owner_of_none(index: Seq<(usize, usize, usize)>, line: int)
    requires
        forall|j: int| 0 <= j < index.len() ==> !covers(#[trigger] index[j], line),
    ensures
        owner(index, line) is None,
    decreases index.len(),
{
    if index.len() > 0 {
        assert forall|j: int| 0 <= j < index.len() - 1 implies !covers(
            #[trigger] index.skip(1)[j],
            line,
        ) by {
            assert(index.skip(1)[j] == index[j + 1]);
        }
        owner_of_none(index.skip(1), line);
    }
}

/// A line is owned by the declaration that occupies it, and by none if it is a
/// separator or outside the source.
pub proof fn owner_is_the_declaration_on_the_line(decls: Seq<Seq<char>>, line: int)
    requires
        lines_fit(decls),
    ensures
        forall|i: int|
            0 <= i < decls.len() && start_line(decls, i) <= line <= #[trigger] end_line(decls, i)
                ==> owner(index_of(decls), line) == Some(i as usize),
        (forall|i: int|
            0 <= i < decls.len() ==> !(start_line(decls, i) <= line <= #[trigger] end_line(
                decls,
                i,
            ))) ==> owner(index_of(decls), line) is None,
        forall|i: usize|
            owner(index_of(decls), line) == Some(i) <==> i < decls.len() && start_line(
                decls,
                i as int,
            ) <= line <= #[trigger] end_line(decls, i as int),
{
    let index = index_of(decls);
    assert forall|i: int| 0 <= i < decls.len() implies #[trigger] index[i].0 == start_line(
        decls,
        i,
    ) && index[i].1 == end_line(decls, i) by {
        start_line_grows(decls, i, decls.len() - 1);
    }
    assert forall|i: int|
        0 <= i < decls.len() && start_line(decls, i) <= line <= #[trigger] end_line(
            decls,
            i,
        ) implies owner(index, line) == Some(i as usize) by {
        assert forall|j: int| 0 <= j < i implies !covers(#[trigger] index[j], line) by {
            declarations_do_not_overlap(decls, j, i);
        }
        assert(index[i].0 == start_line(decls, i));
        owner_of_first(index, line, i);
    }
    if forall|i: int|
        0 <= i < decls.len() ==> !(start_line(decls, i) <= line <= #[trigger] end_line(decls, i)) {
        assert forall|j: int| 0 <= j < index.len() implies !covers(
            #[trigger] index[j],
            line,
        ) by {
            assert(!(start_line(decls, j) <= line <= end_line(decls, j)));
        }
        owner_of_none(index, line);
    }
    assert forall|i: usize|
        owner(index, line) == Some(i) <==> i < decls.len() && start_line(decls, i as int) <= line
            <= #[trigger] end_line(decls, i as int) by {
        if owner(index, line) == Some(i) {
            let j = choose|j: int|
                0 <= j < decls.len() && start_line(decls, j) <= line <= #[trigger] end_line(
                    decls,
                    j,
                );
            start_line_grows(decls, 0, j);
            assert(index[j].0 == start_line(decls, j));
            assert(j as usize == j);
        }
    }
}

// ---------------------------------------------------------------------------
// The index and the assembled text
// ---------------------------------------------------------------------------

proof fn lines_are_pieces(d: Seq<char>)
    requires
        d.len() > 0 ==> d.last() != '\n',
    ensures
        d.len() > 0 ==> lines_of(d).len() == pieces(d, '\n').len(),
        pieces(d, '\n').len() >= 1,
    decreases d.len(),
{
    char_from_facts(d, '\n', 0);
    let k = char_from(d, '\n', 0);
    if k < d.len() {
        let rest = d.skip(k + 1);
        assert(rest.len() > 0) by {
            if k + 1 == d.len() {
                assert(d.last() == '\n');
            }
        }
        assert(rest.last() == d.last());
        lines_are_pieces(rest);
    }
}

proof fn without_newlines_end(s: Seq<char>)
    ensures
        without_newlines(s).len() > 0 ==> without_newlines(s).last() != '\n',
    decreases s.len(),
{
    if s.len() > 0 && s.last() == '\n' {
        without_newlines_end(s.drop_last());
    }
}

/// A declaration occupies as many lines as its text has parts between line
/// feeds.
pub proof fn decl_lines_are_pieces(decl: Seq<char>)
    ensures
        decl_lines(decl) == pieces(without_newlines(decl), '\n').len(),
{
    without_newlines_end(decl);
    let d = without_newlines(decl);
    lines_are_pieces(d);
    char_from_facts(d, '\n', 0);
    if d.len() == 0 {
        assert(lines_of(d).len() == 0);
        assert(pieces(d, '\n').len() == 1);
    }
}

proof fn assembled_pieces(decls: Seq<Seq<char>>)
    requires
        decls.len() > 1,
    ensures
        pieces(assembled(decls), '\n') == pieces(assembled(decls.drop_last()), '\n') + seq![
            Seq::<char>::empty(),
        ] + pieces(without_newlines(decls.last()), '\n'),
{
    let init = decls.drop_last();
    let last = without_newlines(decls.last());
    let head = assembled(init);
    let lf = seq!['\n'];
    let blank = Seq::<char>::empty();
    assert(trimmed_all(decls).drop_last() =~= trimmed_all(init));
    assert(trimmed_all(decls).last() == last);
    reveal_strlit("\n\n");
    assert("\n\n"@ =~= lf + lf);
    assert(assembled(decls) =~= head + lf + (blank + lf + last));
    pieces_of_sum(head, blank + lf + last, '\n');
    pieces_of_sum(blank, last, '\n');
    assert(pieces(blank, '\n') =~= seq![blank]);
    assert(pieces(assembled(decls), '\n') =~= pieces(head, '\n') + seq![blank] + pieces(
        last,
        '\n',
    ));
}

proof fn assembled_line_count(decls: Seq<Seq<char>>)
    requires
        decls.len() > 0,
    ensures
        pieces(assembled(decls), '\n').len() == end_line(decls, decls.len() - 1),
    decreases decls.len(),
{
    let n = decls.len() as int;
    decl_lines_are_pieces(decls.last());
    if n == 1 {
        assert(trimmed_all(decls)[0] == without_newlines(decls.last()));
    } else {
        assembled_line_count(decls.drop_last());
        assembled_pieces(decls);
        start_line_of_prefix(decls, n - 2);
    }
}

proof fn assembled_line(decls: Seq<Seq<char>>, i: int, k: int)
    requires
        0 <= i < decls.len(),
        0 <= k < decl_lines(decls[i]),
    ensures
        pieces(assembled(decls), '\n')[start_line(decls, i) - 1 + k] == pieces(
            without_newlines(decls[i]),
            '\n',
        )[k],
    decreases decls.len(),
{
    let n = decls.len() as int;
    decl_lines_are_pieces(decls[i]);
    if n == 1 {
        assert(trimmed_all(decls)[0] == without_newlines(decls.last()));
    } else {
        let init = decls.drop_last();
        let hp = pieces(assembled(init), '\n');
        assembled_pieces(decls);
        assembled_line_count(init);
        start_line_of_prefix(decls, n - 2);
        assert(hp.len() == end_line(decls, n - 2));
        if i < n - 1 {
            assembled_line(init, i, k);
            start_line_of_prefix(decls, i);
            start_line_grows(decls, i, n - 1);
            assert(start_line(decls, i) - 1 + k < hp.len());
        } else {
            assert(start_line(decls, i) - 1 + k == hp.len() + 1 + k);
        }
    }
}

proof fn assembled_blank(decls: Seq<Seq<char>>, i: int)
    requires
        0 <= i < decls.len() - 1,
    ensures
        pieces(assembled(decls), '\n')[end_line(decls, i)] == Seq::<char>::empty(),
    decreases decls.len(),
{
    let n = decls.len() as int;
    let init = decls.drop_last();
    let hp = pieces(assembled(init), '\n');
    assembled_pieces(decls);
    assembled_line_count(init);
    start_line_of_prefix(decls, n - 2);
    assert(hp.len() == end_line(decls, n - 2));
    if i < n - 2 {
        assembled_blank(init, i);
        start_line_of_prefix(decls, i);
        start_line_grows(decls, i, n - 2);
    }
}

/// Line `start_line + k` of the assembled source is line `k` of the declaration
/// that the index puts there, and a blank line follows each declaration but
/// the last: the index describes the text that is compiled.
pub proof fn index_describes_the_source(decls: Seq<Seq<char>>)
    requires
        decls.len() > 0,
    ensures
        pieces(assembled(decls), '\n').len() == end_line(decls, decls.len() - 1),
        forall|i: int, k: int|
            0 <= i < decls.len() && 0 <= k < decl_lines(decls[i]) ==> pieces(
                assembled(decls),
                '\n',
            )[start_line(decls, i) - 1 + k] == #[trigger] pieces(
                without_newlines(decls[i]),
                '\n',
            )[k],
        forall|i: int|
            0 <= i < decls.len() - 1 ==> pieces(assembled(decls), '\n')[#[trigger] end_line(
                decls,
                i,
            )] == Seq::<char>::empty(),
{
    assembled_line_count(decls);
    assert forall|i: int, k: int|
        0 <= i < decls.len() && 0 <= k < decl_lines(decls[i]) implies pieces(
        assembled(decls),
        '\n',
    )[start_line(decls, i) - 1 + k] == #[trigger] pieces(without_newlines(decls[i]), '\n')[k] by {
        assembled_line(decls, i, k);
    }
    assert forall|i: int| 0 <= i < decls.len() - 1 implies pieces(
        assembled(decls),
        '\n',
    )[#[trigger] end_line(decls, i)] == Seq::<char>::empty() by {
        assembled_blank(decls, i);
    }
}

proof fn piece_count(d: Seq<char>)
    ensures
        pieces(d, '\n').len() <= d.len() + 1,
        d.len() > 0 && d.last() != '\n' ==> pieces(d, '\n').len() <= d.len(),
    decreases d.len(),
{
    char_from_facts(d, '\n', 0);
    let k = char_from(d, '\n', 0);
    if k < d.len() {
        let rest = d.skip(k + 1);
        piece_count(rest);
        if d.last() != '\n' {
            assert(k + 1 < d.len());
            assert(rest.last() == d.last());
        }
    }
}

proof fn line_count_bound(decls: Seq<Seq<char>>)
    requires
        decls.len() > 0,
    ensures
        ({
            let lines = end_line(decls, decls.len() - 1);
            let len = assembled(decls).len();
            lines <= len || (lines == len + 1 && len % 2 == 0)
        }),
    decreases decls.len(),
{
    let n = decls.len() as int;
    let d = without_newlines(decls.last());
    without_newlines_end(decls.last());
    decl_lines_are_pieces(decls.last());
    piece_count(d);
    if n == 1 {
        assert(trimmed_all(decls)[0] == d);
    } else {
        let init = decls.drop_last();
        line_count_bound(init);
        start_line_of_prefix(decls, n - 2);
        assert(trimmed_all(decls).drop_last() =~= trimmed_all(init));
        assert(trimmed_all(decls).last() == d);
        reveal_strlit("\n\n");
        assert(assembled(decls).len() == assembled(init).len() + 2 + d.len());
    }
}

proof fn pieces_joined(s: Seq<char>)
    ensures
        joined(pieces(s, '\n'), "\n"@) == s,
    decreases s.len(),
{
    char_from_facts(s, '\n', 0);
    reveal_strlit("\n");
    let k = char_from(s, '\n', 0);
    if k < s.len() {
        let rest = s.skip(k + 1);
        pieces_joined(rest);
        let first = s.take(k);
        joined_behind(first, pieces(rest, '\n'));
        assert(s =~= first + "\n"@ + rest);
    }
}

proof fn joined_behind(first: Seq<char>, parts: Seq<Seq<char>>)
    requires
        parts.len() > 0,
    ensures
        joined(seq![first] + parts, "\n"@) == first + "\n"@ + joined(parts, "\n"@),
    decreases parts.len(),
{
    let all = seq![first] + parts;
    assert(all.last() == parts.last());
    if parts.len() == 1 {
        assert(all.drop_last() =~= seq![first]);
        assert(joined(all.drop_last(), "\n"@) == first);
        assert(joined(parts, "\n"@) == parts.last());
    } else {
        joined_behind(first, parts.drop_last());
        assert(all.drop_last() =~= seq![first] + parts.drop_last());
        assert(first + "\n"@ + joined(parts.drop_last(), "\n"@) + "\n"@ + parts.last() =~= first
            + "\n"@ + (joined(parts.drop_last(), "\n"@) + "\n"@ + parts.last()));
    }
}

/// The lines that the index gives to a declaration, joined, are the declaration.
pub proof fn declaration_is_its_lines(decls: Seq<Seq<char>>, i: int)
    requires
        0 <= i < decls.len(),
    ensures
        end_line(decls, i) <= pieces(assembled(decls), '\n').len(),
        joined(
            pieces(assembled(decls), '\n').subrange(start_line(decls, i) - 1, end_line(decls, i)),
            "\n"@,
        ) == without_newlines(decls[i]),
{
    let all = pieces(assembled(decls), '\n');
    let d = without_newlines(decls[i]);
    let from = start_line(decls, i) - 1;
    assembled_line_count(decls);
    start_line_grows(decls, i, decls.len() - 1);
    decl_lines_are_pieces(decls[i]);
    assert forall|k: int| 0 <= k < decl_lines(decls[i]) implies all[from + k] == #[trigger] pieces(
        d,
        '\n',
    )[k] by {
        assembled_line(decls, i, k);
    }
    assert(all.subrange(from, end_line(decls, i)) =~= pieces(d, '\n'));
    pieces_joined(d);
}

/// The lines of a source that a machine holds can be counted by it.
pub proof fn lines_of_held_sources_fit(decls: Seq<Seq<char>>)
    requires
        assembled(decls).len() <= usize::MAX,
    ensures
        lines_fit(decls),
{
    if decls.len() > 0 {
        line_count_bound(decls);
        assert(usize::MAX % 2 == 1);
    }
}

proof fn start_line_of_prefix(decls: Seq<Seq<char>>, i: int)
    requires
        0 <= i < decls.len(),
    ensures
        start_line(decls.drop_last(), i) == start_line(decls, i),
    decreases i,
{
    if i > 0 {
        start_line_of_prefix(decls, i - 1);
    }
}

// ---------------------------------------------------------------------------
// Execution
// ---------------------------------------------------------------------------

/// Joins the declarations by blank lines.
pub fn assemble(decls: &Vec<String>) -> (r: String)
    ensures
        r@ == assembled(decls.deep_view()),
{
    let ghost want = trimmed_all(decls.deep_view());
    let mut parts: Vec<String> = Vec::new();
    let mut i: usize = 0;
    while i < decls.len()
        invariant
            want == trimmed_all(decls.deep_view()),
            i <= decls@.len(),
            parts@.len() == i,
            forall|j: int| 0 <= j < i ==> (#[trigger] parts@[j])@ == want[j],
        decreases decls@.len() - i,
    {
        parts.push(trim_newlines(decls[i].as_str()).to_owned());
        i += 1;
    }
    proof {
        assert(Seq::new(parts@.len(), |i: int| parts@[i]@) =~= want);
    }
    join(parts.as_slice(), "\n\n")
}

/// The `(start_line, end_line, decl_idx)` index for `decls`, 1-indexed, in the
/// text that they are assembled into.
pub fn index_in_text(decls: &Vec<String>, text: &str) -> (r: Vec<(usize, usize, usize)>)
    requires
        text@ == assembled(decls.deep_view()),
    ensures
        r@ == index_of(decls.deep_view()),
        lines_fit(decls.deep_view()),
{
    let ghost all = decls.deep_view();
    let length: usize = text.unicode_len();
    proof {
        assert(assembled(all).len() == length);
        lines_of_held_sources_fit(all);
    }
    let mut out: Vec<(usize, usize, usize)> = Vec::new();
    let mut end: usize = 0;
    let mut i: usize = 0;
    while i < decls.len()
        invariant
            all == decls.deep_view(),
            lines_fit(all),
            i <= decls@.len(),
            i > 0 ==> end == end_line(all, i - 1),
            i == 0 ==> end == 0,
            out@ == index_of(all).take(i as int),
        decreases decls@.len() - i,
    {
        let own = lines(trim_newlines(decls[i].as_str()));
        proof {
            assert(own.deep_view().len() == own@.len());
            start_line_grows(all, i as int, all.len() - 1);
            assert(all[i as int] == decls@[i as int]@);
        }
        let count: usize = if own.len() > 1 {
            own.len()
        } else {
            1
        };
        let start: usize = if i == 0 {
            1
        } else {
            end + 2
        };
        end = start + (count - 1);
        out.push((start, end, i));
        proof {
            assert(index_of(all).take(i + 1) =~= index_of(all).take(i as int).push(
                (start, end, i),
            ));
        }
        i += 1;
    }
    proof {
        assert(index_of(all).take(i as int) =~= index_of(all));
    }
    out
}

/// Build the `(start_line, end_line, decl_idx)` index for `decls`, 1-indexed.
pub fn build_line_index(decls: &Vec<String>) -> (r: Vec<(usize, usize, usize)>)
    ensures
        r@ == index_of(decls.deep_view()),
        lines_fit(decls.deep_view()),
{
    index_in_text(decls, assemble(decls).as_str())
}

/// Look up which declaration index owns `line` (1-indexed) in `line_index`.
pub fn find_decl(line_index: &Vec<(usize, usize, usize)>, line: usize) -> (r: Option<usize>)
    ensures
        r == owner(line_index@, line as int),
{
    let mut i: usize = 0;
    proof {
        assert(line_index@.skip(0) =~= line_index@);
    }
    while i < line_index.len()
        invariant
            i <= line_index@.len(),
            owner(line_index@.skip(i as int), line as int) == owner(line_index@, line as int),
        decreases line_index@.len() - i,
    {
        proof {
            assert(line_index@.skip(i as int)[0] == line_index@[i as int]);
            assert(line_index@.skip(i as int).skip(1) =~= line_index@.skip(i + 1));
        }
        if line >= line_index[i].0 && line <= line_index[i].1 {
            return Some(line_index[i].2);
        }
        i += 1;
    }
    None
}

/// A source is put together from its declarations, without the line feeds at their
/// ends and with an empty line between any two.
pub proof fn sources_are_their_declarations(
    a: Seq<Seq<char>>,
    b: Seq<Seq<char>>,
    decl: Seq<char>,
)
    requires
        a.len() > 0,
        b.len() > 0,
    ensures
        assembled(a + b) == assembled(a) + "\n\n"@ + assembled(b),
        assembled(seq![decl]) == without_newlines(decl),
        assembled(seq![]) == Seq::<char>::empty(),
{
    assert(trimmed_all(a + b) =~= trimmed_all(a) + trimmed_all(b));
    crate::text_laws::joining_lists(trimmed_all(a), trimmed_all(b), "\n\n"@);
    assert(trimmed_all(seq![decl]) =~= seq![without_newlines(decl)]);
    assert(trimmed_all(seq![]) =~= seq![]);
}

} // verus!
