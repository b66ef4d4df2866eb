//! What holds of sources that are printed, split and stubbed.
use crate::rust_syntax::{
    all_print, bodies_of, body_ranges, declarations_of, definitions_fit, group_end, item_prints,
    keeps_tokens, macro_body, method_bodies, outline, parsed_items, past_shebang, path_end,
    printed_items, punct_at, ranges_ascend, replaced_ranges, reserved, rules_fit, source_prints,
    source_tokens, stubbed, unparsed_item, written, BodyView, ItemView, TokenView,
};
use crate::seqs::{filter_map_has, flat_map_last};
use crate::text::{has_part, replaced, without_newlines};
use crate::text_laws::{found_parts_stand_there, nothing_to_replace, parts_are_found};
use vstd::prelude::*;

verus! {

// ---------------------------------------------------------------------------
// Declarations
// ---------------------------------------------------------------------------

/// A source that is printed has one declaration for each item, without the line
/// feeds at its end; a source that cannot be is one declaration.
pub proof fn items_become_declarations(source: Seq<char>, items: Seq<Seq<char>>)
    ensures
        declarations_of(source, Some(items)) == items.map_values(
            |i: Seq<char>| without_newlines(i),
        ),
        declarations_of(source, None) == seq![without_newlines(source)],
{
    assert(declarations_of(source, Some(items)) =~= items.map_values(
        |i: Seq<char>| without_newlines(i),
    ));
}

/// What stands in front of a source, a byte order mark and a shebang line, is
/// passed over.
pub proof fn shebang_is_passed_over(line: Seq<char>, rest: Seq<char>)
    requires
        line.len() > 0 ==> line[0] != '\u{feff}',
        line.len() == 0 ==> !"\u{feff}"@.is_prefix_of(rest),
    ensures
        past_shebang(line + rest, Some(line)) == rest,
        past_shebang("\u{feff}"@ + (line + rest), Some(line)) == rest,
        past_shebang("\u{feff}"@ + rest, None) == rest,
        line.len() == 0 ==> past_shebang(rest, None) == rest,
{
    reveal_strlit("\u{feff}");
    let mark = "\u{feff}"@;
    assert(!mark.is_prefix_of(line + rest)) by {
        if mark.is_prefix_of(line + rest) {
            assert((line + rest).subrange(0, 1)[0] == (line + rest)[0]);
            if line.len() == 0 {
                assert(line + rest =~= rest);
            }
        }
    }
    assert((line + rest).skip(line.len() as int) =~= rest);
    let marked = mark + (line + rest);
    assert(marked.subrange(0, 1) =~= mark);
    assert(marked.skip(1 + line.len() as int) =~= rest);
    assert((mark + rest).subrange(0, 1) =~= mark);
    assert((mark + rest).skip(1) =~= rest);
    assert(rest.skip(0) =~= rest);
}

// ---------------------------------------------------------------------------
// Bodies
// ---------------------------------------------------------------------------

/// The bodies of an item are the one of a function or those of the methods of an
/// impl that have one, in order; nothing else has any.
pub proof fn bodies_are_those_of_functions(members: Seq<Option<BodyView>>, body: BodyView)
    ensures
        bodies_of(ItemView::Fn(body)) == seq![body],
        bodies_of(ItemView::Other).len() == 0,
        bodies_of(ItemView::Impl(members)) == members.filter_map(|m: Option<BodyView>| m),
        forall|i: int|
            0 <= i < members.len() ==> (#[trigger] members[i] matches Some(b) ==> bodies_of(
                ItemView::Impl(members),
            ).contains(b)),
        body_ranges(ItemView::Fn(body)) == seq![(body.range.start, body.range.end)],
    decreases members.len(),
{
    let f = |m: Option<BodyView>| m;
    if members.len() > 0 {
        bodies_are_those_of_functions(members.drop_last(), body);
        assert(bodies_of(ItemView::Impl(members.drop_last())) == method_bodies(
            members.drop_last(),
        ));
        assert(method_bodies(members) =~= members.filter_map(f));
    } else {
        assert(method_bodies(members) =~= members.filter_map(f));
    }
    filter_map_has(members, f);
    assert forall|i: int| 0 <= i < members.len() implies (#[trigger] members[i] matches Some(b)
        ==> bodies_of(ItemView::Impl(members)).contains(b)) by {
        assert(f(members[i]) == members[i]);
    }
    assert(body_ranges(ItemView::Fn(body)) =~= seq![(body.range.start, body.range.end)]);
}

/// What stands in the ranges is replaced and what stands outside them stays: with
/// no range the text stays as it is, and each range gives way to the new text.
pub proof fn ranges_are_replaced(
    before: Seq<u8>,
    first: Seq<u8>,
    between: Seq<u8>,
    second: Seq<u8>,
    after: Seq<u8>,
    with: Seq<u8>,
)
    requires
        before.len() + first.len() + between.len() + second.len() + after.len() <= usize::MAX,
    ensures
        ({
            let bytes = before + first + between + second + after;
            let a = before.len();
            let b = a + first.len();
            let c = b + between.len();
            let d = c + second.len();
            &&& replaced_ranges(bytes, seq![], 0, with) == bytes
            &&& replaced_ranges(bytes, seq![(a as usize, b as usize)], 0, with) == before + with
                + between + second + after
            &&& replaced_ranges(
                bytes,
                seq![(a as usize, b as usize), (c as usize, d as usize)],
                0,
                with,
            ) == before + with + between + with + after
            &&& ranges_ascend(
                seq![(a as usize, b as usize), (c as usize, d as usize)],
                0,
                bytes.len() as int,
            )
        }),
{
    let bytes = before + first + between + second + after;
    let a = before.len();
    let b = a + first.len();
    let c = b + between.len();
    let d = c + second.len();
    let x = (a as usize, b as usize);
    let y = (c as usize, d as usize);
    let none = Seq::<(usize, usize)>::empty();
    assert(bytes.skip(0) =~= bytes);
    assert(seq![x].skip(1) =~= none);
    assert(seq![y].skip(1) =~= none);
    assert(seq![x, y].skip(1) =~= seq![y]);
    assert(bytes.subrange(0, a as int) =~= before);
    assert(bytes.subrange(b as int, c as int) =~= between);
    assert(bytes.skip(b as int) =~= between + second + after);
    assert(bytes.skip(d as int) =~= after);
    assert(replaced_ranges(bytes, none, b as int, with) == between + second + after);
    assert(seq![x][0] == x);
    assert(replaced_ranges(bytes, seq![x], 0, with) =~= before + with + between + second + after);
    assert(replaced_ranges(bytes, none, d as int, with) == after);
    assert(seq![y][0] == y);
    assert(replaced_ranges(bytes, seq![y], b as int, with) == between + with + after);
    assert(seq![x, y][0] == x);
    assert(replaced_ranges(bytes, seq![x, y], 0, with) =~= before + with + between + with + after);
    assert(ranges_ascend(none, d as int, bytes.len() as int));
    assert(ranges_ascend(seq![y], b as int, bytes.len() as int));
}

/// Ranges that overlap, stand in the wrong order or reach past the end are not
/// replaced.
pub proof fn misplaced_ranges_are_refused(
    source: Seq<u8>,
    ranges: Seq<(usize, usize)>,
    stub: Seq<char>,
    i: int,
)
    requires
        0 <= i < ranges.len(),
        ranges[i].0 > ranges[i].1 || ranges[i].1 > source.len() || (i > 0 && ranges[i - 1].1
            > ranges[i].0),
    ensures
        stubbed(source, ranges, stub) is None,
{
    if ranges_ascend(ranges, 0, source.len() as int) {
        ascending_ranges_are_in_place(ranges, 0, source.len() as int, i);
    }
}

proof fn ascending_ranges_are_in_place(ranges: Seq<(usize, usize)>, from: int, len: int, i: int)
    requires
        0 <= i < ranges.len(),
        ranges_ascend(ranges, from, len),
    ensures
        from <= ranges[i].0 <= ranges[i].1 <= len,
        i > 0 ==> ranges[i - 1].1 <= ranges[i].0,
    decreases ranges.len(),
{
    let rest = ranges.skip(1);
    if i > 0 {
        ascending_ranges_are_in_place(rest, ranges[0].1 as int, len, i - 1);
        assert(rest[i - 1] == ranges[i]);
        if i > 1 {
            assert(rest[i - 2] == ranges[i - 1]);
        }
    } else if rest.len() > 0 {
        ascending_ranges_are_in_place(rest, ranges[0].1 as int, len, 0);
        assert(rest[0] == ranges[1]);
    } else {
        assert(ranges_ascend(rest, ranges[0].1 as int, len));
    }
}

// ---------------------------------------------------------------------------
// Tokens
// ---------------------------------------------------------------------------

/// The outline of a source is that of its tokens, one behind the other: words and
/// brackets with a space behind them, marks with one unless the next mark belongs
/// to them.
pub proof fn outlines_are_written_token_by_token(ts: Seq<TokenView>, w: Seq<char>, c: char)
    ensures
        outline(ts) == ts.flat_map(|t: TokenView| written(t)),
        written(TokenView::Word(w)) == w + " "@,
        written(TokenView::Punct(c, true)) == seq![c],
        written(TokenView::Punct(c, false)) == seq![c, ' '],
        written(TokenView::Open(c)) == seq![c, ' '],
        written(TokenView::Close(c)) == seq![c, ' '],
    decreases ts.len(),
{
    let f = |t: TokenView| written(t);
    flat_map_last(ts, f);
    if ts.len() > 0 {
        outlines_are_written_token_by_token(ts.drop_last(), w, c);
    } else {
        assert(outline(ts) =~= ts.flat_map(f));
    }
}

/// In an outline a text literal is empty, of the kind that it was; numbers and
/// characters stay.
pub proof fn text_literals_are_emptied(text: Seq<char>, other: Seq<char>)
    requires
        !other.contains('"'),
    ensures
        written(TokenView::Literal("\""@ + text + "\""@)) == "\"\" "@,
        written(TokenView::Literal("b\""@ + text + "\""@)) == "b\"\" "@,
        written(TokenView::Literal("c\""@ + text + "\""@)) == "c\"\" "@,
        written(TokenView::Literal(other)) == other + " "@,
        written(TokenView::Literal("'\"'"@)) == "'\"' "@,
{
    reveal_strlit("\"");
    reveal_strlit("b\"");
    reveal_strlit("c\"");
    reveal_strlit("b'");
    reveal_strlit("'");
    reveal_strlit("b");
    reveal_strlit("c");
    reveal_strlit("\"\"");
    reveal_strlit("b\"\"");
    reveal_strlit("c\"\"");
    reveal_strlit(" ");
    reveal_strlit("\"\" ");
    reveal_strlit("b\"\" ");
    reveal_strlit("c\"\" ");
    reveal_strlit("'\"'");
    reveal_strlit("'\"' ");
    let a = "\""@ + text + "\""@;
    let b = "b\""@ + text + "\""@;
    let c = "c\""@ + text + "\""@;
    let d = "'\"'"@;
    assert(a[0] == '"' && b[1] == '"' && c[1] == '"' && b[0] == 'b' && c[0] == 'c');
    assert(a.contains('"') && b.contains('"') && c.contains('"'));
    first_of(a, "'"@);
    first_of(b, "'"@);
    first_of(c, "'"@);
    first_of(a, "b'"@);
    first_of(b, "b'"@);
    first_of(c, "b'"@);
    first_of(a, "b"@);
    first_of(a, "c"@);
    first_of(c, "b"@);
    assert(!"b'"@.is_prefix_of(b)) by {
        if "b'"@.is_prefix_of(b) {
            assert(b.subrange(0, 2)[1] == b[1]);
        }
    }
    assert(b.subrange(0, 1) =~= "b"@);
    assert(c.subrange(0, 1) =~= "c"@);
    assert(d.subrange(0, 1) =~= "'"@);
    assert("\"\""@ + " "@ =~= "\"\" "@);
    assert("b\"\""@ + " "@ =~= "b\"\" "@);
    assert("c\"\""@ + " "@ =~= "c\"\" "@);
    assert(d + " "@ =~= "'\"' "@);
}

proof fn first_of(s: Seq<char>, p: Seq<char>)
    requires
        s.len() > 0,
        p.len() > 0,
    ensures
        p.is_prefix_of(s) ==> s[0] == p[0],
{
    if p.is_prefix_of(s) {
        assert(s.subrange(0, p.len() as int)[0] == s[0]);
    }
}

/// A group ends behind the bracket that closes it: the brackets inside it are
/// passed over.
pub proof fn groups_end_behind_their_bracket(
    ts: Seq<TokenView>,
    i: int,
    k: int,
    depth: nat,
)
    requires
        0 <= i <= k < ts.len(),
        forall|j: int| i <= j < k ==> !(#[trigger] ts[j] is Open) && !(ts[j] is Close),
        ts[k] is Close,
        depth <= 1,
    ensures
        group_end(ts, i, depth) == k + 1,
        forall|o: int|
            0 <= o < i && o + 1 == i && #[trigger] ts[o] is Open ==> group_end(ts, o, 0) == k + 1,
    decreases k - i,
{
    if i < k {
        assert(!(ts[i] is Open) && !(ts[i] is Close));
        groups_end_behind_their_bracket(ts, i + 1, k, depth);
    }
    assert forall|o: int| 0 <= o < i && o + 1 == i && #[trigger] ts[o] is Open implies group_end(
        ts,
        o,
        0,
    ) == k + 1 by {
        inner_group_ends(ts, i, k);
    }
}

proof fn inner_group_ends(ts: Seq<TokenView>, i: int, k: int)
    requires
        0 <= i <= k < ts.len(),
        forall|j: int| i <= j < k ==> !(#[trigger] ts[j] is Open) && !(ts[j] is Close),
        ts[k] is Close,
    ensures
        group_end(ts, i, 1) == k + 1,
    decreases k - i,
{
    if i < k {
        assert(!(ts[i] is Open) && !(ts[i] is Close));
        inner_group_ends(ts, i + 1, k);
    }
}

/// A source without a macro and without an attribute prints: there is no
/// exclamation mark and no hash sign among its tokens.
pub proof fn sources_without_macros_print(ts: Seq<TokenView>, i: int)
    requires
        0 <= i,
        forall|j: int|
            0 <= j < ts.len() ==> !(#[trigger] ts[j] matches TokenView::Punct(c, _) && (c == '!'
                || c == '#')),
    ensures
        definitions_fit(ts, i),
    decreases ts.len() - i,
{
    if i < ts.len() {
        assert(!(ts[i] matches TokenView::Punct(c, _) && (c == '!' || c == '#')));
        if i + 1 < ts.len() {
            assert(!(ts[i + 1] matches TokenView::Punct(c, _) && (c == '!' || c == '#')));
        }
        assert(crate::rust_syntax::attribute_arguments(ts, i) is None);
        assert(macro_body(ts, i) is None);
        sources_without_macros_print(ts, i + 1);
    }
}

/// The rules of a macro are pairs of groups with an arrow between them; a
/// definition whose rules are anything else does not print.
pub proof fn rules_are_pairs_of_groups(ts: Seq<TokenView>, i: int)
    requires
        0 <= i < ts.len(),
    ensures
        ts[i] is Word ==> !rules_fit(ts, i, 0, 0),
        ts[i] is Literal ==> !rules_fit(ts, i, 0, 0),
        ts[i] is Punct ==> !rules_fit(ts, i, 0, 0),
        ts[i] is Close ==> rules_fit(ts, i, 0, 0),
        i + 6 < ts.len() && ts[i] is Open && ts[i + 1] is Close && ts[i + 2] == TokenView::Punct(
            '=',
            true,
        ) && ts[i + 3] == TokenView::Punct('>', false) && ts[i + 4] is Open && ts[i + 5] is Close
            && ts[i + 6] is Close ==> rules_fit(ts, i, 0, 0),
        i + 2 < ts.len() && ts[i] is Open && ts[i + 1] is Close && ts[i + 2] is Open
            ==> !rules_fit(ts, i, 0, 0),
{
    reveal_with_fuel(rules_fit, 8);
}

/// An item whose form holds tokens that were not understood keeps them; a form
/// without such a part keeps none.
pub proof fn forms_show_what_was_not_understood(
    before: Seq<char>,
    after: Seq<char>,
    form: Seq<char>,
)
    ensures
        keeps_tokens(before + "Type::Verbatim("@ + after),
        keeps_tokens(before + "Pat::Verbatim("@ + after),
        keeps_tokens(before + "TypeParamBound::Verbatim("@ + after),
        !has_part(form, "Verbatim("@) ==> !keeps_tokens(form),
        has_part(form, "Item::Verbatim("@) && !has_part(form, "::Verbatim(TokenStream [])"@)
            ==> keeps_tokens(form),
        has_part(form, "Expr::Verbatim("@) && !has_part(form, "::Verbatim(TokenStream [])"@)
            ==> keeps_tokens(form),
{
    parts_are_found(before, "Type::Verbatim("@, after);
    parts_are_found(before, "Pat::Verbatim("@, after);
    parts_are_found(before, "TypeParamBound::Verbatim("@, after);
    let inner = "Verbatim("@;
    let empty = "::Verbatim(TokenStream [])"@;
    if !has_part(form, empty) {
        nothing_to_replace(form, empty, ""@);
    }
    if !has_part(form, inner) {
        reveal_strlit("Verbatim(");
        reveal_strlit("::Verbatim(TokenStream [])");
        reveal_strlit("::");
        reveal_strlit("TokenStream [])");
        reveal_strlit("Item::Verbatim(");
        reveal_strlit("Expr::Verbatim(");
        reveal_strlit("Type::Verbatim(");
        reveal_strlit("Pat::Verbatim(");
        reveal_strlit("TypeParamBound::Verbatim(");
        let none = Seq::<char>::empty();
        assert(empty =~= empty.take(2) + inner + empty.skip(11));
        no_part_no_whole(form, empty.take(2), inner, empty.skip(11));
        nothing_to_replace(form, empty, ""@);
        let a = "Item::Verbatim("@;
        assert(a =~= a.take(6) + inner + none);
        no_part_no_whole(form, a.take(6), inner, none);
        let b = "Expr::Verbatim("@;
        assert(b =~= b.take(6) + inner + none);
        no_part_no_whole(form, b.take(6), inner, none);
        let c = "Type::Verbatim("@;
        assert(c =~= c.take(6) + inner + none);
        no_part_no_whole(form, c.take(6), inner, none);
        let d = "Pat::Verbatim("@;
        assert(d =~= d.take(5) + inner + none);
        no_part_no_whole(form, d.take(5), inner, none);
        let e = "TypeParamBound::Verbatim("@;
        assert(e =~= e.take(16) + inner + none);
        no_part_no_whole(form, e.take(16), inner, none);
    }
}

proof fn no_part_no_whole(s: Seq<char>, a: Seq<char>, part: Seq<char>, b: Seq<char>)
    requires
        !has_part(s, part),
    ensures
        !has_part(s, a + part + b),
{
    let whole = a + part + b;
    if has_part(s, whole) {
        found_parts_stand_there(s, whole);
        let (x, y) = choose|x: Seq<char>, y: Seq<char>| #[trigger] (x + whole + y) == s;
        assert(x + whole + y =~= (x + a) + part + (b + y));
        parts_are_found(x + a, part, b + y);
    }
}

/// The words of a path are those up to the first token that is neither a word nor
/// a colon.
pub proof fn paths_are_words_and_colons(ts: Seq<TokenView>, i: int)
    requires
        0 <= i <= ts.len(),
    ensures
        i <= path_end(ts, i) <= ts.len(),
        forall|j: int|
            i <= j < path_end(ts, i) ==> #[trigger] ts[j] is Word || punct_at(ts, j, ':'),
        path_end(ts, i) < ts.len() ==> !(ts[path_end(ts, i)] is Word) && !punct_at(
            ts,
            path_end(ts, i),
            ':',
        ),
    decreases ts.len() - i,
{
    if i < ts.len() && (ts[i] is Word || punct_at(ts, i, ':')) {
        paths_are_words_and_colons(ts, i + 1);
    }
}

/// A source is printed whole or not at all: where it is, there is one text for each of
/// its items, the tokens of an item that is nothing else and the printed form of any
/// other.
pub proof fn sources_are_printed_whole(source: Seq<char>)
    ensures
        printed_items(source) matches Some(texts) ==> (parsed_items(source) matches Some(items)
            && texts.len() == items.len() && forall|i: int|
            0 <= i < items.len() ==> match items[i] {
                ItemView::Bare(tokens) => #[trigger] texts[i] == tokens,
                _ => texts[i] == unparsed_item(source, i),
            }),
        parsed_items(source) is None ==> printed_items(source) is None,
        parsed_items(source) is Some && source_prints(source) ==> printed_items(source) is Some,
        !source_prints(source) ==> printed_items(source) is None,
{
}

/// Items print together if each of them does: one that is nothing but tokens always,
/// any other if all of it was understood and its macros can be printed.
pub proof fn items_print_together(
    items: Seq<ItemView>,
    texts: Seq<Option<Seq<char>>>,
    forms: Seq<Seq<char>>,
    i: int,
)
    requires
        texts.len() == items.len(),
        forms.len() == items.len(),
        0 <= i < items.len(),
    ensures
        all_print(items, texts, forms) && !(items[i] is Bare) ==> !keeps_tokens(forms[i]) && (
        texts[i] matches Some(t) && (source_tokens(t) matches Some(ts) && definitions_fit(ts, 0))),
        (forall|k: int| 0 <= k < items.len() ==> #[trigger] items[k] is Bare) ==> all_print(
            items,
            texts,
            forms,
        ),
        !(items[i] is Bare) && keeps_tokens(forms[i]) ==> !all_print(items, texts, forms),
        !(items[i] is Bare) && texts[i] is None ==> !all_print(items, texts, forms),
{
    if all_print(items, texts, forms) {
        assert(item_prints(items, texts, forms, i));
    }
    if forall|k: int| 0 <= k < items.len() ==> #[trigger] items[k] is Bare {
        assert forall|k: int| 0 <= k < items.len() implies #[trigger] item_prints(
            items,
            texts,
            forms,
            k,
        ) by {
            assert(items[k] is Bare);
        }
    }
}

/// A macro is called by a name that is no keyword, an exclamation mark and a group,
/// with a name of its own before the group or not.
pub proof fn macros_are_called_by_name(
    before: Seq<TokenView>,
    name: Seq<char>,
    space: bool,
    own: Seq<char>,
    c: char,
    after: Seq<TokenView>,
)
    requires
        !reserved(name),
        before.len() > 0 ==> !(before.last() is Punct),
    ensures
        macro_body(
            before + seq![TokenView::Word(name), TokenView::Punct('!', space), TokenView::Open(c)]
                + after,
            before.len() as int,
        ) == Some(before.len() as int + 2),
        macro_body(
            before + seq![
                TokenView::Word(name),
                TokenView::Punct('!', space),
                TokenView::Word(own),
                TokenView::Open(c),
            ] + after,
            before.len() as int,
        ) == Some(before.len() as int + 3),
        reserved("if"@) && reserved("return"@) && reserved("match"@) && reserved("while"@)
            && reserved("in"@),
{
    let k = before.len() as int;
    let a = before + seq![
        TokenView::Word(name),
        TokenView::Punct('!', space),
        TokenView::Open(c),
    ] + after;
    let b = before + seq![
        TokenView::Word(name),
        TokenView::Punct('!', space),
        TokenView::Word(own),
        TokenView::Open(c),
    ] + after;
    assert(a[k] == TokenView::Word(name) && a[k + 1] == TokenView::Punct('!', space) && a[k + 2]
        == TokenView::Open(c));
    assert(b[k] == TokenView::Word(name) && b[k + 1] == TokenView::Punct('!', space) && b[k + 2]
        == TokenView::Word(own) && b[k + 3] == TokenView::Open(c));
    if k > 0 {
        assert(a[k - 1] == before.last() && b[k - 1] == before.last());
    }
}

/// Every keyword is reserved, and no word that is longer than all of them.
pub proof fn keywords_are_reserved(w: Seq<char>)
    requires
        w.len() > 8,
    ensures
        !reserved(w),
        reserved("as"@),
        reserved("async"@),
        reserved("await"@),
        reserved("become"@),
        reserved("box"@),
        reserved("break"@),
        reserved("const"@),
        reserved("continue"@),
        reserved("do"@),
        reserved("dyn"@),
        reserved("else"@),
        reserved("enum"@),
        reserved("fn"@),
        reserved("for"@),
        reserved("if"@),
        reserved("impl"@),
        reserved("in"@),
        reserved("let"@),
        reserved("loop"@),
        reserved("match"@),
        reserved("mod"@),
        reserved("move"@),
        reserved("mut"@),
        reserved("pub"@),
        reserved("ref"@),
        reserved("return"@),
        reserved("static"@),
        reserved("struct"@),
        reserved("trait"@),
        reserved("type"@),
        reserved("unsafe"@),
        reserved("use"@),
        reserved("where"@),
        reserved("while"@),
        reserved("yield"@),
{
    reveal_strlit("as");
    reveal_strlit("async");
    reveal_strlit("await");
    reveal_strlit("become");
    reveal_strlit("box");
    reveal_strlit("break");
    reveal_strlit("const");
    reveal_strlit("continue");
    reveal_strlit("do");
    reveal_strlit("dyn");
    reveal_strlit("else");
    reveal_strlit("enum");
    reveal_strlit("fn");
    reveal_strlit("for");
    reveal_strlit("if");
    reveal_strlit("impl");
    reveal_strlit("in");
    reveal_strlit("let");
    reveal_strlit("loop");
    reveal_strlit("match");
    reveal_strlit("mod");
    reveal_strlit("move");
    reveal_strlit("mut");
    reveal_strlit("pub");
    reveal_strlit("ref");
    reveal_strlit("return");
    reveal_strlit("static");
    reveal_strlit("struct");
    reveal_strlit("trait");
    reveal_strlit("type");
    reveal_strlit("unsafe");
    reveal_strlit("use");
    reveal_strlit("where");
    reveal_strlit("while");
    reveal_strlit("yield");
}

/// No punctuation stands before the first token or behind the last.
pub proof fn punctuation_stands_inside(ts: Seq<TokenView>, i: int, c: char)
    ensures
        i < 0 || i >= ts.len() ==> !punct_at(ts, i, c),
        0 <= i < ts.len() && ts[i] is Word ==> !punct_at(ts, i, c),
        forall|space: bool|
            punct_at(
                #[trigger] ts.push(TokenView::Punct(c, space)),
                ts.len() as int,
                c,
            ),
{
}

/// No macro is called by a keyword or a lifetime, without an exclamation mark or
/// without a group.
pub proof fn other_words_call_no_macro(ts: Seq<TokenView>, i: int)
    ensures
        i < 0 || i >= ts.len() ==> macro_body(ts, i) is None,
        0 <= i < ts.len() && !(ts[i] is Word) ==> macro_body(ts, i) is None,
        0 <= i < ts.len() && (ts[i] matches TokenView::Word(w) && reserved(w)) ==> macro_body(
            ts,
            i,
        ) is None,
        punct_at(ts, i - 1, '\'') ==> macro_body(ts, i) is None,
        !punct_at(ts, i + 1, '!') ==> macro_body(ts, i) is None,
        i + 2 >= ts.len() ==> macro_body(ts, i) is None,
        macro_body(ts, i) matches Some(b) ==> 0 <= b < ts.len() && ts[b] is Open && (b == i + 2
            || b == i + 3 && ts[i + 2] is Word),
{
}

} // verus!
