//! Rust sources as `syn` parses and `prettyplease` prints them.
use crate::text::{
    bytes_of, chars_of, contains, contains_char, has_part, read_utf8, replace, replaced, same,
    starts_with, string_of, trim_newlines, utf8_text, without_newlines,
};
use proc_macro2::{Group, Spacing, Span, TokenStream, TokenTree};
use std::ops::Range;
use std::str::FromStr;
use syn::spanned::Spanned;
use syn::{Attribute, Block, ImplItem, Item};
use vstd::prelude::*;

verus! {

// ---------------------------------------------------------------------------
// Items
// ---------------------------------------------------------------------------

/// The bytes that the body of a function covers, and those that each attribute
/// of the function covers.
#[derive(Debug)]
pub struct Body {
    pub range: Range<usize>,
    pub attributes: Vec<Range<usize>>,
}

/// A top-level item.
#[derive(Debug)]
pub enum ItemParts {
    /// A function.
    Fn(Body),
    /// An `impl` block: of each member that is a function its body, `None` for a
    /// member of another kind.
    Impl(Vec<Option<Body>>),
    /// Tokens without structure, as they print.
    Bare(String),
    /// Any other item.
    Other,
}

pub ghost struct BodyView {
    pub range: Range<usize>,
    pub attributes: Seq<Range<usize>>,
}

pub ghost enum ItemView {
    Fn(BodyView),
    Impl(Seq<Option<BodyView>>),
    Bare(Seq<char>),
    Other,
}

impl DeepView for Body {
    type V = BodyView;

    open spec fn deep_view(&self) -> BodyView {
        BodyView { range: self.range, attributes: self.attributes@ }
    }
}

impl DeepView for ItemParts {
    type V = ItemView;

    open spec fn deep_view(&self) -> ItemView {
        match self {
            ItemParts::Fn(body) => ItemView::Fn(body.deep_view()),
            ItemParts::Impl(members) => ItemView::Impl(members.deep_view()),
            ItemParts::Bare(tokens) => ItemView::Bare(tokens@),
            ItemParts::Other => ItemView::Other,
        }
    }
}

/// The top-level items that `syn` parses from `source`; `None` if it does not
/// parse. The bytes of a body are counted from the start of what is parsed,
/// behind a byte order mark and a `#!` line.
pub uninterp spec fn parsed_items(source: Seq<char>) -> Option<Seq<ItemView>>;

/// `syn::parse_file` parses a source file into items. Of each, its variant is
/// handed out; of a function, where `Span::byte_range` locates the body and the
/// attributes; of a bare token list, how `TokenStream` prints it. The result is
/// a function of the text: byte ranges count from the start of the parsed text.
/// That the ranges ascend inside the text is left to those crates.
#[verifier::external_body]
pub(crate) fn parse_items(source: &str) -> (r: Option<Vec<ItemParts>>)
    ensures
        r.deep_view() == parsed_items(source@),
{
    let body = |block: Block, attrs: Vec<Attribute>| Body {
        range: block.span().byte_range(),
        attributes: attrs.iter().map(|a| a.span().byte_range()).collect()
    };
    Some(syn::parse_file(source).ok()?.items.into_iter().map(|item| match item {
        Item::Fn(f) => ItemParts::Fn(body(*f.block, f.attrs)),
        Item::Impl(block) => ItemParts::Impl(block.items.into_iter().map(|m| match m {
            ImplItem::Fn(f) => Some(body(f.block, f.attrs)),
            _ => None
        }).collect()),
        Item::Verbatim(tokens) => ItemParts::Bare(tokens.to_string()),
        _ => ItemParts::Other
    }).collect())
}

/// The `#!` line that `syn` finds before the items of `source`, without its line
/// feed; `None` if it finds none or the source does not parse.
pub uninterp spec fn shebang_line(source: Seq<char>) -> Option<Seq<char>>;

/// `syn::parse_file` sets a `#!` line apart. The result is a function of the
/// text.
#[verifier::external_body]
fn read_shebang(source: &str) -> (r: Option<String>)
    ensures
        r.deep_view() == shebang_line(source@),
{
    syn::parse_file(source).ok()?.shebang
}

/// Where each top-level item of `source` starts and ends: line and column of
/// its first character, line and column after its last.
pub uninterp spec fn item_positions(source: Seq<char>) -> Option<
    Seq<(usize, usize, usize, usize)>,
>;

/// `Span::start` and `Span::end` locate the items that `syn::parse_file` finds.
/// The result is a function of the text.
#[verifier::external_body]
pub(crate) fn locate_items(source: &str) -> (r: Option<Vec<(usize, usize, usize, usize)>>)
    ensures
        r.deep_view() == item_positions(source@),
{
    let file = syn::parse_file(source).ok()?;
    let ends = |s: proc_macro2::Span| (s.start(), s.end());
    Some(file.items.iter().map(|item| ends(item.span())).map(|(a, b)| (a.line, a.column, b.line, b.column)).collect())
}

/// The text of each top-level item of `source`, as it is written there; `None`
/// for an item without one.
pub uninterp spec fn item_texts(source: Seq<char>) -> Option<Seq<Option<Seq<char>>>>;

/// `Span::source_text` gives the text of the items that `syn::parse_file` finds.
/// The result is a function of the text.
#[verifier::external_body]
fn read_item_texts(source: &str) -> (r: Option<Vec<Option<String>>>)
    ensures
        r.deep_view() == item_texts(source@),
{
    Some(syn::parse_file(source).ok()?.items.iter().map(|item| item.span().source_text()).collect())
}

// ---------------------------------------------------------------------------
// Tokens
// ---------------------------------------------------------------------------

/// A token of a source. A group is given by its brackets and what stands
/// between them.
#[derive(Debug)]
pub enum SourceToken {
    /// An identifier or a keyword.
    Word(String),
    /// One character of punctuation, and whether the next one joins it.
    Punct(char, bool),
    Literal(String),
    Open(char),
    Close(char),
}

pub ghost enum TokenView {
    Word(Seq<char>),
    Punct(char, bool),
    Literal(Seq<char>),
    Open(char),
    Close(char),
}

impl DeepView for SourceToken {
    type V = TokenView;

    open spec fn deep_view(&self) -> TokenView {
        match self {
            SourceToken::Word(w) => TokenView::Word(w@),
            SourceToken::Punct(c, joined) => TokenView::Punct(*c, *joined),
            SourceToken::Literal(l) => TokenView::Literal(l@),
            SourceToken::Open(c) => TokenView::Open(*c),
            SourceToken::Close(c) => TokenView::Close(*c),
        }
    }
}

/// The tokens that `proc_macro2` reads from `text`; `None` if it is not made of
/// tokens.
pub uninterp spec fn source_tokens(text: Seq<char>) -> Option<Seq<TokenView>>;

/// `<TokenStream as FromStr>::from_str` reads a text into tokens. A group prints
/// its brackets first and last, and what stands between them is printed and read
/// in turn. The result is a function of the text.
#[verifier::external_body]
fn read_tokens(text: &str) -> (r: Option<Vec<SourceToken>>)
    ensures
        r.deep_view() == source_tokens(text@),
{
    let mut out = Vec::new();
    for token in TokenStream::from_str(text).ok()? {
        match token {
            TokenTree::Group(g) => {
                let shown = g.to_string();
                out.push(SourceToken::Open(shown.chars().next()?));
                out.append(&mut read_tokens(&g.stream().to_string())?);
                out.push(SourceToken::Close(shown.chars().last()?)) },
            TokenTree::Ident(i) => out.push(SourceToken::Word(i.to_string())),
            TokenTree::Punct(p) => out.push(SourceToken::Punct(p.as_char(), p.spacing() == Spacing::Joint)),
            TokenTree::Literal(l) => out.push(SourceToken::Literal(l.to_string())) } }
    Some(out)
}

/// Tokens as `proc_macro2` holds them.
#[verifier::external_type_specification]
#[verifier::external_body]
pub struct ExTokenStream(proc_macro2::TokenStream);

/// The tokens of `text` without a place in a source: their spans are all that of
/// the call site. `None` if the text is not made of tokens.
pub uninterp spec fn unplaced(text: Seq<char>) -> Option<TokenStream>;

/// `<TokenStream as FromStr>::from_str` reads a text into tokens;
/// `TokenTree::set_span` takes their place away, and `Group::new` that of a
/// group. The result is a function of the text.
#[verifier::external_body]
fn read_unplaced(text: &str) -> (r: Option<TokenStream>)
    ensures
        r == unplaced(text@),
{
    TokenStream::from_str(text).ok()?.into_iter().map(|token| match token {
        TokenTree::Group(g) => read_unplaced(&g.stream().to_string()).map(
            |inner| TokenTree::Group(Group::new(g.delimiter(), inner))),
        mut other => {
            other.set_span(Span::call_site());
            Some(other)
        },
    }).collect()
}

/// The debug form of each top-level item that `syn` parses from the tokens;
/// `None` if they do not parse.
pub uninterp spec fn item_forms(tokens: TokenStream) -> Option<Seq<Seq<char>>>;

/// `syn::parse2` parses tokens into items, each shown by its `Debug`. The result
/// is a function of the tokens and their places; that of a token without a place
/// shows none.
#[verifier::external_body]
fn show_items(tokens: TokenStream) -> (r: Option<Vec<String>>)
    ensures
        r.deep_view() == item_forms(tokens),
{
    let file = syn::parse2::<syn::File>(tokens).ok()?;
    Some(file.items.iter().map(|item| format!("{:?}", item)).collect())
}

/// `macro_rules! name` and the bracket of its body stand at `i`.
pub open spec fn starts_rules(ts: Seq<TokenView>, i: int) -> bool {
    &&& 0 <= i
    &&& i + 3 < ts.len()
    &&& ts[i] == TokenView::Word("macro_rules"@)
    &&& ts[i + 1] matches TokenView::Punct(c, _) && c == '!'
    &&& ts[i + 2] is Word
    &&& ts[i + 3] is Open
}

/// The tokens from `i` on, up to the bracket that closes the body, are rules
/// `(..) => {..}` with `;` between them; the last may be cut short. `state`
/// counts what was read of a rule: its pattern, `=`, `>`, its body. `depth`
/// counts the brackets that are open inside the rule.
pub open spec fn rules_fit(ts: Seq<TokenView>, i: int, state: nat, depth: nat) -> bool
    decreases ts.len() - i,
{
    if i < 0 || i >= ts.len() {
        true
    } else if depth > 0 {
        match ts[i] {
            TokenView::Open(_) => rules_fit(ts, i + 1, state, depth + 1),
            TokenView::Close(_) => rules_fit(ts, i + 1, state, (depth - 1) as nat),
            _ => rules_fit(ts, i + 1, state, depth),
        }
    } else {
        match ts[i] {
            TokenView::Close(_) => true,
            TokenView::Open(_) => (state == 0 || state == 3) && rules_fit(ts, i + 1, state + 1, 1),
            TokenView::Punct(c, joined) => {
                let next = match c {
                    '=' => state == 1 && joined,
                    '>' => state == 2 && !joined,
                    ';' => state == 4 && !joined,
                    _ => false,
                };
                next && rules_fit(
                    ts,
                    i + 1,
                    if state == 4 {
                        0
                    } else {
                        state + 1
                    },
                    0,
                )
            },
            _ => false,
        }
    }
}

/// A word that cannot name a macro.
pub open spec fn reserved(w: Seq<char>) -> bool {
    ||| w == "as"@ || w == "async"@ || w == "await"@ || w == "become"@ || w == "box"@
    ||| w == "break"@ || w == "const"@ || w == "continue"@ || w == "do"@ || w == "dyn"@
    ||| w == "else"@ || w == "enum"@ || w == "fn"@ || w == "for"@ || w == "if"@
    ||| w == "impl"@ || w == "in"@ || w == "let"@ || w == "loop"@ || w == "match"@
    ||| w == "mod"@ || w == "move"@ || w == "mut"@ || w == "pub"@ || w == "ref"@
    ||| w == "return"@ || w == "static"@ || w == "struct"@ || w == "trait"@ || w == "type"@
    ||| w == "unsafe"@ || w == "use"@ || w == "where"@ || w == "while"@ || w == "yield"@
}

/// The character `c` of punctuation stands at `i`.
pub open spec fn punct_at(ts: Seq<TokenView>, i: int, c: char) -> bool {
    0 <= i < ts.len() && (ts[i] matches TokenView::Punct(p, _) && p == c)
}

/// An opening bracket stands at `i`.
pub open spec fn opens_at(ts: Seq<TokenView>, i: int) -> bool {
    0 <= i < ts.len() && ts[i] is Open
}

/// Where the body of a macro opens whose last word, before the `!`, stands at
/// `i`. A name may stand between the `!` and the body.
pub open spec fn macro_body(ts: Seq<TokenView>, i: int) -> Option<int> {
    if 0 <= i < ts.len() && (ts[i] matches TokenView::Word(w) && !reserved(w)) && !punct_at(
        ts,
        i - 1,
        '\'',
    ) && punct_at(ts, i + 1, '!') {
        if opens_at(ts, i + 2) {
            Some(i + 2)
        } else if i + 2 < ts.len() && ts[i + 2] is Word && opens_at(ts, i + 3) {
            Some(i + 3)
        } else {
            None
        }
    } else {
        None
    }
}

/// The end of the path that starts at `i`.
pub open spec fn path_end(ts: Seq<TokenView>, i: int) -> int
    decreases ts.len() - i,
{
    if 0 <= i < ts.len() && (ts[i] is Word || punct_at(ts, i, ':')) {
        path_end(ts, i + 1)
    } else {
        i
    }
}

/// Where the arguments of an attribute open whose `#` stands at `i`.
pub open spec fn attribute_arguments(ts: Seq<TokenView>, i: int) -> Option<int> {
    let bracket = if punct_at(ts, i + 1, '!') {
        i + 2
    } else {
        i + 1
    };
    if punct_at(ts, i, '#') && opens_at(ts, bracket) && ts[bracket] == TokenView::Open('[')
        && opens_at(ts, path_end(ts, bracket + 1)) {
        Some(path_end(ts, bracket + 1))
    } else {
        None
    }
}

/// The position behind the bracket that closes what is open: `depth` brackets
/// and those that open from `i` on.
pub open spec fn group_end(ts: Seq<TokenView>, i: int, depth: nat) -> int
    decreases ts.len() - i,
{
    if i < 0 || i >= ts.len() {
        ts.len() as int
    } else {
        match ts[i] {
            TokenView::Open(_) => group_end(ts, i + 1, depth + 1),
            TokenView::Close(_) => if depth <= 1 {
                i + 1
            } else {
                group_end(ts, i + 1, (depth - 1) as nat)
            },
            _ => group_end(ts, i + 1, depth),
        }
    }
}

/// A group ends behind its start.
pub proof fn group_end_bound(ts: Seq<TokenView>, i: int, depth: nat)
    requires
        0 <= i <= ts.len(),
    ensures
        i <= group_end(ts, i, depth) <= ts.len(),
        i < ts.len() ==> i < group_end(ts, i, depth),
    decreases ts.len() - i,
{
    if i < ts.len() {
        group_end_bound(ts, i + 1, depth + 1);
        group_end_bound(ts, i + 1, (depth - 1) as nat);
        group_end_bound(ts, i + 1, depth);
    }
}

proof fn path_end_bound(ts: Seq<TokenView>, i: int)
    requires
        0 <= i <= ts.len(),
    ensures
        i <= path_end(ts, i) <= ts.len(),
    decreases ts.len() - i,
{
    if i < ts.len() && (ts[i] is Word || punct_at(ts, i, ':')) {
        path_end_bound(ts, i + 1);
    }
}

/// From `i` on, every definition by `macro_rules` that is an item is made of
/// rules. What stands in the body of a macro or in the arguments of an attribute
/// is no item.
pub open spec fn definitions_fit(ts: Seq<TokenView>, i: int) -> bool
    decreases ts.len() - i,
    when 0 <= i
{
    if i >= ts.len() {
        true
    } else {
        match attribute_arguments(ts, i) {
            Some(e) => {
                proof {
                    attribute_is_ahead(ts, i);
                    group_end_bound(ts, e, 0);
                }
                definitions_fit(ts, group_end(ts, e, 0))
            },
            None => match macro_body(ts, i) {
                Some(e) => {
                    proof {
                        group_end_bound(ts, e, 0);
                    }
                    (starts_rules(ts, i) && !punct_at(ts, i - 1, ':') ==> rules_fit(
                        ts,
                        i + 4,
                        0,
                        0,
                    )) && definitions_fit(ts, group_end(ts, e, 0))
                },
                None => definitions_fit(ts, i + 1),
            },
        }
    }
}

/// The arguments of an attribute open behind its `#`.
pub proof fn attribute_is_ahead(ts: Seq<TokenView>, i: int)
    requires
        0 <= i,
    ensures
        attribute_arguments(ts, i) matches Some(e) ==> i < e < ts.len(),
{
    if attribute_arguments(ts, i) is Some {
        let bracket = if punct_at(ts, i + 1, '!') {
            i + 2
        } else {
            i + 1
        };
        path_end_bound(ts, bracket + 1);
    }
}

/// An item with this text has only definitions by `macro_rules` that are made of
/// rules.
pub open spec fn definitions_print(text: Option<Seq<char>>) -> bool {
    match text {
        Some(t) => source_tokens(t) matches Some(ts) && definitions_fit(ts, 0),
        None => false,
    }
}

/// A literal that stands for a text, and not for one character.
pub open spec fn text_literal(l: Seq<char>) -> bool {
    l.contains('"') && !"'"@.is_prefix_of(l) && !"b'"@.is_prefix_of(l)
}

/// A literal of a text with nothing in it, of the same kind.
pub open spec fn emptied(l: Seq<char>) -> Seq<char> {
    if !text_literal(l) {
        l
    } else if "b"@.is_prefix_of(l) {
        "b\"\""@
    } else if "c"@.is_prefix_of(l) {
        "c\"\""@
    } else {
        "\"\""@
    }
}

/// A token as it is written, with its text emptied.
pub open spec fn written(t: TokenView) -> Seq<char> {
    match t {
        TokenView::Word(w) => w + " "@,
        TokenView::Punct(c, joined) => if joined {
            seq![c]
        } else {
            seq![c, ' ']
        },
        TokenView::Literal(l) => emptied(l) + " "@,
        TokenView::Open(c) => seq![c, ' '],
        TokenView::Close(c) => seq![c, ' '],
    }
}

/// The tokens as a text, with nothing in its text literals.
pub open spec fn outline(ts: Seq<TokenView>) -> Seq<char>
    decreases ts.len(),
{
    if ts.len() == 0 {
        seq![]
    } else {
        outline(ts.drop_last()) + written(ts.last())
    }
}

/// What follows a byte order mark and the `#!` line `line` of `source`. This is
/// the text that is parsed.
pub open spec fn past_shebang(source: Seq<char>, line: Option<Seq<char>>) -> Seq<char> {
    let mark = if "\u{feff}"@.is_prefix_of(source) {
        1int
    } else {
        0
    };
    let from = mark + match line {
        Some(l) => l.len() as int,
        None => 0,
    };
    if from <= source.len() {
        source.skip(from)
    } else {
        source
    }
}

/// What `syn` parses of `source`: what follows a byte order mark and a `#!` line.
pub open spec fn parsed_text(source: Seq<char>) -> Seq<char> {
    past_shebang(source, shebang_line(source))
}

/// The tokens that `syn` parses of `source`.
pub open spec fn tokens_of(source: Seq<char>) -> Option<Seq<TokenView>> {
    source_tokens(parsed_text(source))
}

/// The debug forms of the items of a source with the given tokens. No text of
/// the source can be taken for a part of its form.
pub open spec fn forms_of(ts: Seq<TokenView>) -> Option<Seq<Seq<char>>> {
    match unplaced(outline(ts)) {
        Some(tokens) => item_forms(tokens),
        None => None,
    }
}

/// An item of this form holds syntax that `syn` keeps as tokens. An empty
/// statement is kept as no token, and an expression or item of no token prints.
pub open spec fn keeps_tokens(form: Seq<char>) -> bool {
    let filled = replaced(form, "::Verbatim(TokenStream [])"@, ""@);
    has_part(filled, "Item::Verbatim("@) || has_part(filled, "Expr::Verbatim("@) || has_part(
        form,
        "Type::Verbatim("@,
    ) || has_part(form, "Pat::Verbatim("@) || has_part(form, "TypeParamBound::Verbatim("@)
}

/// The item at `i` is a bare token list; or its form has no syntax that is kept
/// as tokens, and its definitions by `macro_rules` are made of rules.
pub open spec fn item_prints(
    items: Seq<ItemView>,
    texts: Seq<Option<Seq<char>>>,
    forms: Seq<Seq<char>>,
    i: int,
) -> bool {
    items[i] is Bare || (!keeps_tokens(forms[i]) && definitions_print(texts[i]))
}

/// Every item prints, given the texts and the forms of the items.
pub open spec fn all_print(
    items: Seq<ItemView>,
    texts: Seq<Option<Seq<char>>>,
    forms: Seq<Seq<char>>,
) -> bool {
    &&& texts.len() == items.len()
    &&& forms.len() == items.len()
    &&& forall|i: int| 0 <= i < items.len() ==> #[trigger] item_prints(items, texts, forms, i)
}

/// Every item of `source` prints.
pub open spec fn source_prints(source: Seq<char>) -> bool {
    match (parsed_items(source), item_texts(source), tokens_of(source)) {
        (Some(items), Some(texts), Some(ts)) => forms_of(ts) matches Some(forms) && all_print(
            items,
            texts,
            forms,
        ),
        _ => false,
    }
}

/// What the printer makes of the item of `source` at position `i`.
pub uninterp spec fn unparsed_item(source: Seq<char>, i: int) -> Seq<char>;

/// `prettyplease::unparse` prints one item of a parsed file. The result is a
/// function of the text and the position. `unparse` stops the program on syntax
/// that `syn` keeps as tokens (its debug form says `Verbatim`), and on an item
/// that defines a macro by `macro_rules` with a body that is not made of rules,
/// so such sources are left out.
#[verifier::external_body]
fn unparse_item(source: &str, i: usize) -> (r: String)
    requires
        source_prints(source@),
        i < parsed_items(source@)->0.len(),
        !(parsed_items(source@)->0[i as int] is Bare),
    ensures
        r@ == unparsed_item(source@, i as int),
{
    let mut items = syn::parse_file(source).map(|file| file.items).unwrap_or_default();
    let item = items.swap_remove(i);
    prettyplease::unparse(&syn::File { shebang: None, attrs: Vec::new(), items: vec![item] })
}

// ---------------------------------------------------------------------------
// Splitting
// ---------------------------------------------------------------------------

/// How the item at `i` is printed: a bare token list as its tokens, any other
/// item by the printer.
pub open spec fn printed_item(source: Seq<char>, items: Seq<ItemView>, i: int) -> Seq<char> {
    match items[i] {
        ItemView::Bare(tokens) => tokens,
        _ => unparsed_item(source, i),
    }
}

/// The printed items of `source`, if it parses and all of them print.
pub open spec fn printed_items(source: Seq<char>) -> Option<Seq<Seq<char>>> {
    match parsed_items(source) {
        Some(items) => if source_prints(source) {
            Some(Seq::new(items.len(), |i: int| printed_item(source, items, i)))
        } else {
            None
        },
        None => None,
    }
}

/// The declarations of a source with the printed items `printed`: each without
/// trailing line feeds, or the whole source where there are none.
pub open spec fn declarations_of(source: Seq<char>, printed: Option<Seq<Seq<char>>>) -> Seq<
    Seq<char>,
> {
    match printed {
        Some(items) => Seq::new(items.len(), |i: int| without_newlines(items[i])),
        None => seq![without_newlines(source)],
    }
}

/// Whether an item of this form holds syntax that is kept as tokens.
pub fn check_keeps_tokens(form: &str) -> (r: bool)
    ensures
        r == keeps_tokens(form@),
{
    proof {
        reveal_strlit("::Verbatim(TokenStream [])");
    }
    let filled = replace(form, "::Verbatim(TokenStream [])", "");
    contains(filled.as_str(), "Item::Verbatim(") || contains(filled.as_str(), "Expr::Verbatim(")
        || contains(form, "Type::Verbatim(") || contains(form, "Pat::Verbatim(") || contains(
        form,
        "TypeParamBound::Verbatim(",
    )
}

fn check_starts_rules(ts: &Vec<SourceToken>, i: usize) -> (r: bool)
    ensures
        r == starts_rules(ts.deep_view(), i as int),
{
    if ts.len() < 4 || i > ts.len() - 4 {
        return false;
    }
    let named = match &ts[i] {
        SourceToken::Word(w) => same(w.as_str(), "macro_rules"),
        _ => false,
    };
    let bang = match &ts[i + 1] {
        SourceToken::Punct(c, _) => *c == '!',
        _ => false,
    };
    let name = match &ts[i + 2] {
        SourceToken::Word(_) => true,
        _ => false,
    };
    let body = match &ts[i + 3] {
        SourceToken::Open(_) => true,
        _ => false,
    };
    named && bang && name && body
}

fn check_rules(ts: &Vec<SourceToken>, from: usize) -> (r: bool)
    ensures
        r == rules_fit(ts.deep_view(), from as int, 0, 0),
{
    let ghost all = ts.deep_view();
    let mut i: usize = from;
    let mut state: u8 = 0;
    let mut depth: usize = 0;
    while i < ts.len()
        invariant
            all == ts.deep_view(),
            from <= i,
            state <= 4,
            depth <= i - from,
            rules_fit(all, from as int, 0, 0) == rules_fit(
                all,
                i as int,
                state as nat,
                depth as nat,
            ),
        decreases ts@.len() - i,
    {
        proof {
            assert(all[i as int] == ts@[i as int].deep_view());
        }
        if depth > 0 {
            match &ts[i] {
                SourceToken::Open(_) => {
                    depth += 1;
                },
                SourceToken::Close(_) => {
                    depth -= 1;
                },
                _ => {},
            }
        } else {
            match &ts[i] {
                SourceToken::Close(_) => {
                    return true;
                },
                SourceToken::Open(_) => {
                    if state != 0 && state != 3 {
                        return false;
                    }
                    state += 1;
                    depth = 1;
                },
                SourceToken::Punct(c, joined) => {
                    let next = match *c {
                        '=' => state == 1 && *joined,
                        '>' => state == 2 && !*joined,
                        ';' => state == 4 && !*joined,
                        _ => false,
                    };
                    if !next {
                        return false;
                    }
                    state = if state == 4 {
                        0
                    } else {
                        state + 1
                    };
                },
                _ => {
                    return false;
                },
            }
        }
        i += 1;
    }
    true
}

fn is_reserved(w: &str) -> (r: bool)
    ensures
        r == reserved(w@),
{
    same(w, "as") || same(w, "async") || same(w, "await") || same(w, "become") || same(w, "box")
        || same(w, "break") || same(w, "const") || same(w, "continue") || same(w, "do") || same(
        w,
        "dyn",
    ) || same(w, "else") || same(w, "enum") || same(w, "fn") || same(w, "for") || same(w, "if")
        || same(w, "impl") || same(w, "in") || same(w, "let") || same(w, "loop") || same(w, "match")
        || same(w, "mod") || same(w, "move") || same(w, "mut") || same(w, "pub") || same(w, "ref")
        || same(w, "return") || same(w, "static") || same(w, "struct") || same(w, "trait") || same(
        w,
        "type",
    ) || same(w, "unsafe") || same(w, "use") || same(w, "where") || same(w, "while") || same(
        w,
        "yield",
    )
}

fn has_punct(ts: &Vec<SourceToken>, i: usize, c: char) -> (r: bool)
    ensures
        r == punct_at(ts.deep_view(), i as int, c),
{
    if i >= ts.len() {
        return false;
    }
    match &ts[i] {
        SourceToken::Punct(p, _) => *p == c,
        _ => false,
    }
}

fn has_open(ts: &Vec<SourceToken>, i: usize) -> (r: bool)
    ensures
        r == opens_at(ts.deep_view(), i as int),
{
    if i >= ts.len() {
        return false;
    }
    match &ts[i] {
        SourceToken::Open(_) => true,
        _ => false,
    }
}

fn find_macro_body(ts: &Vec<SourceToken>, i: usize) -> (r: Option<usize>)
    requires
        i < ts@.len(),
    ensures
        match r {
            Some(e) => macro_body(ts.deep_view(), i as int) == Some(e as int) && i < e < ts@.len(),
            None => macro_body(ts.deep_view(), i as int) is None,
        },
{
    let named = match &ts[i] {
        SourceToken::Word(w) => !is_reserved(w.as_str()),
        _ => false,
    };
    if !named || (i > 0 && has_punct(ts, i - 1, '\'')) || ts.len() - i < 3 || !has_punct(
        ts,
        i + 1,
        '!',
    ) {
        return None;
    }
    if has_open(ts, i + 2) {
        return Some(i + 2);
    }
    let name = match &ts[i + 2] {
        SourceToken::Word(_) => true,
        _ => false,
    };
    if name && ts.len() - i > 3 && has_open(ts, i + 3) {
        Some(i + 3)
    } else {
        None
    }
}

fn find_attribute_arguments(ts: &Vec<SourceToken>, i: usize) -> (r: Option<usize>)
    requires
        i < ts@.len(),
    ensures
        match r {
            Some(e) => attribute_arguments(ts.deep_view(), i as int) == Some(e as int) && i < e
                < ts@.len(),
            None => attribute_arguments(ts.deep_view(), i as int) is None,
        },
{
    let ghost all = ts.deep_view();
    if !has_punct(ts, i, '#') || ts.len() - i < 2 {
        return None;
    }
    let bracket: usize = if has_punct(ts, i + 1, '!') {
        i + 2
    } else {
        i + 1
    };
    if bracket >= ts.len() {
        return None;
    }
    let square = match &ts[bracket] {
        SourceToken::Open(c) => *c == '[',
        _ => false,
    };
    if !square {
        return None;
    }
    let mut e: usize = bracket + 1;
    while e < ts.len()
        invariant_except_break
            path_end(all, bracket + 1) == path_end(all, e as int),
        invariant
            all == ts.deep_view(),
            bracket < e <= ts@.len(),
        ensures
            path_end(all, bracket + 1) == e,
        decreases ts@.len() - e,
    {
        let word = match &ts[e] {
            SourceToken::Word(_) => true,
            _ => false,
        };
        if !word && !has_punct(ts, e, ':') {
            break;
        }
        e += 1;
    }
    if has_open(ts, e) {
        Some(e)
    } else {
        None
    }
}

fn find_group_end(ts: &Vec<SourceToken>, from: usize) -> (r: usize)
    requires
        from < ts@.len(),
    ensures
        r == group_end(ts.deep_view(), from as int, 0),
        from < r <= ts@.len(),
{
    let ghost all = ts.deep_view();
    let mut i: usize = from;
    let mut depth: usize = 0;
    while i < ts.len()
        invariant
            all == ts.deep_view(),
            from <= i <= ts@.len(),
            from < ts@.len(),
            depth <= i - from,
            group_end(all, from as int, 0) == group_end(all, i as int, depth as nat),
        decreases ts@.len() - i,
    {
        proof {
            assert(all[i as int] == ts@[i as int].deep_view());
        }
        match &ts[i] {
            SourceToken::Open(_) => {
                depth += 1;
            },
            SourceToken::Close(_) => {
                if depth <= 1 {
                    return i + 1;
                }
                depth -= 1;
            },
            _ => {},
        }
        i += 1;
    }
    i
}

/// Whether every definition by `macro_rules` that is an item among the tokens is
/// made of rules.
pub fn check_definitions(ts: &Vec<SourceToken>) -> (r: bool)
    ensures
        r == definitions_fit(ts.deep_view(), 0),
{
    let ghost all = ts.deep_view();
    let mut i: usize = 0;
    while i < ts.len()
        invariant
            all == ts.deep_view(),
            i <= ts@.len(),
            definitions_fit(all, 0) == definitions_fit(all, i as int),
        decreases ts@.len() - i,
    {
        match find_attribute_arguments(ts, i) {
            Some(e) => {
                i = find_group_end(ts, e);
            },
            None => match find_macro_body(ts, i) {
                Some(e) => {
                    if check_starts_rules(ts, i) && !(i > 0 && has_punct(ts, i - 1, ':'))
                        && !check_rules(ts, i + 4) {
                        return false;
                    }
                    i = find_group_end(ts, e);
                },
                None => {
                    i += 1;
                },
            },
        }
    }
    true
}

fn check_definitions_print(text: &Option<String>) -> (r: bool)
    ensures
        r == definitions_print(text.deep_view()),
{
    match text {
        Some(t) => match read_tokens(t.as_str()) {
            Some(ts) => check_definitions(&ts),
            None => false,
        },
        None => false,
    }
}

fn empty_literal(l: &str) -> (r: String)
    ensures
        r@ == emptied(l@),
{
    if !contains_char(l, '"') || starts_with(l, "'") || starts_with(l, "b'") {
        l.to_owned()
    } else if starts_with(l, "b") {
        "b\"\"".to_owned()
    } else if starts_with(l, "c") {
        "c\"\"".to_owned()
    } else {
        "\"\"".to_owned()
    }
}

/// Writes the tokens as a text, with nothing in its text literals.
pub fn write_outline(ts: &Vec<SourceToken>) -> (r: String)
    ensures
        r@ == outline(ts.deep_view()),
{
    let ghost all = ts.deep_view();
    let mut out = String::new();
    let mut i: usize = 0;
    proof {
        assert(out@ =~= outline(all.take(0)));
        reveal_strlit(" ");
    }
    while i < ts.len()
        invariant
            all == ts.deep_view(),
            i <= ts@.len(),
            out@ == outline(all.take(i as int)),
            " "@ =~= seq![' '],
        decreases ts@.len() - i,
    {
        let ghost before = out@;
        match &ts[i] {
            SourceToken::Word(w) => {
                out.push_str(w.as_str());
                out.push(' ');
            },
            SourceToken::Punct(c, joined) => {
                out.push(*c);
                if !*joined {
                    out.push(' ');
                }
            },
            SourceToken::Literal(l) => {
                out.push_str(empty_literal(l.as_str()).as_str());
                out.push(' ');
            },
            SourceToken::Open(c) => {
                out.push(*c);
                out.push(' ');
            },
            SourceToken::Close(c) => {
                out.push(*c);
                out.push(' ');
            },
        }
        proof {
            assert(all.take(i + 1).drop_last() =~= all.take(i as int));
            assert(all.take(i + 1).last() == ts@[i as int].deep_view());
            assert(out@ =~= before + written(ts@[i as int].deep_view()));
        }
        i += 1;
    }
    proof {
        assert(all.take(i as int) =~= all);
    }
    out
}

/// What follows a byte order mark and the `#!` line `line` of `source`.
pub fn skip_shebang(source: &str, line: Option<&str>) -> (r: String)
    ensures
        r@ == past_shebang(
            source@,
            match line {
                Some(l) => Some(l@),
                None => None,
            },
        ),
{
    let cs = chars_of(source);
    let n: usize = match line {
        Some(l) => chars_of(l).len(),
        None => 0,
    };
    let mark: usize = if starts_with(source, "\u{feff}") {
        1
    } else {
        0
    };
    proof {
        reveal_strlit("\u{feff}");
    }
    if mark <= cs.len() && n <= cs.len() - mark {
        proof {
            assert(source@.subrange(n + mark, source@.len() as int) =~= source@.skip(n + mark));
        }
        string_of(cs.as_slice(), n + mark, cs.len())
    } else {
        source.to_owned()
    }
}

/// What `syn` parses of `source`.
pub fn read_parsed_text(source: &str) -> (r: String)
    ensures
        r@ == parsed_text(source@),
{
    match read_shebang(source) {
        Some(line) => skip_shebang(source, Some(line.as_str())),
        None => skip_shebang(source, None),
    }
}

/// Whether every item prints, given the texts and the forms of the items.
pub fn check_all_print(items: &Vec<ItemParts>, texts: &Vec<Option<String>>, forms: &Vec<String>)
    -> (r: bool)
    ensures
        r == all_print(items.deep_view(), texts.deep_view(), forms.deep_view()),
{
    let ghost all = items.deep_view();
    let ghost written = texts.deep_view();
    let ghost shapes = forms.deep_view();
    if forms.len() != items.len() || texts.len() != items.len() {
        return false;
    }
    let mut i: usize = 0;
    while i < items.len()
        invariant
            all == items.deep_view(),
            written == texts.deep_view(),
            shapes == forms.deep_view(),
            items@.len() == forms@.len(),
            items@.len() == texts@.len(),
            i <= items@.len(),
            forall|j: int| 0 <= j < i ==> #[trigger] item_prints(all, written, shapes, j),
        decreases items@.len() - i,
    {
        proof {
            assert(all[i as int] == items@[i as int].deep_view());
            assert(written[i as int] == texts@[i as int].deep_view());
            assert(shapes[i as int] == forms@[i as int]@);
        }
        let bare = match &items[i] {
            ItemParts::Bare(_) => true,
            _ => false,
        };
        if !bare && (check_keeps_tokens(forms[i].as_str()) || !check_definitions_print(&texts[i])) {
            proof {
                assert(!item_prints(all, written, shapes, i as int));
            }
            return false;
        }
        i += 1;
    }
    true
}

fn check_source_prints(source: &str, items: &Vec<ItemParts>) -> (r: bool)
    requires
        parsed_items(source@) == Some(items.deep_view()),
    ensures
        r == source_prints(source@),
{
    let texts = match read_item_texts(source) {
        Some(texts) => texts,
        None => {
            return false;
        },
    };
    match read_tokens(read_parsed_text(source).as_str()) {
        Some(ts) => match read_unplaced(write_outline(&ts).as_str()) {
            Some(tokens) => match show_items(tokens) {
                Some(forms) => check_all_print(items, &texts, &forms),
                None => false,
            },
            None => false,
        },
        None => false,
    }
}

/// Prints every top-level item of `source`.
pub fn print_items(source: &str) -> (r: Option<Vec<String>>)
    ensures
        r.deep_view() == printed_items(source@),
{
    let items = match parse_items(source) {
        Some(items) => items,
        None => {
            return None;
        },
    };
    if !check_source_prints(source, &items) {
        return None;
    }
    let ghost all = items.deep_view();
    let ghost want = printed_items(source@)->0;
    let mut out: Vec<String> = Vec::new();
    let mut k: usize = 0;
    while k < items.len()
        invariant
            all == items.deep_view(),
            parsed_items(source@) == Some(all),
            source_prints(source@),
            want.len() == all.len(),
            forall|j: int|
                0 <= j < want.len() ==> (#[trigger] want[j]) == printed_item(source@, all, j),
            k <= items@.len(),
            out@.len() == k,
            forall|j: int| 0 <= j < k ==> (#[trigger] out@[j])@ == want[j],
        decreases items@.len() - k,
    {
        proof {
            assert(all[k as int] == items@[k as int].deep_view());
        }
        let text = match &items[k] {
            ItemParts::Bare(tokens) => tokens.as_str().to_owned(),
            _ => unparse_item(source, k),
        };
        out.push(text);
        k += 1;
    }
    proof {
        assert(out.deep_view() =~= want);
    }
    Some(out)
}

/// The declarations that the printed items of a source give. A source without
/// printed items is one declaration.
pub fn declarations_from(source: &str, printed: Option<Vec<String>>) -> (r: Vec<String>)
    ensures
        r.deep_view() == declarations_of(source@, printed.deep_view()),
{
    let mut out: Vec<String> = Vec::new();
    match printed {
        Some(items) => {
            let ghost all = items.deep_view();
            let mut i: usize = 0;
            while i < items.len()
                invariant
                    all == items.deep_view(),
                    i <= items@.len(),
                    out@.len() == i,
                    forall|j: int| 0 <= j < i ==> (#[trigger] out@[j])@ == without_newlines(all[j]),
                decreases items@.len() - i,
            {
                out.push(trim_newlines(items[i].as_str()).to_owned());
                i += 1;
            }
            proof {
                assert(out.deep_view() =~= declarations_of(source@, Some(all)));
            }
        },
        None => {
            out.push(trim_newlines(source).to_owned());
            proof {
                assert(out.deep_view() =~= declarations_of(source@, None));
            }
        },
    }
    out
}

// ---------------------------------------------------------------------------
// Stubs
// ---------------------------------------------------------------------------

/// The bodies of the members that are functions.
pub open spec fn method_bodies(members: Seq<Option<BodyView>>) -> Seq<BodyView>
    decreases members.len(),
{
    if members.len() == 0 {
        seq![]
    } else {
        let rest = method_bodies(members.drop_last());
        match members.last() {
            Some(body) => rest.push(body),
            None => rest,
        }
    }
}

/// The bodies that are stubbed in an item: that of a function, and those of the
/// functions of an `impl` block.
pub open spec fn bodies_of(item: ItemView) -> Seq<BodyView> {
    match item {
        ItemView::Fn(body) => seq![body],
        ItemView::Impl(members) => method_bodies(members),
        ItemView::Bare(_) => seq![],
        ItemView::Other => seq![],
    }
}

/// The bytes that the bodies of an item cover.
pub open spec fn body_ranges(item: ItemView) -> Seq<(usize, usize)> {
    bodies_of(item).map_values(|b: BodyView| (b.range.start, b.range.end))
}

/// The bodies that are stubbed in an item.
pub fn collect_bodies<'a>(item: &'a ItemParts) -> (r: Vec<&'a Body>)
    ensures
        r@.len() == bodies_of(item.deep_view()).len(),
        forall|i: int|
            0 <= i < r@.len() ==> (#[trigger] r@[i]).deep_view() == bodies_of(item.deep_view())[i],
{
    let mut out: Vec<&'a Body> = Vec::new();
    match item {
        ItemParts::Fn(body) => {
            out.push(body);
        },
        ItemParts::Impl(members) => {
            let ghost all = members.deep_view();
            let mut i: usize = 0;
            while i < members.len()
                invariant
                    all == members.deep_view(),
                    i <= members@.len(),
                    out@.len() == method_bodies(all.take(i as int)).len(),
                    forall|k: int|
                        0 <= k < out@.len() ==> (#[trigger] out@[k]).deep_view() == method_bodies(
                            all.take(i as int),
                        )[k],
                decreases members@.len() - i,
            {
                proof {
                    assert(all.take(i + 1).drop_last() =~= all.take(i as int));
                    assert(all.take(i + 1).last() == members@[i as int].deep_view());
                }
                match &members[i] {
                    Some(body) => {
                        out.push(body);
                    },
                    None => {},
                }
                i += 1;
            }
            proof {
                assert(all.take(i as int) =~= all);
            }
        },
        ItemParts::Bare(_) => {},
        ItemParts::Other => {},
    }
    out
}

/// The bytes that the bodies of an item cover.
pub fn collect_ranges(item: &ItemParts) -> (r: Vec<(usize, usize)>)
    ensures
        r@ == body_ranges(item.deep_view()),
{
    let bodies = collect_bodies(item);
    let mut out: Vec<(usize, usize)> = Vec::new();
    let mut i: usize = 0;
    while i < bodies.len()
        invariant
            bodies@.len() == bodies_of(item.deep_view()).len(),
            forall|k: int|
                0 <= k < bodies@.len() ==> (#[trigger] bodies@[k]).deep_view() == bodies_of(
                    item.deep_view(),
                )[k],
            i <= bodies@.len(),
            out@ == body_ranges(item.deep_view()).take(i as int),
        decreases bodies@.len() - i,
    {
        let body = bodies[i];
        out.push((body.range.start, body.range.end));
        proof {
            let all = body_ranges(item.deep_view());
            assert(all.take(i + 1) =~= all.take(i as int).push(all[i as int]));
        }
        i += 1;
    }
    proof {
        assert(body_ranges(item.deep_view()).take(i as int) =~= body_ranges(item.deep_view()));
    }
    out
}

/// The ranges ascend without overlap from `from` on, inside a text of `len`
/// bytes.
pub open spec fn ranges_ascend(ranges: Seq<(usize, usize)>, from: int, len: int) -> bool
    decreases ranges.len(),
{
    if ranges.len() == 0 {
        from <= len
    } else {
        from <= ranges[0].0 <= ranges[0].1 && ranges_ascend(
            ranges.skip(1),
            ranges[0].1 as int,
            len,
        )
    }
}

/// `bytes` from `from` on with each range replaced by `with`.
pub open spec fn replaced_ranges(
    bytes: Seq<u8>,
    ranges: Seq<(usize, usize)>,
    from: int,
    with: Seq<u8>,
) -> Seq<u8>
    decreases ranges.len(),
{
    if ranges.len() == 0 {
        bytes.skip(from)
    } else {
        bytes.subrange(from, ranges[0].0 as int) + with + replaced_ranges(
            bytes,
            ranges.skip(1),
            ranges[0].1 as int,
            with,
        )
    }
}

/// The text of a stubbed function body.
pub const STUB: &'static str = "{ todo!() }";

/// `source` with each of the `ranges` replaced by `stub`; `None` if the ranges
/// do not ascend inside the source or cut a character.
pub open spec fn stubbed(source: Seq<u8>, ranges: Seq<(usize, usize)>, stub: Seq<char>) -> Option<
    Seq<char>,
> {
    if ranges_ascend(ranges, 0, source.len() as int) {
        utf8_text(replaced_ranges(source, ranges, 0, vstd::utf8::encode_utf8(stub)))
    } else {
        None
    }
}

/// Appends `bytes[from..to]`.
pub fn push_range(out: &mut Vec<u8>, bytes: &[u8], from: usize, to: usize)
    requires
        from <= to <= bytes@.len(),
    ensures
        final(out)@ == old(out)@ + bytes@.subrange(from as int, to as int),
{
    let ghost start = out@;
    let mut i: usize = from;
    proof {
        assert(out@ =~= start + bytes@.subrange(from as int, from as int));
    }
    while i < to
        invariant
            from <= i <= to <= bytes@.len(),
            out@ == start + bytes@.subrange(from as int, i as int),
        decreases to - i,
    {
        out.push(bytes[i]);
        i += 1;
        proof {
            assert(bytes@.subrange(from as int, i as int) =~= bytes@.subrange(
                from as int,
                i - 1,
            ).push(bytes@[i - 1]));
            assert(out@ =~= start + bytes@.subrange(from as int, i as int));
        }
    }
}

proof fn ascend_bound(ranges: Seq<(usize, usize)>, from: int, len: int)
    requires
        ranges_ascend(ranges, from, len),
    ensures
        from <= len,
        ranges.len() > 0 ==> from <= ranges[0].0 <= ranges[0].1 <= len,
    decreases ranges.len(),
{
    if ranges.len() > 0 {
        ascend_bound(ranges.skip(1), ranges[0].1 as int, len);
    }
}

fn ascends(ranges: &Vec<(usize, usize)>, len: usize) -> (r: bool)
    ensures
        r == ranges_ascend(ranges@, 0, len as int),
{
    let mut from: usize = 0;
    let mut i: usize = 0;
    proof {
        assert(ranges@.skip(0) =~= ranges@);
    }
    while i < ranges.len()
        invariant
            i <= ranges@.len(),
            ranges_ascend(ranges@.skip(i as int), from as int, len as int) == ranges_ascend(
                ranges@,
                0,
                len as int,
            ),
        decreases ranges@.len() - i,
    {
        proof {
            assert(ranges@.skip(i as int)[0] == ranges@[i as int]);
            assert(ranges@.skip(i as int).skip(1) =~= ranges@.skip(i + 1));
        }
        if !(from <= ranges[i].0 && ranges[i].0 <= ranges[i].1) {
            return false;
        }
        from = ranges[i].1;
        i += 1;
    }
    from <= len
}

/// Replaces each of the `ranges` by `stub`.
pub fn stub_bodies(source: &[u8], ranges: &Vec<(usize, usize)>, stub: &str) -> (r: Option<String>)
    ensures
        r.deep_view() == stubbed(source@, ranges@, stub@),
{
    if !ascends(ranges, source.len()) {
        return None;
    }
    let stub = bytes_of(stub);
    let ghost with = stub@;
    let ghost want = replaced_ranges(source@, ranges@, 0, with);
    let mut out: Vec<u8> = Vec::new();
    let mut from: usize = 0;
    let mut i: usize = 0;
    proof {
        assert(ranges@.skip(0) =~= ranges@);
        assert(out@ + replaced_ranges(source@, ranges@, 0, with) =~= want);
    }
    while i < ranges.len()
        invariant
            with == stub@,
            i <= ranges@.len(),
            ranges_ascend(ranges@.skip(i as int), from as int, source@.len() as int),
            out@ + replaced_ranges(source@, ranges@.skip(i as int), from as int, with) == want,
        decreases ranges@.len() - i,
    {
        let ghost before = out@;
        let ghost rest = replaced_ranges(
            source@,
            ranges@.skip(i + 1),
            ranges@[i as int].1 as int,
            with,
        );
        proof {
            assert(ranges@.skip(i as int)[0] == ranges@[i as int]);
            assert(ranges@.skip(i as int).skip(1) =~= ranges@.skip(i + 1));
            ascend_bound(ranges@.skip(i as int), from as int, source@.len() as int);
        }
        push_range(&mut out, source, from, ranges[i].0);
        push_range(&mut out, stub.as_slice(), 0, stub.len());
        proof {
            assert(with.subrange(0, with.len() as int) =~= with);
            assert(out@ + rest =~= before + (source@.subrange(
                from as int,
                ranges@[i as int].0 as int,
            ) + with + rest));
        }
        from = ranges[i].1;
        i += 1;
    }
    let ghost before = out@;
    proof {
        ascend_bound(ranges@.skip(i as int), from as int, source@.len() as int);
        assert(source@.subrange(from as int, source@.len() as int) =~= source@.skip(from as int));
    }
    push_range(&mut out, source, from, source.len());
    read_utf8(out.as_slice())
}

} // verus!
