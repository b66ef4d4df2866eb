//! The declarations of a package while they are being repaired.
use crate::declarations::{
    assemble, assembled, build_line_index, end_line, find_decl, index_of, lines_fit, owner,
    owner_is_the_declaration_on_the_line, start_line,
};
use crate::fs::RawDir;
use crate::modular_fix_llm::splitter::split_source;
use crate::package::{package_source, read_package, PackageError};
use crate::rust_syntax::{
    bodies_of, collect_bodies, declarations_of, parse_items, parsed_items, parsed_text,
    print_items, printed_items, read_parsed_text, stub_bodies, stubbed, Body, BodyView,
    ItemParts, ItemView,
};
use crate::text::{bytes_of, join, joined, trim_newlines, without_newlines};
use std::ops::Range;
use vstd::prelude::*;

verus! {

/// One mutable declaration tracked during the repair loop.
#[derive(Debug)]
pub struct MutableDeclaration {
    /// Current Rust source for this declaration.
    pub source: String,
}

impl DeepView for MutableDeclaration {
    type V = Seq<char>;

    open spec fn deep_view(&self) -> Seq<char> {
        self.source@
    }
}

/// All mutable state needed to drive the repair loop.
#[derive(Debug)]
pub struct RepairState {
    pub declarations: Vec<MutableDeclaration>,
    pub cargo_toml: String,
    /// `"src/main.rs"` or `"src/lib.rs"`.
    pub source_file_name: String,
    /// Cached line index: `(line_start, line_end, decl_idx)`, 1-indexed.
    /// `None` means the index must be built before use.
    pub line_index: Option<Vec<(usize, usize, usize)>>,
}

// ---------------------------------------------------------------------------
// Stubs
// ---------------------------------------------------------------------------

/// What stands for the inside of a stubbed body, up to its closing bracket.
pub const STUB_INSIDE: &'static str = "\ntodo!() }";

/// The byte after the last of the attributes inside a body that starts at
/// `open`; `from` if there is none.
pub open spec fn after_attributes(
    attributes: Seq<Range<usize>>,
    open: usize,
    from: usize,
) -> usize
    decreases attributes.len(),
{
    if attributes.len() == 0 {
        from
    } else if attributes.last().start > open {
        attributes.last().end
    } else {
        after_attributes(attributes.drop_last(), open, from)
    }
}

/// What is replaced of a body: all but its opening bracket and the attributes
/// inside.
pub open spec fn inside(body: BodyView) -> (usize, usize) {
    let open = body.range.start;
    let from = if open < body.range.end {
        (open + 1) as usize
    } else {
        open
    };
    (after_attributes(body.attributes, open, from), body.range.end)
}

/// What is replaced of the bodies of one item.
pub open spec fn insides(item: ItemView) -> Seq<(usize, usize)> {
    bodies_of(item).map_values(|b: BodyView| inside(b))
}

/// What is replaced of the bodies of all items, in order.
pub open spec fn all_insides(items: Seq<ItemView>) -> Seq<(usize, usize)>
    decreases items.len(),
{
    if items.len() == 0 {
        seq![]
    } else {
        all_insides(items.drop_last()) + insides(items.last())
    }
}

/// The texts one after another.
pub open spec fn concatenated(parts: Seq<Seq<char>>) -> Seq<char>
    decreases parts.len(),
{
    if parts.len() == 0 {
        seq![]
    } else {
        concatenated(parts.drop_last()) + parts.last()
    }
}

/// The text of a declaration with the bodies of its items stubbed, if it parses
/// and they lie in it. The attributes inside a body stay.
pub open spec fn stubbed_at(source: Seq<char>, parsed: Option<Seq<ItemView>>) -> Option<Seq<char>> {
    match parsed {
        Some(items) => stubbed(vstd::utf8::encode_utf8(source), all_insides(items), STUB_INSIDE@),
        None => None,
    }
}

/// The text of a stub, printed where it prints.
pub open spec fn printed_stub(text: Seq<char>, printed: Option<Seq<Seq<char>>>) -> Seq<char> {
    match printed {
        Some(items) => without_newlines(concatenated(items)),
        None => without_newlines(text),
    }
}

/// A declaration with its function bodies stubbed.
pub open spec fn stub_of(source: Seq<char>) -> Seq<char> {
    match stubbed_at(parsed_text(source), parsed_items(source)) {
        Some(text) => printed_stub(text, printed_items(text)),
        None => without_newlines(source),
    }
}

fn find_after_attributes(attributes: &Vec<Range<usize>>, open: usize, from: usize) -> (r: usize)
    ensures
        r == after_attributes(attributes@, open, from),
{
    let mut n: usize = attributes.len();
    proof {
        assert(attributes@.take(n as int) =~= attributes@);
    }
    while n > 0
        invariant
            n <= attributes@.len(),
            after_attributes(attributes@.take(n as int), open, from) == after_attributes(
                attributes@,
                open,
                from,
            ),
        decreases n,
    {
        proof {
            assert(attributes@.take(n as int).drop_last() =~= attributes@.take(n - 1));
        }
        if attributes[n - 1].start > open {
            return attributes[n - 1].end;
        }
        n -= 1;
    }
    from
}

fn inside_of(body: &Body) -> (r: (usize, usize))
    ensures
        r == inside(body.deep_view()),
{
    let open: usize = body.range.start;
    let from: usize = if open < body.range.end {
        open + 1
    } else {
        open
    };
    (find_after_attributes(&body.attributes, open, from), body.range.end)
}

fn push_insides(out: &mut Vec<(usize, usize)>, item: &ItemParts)
    ensures
        final(out)@ == old(out)@ + insides(item.deep_view()),
{
    let ghost start = out@;
    let ghost all = insides(item.deep_view());
    let bodies = collect_bodies(item);
    let mut i: usize = 0;
    proof {
        assert(start + all.take(0) =~= start);
    }
    while i < bodies.len()
        invariant
            all == insides(item.deep_view()),
            bodies@.len() == bodies_of(item.deep_view()).len(),
            forall|k: int|
                0 <= k < bodies@.len() ==> (#[trigger] bodies@[k]).deep_view() == bodies_of(
                    item.deep_view(),
                )[k],
            i <= bodies@.len(),
            out@ == start + all.take(i as int),
        decreases bodies@.len() - i,
    {
        let one = inside_of(bodies[i]);
        out.push(one);
        proof {
            assert(all.take(i + 1) =~= all.take(i as int).push(one));
            assert(start + all.take(i + 1) =~= (start + all.take(i as int)).push(one));
        }
        i += 1;
    }
    proof {
        assert(all.take(i as int) =~= all);
    }
}

/// What is replaced of the bodies of all items.
fn collect_insides(items: &Vec<ItemParts>) -> (r: Vec<(usize, usize)>)
    ensures
        r@ == all_insides(items.deep_view()),
{
    let ghost all = items.deep_view();
    let mut out: Vec<(usize, usize)> = Vec::new();
    let mut i: usize = 0;
    proof {
        assert(out@ =~= all_insides(all.take(0)));
    }
    while i < items.len()
        invariant
            all == items.deep_view(),
            i <= items@.len(),
            out@ == all_insides(all.take(i as int)),
        decreases items@.len() - i,
    {
        proof {
            assert(all.take(i + 1).drop_last() =~= all.take(i as int));
            assert(all.take(i + 1).last() == items@[i as int].deep_view());
        }
        push_insides(&mut out, &items[i]);
        i += 1;
    }
    proof {
        assert(all.take(i as int) =~= all);
    }
    out
}

/// Replaces the bodies of a declaration with the given items by stubs.
pub fn stub_at(source: &str, parsed: Option<Vec<ItemParts>>) -> (r: Option<String>)
    ensures
        r.deep_view() == stubbed_at(source@, parsed.deep_view()),
{
    match parsed {
        Some(items) => {
            let flat = collect_insides(&items);
            stub_bodies(bytes_of(source).as_slice(), &flat, STUB_INSIDE)
        },
        None => None,
    }
}

/// The stub of a declaration as it is shown.
pub fn show_stub(text: &str, printed: Option<Vec<String>>) -> (r: String)
    ensures
        r@ == printed_stub(text@, printed.deep_view()),
{
    match printed {
        Some(items) => {
            let ghost all = items.deep_view();
            let mut out = String::new();
            let mut i: usize = 0;
            proof {
                assert(out@ =~= concatenated(all.take(0)));
            }
            while i < items.len()
                invariant
                    all == items.deep_view(),
                    i <= items@.len(),
                    out@ == concatenated(all.take(i as int)),
                decreases items@.len() - i,
            {
                out.push_str(items[i].as_str());
                proof {
                    assert(all.take(i + 1).drop_last() =~= all.take(i as int));
                }
                i += 1;
            }
            proof {
                assert(all.take(i as int) =~= all);
            }
            trim_newlines(out.as_str()).to_owned()
        },
        None => trim_newlines(text).to_owned(),
    }
}

/// Produce a stub version of a declaration string: function bodies are replaced
/// with `{ todo!() }`, after the attributes inside them; all other items are
/// kept.
pub fn stub_declaration(source: &str) -> (r: String)
    ensures
        r@ == stub_of(source@),
{
    match stub_at(read_parsed_text(source).as_str(), parse_items(source)) {
        Some(text) => {
            let printed = print_items(text.as_str());
            show_stub(text.as_str(), printed)
        },
        None => trim_newlines(source).to_owned(),
    }
}

// ---------------------------------------------------------------------------
// State
// ---------------------------------------------------------------------------

impl RepairState {
    /// The sources of the declarations.
    pub open spec fn decls(&self) -> Seq<Seq<char>> {
        self.declarations.deep_view()
    }

    /// The cached index, if there is one, is that of the declarations.
    pub open spec fn wf(&self) -> bool {
        match self.line_index {
            Some(index) => index@ == index_of(self.decls()) && lines_fit(self.decls()),
            None => true,
        }
    }

    /// A state over the given declarations.
    pub fn new(declarations: Vec<MutableDeclaration>, cargo_toml: String, source_file_name: String)
        -> (r: RepairState)
        ensures
            r.wf(),
            r.decls() == declarations.deep_view(),
            r.cargo_toml@ == cargo_toml@,
            r.source_file_name@ == source_file_name@,
    {
        RepairState { declarations, cargo_toml, source_file_name, line_index: None }
    }

    /// Build a `RepairState` from the files of a Cargo package.
    ///
    /// The `source_file_name` is inferred from the package's contents.
    pub fn from_cargo_package(package: &RawDir) -> (r: Result<RepairState, PackageError>)
        ensures
            match package_source(package@) {
                Err(e) => r == Err::<RepairState, PackageError>(e),
                Ok(p) => r matches Ok(state) && state.wf() && state.decls() == declarations_of(
                    p.source,
                    printed_items(p.source),
                ) && state.cargo_toml@ == p.cargo_toml && state.source_file_name@
                    == p.source_file_name,
            },
    {
        let p = match read_package(package) {
            Ok(p) => p,
            Err(e) => {
                return Err(e);
            },
        };
        let parsed = split_source(p.source.as_str());
        let ghost all = parsed.deep_view();
        let mut declarations: Vec<MutableDeclaration> = Vec::new();
        let mut i: usize = 0;
        while i < parsed.len()
            invariant
                all == parsed.deep_view(),
                i <= parsed@.len(),
                declarations@.len() == i,
                forall|j: int| 0 <= j < i ==> (#[trigger] declarations@[j]).source@ == all[j],
            decreases parsed@.len() - i,
        {
            declarations.push(
                MutableDeclaration { source: parsed[i].source.as_str().to_owned() },
            );
            i += 1;
        }
        proof {
            assert(declarations.deep_view() =~= all);
        }
        Ok(RepairState::new(declarations, p.cargo_toml, p.source_file_name))
    }

    fn sources(&self) -> (r: Vec<String>)
        ensures
            r.deep_view() == self.decls(),
    {
        let ghost all = self.decls();
        let mut out: Vec<String> = Vec::new();
        let mut i: usize = 0;
        while i < self.declarations.len()
            invariant
                all == self.decls(),
                i <= self.declarations@.len(),
                out@.len() == i,
                forall|j: int| 0 <= j < i ==> (#[trigger] out@[j])@ == all[j],
            decreases self.declarations@.len() - i,
        {
            out.push(self.declarations[i].source.as_str().to_owned());
            i += 1;
        }
        proof {
            assert(out.deep_view() =~= all);
        }
        out
    }

    /// Assemble all declarations into a single source string, joined by blank
    /// lines.
    pub fn assemble_source(&self) -> (r: String)
        ensures
            r@ == assembled(self.decls()),
    {
        assemble(&self.sources())
    }

    /// Generate a context string with all declarations stubbed out: function
    /// bodies replaced with `{ todo!() }`, types and statics kept in full.
    pub fn interface_context(&self) -> (r: String)
        ensures
            r@ == joined(
                Seq::new(self.decls().len(), |i: int| stub_of(self.decls()[i])),
                "\n\n"@,
            ),
    {
        let ghost want = Seq::new(self.decls().len(), |i: int| stub_of(self.decls()[i]));
        let mut out: Vec<String> = Vec::new();
        let mut i: usize = 0;
        while i < self.declarations.len()
            invariant
                want == Seq::new(self.decls().len(), |i: int| stub_of(self.decls()[i])),
                i <= self.declarations@.len(),
                out@.len() == i,
                forall|j: int| 0 <= j < i ==> (#[trigger] out@[j])@ == want[j],
            decreases self.declarations@.len() - i,
        {
            out.push(stub_declaration(self.declarations[i].source.as_str()));
            i += 1;
        }
        proof {
            assert(Seq::new(out@.len(), |i: int| out@[i]@) =~= want);
        }
        join(out.as_slice(), "\n\n")
    }

    /// Return the index of the declaration that owns `line` (1-indexed).
    /// Returns `None` if `line` falls in a separator or is out of range.
    /// Builds the internal line index if there is none.
    pub fn find_declaration_for_line(&mut self, line: usize) -> (r: Option<usize>)
        requires
            old(self).wf(),
        ensures
            r == owner(index_of(old(self).decls()), line as int),
            lines_fit(old(self).decls()),
            forall|i: usize|
                r == Some(i) <==> i < old(self).decls().len() && start_line(
                    old(self).decls(),
                    i as int,
                ) <= line <= #[trigger] end_line(old(self).decls(), i as int),
            final(self).wf(),
            final(self).decls() == old(self).decls(),
            final(self).cargo_toml@ == old(self).cargo_toml@,
            final(self).source_file_name@ == old(self).source_file_name@,
    {
        if self.line_index.is_none() {
            let index = build_line_index(&self.sources());
            self.line_index = Some(index);
        }
        proof {
            owner_is_the_declaration_on_the_line(self.decls(), line as int);
        }
        match &self.line_index {
            Some(index) => find_decl(index, line),
            None => None,
        }
    }

    /// Replace declaration `decl_idx` with `new_source`. A position without a
    /// declaration changes nothing.
    pub fn update_declaration(&mut self, decl_idx: usize, new_source: String)
        requires
            old(self).wf(),
        ensures
            final(self).wf(),
            final(self).decls() == (if decl_idx < old(self).decls().len() {
                old(self).decls().update(decl_idx as int, without_newlines(new_source@))
            } else {
                old(self).decls()
            }),
            final(self).cargo_toml@ == old(self).cargo_toml@,
            final(self).source_file_name@ == old(self).source_file_name@,
    {
        let ghost before = self.decls();
        proof {
            assert(before.len() == self.declarations@.len());
        }
        if decl_idx < self.declarations.len() {
            let source = trim_newlines(new_source.as_str()).to_owned();
            self.declarations.set(decl_idx, MutableDeclaration { source });
            self.line_index = None;
            proof {
                assert(self.decls() =~= before.update(
                    decl_idx as int,
                    without_newlines(new_source@),
                ));
            }
        }
    }

    /// The files of the package in its current state.
    pub fn to_cargo_package(&self) -> (r: RawDir)
        ensures
            r@ == Map::<Seq<char>, Seq<u8>>::empty().insert(
                "Cargo.toml"@,
                vstd::utf8::encode_utf8(self.cargo_toml@),
            ).insert(
                self.source_file_name@,
                vstd::utf8::encode_utf8(assembled(self.decls())),
            ),
    {
        let mut dir = RawDir::new();
        dir.set_file("Cargo.toml", bytes_of(self.cargo_toml.as_str()));
        dir.set_file(
            self.source_file_name.as_str(),
            bytes_of(self.assemble_source().as_str()),
        );
        dir
    }
}

} // verus!
