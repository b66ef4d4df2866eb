//! Locates the top-level items in each Rust source file of a package.
use crate::fs::{seen_one_more, RawDir};
use crate::names::NameMap;
use crate::order::{is_listing, list_names, listing};
use crate::package::PackageError;
use crate::path::{has_ext, has_extension};
use crate::rust_syntax::{item_positions, locate_items};
use crate::text::{decimal, decimal_of, read_utf8, utf8_text};
use std::cmp::Ordering;
use vstd::prelude::*;

verus! {

/// A line-column pair representing the start or end of a span. Positions are
/// ordered by their lines, and on one line by their columns.
#[derive(Copy, Clone, Debug, PartialEq, Eq, Hash, Ord, Structural)]
pub struct LineColumn {
    /// The 1-indexed line in the source file on which the span starts or ends
    /// (inclusive).
    pub line: usize,
    /// The 0-indexed column (in UTF-8 characters) in the source file on which
    /// the span starts or ends (inclusive).
    pub column: usize,
}

impl PartialOrd for LineColumn {
    fn partial_cmp(&self, other: &Self) -> (r: Option<Ordering>) {
        if self.line < other.line {
            Some(Ordering::Less)
        } else if self.line > other.line {
            Some(Ordering::Greater)
        } else if self.column < other.column {
            Some(Ordering::Less)
        } else if self.column > other.column {
            Some(Ordering::Greater)
        } else {
            Some(Ordering::Equal)
        }
    }
}

impl vstd::std_specs::cmp::PartialOrdSpecImpl for LineColumn {
    open spec fn obeys_partial_cmp_spec() -> bool {
        true
    }

    open spec fn partial_cmp_spec(&self, other: &Self) -> Option<Ordering> {
        if self.line < other.line {
            Some(Ordering::Less)
        } else if self.line > other.line {
            Some(Ordering::Greater)
        } else if self.column < other.column {
            Some(Ordering::Less)
        } else if self.column > other.column {
            Some(Ordering::Greater)
        } else {
            Some(Ordering::Equal)
        }
    }
}

impl DeepView for LineColumn {
    type V = LineColumn;

    open spec fn deep_view(&self) -> LineColumn {
        *self
    }
}

/// Where the top-level items of each Rust file of a package start and end. Keys
/// are full paths relative to the root of the package.
#[derive(Debug)]
pub struct RustItemMap {
    pub items: NameMap<Vec<(LineColumn, LineColumn)>>,
}

/// The first and the last position of an item.
pub open spec fn span_of(p: (usize, usize, usize, usize)) -> (LineColumn, LineColumn) {
    (LineColumn { line: p.0, column: p.1 }, LineColumn { line: p.2, column: p.3 })
}

/// The spans of a file: none if it does not parse.
pub open spec fn spans_at(positions: Option<Seq<(usize, usize, usize, usize)>>) -> Seq<
    (LineColumn, LineColumn),
> {
    match positions {
        Some(ps) => Seq::new(ps.len(), |i: int| span_of(ps[i])),
        None => seq![],
    }
}

/// The spans of the items at these positions.
pub fn spans_from(positions: Option<Vec<(usize, usize, usize, usize)>>) -> (r: Vec<
    (LineColumn, LineColumn),
>)
    ensures
        r.deep_view() == spans_at(positions.deep_view()),
{
    let mut out: Vec<(LineColumn, LineColumn)> = Vec::new();
    match positions {
        Some(ps) => {
            let mut i: usize = 0;
            while i < ps.len()
                invariant
                    i <= ps@.len(),
                    out@.len() == i,
                    forall|j: int| 0 <= j < i ==> #[trigger] out@[j] == span_of(ps@[j]),
                decreases ps@.len() - i,
            {
                let (a, b, c, d) = ps[i];
                out.push((LineColumn { line: a, column: b }, LineColumn { line: c, column: d }));
                i += 1;
            }
            proof {
                assert(ps.deep_view() =~= ps@);
            }
        },
        None => {},
    }
    proof {
        assert(out.deep_view() =~= spans_at(positions.deep_view()));
    }
    out
}

/// The spans of the top-level items of `source`; none if it does not parse.
pub fn extract_top_level_spans(source: &str) -> (r: Vec<(LineColumn, LineColumn)>)
    ensures
        r.deep_view() == spans_at(item_positions(source@)),
{
    spans_from(locate_items(source))
}

/// Every Rust file is UTF-8.
pub open spec fn rust_files_read(dir: Map<Seq<char>, Seq<u8>>) -> bool {
    forall|p: Seq<char>|
        #[trigger] dir.dom().contains(p) && has_ext(p, "rs"@) ==> utf8_text(dir[p]) is Some
}

/// The spans of every Rust file.
pub open spec fn item_map(dir: Map<Seq<char>, Seq<u8>>) -> Map<
    Seq<char>,
    Seq<(LineColumn, LineColumn)>,
> {
    Map::new(
        |p: Seq<char>| dir.dom().contains(p) && has_ext(p, "rs"@),
        |p: Seq<char>| spans_at(item_positions(utf8_text(dir[p])->0)),
    )
}

/// A tool to deconstruct a package into the top-level items in each Rust source
/// file.
pub struct QuantizeRustSpans;

impl QuantizeRustSpans {
    /// Locates the items of every file with the extension `rs`. A file that
    /// does not parse has none.
    pub fn run(&self, package: &RawDir) -> (r: Result<RustItemMap, PackageError>)
        ensures
            match r {
                Ok(map) => rust_files_read(package@) && map.items@ == item_map(package@),
                Err(e) => !rust_files_read(package@) && e == PackageError::NotUtf8,
            },
    {
        let paths = package.file_paths();
        let ghost all = paths.names.deep_view();
        let mut items: NameMap<Vec<(LineColumn, LineColumn)>> = NameMap::new();
        let mut i: usize = 0;
        proof {
            assert(paths@ == package@.dom());
        }
        while i < paths.names.len()
            invariant
                all == paths.names.deep_view(),
                paths@ == package@.dom(),
                paths@ == all.to_set(),
                i <= paths.names@.len(),
                forall|p: Seq<char>|
                    #[trigger] items@.dom().contains(p) == (all.take(i as int).contains(p)
                        && has_ext(p, "rs"@)),
                forall|p: Seq<char>| #[trigger]
                    items@.dom().contains(p) ==> items@[p] == item_map(package@)[p]
                        && utf8_text(package@[p]) is Some,
            decreases paths.names@.len() - i,
        {
            let path = paths.names[i].as_str();
            let ghost before = items@;
            proof {
                assert(all[i as int] == path@);
                assert(paths@.contains(path@));
                seen_one_more(all, i as int);
            }
            if has_extension(path, "rs") {
                match package.get_file(path) {
                    Some(bytes) => match read_utf8(bytes.as_slice()) {
                        Some(source) => {
                            items.insert(path, extract_top_level_spans(source.as_str()));
                        },
                        None => {
                            return Err(PackageError::NotUtf8);
                        },
                    },
                    None => {},
                }
            }
            i += 1;
        }
        proof {
            assert(all.take(i as int) =~= all);
            assert(items@ =~= item_map(package@)) by {
                assert forall|p: Seq<char>|
                    items@.dom().contains(p) == item_map(package@).dom().contains(p) by {
                    assert(paths@.contains(p) == all.contains(p));
                }
            }
            assert forall|p: Seq<char>| #[trigger]
                package@.dom().contains(p) && has_ext(p, "rs"@) implies utf8_text(package@[p])
                is Some by {
                assert(paths@.contains(p) == all.contains(p));
                assert(items@.dom().contains(p));
            }
        }
        Ok(RustItemMap { items })
    }
}

/// One line per file: its path and the number of its items.
pub open spec fn count_lines(
    paths: Seq<Seq<char>>,
    items: Map<Seq<char>, Seq<(LineColumn, LineColumn)>>,
) -> Seq<char>
    decreases paths.len(),
{
    if paths.len() == 0 {
        seq![]
    } else {
        count_lines(paths.drop_last(), items) + "\t"@ + paths.last() + ": "@ + decimal_of(
            items[paths.last()].len(),
        ) + " items\n"@
    }
}

impl RustItemMap {
    /// The map as text.
    pub open spec fn description(self) -> Seq<char> {
        let paths = listing(self.items@.dom());
        "RustItemMap ("@ + decimal_of(paths.len()) + " files):\n"@ + count_lines(
            paths,
            self.items@,
        )
    }

    /// The map as text: the number of files, then each file in the order of the
    /// paths with the number of its items.
    pub fn describe(&self) -> (r: String)
        ensures
            r@ == self.description(),
    {
        let paths = list_names(&self.items.keys());
        let ghost all = paths.deep_view();
        let mut out = String::new();
        out.push_str("RustItemMap (");
        out.push_str(decimal(paths.len()).as_str());
        out.push_str(" files):\n");
        let ghost head = out@;
        let mut i: usize = 0;
        while i < paths.len()
            invariant
                all == paths.deep_view(),
                is_listing(self.items@.dom(), all),
                i <= paths@.len(),
                out@ == head + count_lines(all.take(i as int), self.items@),
            decreases paths@.len() - i,
        {
            proof {
                assert(all.take(i + 1).drop_last() =~= all.take(i as int));
                assert(all[i as int] == paths@[i as int]@);
                assert(all.contains(all[i as int]));
            }
            match self.items.get(paths[i].as_str()) {
                Some(list) => {
                    proof {
                        assert(list.deep_view().len() == list@.len());
                    }
                    out.push_str("\t");
                    out.push_str(paths[i].as_str());
                    out.push_str(": ");
                    out.push_str(decimal(list.len()).as_str());
                    out.push_str(" items\n");
                    proof {
                        assert(out@ =~= head + count_lines(all.take(i + 1), self.items@));
                    }
                },
                None => {},
            }
            i += 1;
        }
        proof {
            assert(all.take(i as int) =~= all);
            assert(out@ =~= self.description());
        }
        out
    }
}

} // verus!
