//! The variants that each file of a configurable project belongs to.
use crate::build_config::ir::{
    BuildConfigIR, BuildConfigView, ConditionalTarget, ConditionalTargetView, SourceSelection,
    SourceSelectionView, SourceVariantView, SubdirSelectionView, SubdirVariant, SubdirVariantView,
    TargetDecl, TargetDeclView,
};
use crate::c_ast::rsm::SourceSpan;
use crate::names::{copy_strings, NameMap};
use crate::path::{absolute, child_path, join_path};
use crate::text::starts_with;
use vstd::prelude::*;

verus! {

/// A driving variable and its value.
pub type Tag = (Seq<char>, Seq<char>);

/// The tags of each file, by its canonical path.
pub type TagMap = Map<Seq<char>, Seq<Tag>>;

/// Lookup table from canonical absolute file path to the list of
/// `(driving_var, value)` tags that file participates in.
pub type VariantTagMap = NameMap<Vec<(String, String)>>;

/// The root of the project and the canonical form of each path that exists on
/// disk. In a lookup, a path without a canonical form stands for itself.
#[derive(Debug)]
pub struct PathTable {
    pub src_root: String,
    pub canonical: NameMap<String>,
}

impl PathTable {
    /// The canonical form of a path.
    pub open spec fn resolved(self, path: Seq<char>) -> Seq<char> {
        if self.canonical@.dom().contains(path) {
            self.canonical@[path]
        } else {
            path
        }
    }

    /// The path of a project file, under the root unless it is absolute.
    pub open spec fn located(self, rel: Seq<char>) -> Seq<char> {
        if absolute(rel) {
            rel
        } else {
            child_path(self.src_root@, rel)
        }
    }

    /// The file exists on disk.
    pub open spec fn on_disk(self, rel: Seq<char>) -> bool {
        self.canonical@.dom().contains(self.located(rel))
    }

    /// The key of a project-relative path.
    pub open spec fn key(self, rel: Seq<char>) -> Seq<char> {
        self.resolved(self.located(rel))
    }

    /// The canonical form of a path.
    pub fn resolve(&self, path: &str) -> (r: String)
        ensures
            r@ == self.resolved(path@),
    {
        match self.canonical.get(path) {
            Some(c) => c.as_str().to_owned(),
            None => path.to_owned(),
        }
    }

    /// The path of a project file, under the root unless it is absolute.
    pub fn locate(&self, rel_path: &str) -> (r: String)
        ensures
            r@ == self.located(rel_path@),
    {
        proof {
            reveal_strlit("/");
            let p = rel_path@;
            if absolute(p) {
                assert("/"@ =~= p.subrange(0, 1));
            }
            assert("/"@.is_prefix_of(p) == absolute(p)) by {
                if "/"@.is_prefix_of(p) {
                    assert(p.subrange(0, 1)[0] == '/');
                }
            }
        }
        if starts_with(rel_path, "/") {
            rel_path.to_owned()
        } else {
            join_path(self.src_root.as_str(), rel_path)
        }
    }
}

/// The tags of a file.
pub open spec fn tags_at(m: TagMap, key: Seq<char>) -> Seq<Tag> {
    if m.dom().contains(key) {
        m[key]
    } else {
        seq![]
    }
}

/// With more tags for a file.
pub open spec fn with_tags(m: TagMap, key: Seq<char>, tags: Seq<Tag>) -> TagMap {
    m.insert(key, tags_at(m, key) + tags)
}

/// With the tags for each of the files that exist on disk.
pub open spec fn with_files(m: TagMap, files: Seq<Seq<char>>, tags: Seq<Tag>, table: PathTable) -> TagMap
    decreases files.len(),
{
    if files.len() == 0 {
        m
    } else {
        let rest = with_files(m, files.drop_last(), tags, table);
        if table.on_disk(files.last()) {
            with_tags(rest, table.key(files.last()), tags)
        } else {
            rest
        }
    }
}

/// With the files of each variant under the outer tags and that of the variant.
pub open spec fn with_variants(
    m: TagMap,
    variants: Seq<SourceVariantView>,
    var: Seq<char>,
    outer: Seq<Tag>,
    table: PathTable,
) -> TagMap
    decreases variants.len(),
{
    if variants.len() == 0 {
        m
    } else {
        with_files(
            with_variants(m, variants.drop_last(), var, outer, table),
            variants.last().files,
            outer.push((var, variants.last().value)),
            table,
        )
    }
}

/// With the files of each source selection.
pub open spec fn with_selections(
    m: TagMap,
    selections: Seq<SourceSelectionView>,
    outer: Seq<Tag>,
    table: PathTable,
) -> TagMap
    decreases selections.len(),
{
    if selections.len() == 0 {
        m
    } else {
        with_variants(
            with_selections(m, selections.drop_last(), outer, table),
            selections.last().variants,
            selections.last().driving_var,
            outer,
            table,
        )
    }
}

/// With the files of each conditional target under the outer tags.
pub open spec fn with_conditionals(
    m: TagMap,
    targets: Seq<ConditionalTargetView>,
    outer: Seq<Tag>,
    table: PathTable,
) -> TagMap
    decreases targets.len(),
{
    if targets.len() == 0 {
        m
    } else {
        with_files(
            with_conditionals(m, targets.drop_last(), outer, table),
            targets.last().files,
            outer,
            table,
        )
    }
}

/// With the files of each plain target under the outer tags.
pub open spec fn with_targets(
    m: TagMap,
    targets: Seq<TargetDeclView>,
    outer: Seq<Tag>,
    table: PathTable,
) -> TagMap
    decreases targets.len(),
{
    if targets.len() == 0 {
        m
    } else {
        with_files(
            with_targets(m, targets.drop_last(), outer, table),
            targets.last().files,
            outer,
            table,
        )
    }
}

/// With what is declared in one subdirectory variant, under the outer tags.
pub open spec fn with_subdir_variant(
    m: TagMap,
    v: SubdirVariantView,
    outer: Seq<Tag>,
    table: PathTable,
) -> TagMap
    decreases v,
{
    with_subdirs(
        with_targets(
            with_conditionals(
                with_selections(m, v.source_selections, outer, table),
                v.conditional_targets,
                outer,
                table,
            ),
            v.targets,
            outer,
            table,
        ),
        v.subdir_selections,
        outer,
        table,
    )
}

/// With each of the variants under the outer tags and its own.
pub open spec fn with_subdir_variants(
    m: TagMap,
    variants: Seq<SubdirVariantView>,
    var: Seq<char>,
    outer: Seq<Tag>,
    table: PathTable,
) -> TagMap
    decreases variants,
{
    if variants.len() == 0 {
        m
    } else {
        with_subdir_variant(
            with_subdir_variants(m, variants.drop_last(), var, outer, table),
            variants.last(),
            outer.push((var, variants.last().value)),
            table,
        )
    }
}

/// With each of the subdirectory selections.
pub open spec fn with_subdirs(
    m: TagMap,
    selections: Seq<SubdirSelectionView>,
    outer: Seq<Tag>,
    table: PathTable,
) -> TagMap
    decreases selections,
{
    if selections.len() == 0 {
        m
    } else {
        with_subdir_variants(
            with_subdirs(m, selections.drop_last(), outer, table),
            selections.last().variants,
            selections.last().driving_var,
            outer,
            table,
        )
    }
}

/// The tags of the files of a configuration; none without one.
pub open spec fn tags_of(cfg: Option<BuildConfigView>, table: PathTable) -> TagMap {
    match cfg {
        Some(c) => if c.is_empty {
            Map::empty()
        } else {
            with_subdirs(
                with_selections(Map::empty(), c.source_selections, seq![], table),
                c.subdir_selections,
                seq![],
                table,
            )
        },
        None => Map::empty(),
    }
}

/// A copy of a list of tags.
pub fn copy_tags(tags: &Vec<(String, String)>) -> (r: Vec<(String, String)>)
    ensures
        r.deep_view() == tags.deep_view(),
{
    let ghost all = tags.deep_view();
    let mut out: Vec<(String, String)> = Vec::new();
    let mut i: usize = 0;
    proof {
        assert(out.deep_view() =~= all.take(0));
    }
    while i < tags.len()
        invariant
            all == tags.deep_view(),
            i <= tags@.len(),
            out.deep_view() == all.take(i as int),
        decreases tags@.len() - i,
    {
        let ghost before = out.deep_view();
        let one = (tags[i].0.as_str().to_owned(), tags[i].1.as_str().to_owned());
        out.push(one);
        proof {
            assert(out.deep_view() =~= before.push(one.deep_view()));
            assert(all.take(i + 1) =~= all.take(i as int).push(all[i as int]));
        }
        i += 1;
    }
    proof {
        assert(all.take(i as int) =~= all);
    }
    out
}

fn push_tag(tags: &Vec<(String, String)>, var: &str, value: &str) -> (r: Vec<(String, String)>)
    ensures
        r.deep_view() == tags.deep_view().push((var@, value@)),
{
    let mut out = copy_tags(tags);
    let ghost before = out.deep_view();
    let one = (var.to_owned(), value.to_owned());
    out.push(one);
    proof {
        assert(out.deep_view() =~= before.push(one.deep_view()));
    }
    out
}

/// Appends the tags to the entry for `rel_path`. A file missing from disk is
/// skipped.
fn add_tags(
    map: &mut VariantTagMap,
    table: &PathTable,
    rel_path: &str,
    tags: &Vec<(String, String)>,
)
    ensures
        table.on_disk(rel_path@) ==> final(map)@ == with_tags(
            old(map)@,
            table.key(rel_path@),
            tags.deep_view(),
        ),
        !table.on_disk(rel_path@) ==> final(map)@ == old(map)@,
{
    let path = table.locate(rel_path);
    let key = match table.canonical.get(path.as_str()) {
        Some(c) => c.as_str().to_owned(),
        None => {
            return;
        },
    };
    let ghost start = map@;
    let mut list: Vec<(String, String)> = match map.get(key.as_str()) {
        Some(v) => copy_tags(v),
        None => Vec::new(),
    };
    let ghost had = list.deep_view();
    proof {
        assert(had =~= tags_at(start, key@));
    }
    let mut more = copy_tags(tags);
    let ghost new = more.deep_view();
    list.append(&mut more);
    proof {
        assert(list.deep_view() =~= had + new);
    }
    map.insert(key.as_str(), list);
}

fn add_files(
    map: &mut VariantTagMap,
    table: &PathTable,
    files: &Vec<String>,
    tags: &Vec<(String, String)>,
)
    ensures
        final(map)@ == with_files(old(map)@, files.deep_view(), tags.deep_view(), *table),
{
    let ghost start = map@;
    let ghost all = files.deep_view();
    let mut i: usize = 0;
    while i < files.len()
        invariant
            all == files.deep_view(),
            i <= files@.len(),
            map@ == with_files(start, all.take(i as int), tags.deep_view(), *table),
        decreases files@.len() - i,
    {
        proof {
            assert(all.take(i + 1).drop_last() =~= all.take(i as int));
            assert(all.take(i + 1).last() == files@[i as int]@);
        }
        add_tags(map, table, files[i].as_str(), tags);
        i += 1;
    }
    proof {
        assert(all.take(i as int) =~= all);
    }
}

fn add_selections(
    map: &mut VariantTagMap,
    table: &PathTable,
    selections: &Vec<SourceSelection>,
    outer: &Vec<(String, String)>,
)
    ensures
        final(map)@ == with_selections(
            old(map)@,
            selections.deep_view(),
            outer.deep_view(),
            *table,
        ),
{
    let ghost start = map@;
    let ghost all = selections.deep_view();
    let mut i: usize = 0;
    while i < selections.len()
        invariant
            all == selections.deep_view(),
            i <= selections@.len(),
            map@ == with_selections(start, all.take(i as int), outer.deep_view(), *table),
        decreases selections@.len() - i,
    {
        let s = &selections[i];
        let ghost before = map@;
        let ghost variants = s.variants.deep_view();
        let mut k: usize = 0;
        proof {
            assert(all.take(i + 1).drop_last() =~= all.take(i as int));
            assert(all.take(i + 1).last() == s.deep_view());
        }
        while k < s.variants.len()
            invariant
                variants == s.variants.deep_view(),
                k <= s.variants@.len(),
                map@ == with_variants(
                    before,
                    variants.take(k as int),
                    s.driving_var@,
                    outer.deep_view(),
                    *table,
                ),
            decreases s.variants@.len() - k,
        {
            proof {
                assert(variants.take(k + 1).drop_last() =~= variants.take(k as int));
                assert(variants.take(k + 1).last() == s.variants@[k as int].deep_view());
            }
            let tags = push_tag(outer, s.driving_var.as_str(), s.variants[k].value.as_str());
            add_files(map, table, &s.variants[k].files, &tags);
            k += 1;
        }
        proof {
            assert(variants.take(k as int) =~= variants);
        }
        i += 1;
    }
    proof {
        assert(all.take(i as int) =~= all);
    }
}

fn add_conditionals(
    map: &mut VariantTagMap,
    table: &PathTable,
    targets: &Vec<ConditionalTarget>,
    outer: &Vec<(String, String)>,
)
    ensures
        final(map)@ == with_conditionals(
            old(map)@,
            targets.deep_view(),
            outer.deep_view(),
            *table,
        ),
{
    let ghost start = map@;
    let ghost all = targets.deep_view();
    let mut i: usize = 0;
    while i < targets.len()
        invariant
            all == targets.deep_view(),
            i <= targets@.len(),
            map@ == with_conditionals(start, all.take(i as int), outer.deep_view(), *table),
        decreases targets@.len() - i,
    {
        proof {
            assert(all.take(i + 1).drop_last() =~= all.take(i as int));
            assert(all.take(i + 1).last() == targets@[i as int].deep_view());
        }
        add_files(map, table, &targets[i].files, outer);
        i += 1;
    }
    proof {
        assert(all.take(i as int) =~= all);
    }
}

fn add_targets(
    map: &mut VariantTagMap,
    table: &PathTable,
    targets: &Vec<TargetDecl>,
    outer: &Vec<(String, String)>,
)
    ensures
        final(map)@ == with_targets(old(map)@, targets.deep_view(), outer.deep_view(), *table),
{
    let ghost start = map@;
    let ghost all = targets.deep_view();
    let mut i: usize = 0;
    while i < targets.len()
        invariant
            all == targets.deep_view(),
            i <= targets@.len(),
            map@ == with_targets(start, all.take(i as int), outer.deep_view(), *table),
        decreases targets@.len() - i,
    {
        proof {
            assert(all.take(i + 1).drop_last() =~= all.take(i as int));
            assert(all.take(i + 1).last() == targets@[i as int].deep_view());
        }
        add_files(map, table, &targets[i].files, outer);
        i += 1;
    }
    proof {
        assert(all.take(i as int) =~= all);
    }
}

/// Walks one subdirectory variant with the tags of every enclosing selection.
/// Every file declared in it receives those tags; files inside its source
/// selections also pick up their own.
fn walk_subdir_variant(
    sv: &SubdirVariant,
    table: &PathTable,
    outer: &Vec<(String, String)>,
    map: &mut VariantTagMap,
)
    ensures
        final(map)@ == with_subdir_variant(
            old(map)@,
            sv.deep_view(),
            outer.deep_view(),
            *table,
        ),
    decreases sv,
{
    add_selections(map, table, &sv.source_selections, outer);
    add_conditionals(map, table, &sv.conditional_targets, outer);
    add_targets(map, table, &sv.targets, outer);
    let ghost start = map@;
    let ghost all = sv.deep_view().subdir_selections;
    let mut i: usize = 0;
    while i < sv.subdir_selections.len()
        invariant
            all == sv.deep_view().subdir_selections,
            i <= sv.subdir_selections@.len(),
            map@ == with_subdirs(start, all.take(i as int), outer.deep_view(), *table),
        decreases sv.subdir_selections@.len() - i,
    {
        let ss = &sv.subdir_selections[i];
        let ghost before = map@;
        let ghost variants = ss.deep_view().variants;
        let mut k: usize = 0;
        proof {
            assert(all.take(i + 1).drop_last() =~= all.take(i as int));
            assert(all.take(i + 1).last() == ss.deep_view());
        }
        while k < ss.variants.len()
            invariant
                variants == ss.deep_view().variants,
                i < sv.subdir_selections@.len(),
                ss == sv.subdir_selections@[i as int],
                k <= ss.variants@.len(),
                map@ == with_subdir_variants(
                    before,
                    variants.take(k as int),
                    ss.driving_var@,
                    outer.deep_view(),
                    *table,
                ),
            decreases ss.variants@.len() - k,
        {
            proof {
                assert(variants.take(k + 1).drop_last() =~= variants.take(k as int));
                assert(variants.take(k + 1).last() == ss.variants@[k as int].deep_view());
            }
            let tags = push_tag(outer, ss.driving_var.as_str(), ss.variants[k].value.as_str());
            walk_subdir_variant(&ss.variants[k], table, &tags, map);
            k += 1;
        }
        proof {
            assert(variants.take(k as int) =~= variants);
        }
        i += 1;
    }
    proof {
        assert(all.take(i as int) =~= all);
    }
}

/// Builds the table of tags. A file referenced by two distinct fragments of the
/// configuration ends up with both tags, those of the enclosing subdirectory
/// selections first. A file missing from disk is skipped. Without a
/// configuration the table is empty.
pub fn build_variant_tag_map(cfg: Option<&BuildConfigIR>, table: &PathTable) -> (r: VariantTagMap)
    ensures
        r@ == tags_of(
            match cfg {
                Some(c) => Some(c.deep_view()),
                None => None,
            },
            *table,
        ),
{
    let mut map: VariantTagMap = NameMap::new();
    let cfg = match cfg {
        Some(c) => c,
        None => {
            return map;
        },
    };
    if cfg.is_empty {
        return map;
    }
    let outer: Vec<(String, String)> = Vec::new();
    proof {
        assert(outer.deep_view() =~= seq![]);
    }
    add_selections(&mut map, table, &cfg.source_selections, &outer);
    let ghost start = map@;
    let ghost all = cfg.deep_view().subdir_selections;
    let mut i: usize = 0;
    while i < cfg.subdir_selections.len()
        invariant
            outer.deep_view() == Seq::<Tag>::empty(),
            all == cfg.deep_view().subdir_selections,
            i <= cfg.subdir_selections@.len(),
            map@ == with_subdirs(start, all.take(i as int), seq![], *table),
        decreases cfg.subdir_selections@.len() - i,
    {
        let ss = &cfg.subdir_selections[i];
        let ghost before = map@;
        let ghost variants = ss.deep_view().variants;
        let mut k: usize = 0;
        proof {
            assert(all.take(i + 1).drop_last() =~= all.take(i as int));
            assert(all.take(i + 1).last() == ss.deep_view());
        }
        while k < ss.variants.len()
            invariant
                outer.deep_view() == Seq::<Tag>::empty(),
                variants == ss.deep_view().variants,
                k <= ss.variants@.len(),
                map@ == with_subdir_variants(
                    before,
                    variants.take(k as int),
                    ss.driving_var@,
                    seq![],
                    *table,
                ),
            decreases ss.variants@.len() - k,
        {
            proof {
                assert(variants.take(k + 1).drop_last() =~= variants.take(k as int));
                assert(variants.take(k + 1).last() == ss.variants@[k as int].deep_view());
            }
            let tags = push_tag(&outer, ss.driving_var.as_str(), ss.variants[k].value.as_str());
            walk_subdir_variant(&ss.variants[k], table, &tags, &mut map);
            k += 1;
        }
        proof {
            assert(variants.take(k as int) =~= variants);
        }
        i += 1;
    }
    proof {
        assert(all.take(i as int) =~= all);
    }
    map
}

/// Lookup the variant tags for an entity span. Returns an empty list when the
/// file isn't recorded in any selection.
pub fn variant_tags_for(span: &SourceSpan, map: &VariantTagMap, table: &PathTable) -> (r: Vec<
    (String, String),
>)
    ensures
        r.deep_view() == tags_at(map@, table.resolved(span.file@)),
{
    let key = table.resolve(span.file.as_str());
    match map.get(key.as_str()) {
        Some(tags) => copy_tags(tags),
        None => {
            let none: Vec<(String, String)> = Vec::new();
            proof {
                assert(none.deep_view() =~= seq![]);
            }
            none
        },
    }
}

/// Without a configuration, and with an empty one, no file has tags.
pub proof fn no_configuration_no_tags(cfg: BuildConfigView, table: PathTable, key: Seq<char>)
    requires
        cfg.is_empty,
    ensures
        tags_at(tags_of(Some(cfg), table), key) == Seq::<Tag>::empty(),
        tags_of(Some(cfg), table) == tags_of(None, table),
{
}

/// Tags are only added: a file keeps those that it had, before the new ones.
pub proof fn files_keep_tags(
    m: TagMap,
    files: Seq<Seq<char>>,
    tags: Seq<Tag>,
    table: PathTable,
    key: Seq<char>,
)
    ensures
        tags_at(m, key).is_prefix_of(tags_at(with_files(m, files, tags, table), key)),
    decreases files.len(),
{
    if files.len() > 0 {
        files_keep_tags(m, files.drop_last(), tags, table, key);
        let a = tags_at(m, key);
        let b = tags_at(with_files(m, files.drop_last(), tags, table), key);
        let c = tags_at(with_files(m, files, tags, table), key);
        assert(a =~= b.subrange(0, a.len() as int));
        assert(a =~= c.subrange(0, a.len() as int));
    } else {
        let a = tags_at(m, key);
        assert(a =~= a.subrange(0, a.len() as int));
    }
}

/// Every file of a selection variant that exists on disk gets the outer tags
/// followed by that of the variant, after the tags that it had.
pub proof fn file_gets_tags(
    m: TagMap,
    files: Seq<Seq<char>>,
    tags: Seq<Tag>,
    table: PathTable,
    i: int,
)
    requires
        0 <= i < files.len(),
        table.on_disk(files[i]),
        forall|j: int|
            0 <= j < files.len() && j != i ==> table.key(#[trigger] files[j]) != table.key(
                files[i],
            ),
    ensures
        tags_at(with_files(m, files, tags, table), table.key(files[i])) == tags_at(
            m,
            table.key(files[i]),
        ) + tags,
    decreases files.len(),
{
    let rest = files.drop_last();
    let key = table.key(files[i]);
    if i == files.len() - 1 {
        untouched(m, rest, tags, table, key);
    } else {
        assert forall|j: int| 0 <= j < rest.len() && j != i implies table.key(#[trigger] rest[j])
            != table.key(rest[i]) by {
            assert(table.key(files[j]) != key);
        }
        file_gets_tags(m, rest, tags, table, i);
        assert(table.key(files[files.len() - 1]) != key);
    }
}

proof fn untouched(
    m: TagMap,
    files: Seq<Seq<char>>,
    tags: Seq<Tag>,
    table: PathTable,
    key: Seq<char>,
)
    requires
        forall|j: int| 0 <= j < files.len() ==> table.key(#[trigger] files[j]) != key,
    ensures
        tags_at(with_files(m, files, tags, table), key) == tags_at(m, key),
    decreases files.len(),
{
    if files.len() > 0 {
        assert(table.key(files[files.len() - 1]) != key);
        assert forall|j: int| 0 <= j < files.drop_last().len() implies table.key(
            #[trigger] files.drop_last()[j],
        ) != key by {
            assert(table.key(files[j]) != key);
        }
        untouched(m, files.drop_last(), tags, table, key);
    }
}

/// The files of each variant of a selection.
pub open spec fn variant_files(variants: Seq<SourceVariantView>) -> Seq<Seq<char>>
    decreases variants.len(),
{
    if variants.len() == 0 {
        seq![]
    } else {
        variant_files(variants.drop_last()) + variants.last().files
    }
}

/// The files of each source selection.
pub open spec fn selection_files(selections: Seq<SourceSelectionView>) -> Seq<Seq<char>>
    decreases selections.len(),
{
    if selections.len() == 0 {
        seq![]
    } else {
        selection_files(selections.drop_last()) + variant_files(selections.last().variants)
    }
}

/// The files of each conditional target.
pub open spec fn conditional_files(targets: Seq<ConditionalTargetView>) -> Seq<Seq<char>>
    decreases targets.len(),
{
    if targets.len() == 0 {
        seq![]
    } else {
        conditional_files(targets.drop_last()) + targets.last().files
    }
}

/// The files of each plain target.
pub open spec fn target_files(targets: Seq<TargetDeclView>) -> Seq<Seq<char>>
    decreases targets.len(),
{
    if targets.len() == 0 {
        seq![]
    } else {
        target_files(targets.drop_last()) + targets.last().files
    }
}

/// The files that a subdirectory variant declares, at any depth.
pub open spec fn subdir_variant_files(v: SubdirVariantView) -> Seq<Seq<char>>
    decreases v,
{
    selection_files(v.source_selections) + conditional_files(v.conditional_targets) + target_files(
        v.targets,
    ) + subdir_files(v.subdir_selections)
}

/// The files that the variants of a subdirectory declare.
pub open spec fn subdir_variants_files(variants: Seq<SubdirVariantView>) -> Seq<Seq<char>>
    decreases variants,
{
    if variants.len() == 0 {
        seq![]
    } else {
        subdir_variants_files(variants.drop_last()) + subdir_variant_files(variants.last())
    }
}

/// The files that each subdirectory selection declares.
pub open spec fn subdir_files(selections: Seq<SubdirSelectionView>) -> Seq<Seq<char>>
    decreases selections,
{
    if selections.len() == 0 {
        seq![]
    } else {
        subdir_files(selections.drop_last()) + subdir_variants_files(selections.last().variants)
    }
}

/// The files whose presence decides the tags: those of the source selections,
/// then those of the subdirectory selections.
pub open spec fn files_of(cfg: BuildConfigView) -> Seq<Seq<char>> {
    selection_files(cfg.source_selections) + subdir_files(cfg.subdir_selections)
}

fn append_files(out: &mut Vec<String>, files: &Vec<String>)
    ensures
        final(out).deep_view() == old(out).deep_view() + files.deep_view(),
{
    let ghost start = out.deep_view();
    let mut more = copy_strings(files);
    let ghost new = more.deep_view();
    out.append(&mut more);
    proof {
        assert(out.deep_view() =~= start + new);
    }
}

fn append_selections(out: &mut Vec<String>, selections: &Vec<SourceSelection>)
    ensures
        final(out).deep_view() == old(out).deep_view() + selection_files(selections.deep_view()),
{
    let ghost start = out.deep_view();
    let ghost all = selections.deep_view();
    let mut i: usize = 0;
    proof {
        assert(start + selection_files(all.take(0)) =~= start);
    }
    while i < selections.len()
        invariant
            all == selections.deep_view(),
            i <= selections@.len(),
            out.deep_view() == start + selection_files(all.take(i as int)),
        decreases selections@.len() - i,
    {
        let s = &selections[i];
        let ghost before = out.deep_view();
        let ghost variants = s.variants.deep_view();
        let mut k: usize = 0;
        proof {
            assert(before + variant_files(variants.take(0)) =~= before);
        }
        while k < s.variants.len()
            invariant
                variants == s.variants.deep_view(),
                k <= s.variants@.len(),
                out.deep_view() == before + variant_files(variants.take(k as int)),
            decreases s.variants@.len() - k,
        {
            append_files(out, &s.variants[k].files);
            proof {
                let now = variants.take(k + 1);
                assert(now.drop_last() =~= variants.take(k as int));
                assert(now.last() == s.variants@[k as int].deep_view());
                assert(before + variant_files(now) =~= before + variant_files(
                    variants.take(k as int),
                ) + now.last().files);
            }
            k += 1;
        }
        proof {
            assert(variants.take(k as int) =~= variants);
            let now = all.take(i + 1);
            assert(now.drop_last() =~= all.take(i as int));
            assert(now.last() == s.deep_view());
            assert(start + selection_files(now) =~= before + variant_files(variants));
        }
        i += 1;
    }
    proof {
        assert(all.take(i as int) =~= all);
    }
}

fn append_subdir_variant(out: &mut Vec<String>, sv: &SubdirVariant)
    ensures
        final(out).deep_view() == old(out).deep_view() + subdir_variant_files(sv.deep_view()),
    decreases sv,
{
    let ghost start = out.deep_view();
    append_selections(out, &sv.source_selections);
    let ghost chosen = out.deep_view();
    let ghost cs = sv.conditional_targets.deep_view();
    let mut i: usize = 0;
    proof {
        assert(chosen + conditional_files(cs.take(0)) =~= chosen);
    }
    while i < sv.conditional_targets.len()
        invariant
            cs == sv.conditional_targets.deep_view(),
            i <= sv.conditional_targets@.len(),
            out.deep_view() == chosen + conditional_files(cs.take(i as int)),
        decreases sv.conditional_targets@.len() - i,
    {
        append_files(out, &sv.conditional_targets[i].files);
        proof {
            let now = cs.take(i + 1);
            assert(now.drop_last() =~= cs.take(i as int));
            assert(now.last() == sv.conditional_targets@[i as int].deep_view());
            assert(chosen + conditional_files(now) =~= chosen + conditional_files(
                cs.take(i as int),
            ) + now.last().files);
        }
        i += 1;
    }
    let ghost plain = out.deep_view();
    let ghost ts = sv.targets.deep_view();
    let mut j: usize = 0;
    proof {
        assert(cs.take(i as int) =~= cs);
        assert(plain + target_files(ts.take(0)) =~= plain);
    }
    while j < sv.targets.len()
        invariant
            ts == sv.targets.deep_view(),
            j <= sv.targets@.len(),
            out.deep_view() == plain + target_files(ts.take(j as int)),
        decreases sv.targets@.len() - j,
    {
        append_files(out, &sv.targets[j].files);
        proof {
            let now = ts.take(j + 1);
            assert(now.drop_last() =~= ts.take(j as int));
            assert(now.last() == sv.targets@[j as int].deep_view());
            assert(plain + target_files(now) =~= plain + target_files(ts.take(j as int))
                + now.last().files);
        }
        j += 1;
    }
    let ghost outer = out.deep_view();
    let ghost all = sv.deep_view().subdir_selections;
    let mut k: usize = 0;
    proof {
        assert(ts.take(j as int) =~= ts);
        assert(outer + subdir_files(all.take(0)) =~= outer);
    }
    while k < sv.subdir_selections.len()
        invariant
            all == sv.deep_view().subdir_selections,
            k <= sv.subdir_selections@.len(),
            out.deep_view() == outer + subdir_files(all.take(k as int)),
        decreases sv.subdir_selections@.len() - k,
    {
        let ss = &sv.subdir_selections[k];
        let ghost before = out.deep_view();
        let ghost variants = ss.deep_view().variants;
        let mut n: usize = 0;
        proof {
            assert(before + subdir_variants_files(variants.take(0)) =~= before);
        }
        while n < ss.variants.len()
            invariant
                variants == ss.deep_view().variants,
                k < sv.subdir_selections@.len(),
                ss == sv.subdir_selections@[k as int],
                n <= ss.variants@.len(),
                out.deep_view() == before + subdir_variants_files(variants.take(n as int)),
            decreases ss.variants@.len() - n,
        {
            append_subdir_variant(out, &ss.variants[n]);
            proof {
                let now = variants.take(n + 1);
                assert(now.drop_last() =~= variants.take(n as int));
                assert(now.last() == ss.variants@[n as int].deep_view());
                assert(before + subdir_variants_files(now) =~= before + subdir_variants_files(
                    variants.take(n as int),
                ) + subdir_variant_files(now.last()));
            }
            n += 1;
        }
        proof {
            assert(variants.take(n as int) =~= variants);
            let now = all.take(k + 1);
            assert(now.drop_last() =~= all.take(k as int));
            assert(now.last() == ss.deep_view());
            assert(outer + subdir_files(now) =~= before + subdir_variants_files(variants));
        }
        k += 1;
    }
    proof {
        assert(all.take(k as int) =~= all);
        assert(outer + subdir_files(all) =~= start + subdir_variant_files(sv.deep_view()));
    }
}

/// The files whose presence on disk decides the tags, in the order in which the
/// configuration names them.
pub fn configured_files(cfg: &BuildConfigIR) -> (r: Vec<String>)
    ensures
        r.deep_view() == files_of(cfg.deep_view()),
{
    let mut out: Vec<String> = Vec::new();
    append_selections(&mut out, &cfg.source_selections);
    let ghost start = out.deep_view();
    let ghost all = cfg.deep_view().subdir_selections;
    let mut i: usize = 0;
    proof {
        assert(start =~= selection_files(cfg.deep_view().source_selections));
        assert(start + subdir_files(all.take(0)) =~= start);
    }
    while i < cfg.subdir_selections.len()
        invariant
            all == cfg.deep_view().subdir_selections,
            i <= cfg.subdir_selections@.len(),
            out.deep_view() == start + subdir_files(all.take(i as int)),
        decreases cfg.subdir_selections@.len() - i,
    {
        let ss = &cfg.subdir_selections[i];
        let ghost before = out.deep_view();
        let ghost variants = ss.deep_view().variants;
        let mut n: usize = 0;
        proof {
            assert(before + subdir_variants_files(variants.take(0)) =~= before);
        }
        while n < ss.variants.len()
            invariant
                variants == ss.deep_view().variants,
                n <= ss.variants@.len(),
                out.deep_view() == before + subdir_variants_files(variants.take(n as int)),
            decreases ss.variants@.len() - n,
        {
            append_subdir_variant(&mut out, &ss.variants[n]);
            proof {
                let now = variants.take(n + 1);
                assert(now.drop_last() =~= variants.take(n as int));
                assert(now.last() == ss.variants@[n as int].deep_view());
                assert(before + subdir_variants_files(now) =~= before + subdir_variants_files(
                    variants.take(n as int),
                ) + subdir_variant_files(now.last()));
            }
            n += 1;
        }
        proof {
            assert(variants.take(n as int) =~= variants);
            let now = all.take(i + 1);
            assert(now.drop_last() =~= all.take(i as int));
            assert(now.last() == ss.deep_view());
            assert(start + subdir_files(now) =~= before + subdir_variants_files(variants));
        }
        i += 1;
    }
    proof {
        assert(all.take(i as int) =~= all);
    }
    out
}

/// The paths to look up on disk for the tags of a configuration, each under the
/// root of the project unless it is absolute.
pub open spec fn paths_of(files: Seq<Seq<char>>, table: PathTable) -> Seq<Seq<char>> {
    Seq::new(files.len(), |i: int| table.located(files[i]))
}

/// Where each of the files lies.
pub fn configured_paths(files: &Vec<String>, table: &PathTable) -> (r: Vec<String>)
    ensures
        r.deep_view() == paths_of(files.deep_view(), *table),
{
    let mut out: Vec<String> = Vec::new();
    let mut i: usize = 0;
    while i < files.len()
        invariant
            i <= files@.len(),
            out@.len() == i,
            forall|j: int|
                0 <= j < i ==> (#[trigger] out@[j])@ == table.located(files@[j]@),
        decreases files@.len() - i,
    {
        let path = table.locate(files[i].as_str());
        out.push(path);
        i += 1;
    }
    proof {
        assert(out.deep_view() =~= paths_of(files.deep_view(), *table));
    }
    out
}

/// Files missing from disk change nothing.
pub proof fn missing_files_are_skipped(
    files: Seq<Seq<char>>,
    m: TagMap,
    tags: Seq<Tag>,
    table: PathTable,
)
    requires
        forall|i: int| 0 <= i < files.len() ==> !table.on_disk(#[trigger] files[i]),
    ensures
        with_files(m, files, tags, table) == m,
    decreases files.len(),
{
    if files.len() > 0 {
        assert(!table.on_disk(files[files.len() - 1]));
        assert forall|i: int| 0 <= i < files.drop_last().len() implies !table.on_disk(
            #[trigger] files.drop_last()[i],
        ) by {
            assert(!table.on_disk(files[i]));
        }
        missing_files_are_skipped(files.drop_last(), m, tags, table);
    }
}

} // verus!
