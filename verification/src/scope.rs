//! The composition root: an ordered container of declarations with its own
//! import table, documentation and license, and the assembly algorithm that
//! renders it.

use vstd::prelude::*;
use vstd::pervasive::unreached;
use vstd::string::{StringExecFns, StrSliceExecFns};

use crate::comment::Comment;
use crate::consts::{const_line, const_render, Const};
use crate::docs::{docs_render, Docs};
use crate::formatter::{line_at, nl, Formatter};
use crate::import::{
    base_ty, entry_view, group_view, import_insert, import_pos, imports_wf, lemma_path_index,
    lemma_path_index_at, lemma_ty_index, lemma_ty_index_at, path_index, table_view, ty_base_of,
    ty_index, Import, ImportGroup, PathGroup, TyEntry,
};
use crate::item::{block_render, item_height, item_render, Enum, Function, Impl, Item, Struct, Trait};
use crate::license::{license_render, License};
use crate::module::{module_render, Module};
use crate::text::{opt_str_eq, opt_view, str_eq, views_of};

verus! {

/// A mutable borrow of one element of a vector; the vector's final value is
/// the old one with that element replaced by whatever the borrow is left as.
fn at_mut<T>(v: &mut Vec<T>, i: usize) -> (r: &mut T)
    requires
        i < old(v).len(),
    ensures
        *r == old(v)@[i as int],
        final(v)@ == old(v)@.update(i as int, *final(r)),
{
    &mut v[i]
}

// ---------------------------------------------------------------------------
// Visibility discovery: the distinct qualifiers in first-encounter order.
// ---------------------------------------------------------------------------

/// The views of a sequence of optional strings.
pub open spec fn opt_views(v: Seq<Option<String>>) -> Seq<Option<Seq<char>>> {
    v.map_values(|o: Option<String>| opt_view(o))
}

/// `acc` extended with `v` unless it is already present.
pub open spec fn add_vis(acc: Seq<Option<Seq<char>>>, v: Option<Seq<char>>) -> Seq<
    Option<Seq<char>>,
> {
    if acc.contains(v) {
        acc
    } else {
        acc.push(v)
    }
}

/// The qualifiers of `es`, in encounter order, folded onto `acc`.
pub open spec fn entries_vis(acc: Seq<Option<Seq<char>>>, es: Seq<TyEntry>) -> Seq<
    Option<Seq<char>>,
>
    decreases es.len(),
{
    if es.len() == 0 {
        acc
    } else {
        entries_vis(add_vis(acc, es[0].1), es.drop_first())
    }
}

/// The qualifiers of the whole table, in encounter order, folded onto `acc`.
pub open spec fn table_vis(acc: Seq<Option<Seq<char>>>, t: Seq<PathGroup>) -> Seq<
    Option<Seq<char>>,
>
    decreases t.len(),
{
    if t.len() == 0 {
        acc
    } else {
        table_vis(entries_vis(acc, t[0].1), t.drop_first())
    }
}

/// The distinct visibility qualifiers appearing across all registered
/// imports, in the order each was first encountered while iterating the
/// table in stored order.
pub open spec fn all_vis(t: Seq<PathGroup>) -> Seq<Option<Seq<char>>> {
    table_vis(Seq::empty(), t)
}

pub proof fn lemma_entries_vis_push(acc: Seq<Option<Seq<char>>>, es: Seq<TyEntry>, e: TyEntry)
    ensures
        entries_vis(acc, es.push(e)) == add_vis(entries_vis(acc, es), e.1),
    decreases es.len(),
{
    if es.len() == 0 {
        assert(es.push(e).drop_first() =~= es);
        assert(es.push(e)[0] == e);
        assert(entries_vis(acc, es.push(e)) == entries_vis(add_vis(acc, e.1), es));
        assert(entries_vis(add_vis(acc, e.1), es) == add_vis(acc, e.1));
        assert(entries_vis(acc, es) == acc);
    } else {
        assert(es.push(e).drop_first() =~= es.drop_first().push(e));
        assert(es.push(e)[0] == es[0]);
        lemma_entries_vis_push(add_vis(acc, es[0].1), es.drop_first(), e);
        assert(entries_vis(acc, es.push(e)) == entries_vis(
            add_vis(acc, es[0].1),
            es.drop_first().push(e),
        ));
        assert(entries_vis(acc, es) == entries_vis(add_vis(acc, es[0].1), es.drop_first()));
    }
}

pub proof fn lemma_table_vis_push(acc: Seq<Option<Seq<char>>>, t: Seq<PathGroup>, g: PathGroup)
    ensures
        table_vis(acc, t.push(g)) == entries_vis(table_vis(acc, t), g.1),
    decreases t.len(),
{
    if t.len() == 0 {
        assert(t.push(g).drop_first() =~= t);
        assert(t.push(g)[0] == g);
        assert(table_vis(acc, t.push(g)) == table_vis(entries_vis(acc, g.1), t));
        assert(table_vis(entries_vis(acc, g.1), t) == entries_vis(acc, g.1));
        assert(table_vis(acc, t) == acc);
    } else {
        assert(t.push(g).drop_first() =~= t.drop_first().push(g));
        assert(t.push(g)[0] == t[0]);
        lemma_table_vis_push(entries_vis(acc, t[0].1), t.drop_first(), g);
        assert(table_vis(acc, t.push(g)) == table_vis(
            entries_vis(acc, t[0].1),
            t.drop_first().push(g),
        ));
        assert(table_vis(acc, t) == table_vis(entries_vis(acc, t[0].1), t.drop_first()));
    }
}

// ---------------------------------------------------------------------------
// The rendered import block.
// ---------------------------------------------------------------------------

/// The rendered prefix of a visibility qualifier: the qualifier and one
/// space, or nothing.
pub open spec fn vis_prefix(v: Option<Seq<char>>) -> Seq<char> {
    match v {
        Some(x) => x + " "@,
        None => Seq::empty(),
    }
}

/// The type names joined with `, `.
pub open spec fn comma_join(tys: Seq<Seq<char>>) -> Seq<char>
    decreases tys.len(),
{
    if tys.len() == 0 {
        Seq::empty()
    } else if tys.len() == 1 {
        tys[0]
    } else {
        comma_join(tys.drop_last()) + ", "@ + tys.last()
    }
}

/// What follows `use <path>::`: a single type name, or a brace-delimited
/// list for two or more.
pub open spec fn ty_tail(tys: Seq<Seq<char>>) -> Seq<char> {
    if tys.len() == 1 {
        tys[0] + ";"@
    } else {
        "{"@ + comma_join(tys) + "};"@
    }
}

/// The type names of `es` whose qualifier is `v`, in stored order.
pub open spec fn tys_matching(es: Seq<TyEntry>, v: Option<Seq<char>>) -> Seq<Seq<char>>
    decreases es.len(),
{
    if es.len() == 0 {
        Seq::empty()
    } else {
        tys_matching(es.drop_last(), v) + (if es.last().1 == v {
            seq![es.last().0]
        } else {
            Seq::empty()
        })
    }
}

/// The line a group contributes under qualifier `v`: nothing when no entry
/// matches, otherwise one `use` statement.
pub open spec fn group_line(v: Option<Seq<char>>, g: PathGroup, depth: nat) -> Seq<char> {
    let tys = tys_matching(g.1, v);
    if tys.len() == 0 {
        Seq::empty()
    } else {
        line_at(depth, vis_prefix(v) + "use "@ + g.0 + "::"@ + ty_tail(tys))
    }
}

/// The lines of one visibility section: every path of the table in stored
/// order.
pub open spec fn vis_section(v: Option<Seq<char>>, t: Seq<PathGroup>, depth: nat) -> Seq<char>
    decreases t.len(),
{
    if t.len() == 0 {
        Seq::empty()
    } else {
        vis_section(v, t.drop_last(), depth) + group_line(v, t.last(), depth)
    }
}

/// The visibility sections, one per discovered qualifier, in discovery
/// order.
pub open spec fn vis_sections(
    vs: Seq<Option<Seq<char>>>,
    t: Seq<PathGroup>,
    depth: nat,
) -> Seq<char>
    decreases vs.len(),
{
    if vs.len() == 0 {
        Seq::empty()
    } else {
        vis_sections(vs.drop_last(), t, depth) + vis_section(vs.last(), t, depth)
    }
}

/// The whole rendered import block: grouped first by visibility qualifier
/// in discovery order, then by path in stored order, with the types of one
/// `(visibility, path)` pair collapsed into a single statement.
pub open spec fn imports_render(t: Seq<PathGroup>, depth: nat) -> Seq<char> {
    vis_sections(all_vis(t), t, depth)
}

// ---------------------------------------------------------------------------
// The scope itself.
// ---------------------------------------------------------------------------

/// A scope: an ordered sequence of declarations, a deduplicated and grouped
/// import table, optional documentation and an optional license.
#[derive(Debug)]
pub struct Scope {
    /// Scope documentation
    pub docs: Option<Docs>,
    /// Scope license
    pub license: Option<License>,
    /// Imports, grouped by path in first-registration order
    pub imports: Vec<ImportGroup>,
    /// The declarations, in insertion order
    pub items: Vec<Item>,
}

/// A scope with nothing in it.
pub open spec fn is_empty_scope(s: Scope) -> bool {
    s.docs is None && s.license is None && s.imports@.len() == 0 && s.items@.len() == 0
}

/// The name of a declaration when it is a module.
pub open spec fn item_module_name(it: Item) -> Option<Seq<char>> {
    match it {
        Item::Module(m) => Some(m.name@),
        _ => None,
    }
}

/// Whether the scope holds a direct-child module with the given name.
pub open spec fn has_module(s: Scope, name: Seq<char>) -> bool {
    exists|i: int|
        0 <= i < s.items@.len() && item_module_name(#[trigger] s.items@[i]) == Some(name)
}

/// The index of the first declaration that is a module with the given name,
/// or `items.len()`.
pub open spec fn module_index(items: Seq<Item>, name: Seq<char>) -> int
    decreases items.len(),
{
    if items.len() == 0 {
        0
    } else if item_module_name(items[0]) == Some(name) {
        0
    } else {
        1 + module_index(items.drop_first(), name)
    }
}

pub proof fn lemma_module_index(items: Seq<Item>, name: Seq<char>)
    ensures
        0 <= module_index(items, name) <= items.len(),
        forall|j: int|
            0 <= j < module_index(items, name) ==> item_module_name(#[trigger] items[j])
                != Some(name),
        module_index(items, name) < items.len() ==> item_module_name(
            items[module_index(items, name)],
        ) == Some(name),
    decreases items.len(),
{
    if items.len() != 0 && item_module_name(items[0]) != Some(name) {
        lemma_module_index(items.drop_first(), name);
        assert forall|j: int| 0 <= j < module_index(items, name) implies item_module_name(
            #[trigger] items[j],
        ) != Some(name) by {
            if j > 0 {
                assert(item_module_name(items.drop_first()[j - 1]) != Some(name));
            }
        }
    }
}

/// Well-formedness of one declaration: a module's nested scope is well
/// formed.
pub open spec fn item_wf(it: Item) -> bool
    decreases it,
{
    match it {
        Item::Module(m) => scope_wf(m.scope),
        _ => true,
    }
}

/// Well-formedness of a scope: the import table is deduplicated, no two
/// direct-child modules share a name, and every nested scope is well formed
/// in turn.
pub open spec fn scope_wf(s: Scope) -> bool
    decreases s,
{
    &&& imports_wf(table_view(s.imports@))
    &&& forall|i: int, j: int|
        #![trigger s.items@[i], s.items@[j]]
        0 <= i < j < s.items@.len() && item_module_name(s.items@[i]) is Some
            ==> item_module_name(s.items@[i]) != item_module_name(s.items@[j])
    &&& forall|i: int| 0 <= i < s.items@.len() ==> item_wf(#[trigger] s.items@[i])
}

/// How many indentation levels the declarations can open.
pub open spec fn items_height(items: Seq<Item>) -> nat
    decreases items,
{
    if items.len() == 0 {
        0
    } else {
        let h = item_height(items.last());
        let rest = items_height(items.drop_last());
        if h > rest {
            h
        } else {
            rest
        }
    }
}

/// How many indentation levels rendering the scope can open beyond the
/// depth it is rendered at.
pub open spec fn scope_height(s: Scope) -> nat
    decreases s,
{
    items_height(s.items@)
}

pub proof fn lemma_item_height_le(items: Seq<Item>, i: int)
    requires
        0 <= i < items.len(),
    ensures
        item_height(items[i]) <= items_height(items),
    decreases items.len(),
{
    if i < items.len() - 1 {
        lemma_item_height_le(items.drop_last(), i);
    }
}

/// The declarations in insertion order, with exactly one blank separator
/// line between consecutive declarations: none before the first and none
/// after the last.
pub open spec fn items_render(items: Seq<Item>, depth: nat) -> Seq<char>
    decreases items,
{
    if items.len() == 0 {
        Seq::empty()
    } else if items.len() == 1 {
        item_render(items[0], depth)
    } else {
        items_render(items.drop_last(), depth) + nl() + item_render(items.last(), depth)
    }
}

/// The full rendered scope: the license, the documentation, the grouped
/// import block followed by one blank line when any import exists, then the
/// declarations.
pub open spec fn scope_render(s: Scope, depth: nat) -> Seq<char>
    decreases s,
{
    (match s.license {
        Some(l) => license_render(l, depth),
        None => Seq::empty(),
    }) + (match s.docs {
        Some(d) => docs_render(d, depth),
        None => Seq::empty(),
    }) + imports_render(table_view(s.imports@), depth) + (if s.imports@.len() > 0 {
        nl()
    } else {
        Seq::empty()
    }) + items_render(s.items@, depth)
}

/// The rendered text with one trailing line break removed, if present.
pub open spec fn trim_nl(t: Seq<char>) -> Seq<char> {
    if t.len() > 0 && t.last() == '\n' {
        t.drop_last()
    } else {
        t
    }
}

/// What the public string conversion of a scope yields.
pub open spec fn scope_output(s: Scope) -> Seq<char> {
    trim_nl(scope_render(s, 0))
}

impl Scope {
    /// A new, empty scope.
    pub fn new() -> (s: Scope)
        ensures
            is_empty_scope(s),
            scope_wf(s),
    {
        Scope { docs: None, license: None, imports: Vec::new(), items: Vec::new() }
    }

    /// Set the scope's documentation, replacing any earlier one.
    pub fn docs(&mut self, docs: Docs) -> (r: &mut Scope)
        ensures
            r.docs == Some(docs),
            r.license == old(self).license,
            r.imports == old(self).imports,
            r.items == old(self).items,
            scope_wf(*old(self)) ==> scope_wf(*r),
            *final(self) == *final(r),
    {
        self.docs = Some(docs);
        self
    }

    /// Set the scope's license, replacing any earlier one.
    pub fn license(&mut self, license: License) -> (r: &mut Scope)
        ensures
            r.license == Some(license),
            r.docs == old(self).docs,
            r.imports == old(self).imports,
            r.items == old(self).items,
            scope_wf(*old(self)) ==> scope_wf(*r),
            *final(self) == *final(r),
    {
        self.license = Some(license);
        self
    }
}

/// Whether the view of `x` is among the views of `v`.
fn contains_vis(v: &Vec<Option<String>>, x: &Option<String>) -> (r: bool)
    ensures
        r == opt_views(v@).contains(opt_view(*x)),
{
    let mut i: usize = 0;
    while i < v.len()
        invariant
            i <= v@.len(),
            forall|j: int| 0 <= j < i ==> opt_view(#[trigger] v@[j]) != opt_view(*x),
        decreases v@.len() - i,
    {
        if opt_str_eq(&v[i], x) {
            proof {
                assert(opt_views(v@)[i as int] == opt_view(*x));
            }
            return true;
        }
        i = i + 1;
    }
    proof {
        if opt_views(v@).contains(opt_view(*x)) {
            let j = choose|j: int|
                0 <= j < opt_views(v@).len() && opt_views(v@)[j] == opt_view(*x);
            assert(opt_view(v@[j]) != opt_view(*x));
        }
    }
    false
}

/// A copy of an optional visibility string.
fn clone_opt_string(o: &Option<String>) -> (r: Option<String>)
    ensures
        r == *o,
{
    match o {
        None => None,
        Some(s) => Some(s.clone()),
    }
}

/// The index of the first group with the given path, or the table's length.
fn find_path(v: &Vec<ImportGroup>, path: &str) -> (r: usize)
    ensures
        r as int == path_index(table_view(v@), path@),
{
    let ghost tv = table_view(v@);
    let mut i: usize = 0;
    while i < v.len()
        invariant
            i <= v@.len(),
            tv == table_view(v@),
            forall|j: int| 0 <= j < i ==> tv[j].0 != path@,
        decreases v@.len() - i,
    {
        if str_eq(v[i].path.as_str(), path) {
            proof {
                lemma_path_index_at(tv, path@, i as int);
            }
            return i;
        }
        i = i + 1;
    }
    proof {
        lemma_path_index_at(tv, path@, tv.len() as int);
    }
    i
}

/// The index of the first record with the given type name, or the group's
/// length.
fn find_ty(v: &Vec<Import>, ty: &str) -> (r: usize)
    ensures
        r as int == ty_index(v@.map_values(|e: Import| entry_view(e)), ty@),
{
    let ghost es = v@.map_values(|e: Import| entry_view(e));
    let mut i: usize = 0;
    while i < v.len()
        invariant
            i <= v@.len(),
            es == v@.map_values(|e: Import| entry_view(e)),
            forall|j: int| 0 <= j < i ==> es[j].0 != ty@,
        decreases v@.len() - i,
    {
        if str_eq(v[i].ty.as_str(), ty) {
            proof {
                lemma_ty_index_at(es, ty@, i as int);
            }
            return i;
        }
        i = i + 1;
    }
    proof {
        lemma_ty_index_at(es, ty@, es.len() as int);
    }
    i
}

/// The index of the first declaration that is a module with the given name,
/// or the item count.
fn find_module(v: &Vec<Item>, name: &str) -> (r: usize)
    ensures
        r as int == module_index(v@, name@),
        (r as int) < v@.len() ==> item_module_name(v@[r as int]) == Some(name@),
        (r as int) == v@.len() ==> forall|j: int|
            0 <= j < v@.len() ==> item_module_name(#[trigger] v@[j]) != Some(name@),
{
    let mut i: usize = 0;
    while i < v.len()
        invariant
            i <= v@.len(),
            forall|j: int| 0 <= j < i ==> item_module_name(#[trigger] v@[j]) != Some(name@),
        decreases v@.len() - i,
    {
        let found = match &v[i] {
            Item::Module(m) => str_eq(m.name.as_str(), name),
            _ => false,
        };
        if found {
            proof {
                lemma_module_index_at(v@, name@, i as int);
            }
            return i;
        }
        i = i + 1;
    }
    proof {
        lemma_module_index_at(v@, name@, v@.len() as int);
    }
    i
}

/// A scan that sees no module of that name before `k`, and one at `k`
/// unless `k` is the end, pins `module_index` down.
pub proof fn lemma_module_index_at(items: Seq<Item>, name: Seq<char>, k: int)
    requires
        0 <= k <= items.len(),
        forall|j: int| 0 <= j < k ==> item_module_name(#[trigger] items[j]) != Some(name),
        k < items.len() ==> item_module_name(items[k]) == Some(name),
    ensures
        module_index(items, name) == k,
    decreases items.len(),
{
    if items.len() != 0 && item_module_name(items[0]) != Some(name) {
        lemma_module_index_at(items.drop_first(), name, k - 1);
    }
}

impl Scope {
    /// Import a type into the scope; a `use` statement for it is rendered
    /// at the beginning of the scope's output.
    ///
    /// Only the leading segment of `ty` is registered, so `a::B` imports
    /// `a`. When the `(path, type)` pair is already present the existing
    /// record is returned instead of a duplicate being created, so a caller
    /// can keep configuring it, for example its visibility.
    pub fn import(&mut self, path: &str, ty: &str) -> (r: &mut Import)
        ensures
            ({
                let t0 = table_view(old(self).imports@);
                let t1 = import_insert(t0, path@, base_ty(ty@));
                let pos = import_pos(t0, path@, base_ty(ty@));
                &&& entry_view(*r) == t1[pos.0].1[pos.1]
                &&& r.ty@ == base_ty(ty@)
                &&& final(self).imports@.len() == t1.len()
                &&& forall|j: int|
                    0 <= j < t1.len() && j != pos.0 ==> group_view(
                        #[trigger] final(self).imports@[j],
                    ) == t1[j]
                &&& final(self).imports@[pos.0].path@ == t1[pos.0].0
                &&& final(self).imports@[pos.0].entries@.len() == t1[pos.0].1.len()
                &&& forall|k: int|
                    0 <= k < t1[pos.0].1.len() && k != pos.1 ==> entry_view(
                        #[trigger] final(self).imports@[pos.0].entries@[k],
                    ) == t1[pos.0].1[k]
                &&& final(self).imports@[pos.0].entries@[pos.1] == *final(r)
                &&& final(self).docs == old(self).docs
                &&& final(self).license == old(self).license
                &&& final(self).items == old(self).items
            }),
    {
        let tyb = ty_base_of(ty);
        let ghost t0 = table_view(self.imports@);
        let gi = find_path(&self.imports, path);
        proof {
            lemma_path_index(t0, path@);
        }
        if gi < self.imports.len() {
            let ei = find_ty(&self.imports[gi].entries, tyb.as_str());
            proof {
                lemma_ty_index(t0[gi as int].1, base_ty(ty@));
            }
            if ei < self.imports[gi].entries.len() {
                let g = at_mut(&mut self.imports, gi);
                at_mut(&mut g.entries, ei)
            } else {
                let g = at_mut(&mut self.imports, gi);
                g.entries.push(Import { ty: tyb, vis: None });
                let last = g.entries.len() - 1;
                at_mut(&mut g.entries, last)
            }
        } else {
            let mut entries: Vec<Import> = Vec::new();
            entries.push(Import { ty: tyb, vis: None });
            self.imports.push(ImportGroup { path: String::from_str(path), entries });
            let g = at_mut(&mut self.imports, gi);
            at_mut(&mut g.entries, 0)
        }
    }
}

/// The pointwise facts [`Scope::import`] leaves behind amount to the
/// algebraic description: the new table is `import_insert` of the old one,
/// with the record at `import_pos` replaced by whatever the returned borrow
/// was left as.
pub proof fn lemma_import_table(
    t1: Seq<PathGroup>,
    pos: (int, int),
    groups: Seq<ImportGroup>,
    rec: Import,
)
    requires
        0 <= pos.0 < t1.len(),
        0 <= pos.1 < t1[pos.0].1.len(),
        groups.len() == t1.len(),
        forall|j: int| 0 <= j < t1.len() && j != pos.0 ==> group_view(#[trigger] groups[j]) == t1[j],
        groups[pos.0].path@ == t1[pos.0].0,
        groups[pos.0].entries@.len() == t1[pos.0].1.len(),
        forall|k: int|
            0 <= k < t1[pos.0].1.len() && k != pos.1 ==> entry_view(
                #[trigger] groups[pos.0].entries@[k],
            ) == t1[pos.0].1[k],
        groups[pos.0].entries@[pos.1] == rec,
    ensures
        table_view(groups) == t1.update(
            pos.0,
            (t1[pos.0].0, t1[pos.0].1.update(pos.1, entry_view(rec))),
        ),
{
    let target = t1.update(pos.0, (t1[pos.0].0, t1[pos.0].1.update(pos.1, entry_view(rec))));
    assert(group_view(groups[pos.0]).1 =~= target[pos.0].1);
    assert(table_view(groups) =~= target);
}


impl Scope {
    /// Append a constant definition.
    pub fn push_const(&mut self, item: Const) -> (r: &mut Scope)
        ensures
            r.items@ == old(self).items@.push(Item::Const(item)),
            r.docs == old(self).docs,
            r.license == old(self).license,
            r.imports == old(self).imports,
            scope_wf(*old(self)) ==> scope_wf(*r),
            *final(self) == *final(r),
    {
        self.items.push(Item::Const(item));
        self
    }

    /// Append a fresh constant definition and return it for further
    /// configuration.
    pub fn new_const(&mut self, name: &str, ty: &str, value: &str) -> (r: &mut Const)
        ensures
            final(self).items@.len() == old(self).items@.len() + 1,
            forall|j: int|
                0 <= j < old(self).items@.len() ==> final(self).items@[j] == old(self).items@[j],
            final(self).items@.last() == Item::Const(*final(r)),
            scope_wf(*old(self)) ==> scope_wf(*final(self)),
            r.name@ == name@,
            r.ty.name@ == ty@,
            r.vis is None,
            r.documentation@.len() == 0,
            r.value@ == value@,
            final(self).docs == old(self).docs,
            final(self).license == old(self).license,
            final(self).imports == old(self).imports,
    {
        self.items.push(Item::Const(Const::new(name, ty, value)));
        let last = self.items.len() - 1;
        let it = at_mut(&mut self.items, last);
        match it {
            Item::Const(c) => c,
            _ => unreached(),
        }
    }

    /// Append a module definition.
    ///
    /// A module's name must uniquely identify it among the direct-child
    /// modules of this scope; use [`Scope::get_or_new_module`] for
    /// get-or-create behaviour.
    pub fn push_module(&mut self, item: Module) -> (r: &mut Scope)
        requires
            !has_module(*old(self), item.name@),
        ensures
            r.items@ == old(self).items@.push(Item::Module(item)),
            r.docs == old(self).docs,
            r.license == old(self).license,
            r.imports == old(self).imports,
            scope_wf(*old(self)) && scope_wf(item.scope) ==> scope_wf(*r),
            *final(self) == *final(r),
    {
        self.items.push(Item::Module(item));
        self
    }

    /// Append a fresh, empty module and return it for further
    /// configuration.
    ///
    /// A module's name must uniquely identify it among the direct-child
    /// modules of this scope; use [`Scope::get_or_new_module`] for
    /// get-or-create behaviour.
    pub fn new_module(&mut self, name: &str) -> (r: &mut Module)
        requires
            !has_module(*old(self), name@),
        ensures
            final(self).items@.len() == old(self).items@.len() + 1,
            forall|j: int|
                0 <= j < old(self).items@.len() ==> final(self).items@[j] == old(self).items@[j],
            final(self).items@.last() == Item::Module(*final(r)),
            scope_wf(*old(self)) && scope_wf(final(r).scope) && !has_module(
                *old(self),
                final(r).name@,
            ) ==> scope_wf(*final(self)),
            r.name@ == name@,
            is_empty_scope(r.scope),
            scope_wf(r.scope),
            final(self).docs == old(self).docs,
            final(self).license == old(self).license,
            final(self).imports == old(self).imports,
    {
        self.items.push(Item::Module(Module::new(name)));
        let last = self.items.len() - 1;
        let it = at_mut(&mut self.items, last);
        match it {
            Item::Module(m) => m,
            _ => unreached(),
        }
    }

    /// The first direct-child module with the given name, if any.
    pub fn get_module(&self, name: &str) -> (r: Option<&Module>)
        ensures
            match r {
                Some(m) => {
                    let mi = module_index(self.items@, name@);
                    &&& has_module(*self, name@)
                    &&& mi < self.items@.len()
                    &&& self.items@[mi] == Item::Module(*m)
                },
                None => !has_module(*self, name@),
            },
    {
        let i = find_module(&self.items, name);
        if i < self.items.len() {
            proof {
                assert(item_module_name(self.items@[i as int]) == Some(name@));
            }
            match &self.items[i] {
                Item::Module(m) => {
                    proof {
                        assert(self.items@[i as int] == Item::Module(*m));
                        assert(has_module(*self, name@));
                    }
                    Some(m)
                },
                _ => unreached(),
            }
        } else {
            proof {
                lemma_module_index(self.items@, name@);
                if has_module(*self, name@) {
                    let w = choose|w: int|
                        0 <= w < self.items@.len() && item_module_name(
                            #[trigger] self.items@[w],
                        ) == Some(name@);
                    assert(item_module_name(self.items@[w]) != Some(name@));
                    assert(false);
                }
            }
            None
        }
    }

    /// The first direct-child module with the given name, if any, borrowed
    /// mutably.
    pub fn get_module_mut(&mut self, name: &str) -> (r: Option<&mut Module>)
        ensures
            ({
                let mi = module_index(old(self).items@, name@);
                match r {
                    Some(m) => {
                        &&& has_module(*old(self), name@)
                        &&& mi < old(self).items@.len()
                        &&& old(self).items@[mi] == Item::Module(*m)
                        &&& final(self).items@ == old(self).items@.update(
                            mi,
                            Item::Module(*final(m)),
                        )
                        &&& final(self).docs == old(self).docs
                        &&& final(self).license == old(self).license
                        &&& final(self).imports == old(self).imports
                        &&& (scope_wf(*old(self)) && scope_wf(final(m).scope)
                            && final(m).name@ == m.name@ ==> scope_wf(*final(self)))
                    },
                    None => {
                        &&& !has_module(*old(self), name@)
                        &&& *final(self) == *old(self)
                    },
                }
            }),
    {
        let i = find_module(&self.items, name);
        if i < self.items.len() {
            let it = at_mut(&mut self.items, i);
            match it {
                Item::Module(m) => Some(m),
                _ => unreached(),
            }
        } else {
            proof {
                lemma_module_index(self.items@, name@);
                if has_module(*self, name@) {
                    let w = choose|w: int|
                        0 <= w < self.items@.len() && item_module_name(
                            #[trigger] self.items@[w],
                        ) == Some(name@);
                    assert(item_module_name(self.items@[w]) != Some(name@));
                    assert(false);
                }
            }
            None
        }
    }

    /// The first direct-child module with the given name, creating an empty
    /// one at the end of the scope only when none exists.
    pub fn get_or_new_module(&mut self, name: &str) -> (r: &mut Module)
        ensures
            ({
                let mi = module_index(old(self).items@, name@);
                &&& (if has_module(*old(self), name@) {
                    &&& mi < old(self).items@.len()
                    &&& old(self).items@[mi] == Item::Module(*r)
                    &&& final(self).items@ == old(self).items@.update(
                        mi,
                        Item::Module(*final(r)),
                    )
                } else {
                    &&& r.name@ == name@
                    &&& is_empty_scope(r.scope)
                    &&& final(self).items@.len() == old(self).items@.len() + 1
                    &&& forall|j: int|
                        0 <= j < old(self).items@.len() ==> final(self).items@[j] == old(
                            self,
                        ).items@[j]
                    &&& final(self).items@.last() == Item::Module(*final(r))
                })
                &&& (scope_wf(*old(self)) && scope_wf(final(r).scope) && final(r).name@
                    == name@ ==> scope_wf(*final(self)))
                &&& final(self).docs == old(self).docs
                &&& final(self).license == old(self).license
                &&& final(self).imports == old(self).imports
            }),
    {
        let i = find_module(&self.items, name);
        if i < self.items.len() {
            let it = at_mut(&mut self.items, i);
            match it {
                Item::Module(m) => m,
                _ => unreached(),
            }
        } else {
            proof {
                lemma_module_index(self.items@, name@);
                if has_module(*self, name@) {
                    let w = choose|w: int|
                        0 <= w < self.items@.len() && item_module_name(
                            #[trigger] self.items@[w],
                        ) == Some(name@);
                    assert(item_module_name(self.items@[w]) != Some(name@));
                    assert(false);
                }
            }
            self.items.push(Item::Module(Module::new(name)));
            let last = self.items.len() - 1;
            let it = at_mut(&mut self.items, last);
            match it {
                Item::Module(m) => m,
                _ => unreached(),
            }
        }
    }

    /// Append a structure definition.
    pub fn push_struct(&mut self, item: Struct) -> (r: &mut Scope)
        ensures
            r.items@ == old(self).items@.push(Item::Struct(item)),
            r.docs == old(self).docs,
            r.license == old(self).license,
            r.imports == old(self).imports,
            scope_wf(*old(self)) ==> scope_wf(*r),
            *final(self) == *final(r),
    {
        self.items.push(Item::Struct(item));
        self
    }

    /// Append a fresh structure definition and return it for further
    /// configuration.
    pub fn new_struct(&mut self, name: &str) -> (r: &mut Struct)
        ensures
            final(self).items@.len() == old(self).items@.len() + 1,
            forall|j: int|
                0 <= j < old(self).items@.len() ==> final(self).items@[j] == old(self).items@[j],
            final(self).items@.last() == Item::Struct(*final(r)),
            scope_wf(*old(self)) ==> scope_wf(*final(self)),
            r.name@ == name@,
            r.fields@.len() == 0,
            final(self).docs == old(self).docs,
            final(self).license == old(self).license,
            final(self).imports == old(self).imports,
    {
        self.items.push(Item::Struct(Struct::new(name)));
        let last = self.items.len() - 1;
        let it = at_mut(&mut self.items, last);
        match it {
            Item::Struct(s) => s,
            _ => unreached(),
        }
    }

    /// Append a function definition.
    pub fn push_fn(&mut self, item: Function) -> (r: &mut Scope)
        ensures
            r.items@ == old(self).items@.push(Item::Function(item)),
            r.docs == old(self).docs,
            r.license == old(self).license,
            r.imports == old(self).imports,
            scope_wf(*old(self)) ==> scope_wf(*r),
            *final(self) == *final(r),
    {
        self.items.push(Item::Function(item));
        self
    }

    /// Append a fresh function definition and return it for further
    /// configuration.
    pub fn new_fn(&mut self, name: &str) -> (r: &mut Function)
        ensures
            final(self).items@.len() == old(self).items@.len() + 1,
            forall|j: int|
                0 <= j < old(self).items@.len() ==> final(self).items@[j] == old(self).items@[j],
            final(self).items@.last() == Item::Function(*final(r)),
            scope_wf(*old(self)) ==> scope_wf(*final(self)),
            r.name@ == name@,
            r.body@.len() == 0,
            final(self).docs == old(self).docs,
            final(self).license == old(self).license,
            final(self).imports == old(self).imports,
    {
        self.items.push(Item::Function(Function::new(name)));
        let last = self.items.len() - 1;
        let it = at_mut(&mut self.items, last);
        match it {
            Item::Function(f) => f,
            _ => unreached(),
        }
    }

    /// Append a trait definition.
    pub fn push_trait(&mut self, item: Trait) -> (r: &mut Scope)
        ensures
            r.items@ == old(self).items@.push(Item::Trait(item)),
            r.docs == old(self).docs,
            r.license == old(self).license,
            r.imports == old(self).imports,
            scope_wf(*old(self)) ==> scope_wf(*r),
            *final(self) == *final(r),
    {
        self.items.push(Item::Trait(item));
        self
    }

    /// Append a fresh trait definition and return it for further
    /// configuration.
    pub fn new_trait(&mut self, name: &str) -> (r: &mut Trait)
        ensures
            final(self).items@.len() == old(self).items@.len() + 1,
            forall|j: int|
                0 <= j < old(self).items@.len() ==> final(self).items@[j] == old(self).items@[j],
            final(self).items@.last() == Item::Trait(*final(r)),
            scope_wf(*old(self)) ==> scope_wf(*final(self)),
            r.name@ == name@,
            r.methods@.len() == 0,
            final(self).docs == old(self).docs,
            final(self).license == old(self).license,
            final(self).imports == old(self).imports,
    {
        self.items.push(Item::Trait(Trait::new(name)));
        let last = self.items.len() - 1;
        let it = at_mut(&mut self.items, last);
        match it {
            Item::Trait(t) => t,
            _ => unreached(),
        }
    }

    /// Append an enumeration definition.
    pub fn push_enum(&mut self, item: Enum) -> (r: &mut Scope)
        ensures
            r.items@ == old(self).items@.push(Item::Enum(item)),
            r.docs == old(self).docs,
            r.license == old(self).license,
            r.imports == old(self).imports,
            scope_wf(*old(self)) ==> scope_wf(*r),
            *final(self) == *final(r),
    {
        self.items.push(Item::Enum(item));
        self
    }

    /// Append a fresh enumeration definition and return it for further
    /// configuration.
    pub fn new_enum(&mut self, name: &str) -> (r: &mut Enum)
        ensures
            final(self).items@.len() == old(self).items@.len() + 1,
            forall|j: int|
                0 <= j < old(self).items@.len() ==> final(self).items@[j] == old(self).items@[j],
            final(self).items@.last() == Item::Enum(*final(r)),
            scope_wf(*old(self)) ==> scope_wf(*final(self)),
            r.name@ == name@,
            r.variants@.len() == 0,
            final(self).docs == old(self).docs,
            final(self).license == old(self).license,
            final(self).imports == old(self).imports,
    {
        self.items.push(Item::Enum(Enum::new(name)));
        let last = self.items.len() - 1;
        let it = at_mut(&mut self.items, last);
        match it {
            Item::Enum(e) => e,
            _ => unreached(),
        }
    }

    /// Append a comment.
    pub fn push_comment(&mut self, comment: Comment) -> (r: &mut Scope)
        ensures
            r.items@ == old(self).items@.push(Item::Comment(comment)),
            r.docs == old(self).docs,
            r.license == old(self).license,
            r.imports == old(self).imports,
            scope_wf(*old(self)) ==> scope_wf(*r),
            *final(self) == *final(r),
    {
        self.items.push(Item::Comment(comment));
        self
    }

    /// Append a fresh comment and return it for further configuration.
    pub fn new_comment(&mut self, comment: &str) -> (r: &mut Comment)
        ensures
            final(self).items@.len() == old(self).items@.len() + 1,
            forall|j: int|
                0 <= j < old(self).items@.len() ==> final(self).items@[j] == old(self).items@[j],
            final(self).items@.last() == Item::Comment(*final(r)),
            scope_wf(*old(self)) ==> scope_wf(*final(self)),
            r.comment@ == comment@,
            final(self).docs == old(self).docs,
            final(self).license == old(self).license,
            final(self).imports == old(self).imports,
    {
        self.items.push(Item::Comment(Comment::new(comment)));
        let last = self.items.len() - 1;
        let it = at_mut(&mut self.items, last);
        match it {
            Item::Comment(c) => c,
            _ => unreached(),
        }
    }

    /// Append an implementation block.
    pub fn push_impl(&mut self, item: Impl) -> (r: &mut Scope)
        ensures
            r.items@ == old(self).items@.push(Item::Impl(item)),
            r.docs == old(self).docs,
            r.license == old(self).license,
            r.imports == old(self).imports,
            scope_wf(*old(self)) ==> scope_wf(*r),
            *final(self) == *final(r),
    {
        self.items.push(Item::Impl(item));
        self
    }

    /// Append a fresh implementation block and return it for further
    /// configuration.
    pub fn new_impl(&mut self, target: &str) -> (r: &mut Impl)
        ensures
            final(self).items@.len() == old(self).items@.len() + 1,
            forall|j: int|
                0 <= j < old(self).items@.len() ==> final(self).items@[j] == old(self).items@[j],
            final(self).items@.last() == Item::Impl(*final(r)),
            scope_wf(*old(self)) ==> scope_wf(*final(self)),
            r.target@ == target@,
            r.body@.len() == 0,
            final(self).docs == old(self).docs,
            final(self).license == old(self).license,
            final(self).imports == old(self).imports,
    {
        self.items.push(Item::Impl(Impl::new(target)));
        let last = self.items.len() - 1;
        let it = at_mut(&mut self.items, last);
        match it {
            Item::Impl(i) => i,
            _ => unreached(),
        }
    }

    /// Append a line included verbatim in the output.
    pub fn raw(&mut self, val: &str) -> (r: &mut Scope)
        ensures
            r.items@.len() == old(self).items@.len() + 1,
            r.items@.drop_last() == old(self).items@,
            r.items@.last() matches Item::Raw(v) && v@ == val@,
            r.docs == old(self).docs,
            r.license == old(self).license,
            r.imports == old(self).imports,
            scope_wf(*old(self)) ==> scope_wf(*r),
            *final(self) == *final(r),
    {
        let s = String::from_str(val);
        proof {
            assert(self.items@.push(Item::Raw(s)).drop_last() =~= self.items@);
        }
        self.items.push(Item::Raw(s));
        self
    }
}


impl Scope {
    /// Write the grouped import block: one section per visibility
    /// qualifier in discovery order; within a section one `use` statement
    /// per path that has matching entries, in stored path order, with two
    /// or more type names collapsed into a brace-delimited list.
    fn fmt_imports(&self, fmt: &mut Formatter)
        ensures
            final(fmt).text() == old(fmt).text() + imports_render(
                table_view(self.imports@),
                old(fmt).depth(),
            ),
            final(fmt).depth() == old(fmt).depth(),
    {
        let ghost tv = table_view(self.imports@);
        let ghost d = fmt.depth();

        // 1. collect the distinct visibility qualifiers in the order each
        //    is first encountered over (path, type) in stored order
        let mut vis: Vec<Option<String>> = Vec::new();
        let mut gi: usize = 0;
        proof {
            assert(tv.take(0) =~= Seq::<PathGroup>::empty());
            assert(opt_views(vis@) =~= Seq::<Option<Seq<char>>>::empty());
        }
        while gi < self.imports.len()
            invariant
                gi <= self.imports@.len(),
                tv == table_view(self.imports@),
                opt_views(vis@) == table_vis(Seq::empty(), tv.take(gi as int)),
            decreases self.imports@.len() - gi,
        {
            let ghost acc0 = opt_views(vis@);
            let ghost es = tv[gi as int].1;
            let mut ei: usize = 0;
            proof {
                assert(es.take(0) =~= Seq::<TyEntry>::empty());
            }
            while ei < self.imports[gi].entries.len()
                invariant
                    gi < self.imports@.len(),
                    ei <= self.imports@[gi as int].entries@.len(),
                    tv == table_view(self.imports@),
                    es == tv[gi as int].1,
                    es.len() == self.imports@[gi as int].entries@.len(),
                    opt_views(vis@) == entries_vis(acc0, es.take(ei as int)),
                decreases self.imports@[gi as int].entries@.len() - ei,
            {
                let v = &self.imports[gi].entries[ei].vis;
                proof {
                    assert(es[ei as int] == entry_view(
                        self.imports@[gi as int].entries@[ei as int],
                    ));
                    assert(es.take(ei + 1) =~= es.take(ei as int).push(es[ei as int]));
                    lemma_entries_vis_push(acc0, es.take(ei as int), es[ei as int]);
                }
                if !contains_vis(&vis, v) {
                    let copy = clone_opt_string(v);
                    proof {
                        assert(opt_views(vis@.push(copy)) =~= opt_views(vis@).push(
                            opt_view(copy),
                        ));
                    }
                    vis.push(copy);
                }
                ei = ei + 1;
            }
            proof {
                assert(es.take(es.len() as int) =~= es);
                assert(tv.take(gi + 1) =~= tv.take(gi as int).push(tv[gi as int]));
                lemma_table_vis_push(Seq::empty(), tv.take(gi as int), tv[gi as int]);
            }
            gi = gi + 1;
        }
        let ghost vs = all_vis(tv);
        proof {
            assert(tv.take(tv.len() as int) =~= tv);
            assert(opt_views(vis@) == vs);
        }

        // 2. render one section per collected qualifier
        let ghost base = fmt.text();
        let mut vi: usize = 0;
        proof {
            assert(vis_sections(vs.take(0), tv, d) =~= Seq::<char>::empty());
            assert(base + Seq::<char>::empty() =~= base);
        }
        while vi < vis.len()
            invariant
                vi <= vis@.len(),
                opt_views(vis@) == vs,
                tv == table_view(self.imports@),
                d == fmt.depth(),
                fmt.text() == base + vis_sections(vs.take(vi as int), tv, d),
            decreases vis@.len() - vi,
        {
            let ghost v = vs[vi as int];
            let ghost secbase = fmt.text();
            proof {
                assert(v == opt_view(vis@[vi as int]));
                assert(vis_section(v, tv.take(0), d) =~= Seq::<char>::empty());
                assert(secbase + Seq::<char>::empty() =~= secbase);
            }
            let mut gj: usize = 0;
            while gj < self.imports.len()
                invariant
                    vi < vis@.len(),
                    gj <= self.imports@.len(),
                    opt_views(vis@) == vs,
                    v == vs[vi as int],
                    v == opt_view(vis@[vi as int]),
                    tv == table_view(self.imports@),
                    d == fmt.depth(),
                    fmt.text() == secbase + vis_section(v, tv.take(gj as int), d),
                decreases self.imports@.len() - gj,
            {
                let ghost es = tv[gj as int].1;
                // collect the type names matching this qualifier
                let mut tys: Vec<String> = Vec::new();
                let mut ek: usize = 0;
                proof {
                    assert(es.take(0) =~= Seq::<TyEntry>::empty());
                    assert(views_of(tys@) =~= tys_matching(es.take(0), v));
                }
                while ek < self.imports[gj].entries.len()
                    invariant
                        vi < vis@.len(),
                        gj < self.imports@.len(),
                        ek <= self.imports@[gj as int].entries@.len(),
                        opt_views(vis@) == vs,
                        v == vs[vi as int],
                        v == opt_view(vis@[vi as int]),
                        tv == table_view(self.imports@),
                        es == tv[gj as int].1,
                        es.len() == self.imports@[gj as int].entries@.len(),
                        views_of(tys@) == tys_matching(es.take(ek as int), v),
                    decreases self.imports@[gj as int].entries@.len() - ek,
                {
                    let e = &self.imports[gj].entries[ek];
                    proof {
                        assert(es[ek as int] == entry_view(
                            self.imports@[gj as int].entries@[ek as int],
                        ));
                        assert(es.take(ek + 1).drop_last() =~= es.take(ek as int));
                        assert(es.take(ek + 1).last() == es[ek as int]);
                    }
                    if opt_str_eq(&e.vis, &vis[vi]) {
                        let t = e.ty.clone();
                        proof {
                            assert(views_of(tys@.push(t)) =~= views_of(tys@).push(t@));
                            assert(tys_matching(es.take(ek + 1), v) =~= views_of(tys@).push(
                                t@,
                            ));
                        }
                        tys.push(t);
                    } else {
                        proof {
                            assert(tys_matching(es.take(ek + 1), v) =~= views_of(tys@));
                        }
                    }
                    ek = ek + 1;
                }
                proof {
                    assert(es.take(es.len() as int) =~= es);
                }
                let ghost tyv = tys_matching(es, v);

                if tys.len() > 0 {
                    // build the statement
                    let mut line = String::new();
                    match &vis[vi] {
                        Some(vv) => {
                            line.append(vv.as_str());
                            line.append(" ");
                        },
                        None => {},
                    }
                    proof {
                        assert(line@ =~= vis_prefix(v));
                    }
                    line.append("use ");
                    line.append(self.imports[gj].path.as_str());
                    line.append("::");
                    proof {
                        assert(tv[gj as int].0 == self.imports@[gj as int].path@);
                    }
                    let ghost stem = vis_prefix(v) + "use "@ + tv[gj as int].0 + "::"@;
                    proof {
                        assert(line@ =~= stem);
                    }
                    if tys.len() == 1 {
                        line.append(tys[0].as_str());
                        line.append(";");
                        proof {
                            assert(line@ =~= stem + ty_tail(tyv));
                        }
                    } else {
                        line.append("{");
                        let ghost braced = stem + "{"@;
                        let mut k: usize = 0;
                        proof {
                            assert(comma_join(tyv.take(0)) =~= Seq::<char>::empty());
                            assert(line@ =~= braced + comma_join(tyv.take(0)));
                        }
                        while k < tys.len()
                            invariant
                                k <= tys@.len(),
                                views_of(tys@) == tyv,
                                line@ == braced + comma_join(tyv.take(k as int)),
                            decreases tys@.len() - k,
                        {
                            if k > 0 {
                                line.append(", ");
                            }
                            line.append(tys[k].as_str());
                            proof {
                                assert(tyv.take(k + 1).drop_last() =~= tyv.take(k as int));
                                assert(tyv.take(k + 1).last() == tyv[k as int]);
                                if k == 0 {
                                    assert(comma_join(tyv.take(1)) == tyv[0]);
                                    assert(line@ =~= braced + comma_join(tyv.take(1)));
                                } else {
                                    assert(line@ =~= braced + comma_join(tyv.take(k + 1)));
                                }
                            }
                            k = k + 1;
                        }
                        proof {
                            assert(tyv.take(tys@.len() as int) =~= tyv);
                        }
                        line.append("};");
                        proof {
                            assert(line@ =~= stem + ty_tail(tyv));
                        }
                    }
                    fmt.write_line(line.as_str());
                    proof {
                        assert(group_line(v, tv[gj as int], d) == line_at(d, line@));
                        assert(tv.take(gj + 1).drop_last() =~= tv.take(gj as int));
                        assert(tv.take(gj + 1).last() == tv[gj as int]);
                        assert(fmt.text() =~= secbase + vis_section(v, tv.take(gj + 1), d));
                    }
                } else {
                    proof {
                        assert(group_line(v, tv[gj as int], d) =~= Seq::<char>::empty());
                        assert(tv.take(gj + 1).drop_last() =~= tv.take(gj as int));
                        assert(tv.take(gj + 1).last() == tv[gj as int]);
                        assert(fmt.text() =~= secbase + vis_section(v, tv.take(gj + 1), d));
                    }
                }
                gj = gj + 1;
            }
            proof {
                assert(tv.take(tv.len() as int) =~= tv);
                assert(vs.take(vi + 1).drop_last() =~= vs.take(vi as int));
                assert(vs.take(vi + 1).last() == vs[vi as int]);
                assert(fmt.text() =~= base + vis_sections(vs.take(vi + 1), tv, d));
            }
            vi = vi + 1;
        }
        proof {
            assert(vs.take(vis@.len() as int) =~= vs);
        }
    }

    /// Write the whole scope in its fixed render order: the license, the
    /// documentation, the grouped import block followed by one blank line
    /// when any import exists, then every declaration in insertion order
    /// with exactly one blank line between consecutive declarations.
    pub fn fmt(&self, fmt: &mut Formatter)
        requires
            old(fmt).depth() + scope_height(*self) <= usize::MAX,
        ensures
            final(fmt).text() == old(fmt).text() + scope_render(*self, old(fmt).depth()),
            final(fmt).depth() == old(fmt).depth(),
        decreases *self,
    {
        let ghost d = fmt.depth();
        match &self.license {
            Some(l) => l.fmt(fmt),
            None => {},
        }
        match &self.docs {
            Some(dd) => dd.fmt(fmt),
            None => {},
        }
        self.fmt_imports(fmt);
        if self.imports.len() > 0 {
            fmt.blank_line();
        }
        let ghost head = fmt.text();
        let mut i: usize = 0;
        proof {
            assert(items_render(self.items@.take(0), d) =~= Seq::<char>::empty());
            assert(head + Seq::<char>::empty() =~= head);
        }
        while i < self.items.len()
            invariant
                i <= self.items@.len(),
                d == fmt.depth(),
                d + scope_height(*self) <= usize::MAX,
                fmt.text() == head + items_render(self.items@.take(i as int), d),
            decreases self.items@.len() - i,
        {
            if i != 0 {
                fmt.blank_line();
            }
            proof {
                lemma_item_height_le(self.items@, i as int);
            }
            self.items[i].fmt(fmt);
            proof {
                assert(self.items@.take(i + 1).drop_last() =~= self.items@.take(i as int));
                assert(self.items@.take(i + 1).last() == self.items@[i as int]);
                assert(fmt.text() =~= head + items_render(self.items@.take(i + 1), d));
            }
            i = i + 1;
        }
        proof {
            assert(self.items@.take(self.items@.len() as int) =~= self.items@);
            assert(final(fmt).text() =~= old(fmt).text() + scope_render(*self, d));
        }
    }

    /// The scope as text: the full render with one trailing line break
    /// trimmed when present.
    pub fn to_string(&self) -> (r: String)
        requires
            scope_height(*self) <= usize::MAX,
        ensures
            r@ == scope_output(*self),
    {
        let mut f = Formatter::new();
        self.fmt(&mut f);
        let s = f.into_text();
        let n = s.as_str().unicode_len();
        if n > 0 && s.as_str().get_char(n - 1) == '\n' {
            let t = String::from_str(s.as_str().substring_char(0, n - 1));
            proof {
                assert(t@ =~= scope_render(*self, 0).drop_last());
            }
            t
        } else {
            s
        }
    }
}


impl Default for Scope {
    /// The same empty scope [`Scope::new`] returns.
    fn default() -> (s: Scope)
        ensures
            is_empty_scope(s),
            scope_wf(s),
    {
        Scope::new()
    }
}

// ---------------------------------------------------------------------------
// Laws of the assembly algorithm.
// ---------------------------------------------------------------------------

/// The summed length of the declarations' own renders.
pub open spec fn items_render_total(items: Seq<Item>, depth: nat) -> nat
    decreases items.len(),
{
    if items.len() == 0 {
        0
    } else {
        items_render_total(items.drop_last(), depth) + item_render(items.last(), depth).len()
    }
}

/// Declaration separation: a scope with N declarations renders them with
/// exactly N - 1 separator line breaks between them, none before the first
/// and none after the last, whatever the declarations are.
pub proof fn lemma_declaration_separation(items: Seq<Item>, depth: nat)
    requires
        items.len() >= 1,
    ensures
        items_render(items, depth).len() == items_render_total(items, depth) + items.len() - 1,
    decreases items.len(),
{
    if items.len() == 1 {
        assert(items[0] == items.last());
        assert(items.drop_last().len() == 0);
        assert(items_render_total(items.drop_last(), depth) == 0);
    } else {
        lemma_declaration_separation(items.drop_last(), depth);
        assert(items_render(items, depth).len() == items_render(items.drop_last(), depth).len()
            + 1 + item_render(items.last(), depth).len());
    }
}

/// Get-or-create never duplicates: once a module of a given name has been
/// appended to a scope that lacked one, a later lookup finds exactly the
/// appended module, at that same position, so a second get-or-create call
/// returns the same module instead of adding another.
pub proof fn lemma_get_or_new_module_idempotent(items: Seq<Item>, name: Seq<char>, m: Module)
    requires
        module_index(items, name) == items.len(),
        m.name@ == name,
    ensures
        module_index(items.push(Item::Module(m)), name) == items.len(),
        items.push(Item::Module(m))[module_index(items.push(Item::Module(m)), name)]
            == Item::Module(m),
{
    lemma_module_index(items, name);
    lemma_module_index_at(items.push(Item::Module(m)), name, items.len() as int);
}

/// Round-trip stability: the rendered text is a function of the built scope
/// alone, so rendering the same scope twice, with no mutation in between,
/// yields byte-identical output both times.
pub proof fn lemma_render_stability(s: Scope, first: Seq<char>, second: Seq<char>)
    requires
        first == scope_output(s),
        second == scope_output(s),
    ensures
        first == second,
{
}

/// A rendered fragment that ends with exactly one line break.
pub open spec fn ends_single_nl(t: Seq<char>) -> bool {
    t.len() >= 2 && t.last() == '\n' && t[t.len() - 2] != '\n'
}

pub proof fn lemma_append_ends_single_nl(a: Seq<char>, b: Seq<char>)
    requires
        ends_single_nl(b),
    ensures
        ends_single_nl(a + b),
{
    assert((a + b).last() == b.last());
    assert((a + b)[(a + b).len() - 2] == b[b.len() - 2]);
}

/// A full line ends with exactly one line break whenever its text is
/// nonempty and does not itself end with one.
pub proof fn lemma_line_at_ends(depth: nat, t: Seq<char>)
    requires
        t.len() >= 1,
        t.last() != '\n',
    ensures
        ends_single_nl(line_at(depth, t)),
{
    let l = line_at(depth, t);
    assert(l.last() == '\n');
    assert(l[l.len() - 2] == t.last());
}

/// A constant's render always ends with exactly one line break: its
/// definition line ends with the statement terminator.
pub proof fn lemma_const_render_ends(c: Const, depth: nat)
    ensures
        ends_single_nl(const_render(c, depth)),
{
    reveal_strlit(";");
    assert(const_line(c).last() == ';');
    lemma_line_at_ends(depth, const_line(c));
    lemma_append_ends_single_nl(
        crate::consts::doc_lines(views_of(c.documentation@), depth),
        line_at(depth, const_line(c)),
    );
}

/// A braced block's render always ends with exactly one line break: its
/// last line is the closing brace.
pub proof fn lemma_block_render_ends(header: Seq<char>, ls: Seq<Seq<char>>, depth: nat)
    ensures
        ends_single_nl(block_render(header, ls, depth)),
{
    reveal_strlit("}");
    lemma_line_at_ends(depth, "}"@);
    lemma_append_ends_single_nl(
        line_at(depth, header) + crate::item::plain_lines(ls, depth + 1),
        line_at(depth, "}"@),
    );
}

/// A module's render always ends with exactly one line break: its last
/// line is the closing brace.
pub proof fn lemma_module_render_ends(m: Module, depth: nat)
    ensures
        ends_single_nl(module_render(m, depth)),
{
    reveal_strlit("}");
    lemma_line_at_ends(depth, "}"@);
    lemma_append_ends_single_nl(
        line_at(depth, "mod "@ + m.name@ + " {"@) + scope_render(m.scope, depth + 1),
        line_at(depth, "}"@),
    );
}

pub proof fn lemma_items_render_ends(items: Seq<Item>, depth: nat)
    requires
        items.len() >= 1,
        ends_single_nl(item_render(items.last(), depth)),
    ensures
        ends_single_nl(items_render(items, depth)),
{
    if items.len() == 1 {
        assert(items[0] == items.last());
    } else {
        lemma_append_ends_single_nl(
            items_render(items.drop_last(), depth) + nl(),
            item_render(items.last(), depth),
        );
    }
}

/// Trailing line-break trim: whenever the last declaration's render ends
/// with exactly one line break — as every constant, module and braced
/// declaration's does — the public string conversion's output does not end
/// with a line break at all, even though every internal render step ends
/// its output with one.
pub proof fn lemma_trailing_newline_trim(s: Scope)
    requires
        s.items@.len() >= 1,
        ends_single_nl(item_render(s.items@.last(), 0)),
    ensures
        scope_output(s).len() == 0 || scope_output(s).last() != '\n',
{
    lemma_items_render_ends(s.items@, 0);
    let prefix = (match s.license {
        Some(l) => license_render(l, 0),
        None => Seq::<char>::empty(),
    }) + (match s.docs {
        Some(d) => docs_render(d, 0),
        None => Seq::<char>::empty(),
    }) + imports_render(table_view(s.imports@), 0) + (if s.imports@.len() > 0 {
        nl()
    } else {
        Seq::<char>::empty()
    });
    lemma_append_ends_single_nl(prefix, items_render(s.items@, 0));
    let whole = scope_render(s, 0);
    assert(whole == prefix + items_render(s.items@, 0));
    assert(ends_single_nl(whole));
    assert(scope_output(s) == whole.drop_last());
    assert(scope_output(s).last() == whole[whole.len() - 2]);
}

} // verus!
