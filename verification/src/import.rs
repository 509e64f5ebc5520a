//! The deduplicated, insertion-ordered import table of a scope.
//!
//! The table is a two-level ordered mapping: path, then type name, to one
//! import record. Both levels keep first-insertion order on iteration, and a
//! `(path, type)` pair maps to exactly one record, so a re-request returns
//! the existing record instead of creating a duplicate.
//!
//! Contracts speak of the table through its mathematical view: a sequence of
//! `(path, entries)` pairs, each entry a `(type name, visibility)` pair.

use vstd::prelude::*;
use vstd::string::{StringExecFns, StrSliceExecFns};

use crate::text::opt_view;

verus! {

/// One registered import record: a type name with an optional visibility
/// qualifier. The path it is imported from is held by its [`ImportGroup`].
#[derive(Debug, Clone)]
pub struct Import {
    /// Imported type name
    pub ty: String,
    /// Visibility qualifier of the rendered statement, such as `pub`
    pub vis: Option<String>,
}

/// All import records registered under one source path, in insertion order.
#[derive(Debug, Clone)]
pub struct ImportGroup {
    /// The source path the types are imported from
    pub path: String,
    /// The records, one per distinct type name
    pub entries: Vec<Import>,
}

/// The view of one record: its type name and visibility.
pub type TyEntry = (Seq<char>, Option<Seq<char>>);

/// The view of one group: its path and the views of its records.
pub type PathGroup = (Seq<char>, Seq<TyEntry>);

/// The view of a record.
pub open spec fn entry_view(e: Import) -> TyEntry {
    (e.ty@, opt_view(e.vis))
}

/// The view of a group.
pub open spec fn group_view(g: ImportGroup) -> PathGroup {
    (g.path@, g.entries@.map_values(|e: Import| entry_view(e)))
}

/// The view of the whole table.
pub open spec fn table_view(groups: Seq<ImportGroup>) -> Seq<PathGroup> {
    groups.map_values(|g: ImportGroup| group_view(g))
}

/// The index of the first group with the given path, or `t.len()`.
pub open spec fn path_index(t: Seq<PathGroup>, path: Seq<char>) -> int
    decreases t.len(),
{
    if t.len() == 0 {
        0
    } else if t[0].0 == path {
        0
    } else {
        1 + path_index(t.drop_first(), path)
    }
}

pub proof fn lemma_path_index(t: Seq<PathGroup>, path: Seq<char>)
    ensures
        0 <= path_index(t, path) <= t.len(),
        forall|j: int| 0 <= j < path_index(t, path) ==> t[j].0 != path,
        path_index(t, path) < t.len() ==> t[path_index(t, path)].0 == path,
    decreases t.len(),
{
    if t.len() != 0 && t[0].0 != path {
        lemma_path_index(t.drop_first(), path);
        assert forall|j: int| 0 <= j < path_index(t, path) implies t[j].0 != path by {
            if j > 0 {
                assert(t.drop_first()[j - 1].0 != path);
            }
        }
    }
}

/// A scan that sees no match before `k`, and one at `k` unless `k` is the
/// end, pins `path_index` down.
pub proof fn lemma_path_index_at(t: Seq<PathGroup>, path: Seq<char>, k: int)
    requires
        0 <= k <= t.len(),
        forall|j: int| 0 <= j < k ==> t[j].0 != path,
        k < t.len() ==> t[k].0 == path,
    ensures
        path_index(t, path) == k,
    decreases t.len(),
{
    if t.len() != 0 && t[0].0 != path {
        lemma_path_index_at(t.drop_first(), path, k - 1);
    }
}

/// The index of the first entry with the given type name, or `es.len()`.
pub open spec fn ty_index(es: Seq<TyEntry>, ty: Seq<char>) -> int
    decreases es.len(),
{
    if es.len() == 0 {
        0
    } else if es[0].0 == ty {
        0
    } else {
        1 + ty_index(es.drop_first(), ty)
    }
}

pub proof fn lemma_ty_index(es: Seq<TyEntry>, ty: Seq<char>)
    ensures
        0 <= ty_index(es, ty) <= es.len(),
        forall|j: int| 0 <= j < ty_index(es, ty) ==> es[j].0 != ty,
        ty_index(es, ty) < es.len() ==> es[ty_index(es, ty)].0 == ty,
    decreases es.len(),
{
    if es.len() != 0 && es[0].0 != ty {
        lemma_ty_index(es.drop_first(), ty);
        assert forall|j: int| 0 <= j < ty_index(es, ty) implies es[j].0 != ty by {
            if j > 0 {
                assert(es.drop_first()[j - 1].0 != ty);
            }
        }
    }
}

/// A scan that sees no match before `k`, and one at `k` unless `k` is the
/// end, pins `ty_index` down.
pub proof fn lemma_ty_index_at(es: Seq<TyEntry>, ty: Seq<char>, k: int)
    requires
        0 <= k <= es.len(),
        forall|j: int| 0 <= j < k ==> es[j].0 != ty,
        k < es.len() ==> es[k].0 == ty,
    ensures
        ty_index(es, ty) == k,
    decreases es.len(),
{
    if es.len() != 0 && es[0].0 != ty {
        lemma_ty_index_at(es.drop_first(), ty, k - 1);
    }
}

/// The index at which the first `::` separator starts in `t`, or `t.len()`
/// when there is none.
pub open spec fn first_cc(t: Seq<char>) -> int
    decreases t.len(),
{
    if t.len() < 2 {
        t.len() as int
    } else if t[0] == ':' && t[1] == ':' {
        0
    } else {
        1 + first_cc(t.drop_first())
    }
}

/// The leading segment of a type name: everything before the first `::`
/// separator, so that `a::B` registers the type `a`.
pub open spec fn base_ty(t: Seq<char>) -> Seq<char> {
    t.take(first_cc(t))
}

/// A scan that sees no separator start before `k`, and one at `k` unless
/// `k` is past the last possible start, pins `first_cc` down.
pub proof fn lemma_first_cc_at(t: Seq<char>, k: int)
    requires
        0 <= k <= t.len(),
        forall|j: int|
            0 <= j < k && j + 1 < t.len() ==> !((#[trigger] t[j]) == ':' && t[j + 1] == ':'),
        k + 1 < t.len() ==> (t[k] == ':' && t[k + 1] == ':'),
        k < t.len() ==> k + 1 < t.len(),
    ensures
        first_cc(t) == k,
    decreases t.len(),
{
    if t.len() < 2 {
    } else if t[0] == ':' && t[1] == ':' {
    } else {
        lemma_first_cc_at(t.drop_first(), k - 1);
    }
}

/// The leading segment of a type name, as [`base_ty`] describes it.
pub fn ty_base_of(ty: &str) -> (r: String)
    ensures
        r@ == base_ty(ty@),
{
    let n = ty.unicode_len();
    let mut i: usize = 0;
    let mut cc: usize = n;
    let mut found = false;
    while !found && i < n && i + 1 < n
        invariant
            n == ty@.len(),
            i <= n,
            !found ==> cc == n,
            !found ==> forall|j: int|
                0 <= j < i && j + 1 < n ==> !((#[trigger] ty@[j]) == ':' && ty@[j + 1] == ':'),
            found ==> (cc as int + 1 < n && ty@[cc as int] == ':' && ty@[cc as int + 1] == ':'
                && forall|j: int|
                    0 <= j < cc ==> !((#[trigger] ty@[j]) == ':' && ty@[j + 1] == ':')),
        decreases (if found { 0int } else { 1int }), n - i,
    {
        if ty.get_char(i) == ':' && ty.get_char(i + 1) == ':' {
            cc = i;
            found = true;
        } else {
            i = i + 1;
        }
    }
    proof {
        if found {
            lemma_first_cc_at(ty@, cc as int);
        } else {
            lemma_first_cc_at(ty@, n as int);
        }
        assert(ty@.take(first_cc(ty@)) =~= ty@.subrange(0, cc as int));
    }
    String::from_str(ty.substring_char(0, cc))
}

/// Well-formedness of the table: paths are distinct across groups, every
/// group holds at least one entry, and type names are distinct within a
/// group. This is what makes a `(path, type)` pair map to exactly one
/// record.
pub open spec fn imports_wf(t: Seq<PathGroup>) -> bool {
    &&& forall|i: int, j: int| 0 <= i < j < t.len() ==> t[i].0 != t[j].0
    &&& forall|i: int| 0 <= i < t.len() ==> (#[trigger] t[i].1).len() > 0
    &&& forall|i: int, a: int, b: int|
        0 <= i < t.len() && 0 <= a < b < t[i].1.len() ==> (#[trigger] t[i].1[a]).0
            != (#[trigger] t[i].1[b]).0
}

/// The position of the record for `(path, ty)` after it is registered: the
/// group index and the entry index within the group.
pub open spec fn import_pos(t: Seq<PathGroup>, path: Seq<char>, ty: Seq<char>) -> (int, int) {
    let gi = path_index(t, path);
    if gi < t.len() {
        (gi, ty_index(t[gi].1, ty))
    } else {
        (t.len() as int, 0)
    }
}

/// The table after registering `(path, ty)`: untouched when the pair is
/// already present; otherwise the record, with no visibility yet, is added
/// at the end of its path's group, the group itself being created at the
/// end of the table when the path is new.
pub open spec fn import_insert(t: Seq<PathGroup>, path: Seq<char>, ty: Seq<char>) -> Seq<
    PathGroup,
> {
    let gi = path_index(t, path);
    if gi < t.len() {
        if ty_index(t[gi].1, ty) < t[gi].1.len() {
            t
        } else {
            t.update(gi, (t[gi].0, t[gi].1.push((ty, None))))
        }
    } else {
        t.push((path, seq![(ty, Option::<Seq<char>>::None)]))
    }
}

/// Registration keeps the table well formed.
pub proof fn lemma_import_insert_wf(t: Seq<PathGroup>, path: Seq<char>, ty: Seq<char>)
    requires
        imports_wf(t),
    ensures
        imports_wf(import_insert(t, path, ty)),
{
    lemma_path_index(t, path);
    let gi = path_index(t, path);
    if gi < t.len() {
        lemma_ty_index(t[gi].1, ty);
    }
}

/// Registering the same `(path, ty)` pair a second time returns the same
/// record position and leaves the table exactly as it was.
pub proof fn lemma_import_idempotent(t: Seq<PathGroup>, path: Seq<char>, ty: Seq<char>)
    ensures
        import_insert(import_insert(t, path, ty), path, ty) == import_insert(t, path, ty),
        import_pos(import_insert(t, path, ty), path, ty) == import_pos(t, path, ty),
    decreases t.len(),
{
    lemma_path_index(t, path);
    let gi = path_index(t, path);
    let t1 = import_insert(t, path, ty);
    if gi < t.len() {
        lemma_ty_index(t[gi].1, ty);
        let es = t[gi].1;
        let ei = ty_index(es, ty);
        if ei < es.len() {
            // already present: nothing changed, the second lookup repeats the first
        } else {
            assert forall|j: int| 0 <= j < gi implies t1[j].0 != path by {}
            lemma_path_index_at(t1, path, gi);
            lemma_ty_index_at(t1[gi].1, ty, ei);
        }
    } else {
        assert forall|j: int| 0 <= j < t.len() implies t1[j].0 != path by {}
        lemma_path_index_at(t1, path, t.len() as int);
        lemma_ty_index_at(t1[t.len() as int].1, ty, 0);
    }
}

} // verus!
