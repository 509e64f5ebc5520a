//! Text helpers shared by the renderers: splitting on line breaks, string
//! comparison, and the view of a vector of strings.

use vstd::prelude::*;
use vstd::string::{StringExecFns, StrSliceExecFns};

verus! {

/// The views of a sequence of strings.
pub open spec fn views_of(v: Seq<String>) -> Seq<Seq<char>> {
    v.map_values(|s: String| s@)
}

/// The index of the first line break in `s`, or `s.len()` when there is none.
pub open spec fn first_nl(s: Seq<char>) -> int
    decreases s.len(),
{
    if s.len() == 0 {
        0
    } else if s[0] == '\n' {
        0
    } else {
        1 + first_nl(s.drop_first())
    }
}

pub proof fn lemma_first_nl(s: Seq<char>)
    ensures
        0 <= first_nl(s) <= s.len(),
        forall|j: int| 0 <= j < first_nl(s) ==> s[j] != '\n',
        first_nl(s) < s.len() ==> s[first_nl(s)] == '\n',
    decreases s.len(),
{
    if s.len() != 0 && s[0] != '\n' {
        lemma_first_nl(s.drop_first());
        assert forall|j: int| 0 <= j < first_nl(s) implies s[j] != '\n' by {
            if j > 0 {
                assert(s.drop_first()[j - 1] != '\n');
            }
        }
    }
}

/// A scan that finds no line break up to `k`, and one at `k` unless `k` is
/// the end, pins `first_nl` down.
pub proof fn lemma_first_nl_at(s: Seq<char>, k: int)
    requires
        0 <= k <= s.len(),
        forall|j: int| 0 <= j < k ==> s[j] != '\n',
        k < s.len() ==> s[k] == '\n',
    ensures
        first_nl(s) == k,
    decreases s.len(),
{
    if s.len() != 0 && s[0] != '\n' {
        lemma_first_nl_at(s.drop_first(), k - 1);
    }
}

/// The text split at line breaks, with a trailing break producing no final
/// empty line: `"a\nb"` gives `["a", "b"]`, `"a\n"` gives `["a"]`.
pub open spec fn line_split(s: Seq<char>) -> Seq<Seq<char>>
    decreases s.len(),
    via line_split_decreases
{
    if s.len() == 0 {
        Seq::empty()
    } else {
        let i = first_nl(s);
        if i == s.len() {
            seq![s]
        } else {
            seq![s.take(i)] + line_split(s.skip(i + 1))
        }
    }
}

#[via_fn]
proof fn line_split_decreases(s: Seq<char>) {
    lemma_first_nl(s);
}

/// Split a string at line breaks, exactly as [`line_split`] describes.
pub fn split_lines(s: &str) -> (r: Vec<String>)
    ensures
        views_of(r@) == line_split(s@),
{
    let n = s.unicode_len();
    let mut r: Vec<String> = Vec::new();
    let mut start: usize = 0;
    let mut i: usize = 0;
    proof {
        assert(s@.skip(0) =~= s@);
        assert(views_of(r@) =~= Seq::<Seq<char>>::empty());
        assert(views_of(r@) + line_split(s@) =~= line_split(s@));
    }
    while i < n
        invariant
            n == s@.len(),
            start <= i <= n,
            forall|j: int| start <= j < i ==> s@[j] != '\n',
            line_split(s@) == views_of(r@) + line_split(s@.skip(start as int)),
        decreases n - i,
    {
        if s.get_char(i) == '\n' {
            let piece = String::from_str(s.substring_char(start, i));
            proof {
                let t = s@.skip(start as int);
                assert(forall|j: int| 0 <= j < i - start ==> t[j] != '\n');
                lemma_first_nl_at(t, i - start);
                assert(t.take(i - start) =~= s@.subrange(start as int, i as int));
                assert(t.skip(i - start + 1) =~= s@.skip(i + 1));
                assert(line_split(t) == seq![s@.subrange(start as int, i as int)] + line_split(
                    s@.skip(i + 1),
                ));
                assert(views_of(r@.push(piece)) =~= views_of(r@).push(piece@));
                assert(views_of(r@) + line_split(t) =~= views_of(r@.push(piece)) + line_split(
                    s@.skip(i + 1),
                ));
            }
            r.push(piece);
            start = i + 1;
        }
        i = i + 1;
    }
    if start < n {
        let piece = String::from_str(s.substring_char(start, n));
        proof {
            let t = s@.skip(start as int);
            assert(forall|j: int| 0 <= j < t.len() ==> t[j] != '\n');
            lemma_first_nl_at(t, t.len() as int);
            assert(t =~= s@.subrange(start as int, n as int));
            assert(line_split(t) == seq![t]);
            assert(views_of(r@.push(piece)) =~= views_of(r@).push(piece@));
            assert(views_of(r@) + line_split(t) =~= views_of(r@.push(piece)));
        }
        r.push(piece);
    } else {
        proof {
            assert(s@.skip(start as int) =~= Seq::<char>::empty());
            assert(line_split(s@.skip(start as int)) == Seq::<Seq<char>>::empty());
            assert(views_of(r@) + line_split(s@.skip(start as int)) =~= views_of(r@));
        }
    }
    r
}

/// Character-for-character string equality.
pub fn str_eq(a: &str, b: &str) -> (r: bool)
    ensures
        r == (a@ == b@),
{
    let n = a.unicode_len();
    if n != b.unicode_len() {
        return false;
    }
    let mut i: usize = 0;
    while i < n
        invariant
            n == a@.len() == b@.len(),
            i <= n,
            forall|j: int| 0 <= j < i ==> a@[j] == b@[j],
        decreases n - i,
    {
        if a.get_char(i) != b.get_char(i) {
            return false;
        }
        i = i + 1;
    }
    proof {
        assert(a@ =~= b@);
    }
    true
}

/// Each line of `ls` prefixed with `marker` and emitted at `depth`.
pub open spec fn marked_lines(ls: Seq<Seq<char>>, marker: Seq<char>, depth: nat) -> Seq<char>
    decreases ls.len(),
{
    if ls.len() == 0 {
        Seq::empty()
    } else {
        marked_lines(ls.drop_last(), marker, depth) + crate::formatter::line_at(
            depth,
            marker + ls.last(),
        )
    }
}

/// Write every line of `body`, prefixed with `marker`, as its own line.
pub fn write_marked_lines(f: &mut crate::formatter::Formatter, marker: &str, body: &str)
    ensures
        final(f).text() == old(f).text() + marked_lines(
            line_split(body@),
            marker@,
            old(f).depth(),
        ),
        final(f).depth() == old(f).depth(),
{
    let lines = split_lines(body);
    let ghost ls = line_split(body@);
    let mut i: usize = 0;
    proof {
        assert(marked_lines(ls.take(0), marker@, old(f).depth()) =~= Seq::<char>::empty());
        assert(old(f).text() + Seq::<char>::empty() =~= old(f).text());
    }
    while i < lines.len()
        invariant
            views_of(lines@) == ls,
            i <= lines.len(),
            f.depth() == old(f).depth(),
            f.text() == old(f).text() + marked_lines(ls.take(i as int), marker@, old(f).depth()),
        decreases lines.len() - i,
    {
        let mut s = String::from_str(marker);
        s.append(lines[i].as_str());
        f.write_line(s.as_str());
        proof {
            assert(ls.take(i + 1).drop_last() =~= ls.take(i as int));
            assert(ls.take(i + 1).last() == ls[i as int]);
            assert(s@ == marker@ + ls[i as int]);
            assert(f.text() =~= old(f).text() + marked_lines(
                ls.take(i + 1),
                marker@,
                old(f).depth(),
            ));
        }
        i = i + 1;
    }
    proof {
        assert(ls.take(lines@.len() as int) =~= ls);
    }
}

/// The view of an optional string.
pub open spec fn opt_view(o: Option<String>) -> Option<Seq<char>> {
    match o {
        Some(s) => Some(s@),
        None => None,
    }
}

/// Equality of optional strings, by view.
pub fn opt_str_eq(a: &Option<String>, b: &Option<String>) -> (r: bool)
    ensures
        r == (opt_view(*a) == opt_view(*b)),
{
    match (a, b) {
        (None, None) => true,
        (Some(x), Some(y)) => str_eq(x.as_str(), y.as_str()),
        _ => false,
    }
}

} // verus!
