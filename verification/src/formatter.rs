//! The indentation-aware text sink that all rendering writes through.

use vstd::prelude::*;
use vstd::string::StringExecFns;

verus! {

/// One level of indentation: four spaces.
pub open spec fn indent_unit() -> Seq<char> {
    seq![' ', ' ', ' ', ' ']
}

/// The prefix emitted in front of a line at the given depth.
pub open spec fn indent_sp(depth: nat) -> Seq<char>
    decreases depth,
{
    if depth == 0 {
        Seq::empty()
    } else {
        indent_sp((depth - 1) as nat) + indent_unit()
    }
}

/// A single line-break character.
pub open spec fn nl() -> Seq<char> {
    seq!['\n']
}

/// A full output line: indentation, the line's text, one line break.
pub open spec fn line_at(depth: nat, s: Seq<char>) -> Seq<char> {
    indent_sp(depth) + s + nl()
}

/// A stateful text sink owning an output buffer and an indentation depth.
///
/// Every line written through `write_line` is prefixed by `depth` repetitions
/// of the four-space indentation unit. `indent` and `dedent` are always used
/// in balanced pairs by the renderers, and every rendering function ensures
/// that the depth it leaves behind equals the depth it was given, so
/// indentation can never leak out of a nested block.
pub struct Formatter {
    out: String,
    depth: usize,
}

impl Formatter {
    /// The text accumulated so far.
    pub closed spec fn text(&self) -> Seq<char> {
        self.out@
    }

    /// The current indentation depth.
    pub closed spec fn depth(&self) -> nat {
        self.depth as nat
    }

    /// A fresh formatter over an empty buffer at depth zero.
    pub fn new() -> (f: Formatter)
        ensures
            f.text() == Seq::<char>::empty(),
            f.depth() == 0,
    {
        Formatter { out: String::new(), depth: 0 }
    }

    /// Open a nested block: one level deeper until the matching `dedent`.
    pub fn indent(&mut self)
        requires
            old(self).depth() < usize::MAX,
        ensures
            final(self).depth() == old(self).depth() + 1,
            final(self).text() == old(self).text(),
    {
        self.depth = self.depth + 1;
    }

    /// Close a nested block opened by the matching `indent`.
    pub fn dedent(&mut self)
        requires
            old(self).depth() > 0,
        ensures
            final(self).depth() == old(self).depth() - 1,
            final(self).text() == old(self).text(),
    {
        self.depth = self.depth - 1;
    }

    /// Emit the indentation prefix for the current depth.
    fn emit_indent(&mut self)
        ensures
            final(self).text() == old(self).text() + indent_sp(old(self).depth()),
            final(self).depth() == old(self).depth(),
    {
        let ghost start = self.out@;
        let mut i: usize = 0;
        while i < self.depth
            invariant
                i <= self.depth,
                self.out@ == start + indent_sp(i as nat),
                self.depth == old(self).depth,
            decreases self.depth - i,
        {
            self.out.append("    ");
            proof {
                reveal_strlit("    ");
                assert(indent_sp((i + 1) as nat) =~= indent_sp(i as nat) + "    "@);
            }
            i = i + 1;
        }
        proof {
            assert(self.out@ =~= start + indent_sp(self.depth as nat));
        }
    }

    /// Emit one full line: the indentation prefix, `s`, and a line break.
    pub fn write_line(&mut self, s: &str)
        ensures
            final(self).text() == old(self).text() + line_at(old(self).depth(), s@),
            final(self).depth() == old(self).depth(),
    {
        self.emit_indent();
        self.out.append(s);
        self.out.append("\n");
        proof {
            reveal_strlit("\n");
            assert(nl() =~= "\n"@);
            assert(self.out@ =~= old(self).out@ + line_at(old(self).depth(), s@));
        }
    }

    /// Emit a blank separator line: a bare line break, with no indentation.
    pub fn blank_line(&mut self)
        ensures
            final(self).text() == old(self).text() + nl(),
            final(self).depth() == old(self).depth(),
    {
        self.out.append("\n");
        proof {
            reveal_strlit("\n");
            assert(self.out@ =~= old(self).out@ + nl());
        }
    }

    /// Hand the accumulated text out, consuming the formatter.
    pub fn into_text(self) -> (r: String)
        ensures
            r@ == self.text(),
    {
        self.out
    }
}

} // verus!
