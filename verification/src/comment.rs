//! A comment block.

use vstd::prelude::*;
use vstd::string::StringExecFns;

use crate::formatter::Formatter;
use crate::text::{line_split, marked_lines};

verus! {

/// The text a comment renders to: each of its lines prefixed with `// `.
pub open spec fn comment_render(c: Comment, depth: nat) -> Seq<char> {
    marked_lines(line_split(c.comment@), "// "@, depth)
}

/// A comment block: its text is split at line boundaries and each line is
/// emitted behind a line-comment marker, without wrapping or reflow.
#[derive(Debug, Clone)]
pub struct Comment {
    pub comment: String,
}

impl Comment {
    /// A comment holding the given text.
    pub fn new(comment: &str) -> (c: Comment)
        ensures
            c.comment@ == comment@,
    {
        Comment { comment: String::from_str(comment) }
    }

    /// Write the comment: every line prefixed with `// `.
    pub fn fmt(&self, fmt: &mut Formatter)
        ensures
            final(fmt).text() == old(fmt).text() + comment_render(*self, old(fmt).depth()),
            final(fmt).depth() == old(fmt).depth(),
    {
        crate::text::write_marked_lines(fmt, "// ", self.comment.as_str());
    }
}

} // verus!
