//! A documentation block.

use vstd::prelude::*;
use vstd::string::StringExecFns;

use crate::formatter::Formatter;
use crate::text::{line_split, marked_lines};

verus! {

/// The text a documentation block renders to: each line behind `/// `.
pub open spec fn docs_render(d: Docs, depth: nat) -> Seq<char> {
    marked_lines(line_split(d.docs@), "/// "@, depth)
}

/// A documentation block: its text is split at line boundaries and each line
/// is emitted behind a doc-comment marker.
#[derive(Debug, Clone)]
pub struct Docs {
    pub docs: String,
}

impl Docs {
    /// A documentation block holding the given text.
    pub fn new(docs: &str) -> (d: Docs)
        ensures
            d.docs@ == docs@,
    {
        Docs { docs: String::from_str(docs) }
    }

    /// Write the documentation: every line prefixed with `/// `.
    pub fn fmt(&self, fmt: &mut Formatter)
        ensures
            final(fmt).text() == old(fmt).text() + docs_render(*self, old(fmt).depth()),
            final(fmt).depth() == old(fmt).depth(),
    {
        crate::text::write_marked_lines(fmt, "/// ", self.docs.as_str());
    }
}

} // verus!
