//! A constant definition.

use vstd::prelude::*;
use vstd::string::StringExecFns;

use crate::formatter::{line_at, Formatter};
use crate::text::views_of;

verus! {

/// A type annotation, rendered as its name.
#[derive(Debug, Clone)]
pub struct Type {
    pub name: String,
}

impl Type {
    /// A type annotation with the given name.
    pub fn new(name: &str) -> (t: Type)
        ensures
            t.name@ == name@,
    {
        Type { name: String::from_str(name) }
    }
}

/// The doc lines of a constant: each line behind `/// `.
pub open spec fn doc_lines(ls: Seq<Seq<char>>, depth: nat) -> Seq<char>
    decreases ls.len(),
{
    if ls.len() == 0 {
        Seq::empty()
    } else {
        doc_lines(ls.drop_last(), depth) + line_at(depth, "/// "@ + ls.last())
    }
}

/// The single definition line of a constant.
pub open spec fn const_line(c: Const) -> Seq<char> {
    (match c.vis {
        Some(v) => v@ + " const "@,
        None => "const "@,
    }) + c.name@ + " : "@ + c.ty.name@ + " = "@ + c.value@ + ";"@
}

/// The text a constant renders to: its doc lines, then its definition line.
pub open spec fn const_render(c: Const, depth: nat) -> Seq<char> {
    doc_lines(views_of(c.documentation@), depth) + line_at(depth, const_line(c))
}

/// A constant definition: a name, a type, a value, an optional visibility
/// qualifier, and documentation lines.
#[derive(Debug, Clone)]
pub struct Const {
    /// Constant name
    pub name: String,
    /// Constant type
    pub ty: Type,
    /// Constant visibility
    pub vis: Option<String>,
    /// Constant documentation
    pub documentation: Vec<String>,
    /// Constant value
    pub value: String,
}

impl Const {
    /// A constant definition with the provided name, type, and value.
    pub fn new(name: &str, ty: &str, value: &str) -> (c: Const)
        ensures
            c.name@ == name@,
            c.ty.name@ == ty@,
            c.vis is None,
            c.documentation@.len() == 0,
            c.value@ == value@,
    {
        Const {
            name: String::from_str(name),
            ty: Type::new(ty),
            vis: None,
            documentation: Vec::new(),
            value: String::from_str(value),
        }
    }

    /// Set the constant's documentation, one entry per line.
    pub fn doc(&mut self, documentation: Vec<String>) -> (r: &mut Const)
        ensures
            *r == (Const { documentation, ..*old(self) }),
            *final(self) == *final(r),
    {
        self.documentation = documentation;
        self
    }

    /// Set the constant's visibility.
    pub fn vis(&mut self, vis: &str)
        ensures
            final(self).vis matches Some(v) && v@ == vis@,
            final(self).name == old(self).name,
            final(self).ty == old(self).ty,
            final(self).documentation == old(self).documentation,
            final(self).value == old(self).value,
    {
        self.vis = Some(String::from_str(vis));
    }

    /// Write the constant: documentation, then the definition line.
    pub fn fmt(&self, fmt: &mut Formatter)
        ensures
            final(fmt).text() == old(fmt).text() + const_render(*self, old(fmt).depth()),
            final(fmt).depth() == old(fmt).depth(),
    {
        let ghost ls = views_of(self.documentation@);
        let ghost d = fmt.depth();
        let mut i: usize = 0;
        proof {
            assert(doc_lines(ls.take(0), d) =~= Seq::<char>::empty());
            assert(old(fmt).text() + Seq::<char>::empty() =~= old(fmt).text());
        }
        while i < self.documentation.len()
            invariant
                i <= self.documentation@.len(),
                ls == views_of(self.documentation@),
                d == fmt.depth() == old(fmt).depth(),
                fmt.text() == old(fmt).text() + doc_lines(ls.take(i as int), d),
            decreases self.documentation@.len() - i,
        {
            let mut s = String::from_str("/// ");
            s.append(self.documentation[i].as_str());
            fmt.write_line(s.as_str());
            proof {
                assert(ls.take(i + 1).drop_last() =~= ls.take(i as int));
                assert(ls.take(i + 1).last() == ls[i as int]);
                assert(fmt.text() =~= old(fmt).text() + doc_lines(ls.take(i + 1), d));
            }
            i = i + 1;
        }
        proof {
            assert(ls.take(self.documentation@.len() as int) =~= ls);
        }
        let mut line = String::new();
        match &self.vis {
            Some(v) => {
                line.append(v.as_str());
                line.append(" const ");
            },
            None => {
                line.append("const ");
            },
        }
        line.append(self.name.as_str());
        line.append(" : ");
        line.append(self.ty.name.as_str());
        line.append(" = ");
        line.append(self.value.as_str());
        line.append(";");
        proof {
            assert(line@ =~= const_line(*self));
        }
        fmt.write_line(line.as_str());
        proof {
            assert(final(fmt).text() =~= old(fmt).text() + const_render(*self, d));
        }
    }
}

} // verus!
