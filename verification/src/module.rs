//! A module: a named wrapper around a nested scope.

use vstd::prelude::*;
use vstd::string::StringExecFns;

use crate::formatter::{line_at, Formatter};
use crate::scope::{is_empty_scope, scope_height, scope_render, scope_wf, Scope};

verus! {

/// The text a module renders to: a `mod` header line, the nested scope one
/// level deeper, and a closing brace.
pub open spec fn module_render(m: Module, depth: nat) -> Seq<char>
    decreases m,
{
    line_at(depth, "mod "@ + m.name@ + " {"@) + scope_render(m.scope, depth + 1) + line_at(
        depth,
        "}"@,
    )
}

/// A module definition: a name and the nested scope holding its contents.
/// Within one parent scope a module's name uniquely identifies it.
#[derive(Debug)]
pub struct Module {
    /// Module name
    pub name: String,
    /// The module's contents
    pub scope: Scope,
}

impl Module {
    /// A module with the given name and an empty nested scope.
    pub fn new(name: &str) -> (m: Module)
        ensures
            m.name@ == name@,
            is_empty_scope(m.scope),
            scope_wf(m.scope),
    {
        Module { name: String::from_str(name), scope: Scope::new() }
    }

    /// The nested scope.
    pub fn scope(&mut self) -> (r: &mut Scope)
        ensures
            *r == old(self).scope,
            final(self).name == old(self).name,
            final(self).scope == *final(r),
    {
        &mut self.scope
    }

    /// Write the module: the header line, the nested scope one level
    /// deeper, and the closing brace.
    pub fn fmt(&self, fmt: &mut Formatter)
        requires
            old(fmt).depth() + 1 + scope_height(self.scope) <= usize::MAX,
        ensures
            final(fmt).text() == old(fmt).text() + module_render(*self, old(fmt).depth()),
            final(fmt).depth() == old(fmt).depth(),
        decreases *self,
    {
        let mut header = String::from_str("mod ");
        header.append(self.name.as_str());
        header.append(" {");
        fmt.write_line(header.as_str());
        fmt.indent();
        self.scope.fmt(fmt);
        fmt.dedent();
        fmt.write_line("}");
        proof {
            assert(header@ =~= "mod "@ + self.name@ + " {"@);
            assert(final(fmt).text() =~= old(fmt).text() + module_render(
                *self,
                old(fmt).depth(),
            ));
        }
    }
}

} // verus!
