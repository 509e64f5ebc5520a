//! The declaration kinds a scope can hold.
//!
//! Each kind is a passive data holder that renders itself into a
//! [`Formatter`]; nesting inherits the indentation depth at the point of
//! call, one level deeper for bodies.

use vstd::prelude::*;
use vstd::string::StringExecFns;

use crate::comment::{comment_render, Comment};
use crate::consts::{const_render, Const, Type};
use crate::formatter::{line_at, Formatter};
use crate::module::{module_render, Module};
use crate::text::views_of;

verus! {

/// Lines emitted verbatim, each at the given depth.
pub open spec fn plain_lines(ls: Seq<Seq<char>>, depth: nat) -> Seq<char>
    decreases ls.len(),
{
    if ls.len() == 0 {
        Seq::empty()
    } else {
        plain_lines(ls.drop_last(), depth) + line_at(depth, ls.last())
    }
}

/// A braced block: a header line, body lines one level deeper, and a
/// closing brace.
pub open spec fn block_render(header: Seq<char>, ls: Seq<Seq<char>>, depth: nat) -> Seq<char> {
    line_at(depth, header) + plain_lines(ls, depth + 1) + line_at(depth, "}"@)
}

/// Write a braced block: the header line, every body line one level
/// deeper, then the closing brace at the original depth.
pub fn fmt_block(fmt: &mut Formatter, header: &str, lines: &Vec<String>)
    requires
        old(fmt).depth() < usize::MAX,
    ensures
        final(fmt).text() == old(fmt).text() + block_render(
            header@,
            views_of(lines@),
            old(fmt).depth(),
        ),
        final(fmt).depth() == old(fmt).depth(),
{
    let ghost d = fmt.depth();
    let ghost ls = views_of(lines@);
    fmt.write_line(header);
    fmt.indent();
    let ghost head = fmt.text();
    let mut i: usize = 0;
    proof {
        assert(plain_lines(ls.take(0), d + 1) =~= Seq::<char>::empty());
        assert(head + Seq::<char>::empty() =~= head);
    }
    while i < lines.len()
        invariant
            views_of(lines@) == ls,
            i <= lines.len(),
            fmt.depth() == d + 1,
            fmt.text() == head + plain_lines(ls.take(i as int), d + 1),
        decreases lines.len() - i,
    {
        fmt.write_line(lines[i].as_str());
        proof {
            assert(ls.take(i + 1).drop_last() =~= ls.take(i as int));
            assert(ls.take(i + 1).last() == ls[i as int]);
            assert(fmt.text() =~= head + plain_lines(ls.take(i + 1), d + 1));
        }
        i = i + 1;
    }
    proof {
        assert(ls.take(lines@.len() as int) =~= ls);
    }
    fmt.dedent();
    fmt.write_line("}");
    proof {
        assert(final(fmt).text() =~= old(fmt).text() + block_render(header@, ls, d));
    }
}

/// One field of a structure.
#[derive(Debug, Clone)]
pub struct Field {
    /// Field name
    pub name: String,
    /// Field type
    pub ty: Type,
}

/// The line a field renders to inside its structure's block.
pub open spec fn field_line(f: Field) -> Seq<char> {
    f.name@ + ": "@ + f.ty.name@ + ","@
}

/// The body lines of a structure.
pub open spec fn field_lines(fs: Seq<Field>) -> Seq<Seq<char>> {
    fs.map_values(|f: Field| field_line(f))
}

/// The text a structure renders to.
pub open spec fn struct_render(s: Struct, depth: nat) -> Seq<char> {
    block_render("struct "@ + s.name@ + " {"@, field_lines(s.fields@), depth)
}

/// A structure definition: a name and its fields.
#[derive(Debug, Clone)]
pub struct Struct {
    pub name: String,
    pub fields: Vec<Field>,
}

impl Struct {
    /// A structure with the given name and no fields yet.
    pub fn new(name: &str) -> (s: Struct)
        ensures
            s.name@ == name@,
            s.fields@.len() == 0,
    {
        Struct { name: String::from_str(name), fields: Vec::new() }
    }

    /// Add one field.
    pub fn field(&mut self, name: &str, ty: &str) -> (r: &mut Struct)
        ensures
            r.name == old(self).name,
            r.fields@.len() == old(self).fields@.len() + 1,
            r.fields@.drop_last() == old(self).fields@,
            field_line(r.fields@.last()) == name@ + ": "@ + ty@ + ","@,
            *final(self) == *final(r),
    {
        let f = Field { name: String::from_str(name), ty: Type::new(ty) };
        proof {
            assert(self.fields@.push(f).drop_last() =~= self.fields@);
        }
        self.fields.push(f);
        self
    }

    /// Write the structure as a braced block of its field lines.
    pub fn fmt(&self, fmt: &mut Formatter)
        requires
            old(fmt).depth() < usize::MAX,
        ensures
            final(fmt).text() == old(fmt).text() + struct_render(*self, old(fmt).depth()),
            final(fmt).depth() == old(fmt).depth(),
    {
        let mut header = String::from_str("struct ");
        header.append(self.name.as_str());
        header.append(" {");
        let mut lines: Vec<String> = Vec::new();
        let mut i: usize = 0;
        proof {
            assert(views_of(lines@) =~= field_lines(self.fields@.take(0)));
        }
        while i < self.fields.len()
            invariant
                i <= self.fields@.len(),
                views_of(lines@) == field_lines(self.fields@.take(i as int)),
            decreases self.fields@.len() - i,
        {
            let mut l = String::new();
            l.append(self.fields[i].name.as_str());
            l.append(": ");
            l.append(self.fields[i].ty.name.as_str());
            l.append(",");
            proof {
                assert(l@ =~= field_line(self.fields@[i as int]));
                assert(views_of(lines@.push(l)) =~= views_of(lines@).push(l@));
                assert(field_lines(self.fields@.take(i + 1)) =~= field_lines(
                    self.fields@.take(i as int),
                ).push(field_line(self.fields@[i as int])));
            }
            lines.push(l);
            i = i + 1;
        }
        proof {
            assert(self.fields@.take(self.fields@.len() as int) =~= self.fields@);
        }
        fmt_block(fmt, header.as_str(), &lines);
        proof {
            assert(header@ =~= "struct "@ + self.name@ + " {"@);
        }
    }
}

/// The text a function renders to.
pub open spec fn function_render(f: Function, depth: nat) -> Seq<char> {
    block_render("fn "@ + f.name@ + "() {"@, views_of(f.body@), depth)
}

/// A function definition: a name and its body lines.
#[derive(Debug, Clone)]
pub struct Function {
    pub name: String,
    pub body: Vec<String>,
}

impl Function {
    /// A function with the given name and an empty body.
    pub fn new(name: &str) -> (f: Function)
        ensures
            f.name@ == name@,
            f.body@.len() == 0,
    {
        Function { name: String::from_str(name), body: Vec::new() }
    }

    /// Add one body line.
    pub fn line(&mut self, line: &str) -> (r: &mut Function)
        ensures
            r.name == old(self).name,
            views_of(r.body@) == views_of(old(self).body@).push(line@),
            *final(self) == *final(r),
    {
        let l = String::from_str(line);
        proof {
            assert(views_of(self.body@.push(l)) =~= views_of(self.body@).push(l@));
        }
        self.body.push(l);
        self
    }

    /// Write the function as a braced block of its body lines.
    pub fn fmt(&self, fmt: &mut Formatter)
        requires
            old(fmt).depth() < usize::MAX,
        ensures
            final(fmt).text() == old(fmt).text() + function_render(*self, old(fmt).depth()),
            final(fmt).depth() == old(fmt).depth(),
    {
        let mut header = String::from_str("fn ");
        header.append(self.name.as_str());
        header.append("() {");
        fmt_block(fmt, header.as_str(), &self.body);
        proof {
            assert(header@ =~= "fn "@ + self.name@ + "() {"@);
        }
    }
}

/// The text a trait renders to.
pub open spec fn trait_render(t: Trait, depth: nat) -> Seq<char> {
    block_render("trait "@ + t.name@ + " {"@, views_of(t.methods@), depth)
}

/// A trait definition: a name and its member lines.
#[derive(Debug, Clone)]
pub struct Trait {
    pub name: String,
    pub methods: Vec<String>,
}

impl Trait {
    /// A trait with the given name and no members yet.
    pub fn new(name: &str) -> (t: Trait)
        ensures
            t.name@ == name@,
            t.methods@.len() == 0,
    {
        Trait { name: String::from_str(name), methods: Vec::new() }
    }

    /// Add one member line.
    pub fn method(&mut self, line: &str) -> (r: &mut Trait)
        ensures
            r.name == old(self).name,
            views_of(r.methods@) == views_of(old(self).methods@).push(line@),
            *final(self) == *final(r),
    {
        let l = String::from_str(line);
        proof {
            assert(views_of(self.methods@.push(l)) =~= views_of(self.methods@).push(l@));
        }
        self.methods.push(l);
        self
    }

    /// Write the trait as a braced block of its member lines.
    pub fn fmt(&self, fmt: &mut Formatter)
        requires
            old(fmt).depth() < usize::MAX,
        ensures
            final(fmt).text() == old(fmt).text() + trait_render(*self, old(fmt).depth()),
            final(fmt).depth() == old(fmt).depth(),
    {
        let mut header = String::from_str("trait ");
        header.append(self.name.as_str());
        header.append(" {");
        fmt_block(fmt, header.as_str(), &self.methods);
        proof {
            assert(header@ =~= "trait "@ + self.name@ + " {"@);
        }
    }
}

/// The text an enumeration renders to.
pub open spec fn enum_render(e: Enum, depth: nat) -> Seq<char> {
    block_render("enum "@ + e.name@ + " {"@, views_of(e.variants@), depth)
}

/// An enumeration definition: a name and its variant lines.
#[derive(Debug, Clone)]
pub struct Enum {
    pub name: String,
    pub variants: Vec<String>,
}

impl Enum {
    /// An enumeration with the given name and no variants yet.
    pub fn new(name: &str) -> (e: Enum)
        ensures
            e.name@ == name@,
            e.variants@.len() == 0,
    {
        Enum { name: String::from_str(name), variants: Vec::new() }
    }

    /// Add one variant line.
    pub fn variant(&mut self, line: &str) -> (r: &mut Enum)
        ensures
            r.name == old(self).name,
            views_of(r.variants@) == views_of(old(self).variants@).push(line@),
            *final(self) == *final(r),
    {
        let l = String::from_str(line);
        proof {
            assert(views_of(self.variants@.push(l)) =~= views_of(self.variants@).push(l@));
        }
        self.variants.push(l);
        self
    }

    /// Write the enumeration as a braced block of its variant lines.
    pub fn fmt(&self, fmt: &mut Formatter)
        requires
            old(fmt).depth() < usize::MAX,
        ensures
            final(fmt).text() == old(fmt).text() + enum_render(*self, old(fmt).depth()),
            final(fmt).depth() == old(fmt).depth(),
    {
        let mut header = String::from_str("enum ");
        header.append(self.name.as_str());
        header.append(" {");
        fmt_block(fmt, header.as_str(), &self.variants);
        proof {
            assert(header@ =~= "enum "@ + self.name@ + " {"@);
        }
    }
}

/// The text an implementation block renders to.
pub open spec fn impl_render(i: Impl, depth: nat) -> Seq<char> {
    block_render("impl "@ + i.target@ + " {"@, views_of(i.body@), depth)
}

/// An implementation block: a target type and its body lines.
#[derive(Debug, Clone)]
pub struct Impl {
    pub target: String,
    pub body: Vec<String>,
}

impl Impl {
    /// An implementation block for the given target with an empty body.
    pub fn new(target: &str) -> (i: Impl)
        ensures
            i.target@ == target@,
            i.body@.len() == 0,
    {
        Impl { target: String::from_str(target), body: Vec::new() }
    }

    /// Add one body line.
    pub fn line(&mut self, line: &str) -> (r: &mut Impl)
        ensures
            r.target == old(self).target,
            views_of(r.body@) == views_of(old(self).body@).push(line@),
            *final(self) == *final(r),
    {
        let l = String::from_str(line);
        proof {
            assert(views_of(self.body@.push(l)) =~= views_of(self.body@).push(l@));
        }
        self.body.push(l);
        self
    }

    /// Write the implementation block as a braced block of its body lines.
    pub fn fmt(&self, fmt: &mut Formatter)
        requires
            old(fmt).depth() < usize::MAX,
        ensures
            final(fmt).text() == old(fmt).text() + impl_render(*self, old(fmt).depth()),
            final(fmt).depth() == old(fmt).depth(),
    {
        let mut header = String::from_str("impl ");
        header.append(self.target.as_str());
        header.append(" {");
        fmt_block(fmt, header.as_str(), &self.body);
        proof {
            assert(header@ =~= "impl "@ + self.target@ + " {"@);
        }
    }
}

/// One declaration held by a scope.
#[derive(Debug)]
pub enum Item {
    Comment(Comment),
    Module(Module),
    Const(Const),
    Struct(Struct),
    Function(Function),
    Trait(Trait),
    Enum(Enum),
    Impl(Impl),
    Raw(String),
}

/// The text one declaration renders to at the given depth.
pub open spec fn item_render(it: Item, depth: nat) -> Seq<char>
    decreases it,
{
    match it {
        Item::Comment(c) => comment_render(c, depth),
        Item::Module(m) => module_render(m, depth),
        Item::Const(c) => const_render(c, depth),
        Item::Struct(s) => struct_render(s, depth),
        Item::Function(f) => function_render(f, depth),
        Item::Trait(t) => trait_render(t, depth),
        Item::Enum(e) => enum_render(e, depth),
        Item::Impl(i) => impl_render(i, depth),
        Item::Raw(v) => line_at(depth, v@),
    }
}

/// How many indentation levels rendering a declaration can open beyond the
/// depth it is rendered at.
pub open spec fn item_height(it: Item) -> nat
    decreases it,
{
    match it {
        Item::Module(m) => 1 + crate::scope::scope_height(m.scope),
        Item::Struct(_) => 1,
        Item::Function(_) => 1,
        Item::Trait(_) => 1,
        Item::Enum(_) => 1,
        Item::Impl(_) => 1,
        _ => 0,
    }
}

impl Item {
    /// Write this declaration at the formatter's current depth.
    pub fn fmt(&self, fmt: &mut Formatter)
        requires
            old(fmt).depth() + item_height(*self) <= usize::MAX,
        ensures
            final(fmt).text() == old(fmt).text() + item_render(*self, old(fmt).depth()),
            final(fmt).depth() == old(fmt).depth(),
        decreases *self,
    {
        match self {
            Item::Comment(c) => c.fmt(fmt),
            Item::Module(m) => m.fmt(fmt),
            Item::Const(c) => c.fmt(fmt),
            Item::Struct(s) => s.fmt(fmt),
            Item::Function(f) => f.fmt(fmt),
            Item::Trait(t) => t.fmt(fmt),
            Item::Enum(e) => e.fmt(fmt),
            Item::Impl(i) => i.fmt(fmt),
            Item::Raw(v) => fmt.write_line(v.as_str()),
        }
    }
}

} // verus!
