//! A license header.

use vstd::prelude::*;
use vstd::string::{StringExecFns, StrSliceExecFns};

use crate::formatter::{line_at, nl, Formatter};
use crate::text::{line_split, split_lines, views_of};

verus! {

/// The kind of license a header carries.
#[derive(Debug, Clone)]
pub enum LicenseType {
    /// MIT License
    Mit,
    /// BSD License
    Bsd,
}

/// The template text for a license kind. The two-character token `{}` on a
/// line of its own marks where the copyright entries are substituted. The
/// BSD template is empty: such a license renders only its header and the
/// SPDX identifier lines.
pub open spec fn license_template(ty: LicenseType) -> Seq<char> {
    match ty {
        LicenseType::Mit => (
        "MIT License\n\n{}\n\nPermission is hereby granted, free of charge, to any person obtaining a copy\nof this software and associated documentation files (the \"Software\"), to deal\nin the Software without restriction, including without limitation the rights\nto use, copy, modify, merge, publish, distribute, sublicense, and/or sell\ncopies of the Software, and to permit persons to whom the Software is\nfurnished to do so, subject to the following conditions:\n\nThe above copyright notice and this permission notice shall be included in all\ncopies or substantial portions of the Software.\n\nTHE SOFTWARE IS PROVIDED \"AS IS\", WITHOUT WARRANTY OF ANY KIND, EXPRESS OR\nIMPLIED, INCLUDING BUT NOT LIMITED TO THE WARRANTIES OF MERCHANTABILITY,\nFITNESS FOR A PARTICULAR PURPOSE AND NONINFRINGEMENT. IN NO EVENT SHALL THE\nAUTHORS OR COPYRIGHT HOLDERS BE LIABLE FOR ANY CLAIM, DAMAGES OR OTHER\nLIABILITY, WHETHER IN AN ACTION OF CONTRACT, TORT OR OTHERWISE, ARISING FROM,\nOUT OF OR IN CONNECTION WITH THE SOFTWARE OR THE USE OR OTHER DEALINGS IN THE\nSOFTWARE.")@,
        LicenseType::Bsd => ""@,
    }
}

/// The SPDX identifier for a license kind.
pub open spec fn spdx_of(ty: LicenseType) -> Seq<char> {
    match ty {
        LicenseType::Mit => "MIT"@,
        LicenseType::Bsd => "BSD"@,
    }
}

/// The placeholder line inside a template that the copyright entries replace.
pub open spec fn placeholder() -> Seq<char> {
    seq!['{', '}']
}

/// One `// Copyright (c) <entry>` line per registered entry, in order.
pub open spec fn copyright_lines(cps: Seq<Seq<char>>, depth: nat) -> Seq<char>
    decreases cps.len(),
{
    if cps.len() == 0 {
        Seq::empty()
    } else {
        copyright_lines(cps.drop_last(), depth) + line_at(
            depth,
            "// Copyright (c) "@ + cps.last(),
        )
    }
}

/// The template lines as line comments, with the placeholder line replaced
/// by the copyright lines.
pub open spec fn license_body(ls: Seq<Seq<char>>, cps: Seq<Seq<char>>, depth: nat) -> Seq<char>
    decreases ls.len(),
{
    if ls.len() == 0 {
        Seq::empty()
    } else {
        license_body(ls.drop_last(), cps, depth) + (if ls.last() == placeholder() {
            copyright_lines(cps, depth)
        } else {
            line_at(depth, "// "@ + ls.last())
        })
    }
}

/// The text a license renders to: an optional title line with a blank
/// comment line, the substituted template body, then a comment line, the
/// SPDX identifier line, a comment line and a blank separator line.
pub open spec fn license_render(l: License, depth: nat) -> Seq<char> {
    (if l.title@.len() > 0 {
        line_at(depth, "// "@ + l.title@) + line_at(depth, "//"@)
    } else {
        Seq::empty()
    }) + license_body(line_split(license_template(l.ty)), views_of(l.copyrights@), depth)
        + line_at(depth, "//"@) + line_at(depth, "// SPDX-License-Identifier: "@ + spdx_of(l.ty))
        + line_at(depth, "//"@) + nl()
}

/// A license header: a title, a license kind and the registered copyright
/// entries.
#[derive(Debug, Clone)]
pub struct License {
    pub copyrights: Vec<String>,
    pub title: String,
    pub ty: LicenseType,
}

impl License {
    /// A license header with the given title and kind and no copyright
    /// entries yet.
    pub fn new(title: &str, ty: LicenseType) -> (l: License)
        ensures
            l.title@ == title@,
            l.ty == ty,
            l.copyrights@.len() == 0,
    {
        License { title: String::from_str(title), copyrights: Vec::new(), ty }
    }

    /// Register one more copyright entry.
    pub fn add_copyright(&mut self, copyright: &str) -> (r: &mut License)
        ensures
            views_of(r.copyrights@) == views_of(old(self).copyrights@).push(copyright@),
            r.title == old(self).title,
            r.ty == old(self).ty,
            *final(self) == *final(r),
    {
        let entry = String::from_str(copyright);
        proof {
            assert(views_of(self.copyrights@.push(entry)) =~= views_of(
                self.copyrights@,
            ).push(entry@));
        }
        self.copyrights.push(entry);
        self
    }

    /// Write the license header, substituting the template's placeholder
    /// line with one `Copyright (c)` line per registered entry.
    pub fn fmt(&self, fmt: &mut Formatter)
        ensures
            final(fmt).text() == old(fmt).text() + license_render(*self, old(fmt).depth()),
            final(fmt).depth() == old(fmt).depth(),
    {
        let ghost d = fmt.depth();
        if !self.title.as_str().is_empty() {
            let mut t = String::from_str("// ");
            t.append(self.title.as_str());
            fmt.write_line(t.as_str());
            fmt.write_line("//");
        }
        let ghost head = fmt.text();

        let template: &'static str = match &self.ty {
            LicenseType::Mit => "MIT License\n\n{}\n\nPermission is hereby granted, free of charge, to any person obtaining a copy\nof this software and associated documentation files (the \"Software\"), to deal\nin the Software without restriction, including without limitation the rights\nto use, copy, modify, merge, publish, distribute, sublicense, and/or sell\ncopies of the Software, and to permit persons to whom the Software is\nfurnished to do so, subject to the following conditions:\n\nThe above copyright notice and this permission notice shall be included in all\ncopies or substantial portions of the Software.\n\nTHE SOFTWARE IS PROVIDED \"AS IS\", WITHOUT WARRANTY OF ANY KIND, EXPRESS OR\nIMPLIED, INCLUDING BUT NOT LIMITED TO THE WARRANTIES OF MERCHANTABILITY,\nFITNESS FOR A PARTICULAR PURPOSE AND NONINFRINGEMENT. IN NO EVENT SHALL THE\nAUTHORS OR COPYRIGHT HOLDERS BE LIABLE FOR ANY CLAIM, DAMAGES OR OTHER\nLIABILITY, WHETHER IN AN ACTION OF CONTRACT, TORT OR OTHERWISE, ARISING FROM,\nOUT OF OR IN CONNECTION WITH THE SOFTWARE OR THE USE OR OTHER DEALINGS IN THE\nSOFTWARE.",
            LicenseType::Bsd => "",
        };
        proof {
            assert(template@ == license_template(self.ty));
        }
        let lines = split_lines(template);
        let ghost ls = line_split(license_template(self.ty));
        let ghost cps = views_of(self.copyrights@);
        let mut i: usize = 0;
        proof {
            assert(license_body(ls.take(0), cps, d) =~= Seq::<char>::empty());
            assert(head + Seq::<char>::empty() =~= head);
        }
        while i < lines.len()
            invariant
                views_of(lines@) == ls,
                i <= lines.len(),
                cps == views_of(self.copyrights@),
                d == fmt.depth(),
                fmt.text() == head + license_body(ls.take(i as int), cps, d),
            decreases lines.len() - i,
        {
            let line = &lines[i];
            let is_placeholder = line.as_str().unicode_len() == 2
                && line.as_str().get_char(0) == '{' && line.as_str().get_char(1) == '}';
            proof {
                if is_placeholder {
                    assert(line@ =~= placeholder());
                } else {
                    assert(line@ != placeholder());
                }
            }
            if is_placeholder {
                let ghost inner_base = fmt.text();
                let mut j: usize = 0;
                proof {
                    assert(copyright_lines(cps.take(0), d) =~= Seq::<char>::empty());
                    assert(inner_base + Seq::<char>::empty() =~= inner_base);
                }
                while j < self.copyrights.len()
                    invariant
                        j <= self.copyrights@.len(),
                        cps == views_of(self.copyrights@),
                        d == fmt.depth(),
                        fmt.text() == inner_base + copyright_lines(cps.take(j as int), d),
                    decreases self.copyrights@.len() - j,
                {
                    let mut c = String::from_str("// Copyright (c) ");
                    c.append(self.copyrights[j].as_str());
                    fmt.write_line(c.as_str());
                    proof {
                        assert(cps.take(j + 1).drop_last() =~= cps.take(j as int));
                        assert(cps.take(j + 1).last() == cps[j as int]);
                        assert(fmt.text() =~= inner_base + copyright_lines(cps.take(j + 1), d));
                    }
                    j = j + 1;
                }
                proof {
                    assert(cps.take(self.copyrights@.len() as int) =~= cps);
                }
            } else {
                let mut c = String::from_str("// ");
                c.append(line.as_str());
                fmt.write_line(c.as_str());
            }
            proof {
                assert(ls.take(i + 1).drop_last() =~= ls.take(i as int));
                assert(ls.take(i + 1).last() == ls[i as int]);
                assert(fmt.text() =~= head + license_body(ls.take(i + 1), cps, d));
            }
            i = i + 1;
        }
        proof {
            assert(ls.take(lines@.len() as int) =~= ls);
        }

        fmt.write_line("//");
        let mut s = String::from_str("// SPDX-License-Identifier: ");
        match &self.ty {
            LicenseType::Mit => s.append("MIT"),
            LicenseType::Bsd => s.append("BSD"),
        }
        proof {
            assert(s@ == "// SPDX-License-Identifier: "@ + spdx_of(self.ty));
        }
        fmt.write_line(s.as_str());
        fmt.write_line("//");
        fmt.blank_line();
        proof {
            assert(final(fmt).text() =~= old(fmt).text() + license_render(*self, d));
        }
    }
}

} // verus!
