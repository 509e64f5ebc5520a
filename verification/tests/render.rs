use codegen::{Comment, Const, Docs, Enum, Formatter, Function, Impl, License, LicenseType, Scope, Struct, Trait};

#[test]
fn empty_scope_renders_nothing() {
    let s = Scope::new();
    assert_eq!(s.to_string(), "");
}

#[test]
fn comment_lines_get_markers() {
    let mut f = Formatter::new();
    let c = Comment::new("first\nsecond");
    c.fmt(&mut f);
    assert_eq!(f.into_text(), "// first\n// second\n");
}

#[test]
fn comment_respects_indentation() {
    let mut f = Formatter::new();
    f.indent();
    Comment::new("inside").fmt(&mut f);
    assert_eq!(f.into_text(), "    // inside\n");
}

#[test]
fn indentation_restored_after_nested_blocks() {
    let mut f = Formatter::new();
    f.indent();
    f.indent();
    f.write_line("deep");
    f.dedent();
    f.dedent();
    f.write_line("shallow");
    assert_eq!(f.into_text(), "        deep\nshallow\n");
}

#[test]
fn docs_lines_get_doc_markers() {
    let mut f = Formatter::new();
    Docs::new("summary\ndetail").fmt(&mut f);
    assert_eq!(f.into_text(), "/// summary\n/// detail\n");
}

#[test]
fn const_without_visibility() {
    let mut s = Scope::new();
    s.new_const("ANSWER", "u8", "42");
    assert_eq!(s.to_string(), "const ANSWER : u8 = 42;");
}

#[test]
fn const_with_visibility_and_docs() {
    let mut f = Formatter::new();
    let mut c = Const::new("LIMIT", "usize", "16");
    c.vis("pub");
    c.doc(vec![String::from("the upper bound")]);
    c.fmt(&mut f);
    assert_eq!(f.into_text(), "/// the upper bound\npub const LIMIT : usize = 16;\n");
}

#[test]
fn mit_license_substitutes_copyrights_in_order() {
    let mut l = License::new("my project", LicenseType::Mit);
    l.add_copyright("2020 Alice");
    l.add_copyright("2021 Bob");
    let mut s = Scope::new();
    s.license(l);
    let out = s.to_string();
    assert!(out.starts_with("// my project\n//\n// MIT License\n"));
    let alice = out.find("// Copyright (c) 2020 Alice").unwrap();
    let bob = out.find("// Copyright (c) 2021 Bob").unwrap();
    assert!(alice < bob);
    assert!(!out.contains("{}"));
    assert!(out.contains("// SPDX-License-Identifier: MIT"));
}

#[test]
fn bsd_license_renders_header_and_spdx_only() {
    let mut s = Scope::new();
    s.license(License::new("title", LicenseType::Bsd));
    let out = s.to_string();
    assert!(out.starts_with("// title\n//\n//\n// SPDX-License-Identifier: BSD"));
    assert!(!out.contains("MIT License"));
}

#[test]
fn struct_renders_fields_one_level_deeper() {
    let mut s = Scope::new();
    let st = s.new_struct("Point");
    st.field("x", "i32");
    st.field("y", "i32");
    assert_eq!(s.to_string(), "struct Point {\n    x: i32,\n    y: i32,\n}");
}

#[test]
fn function_renders_body_lines() {
    let mut s = Scope::new();
    let f = s.new_fn("run");
    f.line("let x = 1;");
    assert_eq!(s.to_string(), "fn run() {\n    let x = 1;\n}");
}

#[test]
fn enum_trait_impl_render_braced_blocks() {
    let mut s = Scope::new();
    let e = s.new_enum("Color");
    e.variant("Red,");
    e.variant("Green,");
    assert_eq!(s.to_string(), "enum Color {\n    Red,\n    Green,\n}");

    let mut s2 = Scope::new();
    let t = s2.new_trait("Runs");
    t.method("fn run(&self);");
    assert_eq!(s2.to_string(), "trait Runs {\n    fn run(&self);\n}");

    let mut s3 = Scope::new();
    let i = s3.new_impl("Color");
    i.line("fn hue(&self) {}");
    assert_eq!(s3.to_string(), "impl Color {\n    fn hue(&self) {}\n}");
}

#[test]
fn raw_text_passes_through() {
    let mut s = Scope::new();
    s.raw("#[derive(Debug)]");
    assert_eq!(s.to_string(), "#[derive(Debug)]");
}

#[test]
fn nested_modules_indent_twice() {
    let mut s = Scope::new();
    let outer = s.new_module("outer");
    let inner = outer.scope().new_module("inner");
    inner.scope().new_const("X", "u8", "1");
    assert_eq!(
        s.to_string(),
        "mod outer {\n    mod inner {\n        const X : u8 = 1;\n    }\n}",
    );
}

#[test]
fn push_variants_append_prebuilt_items() {
    let mut s = Scope::new();
    s.push_comment(Comment::new("note"))
        .push_const(Const::new("K", "u16", "9"))
        .push_struct(Struct::new("S"))
        .push_fn(Function::new("f"))
        .push_trait(Trait::new("T"))
        .push_enum(Enum::new("E"))
        .push_impl(Impl::new("S"));
    let out = s.to_string();
    assert!(out.starts_with("// note\n\nconst K : u16 = 9;\n\nstruct S {\n}"));
    assert!(out.contains("fn f() {\n}"));
    assert!(out.contains("trait T {\n}"));
    assert!(out.contains("enum E {\n}"));
    assert!(out.ends_with("impl S {\n}"));
}

#[test]
fn new_comment_renders_in_place() {
    let mut s = Scope::new();
    s.new_comment("leading note");
    s.new_const("A", "u8", "1");
    assert_eq!(s.to_string(), "// leading note\n\nconst A : u8 = 1;");
}

#[test]
fn license_precedes_declarations() {
    let mut s = Scope::new();
    s.license(License::new("", LicenseType::Bsd));
    s.new_const("A", "u8", "1");
    assert_eq!(
        s.to_string(),
        "//\n// SPDX-License-Identifier: BSD\n//\n\nconst A : u8 = 1;",
    );
}
