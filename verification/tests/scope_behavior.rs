use codegen::{Docs, Module, Scope};

#[test]
fn import_grouping_is_deterministic() {
    let mut s = Scope::new();
    s.import("std::io", "Read");
    s.import("std::io", "Write");
    s.import("std::fmt", "Display");
    assert_eq!(s.to_string(), "use std::io::{Read, Write};\nuse std::fmt::Display;\n");
}

#[test]
fn import_same_pair_twice_renders_once() {
    let mut s = Scope::new();
    s.import("std::io", "Read");
    s.import("std::io", "Read");
    let out = s.to_string();
    assert_eq!(out, "use std::io::Read;\n");
    assert_eq!(out.matches("Read").count(), 1);
}

#[test]
fn import_returns_the_existing_record() {
    let mut s = Scope::new();
    s.import("std::io", "Read");
    // the second request must hand the first record back, so configuring it
    // changes the one rendered statement
    let rec = s.import("std::io", "Read");
    rec.vis = Some(String::from("pub"));
    assert_eq!(s.to_string(), "pub use std::io::Read;\n");
}

#[test]
fn imports_grouped_by_visibility_in_discovery_order() {
    let mut s = Scope::new();
    let rec = s.import("q", "B");
    rec.vis = Some(String::from("pub"));
    s.import("p", "A");
    assert_eq!(s.to_string(), "pub use q::B;\nuse p::A;\n");
}

#[test]
fn import_takes_leading_type_segment() {
    let mut s = Scope::new();
    s.import("std", "fmt::Display");
    assert_eq!(s.to_string(), "use std::fmt;\n");
}

#[test]
fn import_block_precedes_declarations_with_blank_line() {
    let mut s = Scope::new();
    s.import("std::io", "Read");
    s.new_const("N", "u8", "3");
    assert_eq!(s.to_string(), "use std::io::Read;\n\nconst N : u8 = 3;");
}

#[test]
fn declarations_separated_by_exactly_one_blank_line() {
    let mut s = Scope::new();
    s.new_const("A", "u8", "1");
    s.new_const("B", "u8", "2");
    s.new_const("C", "u8", "3");
    assert_eq!(s.to_string(), "const A : u8 = 1;\n\nconst B : u8 = 2;\n\nconst C : u8 = 3;");
}

#[test]
fn get_or_new_module_returns_the_same_module() {
    let mut s = Scope::new();
    s.get_or_new_module("foo").scope().new_const("X", "u8", "1");
    // the second call must find the existing module, not create another
    s.get_or_new_module("foo").scope().new_const("Y", "u8", "2");
    let out = s.to_string();
    assert_eq!(out.matches("mod foo").count(), 1);
    assert!(out.contains("const X : u8 = 1;"));
    assert!(out.contains("const Y : u8 = 2;"));
}

#[test]
fn get_module_finds_only_existing_modules() {
    let mut s = Scope::new();
    s.new_module("here");
    assert!(s.get_module("here").is_some());
    assert!(s.get_module("absent").is_none());
    assert!(s.get_module_mut("here").is_some());
    assert!(s.get_module_mut("absent").is_none());
}

#[test]
fn push_module_accepts_distinct_names() {
    let mut s = Scope::new();
    s.push_module(Module::new("a"));
    s.push_module(Module::new("b"));
    let out = s.to_string();
    assert!(out.contains("mod a {"));
    assert!(out.contains("mod b {"));
}

#[test]
fn rendering_twice_is_byte_identical() {
    let mut s = Scope::new();
    s.docs(Docs::new("top level"));
    s.import("std::io", "Read");
    let m = s.new_module("inner");
    m.scope().new_const("X", "u8", "7");
    let first = s.to_string();
    let second = s.to_string();
    assert_eq!(first, second);
}

#[test]
fn output_has_no_trailing_newline() {
    let mut s = Scope::new();
    s.new_const("A", "u8", "1");
    let out = s.to_string();
    assert!(!out.ends_with('\n'));

    let mut s2 = Scope::new();
    s2.new_module("m");
    assert!(!s2.to_string().ends_with('\n'));
}

#[test]
fn docs_render_before_declarations() {
    let mut s = Scope::new();
    s.docs(Docs::new("crate docs"));
    s.new_const("A", "u8", "1");
    assert_eq!(s.to_string(), "/// crate docs\nconst A : u8 = 1;");
}

#[test]
fn builder_chaining_appends_in_insertion_order() {
    let mut s = Scope::new();
    s.raw("first").raw("second");
    assert_eq!(s.to_string(), "first\n\nsecond");
}
