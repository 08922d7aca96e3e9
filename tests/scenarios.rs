use sorty::attrs::{normalize_attributes, render_meta, Lit, MalformedMeta, MetaItem, MetaItemKind, NestedMetaItem};
use sorty::check::{check_sort, DeclarationRecord, Severity, Span};
use sorty::classify::{ItemKind, Module, UseTree};
use sorty::classify::Item;
use sorty::imports::{normalize_import_list, UseListItem};
use sorty::text::{compare, has_prefix, has_suffix, join_strs};
use sorty::Sorty;

fn s(x: &str) -> String {
    x.to_string()
}

fn path(p: &[&str]) -> Vec<String> {
    p.iter().map(|x| x.to_string()).collect()
}

fn span(file: u64, lo: u64, hi: u64) -> Span {
    Span { file, lo, hi }
}

fn item(ident: &str, kind: ItemKind, public: bool, lo: u64) -> Item {
    Item { ident: s(ident), attrs: vec![], is_public: public, span: span(0, lo, lo + 5), kind }
}

fn simple_use(p: &[&str], lo: u64) -> Item {
    let last = p[p.len() - 1];
    item(last, ItemKind::Use(UseTree::Simple { path: path(p), ident: s(last) }), false, lo)
}

fn word(name: &str) -> MetaItem {
    MetaItem { name: s(name), node: MetaItemKind::Word }
}

fn name(n: &str) -> UseListItem {
    UseListItem::Name { name: s(n), rename: None }
}

fn record(name: &str, prefix: &str, lo: u64) -> DeclarationRecord {
    DeclarationRecord { display_name: s(name), attribute_prefix: s(prefix), span: span(0, lo, lo + 3), force_warn: false }
}

#[test]
fn std_import_group_out_of_order() {
    let m = Module { items: vec![simple_use(&["std", "fmt"], 0), simple_use(&["alpha", "Bar"], 10), simple_use(&["beta", "Baz"], 20)] };
    let ds = Sorty.check_mod(&m).unwrap();
    assert_eq!(ds.len(), 1);
    assert_eq!(ds[0].message, "use statements should be in alphabetical order!");
    assert_eq!(ds[0].suggestion, "Try this...\n\nuse alpha::Bar;\nuse beta::Baz;\nuse std::fmt;\n");
    assert_eq!(ds[0].span, span(0, 0, 25));
    assert_eq!(ds[0].severity, Severity::Warning);
}

#[test]
fn unsorted_import_list_warns() {
    let list = UseTree::List { path: path(&["foo"]), items: vec![name("c"), name("a"), UseListItem::SelfBinding, name("b")] };
    let m = Module { items: vec![item("", ItemKind::Use(list), false, 0)] };
    let ds = Sorty.check_mod(&m).unwrap();
    assert_eq!(ds.len(), 1);
    assert_eq!(ds[0].suggestion, "Try this...\n\nuse foo::{self, a, b, c};\n");
}

#[test]
fn renamed_extern_crate_sorted_by_bound_name() {
    let m = Module {
        items: vec![
            item("zeta", ItemKind::ExternCrate { crate_name: None }, false, 0),
            item("zz", ItemKind::ExternCrate { crate_name: Some(s("alpha")) }, false, 10),
        ],
    };
    assert_eq!(Sorty.check_mod(&m).unwrap().len(), 0);
}

#[test]
fn renamed_extern_crate_suggestion() {
    let m = Module {
        items: vec![
            item("zz", ItemKind::ExternCrate { crate_name: Some(s("alpha")) }, false, 0),
            item("std", ItemKind::ExternCrate { crate_name: None }, false, 5),
            item("beta", ItemKind::ExternCrate { crate_name: None }, false, 10),
        ],
    };
    let ds = Sorty.check_mod(&m).unwrap();
    assert_eq!(ds.len(), 1);
    assert_eq!(ds[0].message, "crate declarations should be in alphabetical order!");
    assert_eq!(ds[0].suggestion, "Try this...\n\nextern crate beta;\nextern crate alpha as zz;\n");
}

fn out_of_line(ident: &str, public: bool, lo: u64) -> Item {
    item(ident, ItemKind::Mod { inner: span(7, 0, 100) }, public, lo)
}

#[test]
fn private_module_before_public_one() {
    let m = Module { items: vec![out_of_line("a", false, 0), out_of_line("b", true, 10)] };
    assert_eq!(Sorty.check_mod(&m).unwrap().len(), 0);
    let m = Module { items: vec![out_of_line("b", true, 0), out_of_line("a", false, 10)] };
    let ds = Sorty.check_mod(&m).unwrap();
    assert_eq!(ds.len(), 1);
    assert_eq!(ds[0].suggestion, "Try this...\n\nmod a;\npub mod b;\n");
}

#[test]
fn public_module_moves_after_private() {
    let m = Module { items: vec![out_of_line("a", true, 0), out_of_line("b", false, 10)] };
    let ds = Sorty.check_mod(&m).unwrap();
    assert_eq!(ds.len(), 1);
    assert_eq!(ds[0].message, "module declarations (other than inline modules) should be in alphabetical order!");
    assert_eq!(ds[0].suggestion, "Try this...\n\nmod b;\npub mod a;\n");
}

#[test]
fn inline_module_is_ignored() {
    let inline = item("zinline", ItemKind::Mod { inner: span(0, 2, 3) }, false, 0);
    let m = Module { items: vec![inline, out_of_line("a", false, 10), out_of_line("b", false, 20)] };
    assert_eq!(Sorty.check_mod(&m).unwrap().len(), 0);
}

#[test]
fn std_glob_is_skipped_other_glob_kept() {
    let g1 = item("", ItemKind::Use(UseTree::Glob { path: path(&["std", "prelude", "v1"]) }), false, 0);
    let g2 = item("", ItemKind::Use(UseTree::Glob { path: path(&["zed"]) }), false, 10);
    let u = simple_use(&["alpha", "A"], 20);
    let ds = Sorty.check_mod(&Module { items: vec![g1, g2, u] }).unwrap();
    assert_eq!(ds.len(), 1);
    assert_eq!(ds[0].suggestion, "Try this...\n\nuse alpha::A;\nuse zed::*;\n");
    assert_eq!(ds[0].span, span(0, 10, 25));
}

#[test]
fn renamed_simple_import() {
    let u = item("Y", ItemKind::Use(UseTree::Simple { path: path(&["b", "X"]), ident: s("Y") }), false, 0);
    let v = simple_use(&["a", "Z"], 10);
    let ds = Sorty.check_mod(&Module { items: vec![u, v] }).unwrap();
    assert_eq!(ds[0].suggestion, "Try this...\n\nuse a::Z;\nuse b::X as Y;\n");
}

#[test]
fn macro_use_crate_sorts_first() {
    let mut z = item("zebra", ItemKind::ExternCrate { crate_name: None }, false, 10);
    z.attrs = vec![word("macro_use")];
    let a = item("alpha", ItemKind::ExternCrate { crate_name: None }, false, 0);
    let ds = Sorty.check_mod(&Module { items: vec![a, z] }).unwrap();
    assert_eq!(ds.len(), 1);
    assert_eq!(ds[0].suggestion, "Try this...\n\n#[macro_use]\nextern crate zebra;\nextern crate alpha;\n");
}

#[test]
fn all_groups_reported_in_order() {
    let items = vec![
        item("b", ItemKind::ExternCrate { crate_name: None }, false, 0),
        item("a", ItemKind::ExternCrate { crate_name: None }, false, 5),
        out_of_line("d", false, 10),
        out_of_line("c", false, 15),
        simple_use(&["y"], 20),
        simple_use(&["x"], 25),
        item("f", ItemKind::Other, false, 30),
    ];
    let ds = Sorty.check_mod(&Module { items }).unwrap();
    assert_eq!(ds.len(), 3);
    assert!(ds[0].message.starts_with("crate declarations"));
    assert!(ds[1].message.starts_with("module declarations"));
    assert!(ds[2].message.starts_with("use statements"));
}

#[test]
fn malformed_literal_aborts() {
    let mut u = simple_use(&["a"], 0);
    u.attrs = vec![MetaItem { name: s("cfg"), node: MetaItemKind::NameValue(Lit::Int(3)) }];
    assert_eq!(Sorty.check_mod(&Module { items: vec![u] }).err(), Some(MalformedMeta));
}

#[test]
fn attribute_rendering() {
    let list = MetaItem {
        name: s("cfg"),
        node: MetaItemKind::List(vec![
            NestedMetaItem::MetaItem(MetaItem { name: s("unix"), node: MetaItemKind::Word }),
            NestedMetaItem::MetaItem(MetaItem { name: s("feature"), node: MetaItemKind::NameValue(Lit::Str(s("x"))) }),
            NestedMetaItem::Literal(Lit::Str(s("lit"))),
        ]),
    };
    assert_eq!(render_meta(&list), Some(s("cfg(feature = \"x\", lit, unix)")));
    let bad = MetaItem { name: s("a"), node: MetaItemKind::List(vec![NestedMetaItem::Literal(Lit::Bool(true))]) };
    assert_eq!(render_meta(&bad), None);
}

#[test]
fn attributes_normalized_and_docs_dropped() {
    let doc = MetaItem { name: s("doc"), node: MetaItemKind::NameValue(Lit::Str(s("hello"))) };
    let attrs = vec![word("inline"), doc, word("macro_use"), word("allow")];
    assert_eq!(normalize_attributes(&attrs, true, true).unwrap(), "#[macro_use]\n#[allow]\n#[inline]\npub ");
    assert_eq!(normalize_attributes(&attrs, true, false).unwrap(), "#[macro_use]\n#[allow]\n#[inline]\n");
    assert_eq!(normalize_attributes(&vec![], true, true).unwrap(), "pub ");
    assert_eq!(normalize_attributes(&vec![], false, true).unwrap(), "");
}

#[test]
fn import_list_order() {
    let items = vec![name("b"), UseListItem::Name { name: s("a"), rename: Some(s("z")) }, UseListItem::SelfBinding];
    let r = normalize_import_list(&items);
    assert_eq!(r.members, vec![s("self"), s("a as z"), s("b")]);
    assert!(!r.in_order);
    let r2 = normalize_import_list(&vec![UseListItem::SelfBinding, name("a")]);
    assert!(r2.in_order);
    assert!(normalize_import_list(&vec![]).in_order);
}

#[test]
fn sorted_group_has_no_warning() {
    let recs = vec![record("a", "", 0), record("b", "", 5), record("c", "pub ", 9)];
    assert!(check_sort(&recs, "k", "use").is_none());
    assert!(check_sort(&vec![], "k", "use").is_none());
}

#[test]
fn only_first_divergence_reported() {
    let recs = vec![record("a", "", 0), record("d", "", 5), record("c", "", 9), record("b", "", 12)];
    let d = check_sort(&recs, "k", "use").unwrap();
    assert_eq!(d.span, span(0, 5, 15));
    assert_eq!(d.suggestion, "Try this...\n\nuse b;\nuse c;\nuse d;\n");
    assert_eq!(d.message, "k should be in alphabetical order!");
}

#[test]
fn force_warn_reports_in_place() {
    let mut r = record("b", "", 5);
    r.force_warn = true;
    let d = check_sort(&vec![record("a", "", 0), r], "k", "use").unwrap();
    assert_eq!(d.span, span(0, 5, 8));
}

#[test]
fn text_helpers() {
    assert!(compare("a", "b") < 0);
    assert!(compare("B", "a") < 0);
    assert!(compare("ab", "a") > 0);
    assert_eq!(compare("x", "x"), 0);
    assert!(has_prefix("#[macro_use]\n", "#[macro_use]"));
    assert!(!has_prefix("#[macro", "#[macro_use]"));
    assert!(has_suffix("#[a]\npub ", "pub "));
    assert!(!has_suffix("pu", "pub "));
    assert_eq!(join_strs(&vec![s("a"), s("b"), s("c")], ", "), "a, b, c");
    assert_eq!(join_strs(&vec![], ", "), "");
}

#[test]
fn one_lint_declared() {
    let lints = Sorty.get_lints();
    assert_eq!(lints.len(), 1);
    assert_eq!(lints[0].name, "unsorted_declarations");
    assert_eq!(lints[0].default_level, Severity::Warning);
}

#[test]
fn import_list_normalization_idempotent() {
    let items = vec![name("d"), name("b"), UseListItem::SelfBinding, UseListItem::Name { name: s("a"), rename: Some(s("q")) }];
    let once = normalize_import_list(&items);
    assert_eq!(once.members, vec![s("self"), s("a as q"), s("b"), s("d")]);
    let again_items = vec![UseListItem::SelfBinding, UseListItem::Name { name: s("a"), rename: Some(s("q")) }, name("b"), name("d")];
    let twice = normalize_import_list(&again_items);
    assert_eq!(twice.members, once.members);
    assert!(twice.in_order);
}

#[test]
fn attribute_normalization_ignores_source_order() {
    let a = vec![word("zeta"), word("macro_use"), word("alpha")];
    let b = vec![word("macro_use"), word("alpha"), word("zeta")];
    let na = normalize_attributes(&a, false, true).unwrap();
    assert_eq!(na, "#[macro_use]\n#[alpha]\n#[zeta]\n");
    assert_eq!(normalize_attributes(&b, false, true).unwrap(), na);
}

#[test]
fn public_sorts_after_private_of_same_name() {
    let recs = vec![record("a", "pub ", 0), record("a", "", 5), record("b", "", 9)];
    let d = check_sort(&recs, "k", "mod").unwrap();
    assert_eq!(d.suggestion, "Try this...\n\nmod b;\npub mod a;\n");
    assert_eq!(d.span, span(0, 5, 12));
}

#[test]
fn macro_import_precedes_earlier_names() {
    let recs = vec![record("a", "", 0), record("m", "#[macro_use]\n", 5), record("b", "pub ", 9)];
    let d = check_sort(&recs, "k", "use").unwrap();
    assert_eq!(d.suggestion, "Try this...\n\n#[macro_use]\nuse m;\nuse a;\npub use b;\n");
    assert_eq!(d.span, span(0, 0, 12));
}
