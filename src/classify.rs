//! The declarations of one module, sorted into the three groups that are
//! checked: external crates, out-of-line sub-modules and imports.
use crate::attrs::{normalize_attributes, normalized_attrs, MalformedMeta, MetaItem};
use crate::check::{records_view, DeclarationRecord, RecordView, Span};
use crate::imports::{canonical_members, member_texts, normalize_import_list, UseListItem};
use crate::text::{compare, has_prefix, join, join_strs, starts_with, strs_view};
use vstd::prelude::*;

verus! {

/// The three shapes of an import.
pub enum UseTree {
    /// `use path;` or `use path as ident;`
    Simple { path: Vec<String>, ident: String },
    /// `use path::{a, b as c, self};`
    List { path: Vec<String>, items: Vec<UseListItem> },
    /// `use path::*;`
    Glob { path: Vec<String> },
}

/// The kinds of module children that the check reads.
pub enum ItemKind {
    /// `extern crate ident;`, or `extern crate crate_name as ident;`
    ExternCrate { crate_name: Option<String> },
    /// A sub-module; `inner` is where its body lies.
    Mod { inner: Span },
    Use(UseTree),
    /// Any other item; not checked.
    Other,
}

/// A direct child of a module.
pub struct Item {
    /// The name the item binds.
    pub ident: String,
    pub attrs: Vec<MetaItem>,
    pub is_public: bool,
    pub span: Span,
    pub kind: ItemKind,
}

/// A module: its direct children, in source order.
pub struct Module {
    pub items: Vec<Item>,
}

/// The three groups of a module, each in source order.
pub struct Groups {
    pub extern_crates: Vec<DeclarationRecord>,
    pub mods: Vec<DeclarationRecord>,
    pub uses: Vec<DeclarationRecord>,
}

pub open spec fn path_text(path: Seq<String>) -> Seq<char> {
    join(strs_view(path), "::"@)
}

pub open spec fn last_segment(path: Seq<String>) -> Seq<char> {
    if path.len() == 0 {
        Seq::empty()
    } else {
        path.last()@
    }
}

/// The group an item joins (0: external crates, 1: out-of-line sub-modules,
/// 2: imports), or `None`: the standard library's crate, inline modules,
/// glob imports from `std::`, and other items.
pub open spec fn item_group(item: Item) -> Option<u8> {
    match item.kind {
        ItemKind::ExternCrate { .. } => if item.ident@ == "std"@ {
            None
        } else {
            Some(0u8)
        },
        ItemKind::Mod { inner } => if inner.file != item.span.file {
            Some(1u8)
        } else {
            None
        },
        ItemKind::Use(t) => match t {
            UseTree::Glob { path } => if starts_with(path_text(path@) + "::*"@, "std::"@) {
                None
            } else {
                Some(2u8)
            },
            _ => Some(2u8),
        },
        ItemKind::Other => None,
    }
}

/// How an import is named: `path`, `path as name`, `path::{members}` with
/// the members in canonical order, or `path::*`.
pub open spec fn use_name(t: UseTree) -> Seq<char> {
    match t {
        UseTree::Simple { path, ident } => if last_segment(path@) == ident@ {
            path_text(path@)
        } else {
            path_text(path@) + " as "@ + ident@
        },
        UseTree::List { path, items } => path_text(path@) + "::{"@ + join(
            canonical_members(member_texts(items@)),
            ", "@,
        ) + "}"@,
        UseTree::Glob { path } => path_text(path@) + "::*"@,
    }
}

/// An import group whose members are not in canonical order.
pub open spec fn use_force_warn(t: UseTree) -> bool {
    match t {
        UseTree::List { items, .. } => canonical_members(member_texts(items@)) != member_texts(items@),
        _ => false,
    }
}

/// Attribute text of an item; visibility counts except for external crates.
pub open spec fn item_attrs(item: Item) -> Option<Seq<char>> {
    normalized_attrs(item.attrs@, item.is_public && !(item.kind is ExternCrate))
}

/// The record of an item that joins a group, given its attribute text. An
/// external crate is compared by the name it binds; its keyword text goes to
/// the prefix.
pub open spec fn item_record(item: Item, attrs: Seq<char>) -> RecordView {
    match item.kind {
        ItemKind::ExternCrate { crate_name } => RecordView {
            name: item.ident@,
            prefix: attrs + match crate_name {
                Some(o) => "extern crate "@ + o@ + " as"@,
                None => "extern crate"@,
            },
            span: item.span,
            force_warn: false,
        },
        ItemKind::Use(t) => RecordView {
            name: use_name(t),
            prefix: attrs,
            span: item.span,
            force_warn: use_force_warn(t),
        },
        _ => RecordView { name: item.ident@, prefix: attrs, span: item.span, force_warn: false },
    }
}

/// The records of group `g`, in source order.
pub open spec fn group_records(items: Seq<Item>, g: u8) -> Seq<RecordView>
    decreases items.len(),
{
    if items.len() == 0 {
        Seq::empty()
    } else {
        let prev = group_records(items.drop_last(), g);
        let it = items.last();
        if item_group(it) == Some(g) {
            prev.push(item_record(it, item_attrs(it)->0))
        } else {
            prev
        }
    }
}

/// Some item that joins a group has an attribute with a literal that is not
/// a string.
pub open spec fn module_malformed(items: Seq<Item>) -> bool {
    exists|i: int| 0 <= i < items.len() && (#[trigger] item_group(items[i])) is Some && item_attrs(items[i]) is None
}

fn item_group_of(item: &Item) -> (r: Option<u8>)
    ensures
        r == item_group(*item),
{
    match &item.kind {
        ItemKind::ExternCrate { .. } => if compare(item.ident.as_str(), "std") == 0 {
            None
        } else {
            Some(0)
        },
        ItemKind::Mod { inner } => if inner.file != item.span.file {
            Some(1)
        } else {
            None
        },
        ItemKind::Use(t) => match t {
            UseTree::Glob { path } => {
                let mut s = join_strs(path, "::");
                s.append("::*");
                if has_prefix(s.as_str(), "std::") {
                    None
                } else {
                    Some(2)
                }
            },
            _ => Some(2),
        },
        ItemKind::Other => None,
    }
}

fn use_record_name(t: &UseTree) -> (r: (String, bool))
    ensures
        r.0@ == use_name(*t),
        r.1 == use_force_warn(*t),
{
    match t {
        UseTree::Simple { path, ident } => {
            let mut s = join_strs(path, "::");
            let last = if path.len() == 0 {
                String::new()
            } else {
                path[path.len() - 1].clone()
            };
            if compare(last.as_str(), ident.as_str()) != 0 {
                s.append(" as ");
                s.append(ident.as_str());
            }
            (s, false)
        },
        UseTree::List { path, items } => {
            let order = normalize_import_list(items);
            let mut s = join_strs(path, "::");
            s.append("::{");
            let members = join_strs(&order.members, ", ");
            s.append(members.as_str());
            s.append("}");
            (s, !order.in_order)
        },
        UseTree::Glob { path } => {
            let mut s = join_strs(path, "::");
            s.append("::*");
            (s, false)
        },
    }
}

fn build_record(item: &Item, attrs: String) -> (r: DeclarationRecord)
    ensures
        r@ == item_record(*item, attrs@),
{
    match &item.kind {
        ItemKind::ExternCrate { crate_name } => {
            let ghost a = attrs@;
            let mut prefix = attrs;
            match crate_name {
                Some(o) => {
                    prefix.append("extern crate ");
                    prefix.append(o.as_str());
                    prefix.append(" as");
                    assert(prefix@ =~= a + ("extern crate "@ + o@ + " as"@));
                },
                None => prefix.append("extern crate"),
            }
            DeclarationRecord {
                display_name: item.ident.clone(),
                attribute_prefix: prefix,
                span: item.span,
                force_warn: false,
            }
        },
        ItemKind::Use(t) => {
            let (name, warn) = use_record_name(t);
            DeclarationRecord { display_name: name, attribute_prefix: attrs, span: item.span, force_warn: warn }
        },
        _ => DeclarationRecord {
            display_name: item.ident.clone(),
            attribute_prefix: attrs,
            span: item.span,
            force_warn: false,
        },
    }
}

/// Sorts a module's children into the three groups, with their records;
/// fails where an item that joins a group has a malformed attribute.
pub fn classify(module: &Module) -> (r: Result<Groups, MalformedMeta>)
    ensures
        match r {
            Ok(g) => {
                &&& !module_malformed(module.items@)
                &&& records_view(g.extern_crates@) == group_records(module.items@, 0)
                &&& records_view(g.mods@) == group_records(module.items@, 1)
                &&& records_view(g.uses@) == group_records(module.items@, 2)
            },
            Err(_) => module_malformed(module.items@),
        },
{
    let items = &module.items;
    let mut ext: Vec<DeclarationRecord> = Vec::new();
    let mut mods: Vec<DeclarationRecord> = Vec::new();
    let mut uses: Vec<DeclarationRecord> = Vec::new();
    let mut i: usize = 0;
    while i < items.len()
        invariant
            items@ == module.items@,
            i <= items.len(),
            records_view(ext@) == group_records(items@.take(i as int), 0),
            records_view(mods@) == group_records(items@.take(i as int), 1),
            records_view(uses@) == group_records(items@.take(i as int), 2),
            forall|j: int| 0 <= j < i ==> (#[trigger] item_group(items@[j])) is Some ==> item_attrs(items@[j]) is Some,
        decreases items.len() - i,
    {
        let item = &items[i];
        let ghost t1 = items@.take(i + 1);
        assert(t1.drop_last() =~= items@.take(i as int));
        assert(t1.last() == items@[i as int]);
        match item_group_of(item) {
            Some(g) => {
                let applies = match item.kind {
                    ItemKind::ExternCrate { .. } => false,
                    _ => true,
                };
                match normalize_attributes(&item.attrs, item.is_public, applies) {
                    Ok(attrs) => {
                        let rec = build_record(item, attrs);
                        let ghost rv = rec@;
                        if g == 0 {
                            let ghost prev = ext@;
                            ext.push(rec);
                            assert(records_view(ext@) =~= records_view(prev).push(rv));
                        } else if g == 1 {
                            let ghost prev = mods@;
                            mods.push(rec);
                            assert(records_view(mods@) =~= records_view(prev).push(rv));
                        } else {
                            let ghost prev = uses@;
                            uses.push(rec);
                            assert(records_view(uses@) =~= records_view(prev).push(rv));
                        }
                    },
                    Err(e) => {
                        assert(applies == !(item.kind is ExternCrate));
                        assert(item_attrs(items@[i as int]) is None);
                        assert(item_group(module.items@[i as int]) is Some);
                        assert(module_malformed(module.items@));
                        return Err(e);
                    },
                }
            },
            None => {},
        }
        i = i + 1;
    }
    assert(items@.take(i as int) =~= items@);
    Ok(Groups { extern_crates: ext, mods, uses })
}

} // verus!
