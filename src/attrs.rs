//! Attribute normalization: an item's metadata rendered as a deterministic
//! text block, independent of the order in which it was written.
use crate::order::{
    canonical_perm, keys_view, lemma_canonical_exists, lemma_sort_idempotent, permute, sort_by_rank,
    sorted_texts, SortKey,
};
use crate::text::{compare, join, join_strs};
use vstd::prelude::*;

verus! {

/// A literal value inside an attribute.
pub enum Lit {
    Str(String),
    Int(u64),
    Bool(bool),
}

/// The value part of an attribute: none, a nested list, or `= literal`.
pub enum MetaItemKind {
    Word,
    List(Vec<NestedMetaItem>),
    NameValue(Lit),
}

/// One entry of an attribute's nested list.
pub enum NestedMetaItem {
    MetaItem(MetaItem),
    Literal(Lit),
}

/// One attribute: a name and its value.
pub struct MetaItem {
    pub name: String,
    pub node: MetaItemKind,
}

/// The attribute text refers to a literal that is not a string.
#[derive(Debug, PartialEq, Eq, Structural)]
pub struct MalformedMeta;

/// The text of a literal; only string literals have one.
pub open spec fn lit_text(l: Lit) -> Option<Seq<char>> {
    match l {
        Lit::Str(s) => Some(s@),
        _ => None,
    }
}

/// The text of an attribute: `name`, `name = "value"`, or
/// `name(a, b, ...)` with the nested entries in code point order; `None` where
/// a literal of another kind than string occurs in it.
pub open spec fn meta_text(m: MetaItem) -> Option<Seq<char>>
    decreases m,
{
    match m.node {
        MetaItemKind::Word => Some(m.name@),
        MetaItemKind::NameValue(l) => match lit_text(l) {
            Some(v) => Some(m.name@ + " = \""@ + v + "\""@),
            None => None,
        },
        MetaItemKind::List(items) => match nested_texts(items@) {
            Some(texts) => Some(m.name@ + "("@ + join(sort_by_rank(plain_keys(texts)), ", "@) + ")"@),
            None => None,
        },
    }
}

/// The texts of nested entries, in the order written; `None` where one has
/// none.
pub open spec fn nested_texts(items: Seq<NestedMetaItem>) -> Option<Seq<Seq<char>>>
    decreases items,
{
    if items.len() == 0 {
        Some(Seq::empty())
    } else {
        match (nested_texts(items.drop_last()), nested_text(items.last())) {
            (Some(prev), Some(t)) => Some(prev.push(t)),
            _ => None,
        }
    }
}

proof fn lemma_nested_none_extends(items: Seq<NestedMetaItem>, i: int)
    requires
        0 <= i <= items.len(),
        nested_texts(items.take(i)) is None,
    ensures
        nested_texts(items) is None,
    decreases items.len() - i,
{
    if i == items.len() {
        assert(items.take(i) =~= items);
    } else {
        assert(items.take(i + 1).drop_last() =~= items.take(i));
        lemma_nested_none_extends(items, i + 1);
    }
}

pub open spec fn nested_text(n: NestedMetaItem) -> Option<Seq<char>>
    decreases n,
{
    match n {
        NestedMetaItem::MetaItem(m) => meta_text(m),
        NestedMetaItem::Literal(l) => lit_text(l),
    }
}

/// Keys that order texts by plain code point order.
pub open spec fn plain_keys(texts: Seq<Seq<char>>) -> Seq<(u8, Seq<char>)> {
    texts.map_values(|t: Seq<char>| (0u8, t))
}

pub open spec fn opt_view(o: Option<String>) -> Option<Seq<char>> {
    match o {
        Some(s) => Some(s@),
        None => None,
    }
}

fn lit_string(l: &Lit) -> (r: Option<String>)
    ensures
        opt_view(r) == lit_text(*l),
{
    match l {
        Lit::Str(s) => Some(s.clone()),
        _ => None,
    }
}

/// Renders one attribute as `meta_text` says.
pub fn render_meta(m: &MetaItem) -> (r: Option<String>)
    ensures
        opt_view(r) == meta_text(*m),
    decreases m,
{
    match &m.node {
        MetaItemKind::Word => Some(m.name.clone()),
        MetaItemKind::NameValue(l) => match lit_string(l) {
            Some(v) => {
                let mut s = m.name.clone();
                s.append(" = \"");
                s.append(v.as_str());
                s.append("\"");
                Some(s)
            },
            None => None,
        },
        MetaItemKind::List(items) => {
            let mut keys: Vec<SortKey> = Vec::new();
            let mut i: usize = 0;
            while i < items.len()
                invariant
                    m.node is List,
                    m.node->List_0 == *items,
                    i <= items.len(),
                    keys@.len() == i,
                    nested_texts(items@.take(i as int)) == Some(
                        keys_view(keys@).map_values(|k: (u8, Seq<char>)| k.1),
                    ),
                    forall|j: int| 0 <= j < i ==> #[trigger] keys@[j].rank == 0,
                decreases items.len() - i,
            {
                proof {
                    assert(decreases_to!(*m => m.node));
                    assert(decreases_to!(m.node => m.node->List_0));
                    assert(decreases_to!(*items => items@));
                    assert(decreases_to!(items@ => items@[i as int]));
                    assert(items@.take(i + 1).drop_last() =~= items@.take(i as int));
                }
                match render_nested(&items[i]) {
                    Some(t) => {
                        let ghost prev = keys@;
                        keys.push(SortKey { rank: 0, text: t });
                        assert(keys_view(keys@).map_values(|k: (u8, Seq<char>)| k.1) =~= keys_view(
                            prev,
                        ).map_values(|k: (u8, Seq<char>)| k.1).push(t@));
                    },
                    None => {
                        proof {
                            assert(items@.take(i + 1).last() == items@[i as int]);
                            lemma_nested_none_extends(items@, i + 1);
                        }
                        return None;
                    },
                }
                i = i + 1;
            }
            assert(items@.take(i as int) =~= items@);
            let ghost texts = keys_view(keys@).map_values(|k: (u8, Seq<char>)| k.1);
            assert(keys_view(keys@) =~= plain_keys(texts));
            let sorted = sorted_texts(&keys);
            let body = join_strs(&sorted, ", ");
            let mut s = m.name.clone();
            s.append("(");
            s.append(body.as_str());
            s.append(")");
            Some(s)
        },
    }
}

fn render_nested(n: &NestedMetaItem) -> (r: Option<String>)
    ensures
        opt_view(r) == nested_text(*n),
    decreases n,
{
    match n {
        NestedMetaItem::MetaItem(m) => render_meta(m),
        NestedMetaItem::Literal(l) => lit_string(l),
    }
}

/// A documentation comment: `doc = "..."`.
pub open spec fn is_doc(m: MetaItem) -> bool {
    m.name@ == "doc"@ && m.node is NameValue
}

/// Rank of an attribute entry: the macro-import attribute sorts first.
pub open spec fn attr_rank(e: Seq<char>) -> u8 {
    if e == "#[macro_use]"@ {
        0
    } else {
        1
    }
}

pub open spec fn attr_keys(entries: Seq<Seq<char>>) -> Seq<(u8, Seq<char>)> {
    entries.map_values(|e: Seq<char>| (attr_rank(e), e))
}

/// The entries `#[text]` of the attributes that are no documentation, in the
/// order written.
pub open spec fn attr_entries(attrs: Seq<MetaItem>) -> Seq<Seq<char>>
    decreases attrs.len(),
{
    if attrs.len() == 0 {
        Seq::empty()
    } else {
        let prev = attr_entries(attrs.drop_last());
        if is_doc(attrs.last()) {
            prev
        } else {
            prev.push("#["@ + meta_text(attrs.last())->0 + "]"@)
        }
    }
}

/// Appends the line break after the attributes and, for a public item, the
/// visibility marker `pub `.
pub open spec fn with_visibility(block: Seq<char>, public: bool) -> Seq<char> {
    if public {
        if block.len() == 0 {
            "pub "@
        } else {
            block + "\npub "@
        }
    } else {
        if block.len() == 0 {
            block
        } else {
            block + "\n"@
        }
    }
}

/// The normalized attribute prefix of an item, or `None` where an attribute
/// holds a literal that is not a string.
pub open spec fn normalized_attrs(attrs: Seq<MetaItem>, public: bool) -> Option<Seq<char>> {
    if forall|i: int| 0 <= i < attrs.len() ==> (#[trigger] meta_text(attrs[i])) is Some {
        Some(with_visibility(join(sort_by_rank(attr_keys(attr_entries(attrs))), "\n"@), public))
    } else {
        None
    }
}

/// Renders an item's attributes: documentation dropped, each entry as
/// `#[...]`, the macro-import attribute first and the others in code point
/// order, one per line; then `pub ` where `applies_visibility` and
/// `is_public` both hold.
pub fn normalize_attributes(attrs: &Vec<MetaItem>, is_public: bool, applies_visibility: bool) -> (r:
    Result<String, MalformedMeta>)
    ensures
        match r {
            Ok(s) => normalized_attrs(attrs@, is_public && applies_visibility) == Some(s@),
            Err(_) => normalized_attrs(attrs@, is_public && applies_visibility) is None,
        },
{
    let mut keys: Vec<SortKey> = Vec::new();
    let mut i: usize = 0;
    while i < attrs.len()
        invariant
            i <= attrs.len(),
            keys_view(keys@) == attr_keys(attr_entries(attrs@.take(i as int))),
            forall|j: int| 0 <= j < i ==> (#[trigger] meta_text(attrs@[j])) is Some,
        decreases attrs.len() - i,
    {
        assert(attrs@.take(i + 1).drop_last() =~= attrs@.take(i as int));
        assert(attrs@.take(i + 1).last() == attrs@[i as int]);
        let m = &attrs[i];
        match render_meta(m) {
            Some(t) => {
                let doc = compare(m.name.as_str(), "doc") == 0 && matches!(m.node, MetaItemKind::NameValue(_));
                if !doc {
                    let mut e = String::new();
                    e.append("#[");
                    e.append(t.as_str());
                    e.append("]");
                    let rank: u8 = if compare(e.as_str(), "#[macro_use]") == 0 {
                        0
                    } else {
                        1
                    };
                    let ghost prev = keys@;
                    keys.push(SortKey { rank, text: e });
                    assert(keys_view(keys@) =~= keys_view(prev).push((rank, e@)));
                    assert(attr_keys(attr_entries(attrs@.take(i + 1))) =~= attr_keys(
                        attr_entries(attrs@.take(i as int)),
                    ).push((rank, e@)));
                }
            },
            None => {
                return Err(MalformedMeta);
            },
        }
        i = i + 1;
    }
    assert(attrs@.take(i as int) =~= attrs@);
    let sorted = sorted_texts(&keys);
    let block = join_strs(&sorted, "\n");
    let public = is_public && applies_visibility;
    let r = if public {
        if block.unicode_len() == 0 {
            String::from_str("pub ")
        } else {
            block.concat("\npub ")
        }
    } else {
        if block.unicode_len() == 0 {
            block
        } else {
            block.concat("\n")
        }
    };
    Ok(r)
}

/// Normalizing attribute entries is idempotent: entries in their normalized
/// order, normalized again, stay as they are.
pub proof fn lemma_attribute_order_idempotent(entries: Seq<Seq<char>>)
    requires
        entries.len() <= usize::MAX,
    ensures
        sort_by_rank(attr_keys(sort_by_rank(attr_keys(entries)))) == sort_by_rank(attr_keys(entries)),
{
    let k = attr_keys(entries);
    lemma_canonical_exists(k);
    let s = permute(k, canonical_perm(k));
    assert(attr_keys(sort_by_rank(k)) =~= s);
    lemma_sort_idempotent(k);
    assert(sort_by_rank(attr_keys(sort_by_rank(k))) =~= sort_by_rank(k));
}

} // verus!
