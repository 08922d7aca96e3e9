//! Import-list normalization: the members of a braced `use` group in
//! canonical order, `self` first.
use crate::order::{
    before, canonical_perm, key_lt, keys_view, lemma_canonical_exists,
    lemma_sort_idempotent, permute, sort_by_rank, sorted_texts, SortKey,
};
use crate::text::lemma_lex_irreflexive;
use crate::text::{compare, strs_view};
use vstd::prelude::*;

verus! {

/// One member of a braced import group.
pub enum UseListItem {
    /// The binding of the group's own path, `self`.
    SelfBinding,
    /// A name, possibly renamed with `as`.
    Name { name: String, rename: Option<String> },
}

/// A group's members in canonical order, and whether they were written so.
pub struct ImportListOrder {
    pub members: Vec<String>,
    pub in_order: bool,
}

/// How a member is written: `self`, `name` or `name as rename`.
pub open spec fn member_text(m: UseListItem) -> Seq<char> {
    match m {
        UseListItem::SelfBinding => "self"@,
        UseListItem::Name { name, rename } => match rename {
            Some(r) => name@ + " as "@ + r@,
            None => name@,
        },
    }
}

pub open spec fn member_texts(items: Seq<UseListItem>) -> Seq<Seq<char>> {
    items.map_values(|m: UseListItem| member_text(m))
}

/// Rank of a member: `self` sorts first.
pub open spec fn member_rank(t: Seq<char>) -> u8 {
    if t == "self"@ {
        0
    } else {
        1
    }
}

pub open spec fn member_keys(texts: Seq<Seq<char>>) -> Seq<(u8, Seq<char>)> {
    texts.map_values(|t: Seq<char>| (member_rank(t), t))
}

/// The members in canonical order: `self` first, the others in code point
/// order, equal texts in the order written.
pub open spec fn canonical_members(texts: Seq<Seq<char>>) -> Seq<Seq<char>> {
    sort_by_rank(member_keys(texts))
}

fn render_member(m: &UseListItem) -> (r: String)
    ensures
        r@ == member_text(*m),
{
    match m {
        UseListItem::SelfBinding => String::from_str("self"),
        UseListItem::Name { name, rename } => match rename {
            Some(new_name) => {
                let mut s = name.clone();
                s.append(" as ");
                s.append(new_name.as_str());
                s
            },
            None => name.clone(),
        },
    }
}

/// Puts the members of an import group in canonical order, and tells
/// whether they already stood so.
pub fn normalize_import_list(items: &Vec<UseListItem>) -> (r: ImportListOrder)
    ensures
        strs_view(r.members@) == canonical_members(member_texts(items@)),
        r.in_order == (canonical_members(member_texts(items@)) == member_texts(items@)),
{
    let ghost texts = member_texts(items@);
    let mut written: Vec<String> = Vec::new();
    let mut keys: Vec<SortKey> = Vec::new();
    let mut i: usize = 0;
    while i < items.len()
        invariant
            i <= items.len(),
            texts == member_texts(items@),
            strs_view(written@) == texts.take(i as int),
            keys_view(keys@) == member_keys(texts.take(i as int)),
        decreases items.len() - i,
    {
        let t = render_member(&items[i]);
        let rank: u8 = if compare(t.as_str(), "self") == 0 {
            0
        } else {
            1
        };
        let ghost (pw, pk) = (written@, keys@);
        written.push(t.clone());
        keys.push(SortKey { rank, text: t });
        assert(strs_view(written@) =~= strs_view(pw).push(t@));
        assert(texts.take(i + 1) =~= texts.take(i as int).push(t@));
        assert(keys_view(keys@) =~= keys_view(pk).push((rank, t@)));
        assert(member_keys(texts.take(i + 1)) =~= member_keys(texts.take(i as int)).push((rank, t@)));
        i = i + 1;
    }
    assert(texts.take(i as int) =~= texts);
    let members = sorted_texts(&keys);
    let mut in_order = true;
    let mut k: usize = 0;
    while k < members.len()
        invariant
            k <= members.len(),
            members.len() == written.len(),
            strs_view(members@) == canonical_members(texts),
            strs_view(written@) == texts,
            in_order <==> (forall|j: int| 0 <= j < k ==> members@[j]@ == written@[j]@),
        decreases members.len() - k,
    {
        if compare(members[k].as_str(), written[k].as_str()) != 0 {
            in_order = false;
        }
        k = k + 1;
    }
    proof {
        if in_order {
            assert(strs_view(members@) =~= strs_view(written@));
        } else {
            let j = choose|j: int| 0 <= j < k && members@[j]@ != written@[j]@;
            assert(strs_view(members@)[j] != strs_view(written@)[j]);
        }
    }
    ImportListOrder { members, in_order }
}

/// Normalizing an import group is idempotent: the members in canonical order,
/// normalized again, stay as they are (and so are found in order).
pub proof fn lemma_import_list_idempotent(texts: Seq<Seq<char>>)
    requires
        texts.len() <= usize::MAX,
    ensures
        canonical_members(canonical_members(texts)) == canonical_members(texts),
{
    let k = member_keys(texts);
    let p = canonical_perm(k);
    lemma_canonical_exists(k);
    let s = permute(k, p);
    assert(member_keys(canonical_members(texts)) =~= s);
    lemma_sort_idempotent(k);
    assert(canonical_members(canonical_members(texts)) =~= canonical_members(texts));
}

/// Wherever the binding `self` is among an import group's members, it comes
/// first in the canonical order.
pub proof fn lemma_self_first(texts: Seq<Seq<char>>)
    requires
        texts.len() <= usize::MAX,
        texts.contains("self"@),
    ensures
        canonical_members(texts)[0] == "self"@,
{
    let k = member_keys(texts);
    let p = canonical_perm(k);
    lemma_canonical_exists(k);
    let i = choose|i: int| 0 <= i < texts.len() && texts[i] == "self"@;
    assert(p.contains(i as usize));
    let j = choose|j: int| 0 <= j < p.len() && p[j] == i as usize;
    if j > 0 {
        assert(before(k, p[0], p[j]));
        let x = k[p[0] as int];
        lemma_lex_irreflexive("self"@);
        if key_lt(x, k[i]) {
            assert(x.0 == 0);
            assert(x.1 == "self"@);
        }
    }
}

} // verus!
