//! The order check of one group of declarations, and the warning with its
//! suggested reordering.
use crate::order::{
    before, canonical_order, canonical_perm, identity, key_lt, keys_view,
    lemma_canonical_exists, lemma_canonical_unique, lemma_identity_canonical, permute, SortKey,
};
use crate::text::{compare, ends_with, has_prefix, has_suffix, join, join_strs, starts_with, strs_view};
use vstd::prelude::*;

verus! {

/// A source range; `file` tells which file it lies in.
#[derive(Clone, Copy, Debug, PartialEq, Eq, Structural)]
pub struct Span {
    pub file: u64,
    pub lo: u64,
    pub hi: u64,
}

/// One declaration of a group, as the order check sees it.
pub struct DeclarationRecord {
    /// What the declaration is compared by and rendered with.
    pub display_name: String,
    /// Normalized attributes (and keyword text) written before it.
    pub attribute_prefix: String,
    pub span: Span,
    /// Its own content (an import group) is out of order.
    pub force_warn: bool,
}

pub struct RecordView {
    pub name: Seq<char>,
    pub prefix: Seq<char>,
    pub span: Span,
    pub force_warn: bool,
}

impl View for DeclarationRecord {
    type V = RecordView;

    open spec fn view(&self) -> RecordView {
        RecordView {
            name: self.display_name@,
            prefix: self.attribute_prefix@,
            span: self.span,
            force_warn: self.force_warn,
        }
    }
}

pub open spec fn records_view(v: Seq<DeclarationRecord>) -> Seq<RecordView> {
    v.map_values(|r: DeclarationRecord| r@)
}

#[derive(Clone, Copy, Debug, PartialEq, Eq, Structural)]
pub enum Severity {
    Warning,
}

/// A warning on a group that is out of order.
pub struct Diagnostic {
    pub severity: Severity,
    pub span: Span,
    pub message: String,
    pub suggestion: String,
}

pub struct DiagnosticView {
    pub severity: Severity,
    pub span: Span,
    pub message: Seq<char>,
    pub suggestion: Seq<char>,
}

impl View for Diagnostic {
    type V = DiagnosticView;

    open spec fn view(&self) -> DiagnosticView {
        DiagnosticView {
            severity: self.severity,
            span: self.span,
            message: self.message@,
            suggestion: self.suggestion@,
        }
    }
}

/// Rank of a declaration: the macro-import attribute moves it to the front,
/// public visibility to the back (macro-import first).
pub open spec fn record_rank(r: RecordView) -> u8 {
    ((if starts_with(r.prefix, "#[macro_use]"@) {
        0u8
    } else {
        2u8
    }) + (if ends_with(r.prefix, "pub "@) {
        1u8
    } else {
        0u8
    })) as u8
}

pub open spec fn record_keys(recs: Seq<RecordView>) -> Seq<(u8, Seq<char>)> {
    recs.map_values(|r: RecordView| (record_rank(r), r.name))
}

/// The group in canonical order: by rank, then name, then position.
pub open spec fn canonical_records(recs: Seq<RecordView>) -> Seq<RecordView> {
    permute(recs, canonical_perm(record_keys(recs)))
}

/// At position `i` the group differs from its canonical order, or the
/// declaration there has content out of order.
pub open spec fn diverges_at(recs: Seq<RecordView>, i: int) -> bool {
    let c = canonical_records(recs);
    recs[i].name != c[i].name || c[i].force_warn
}

pub open spec fn is_first_divergence(recs: Seq<RecordView>, i: int) -> bool {
    &&& 0 <= i < recs.len()
    &&& diverges_at(recs, i)
    &&& forall|j: int| 0 <= j < i ==> !diverges_at(recs, j)
}

/// How a declaration is written in the suggestion.
pub open spec fn suggestion_line(r: RecordView, keyword: Seq<char>) -> Seq<char> {
    r.prefix + keyword + " "@ + r.name + ";"@
}

/// The warning for a group whose first divergence is at `i`: it covers the
/// group from there to its end and suggests the canonical tail.
pub open spec fn diagnostic_at(
    recs: Seq<RecordView>,
    i: int,
    kind: Seq<char>,
    keyword: Seq<char>,
) -> DiagnosticView {
    let c = canonical_records(recs);
    let lines = Seq::new((recs.len() - i) as nat, |k: int| suggestion_line(c[i + k], keyword));
    DiagnosticView {
        severity: Severity::Warning,
        span: Span { file: recs[i].span.file, lo: recs[i].span.lo, hi: recs.last().span.hi },
        message: kind + " should be in alphabetical order!"@,
        suggestion: "Try this...\n\n"@ + join(lines, "\n"@) + "\n"@,
    }
}

/// What the order check owes for a group: no warning where nothing
/// diverges, else the warning at the first divergence.
pub open spec fn check_result(
    recs: Seq<RecordView>,
    kind: Seq<char>,
    keyword: Seq<char>,
    r: Option<DiagnosticView>,
) -> bool {
    match r {
        Some(d) => exists|i: int| is_first_divergence(recs, i) && d == diagnostic_at(recs, i, kind, keyword),
        None => forall|i: int| 0 <= i < recs.len() ==> !diverges_at(recs, i),
    }
}

pub open spec fn opt_diag_view(o: Option<Diagnostic>) -> Option<DiagnosticView> {
    match o {
        Some(d) => Some(d@),
        None => None,
    }
}

fn rank_of(prefix: &String) -> (r: u8)
    ensures
        r == record_rank(RecordView { name: Seq::empty(), prefix: prefix@, span: Span { file: 0, lo: 0, hi: 0 }, force_warn: false }),
{
    let front: u8 = if has_prefix(prefix.as_str(), "#[macro_use]") {
        0
    } else {
        2
    };
    let back: u8 = if has_suffix(prefix.as_str(), "pub ") {
        1
    } else {
        0
    };
    front + back
}

/// Checks one group: finds the first position where it differs from its
/// canonical order and, if there is one, builds the warning there.
pub fn check_sort(recs: &Vec<DeclarationRecord>, kind: &str, keyword: &str) -> (r: Option<Diagnostic>)
    ensures
        check_result(records_view(recs@), kind@, keyword@, opt_diag_view(r)),
{
    let ghost rv = records_view(recs@);
    let n = recs.len();
    let mut keys: Vec<SortKey> = Vec::new();
    let mut i: usize = 0;
    while i < n
        invariant
            n == recs.len(),
            rv == records_view(recs@),
            i <= n,
            keys_view(keys@) == record_keys(rv.take(i as int)),
        decreases n - i,
    {
        let rank = rank_of(&recs[i].attribute_prefix);
        let ghost pk = keys@;
        keys.push(SortKey { rank, text: recs[i].display_name.clone() });
        assert(keys_view(keys@) =~= keys_view(pk).push((rank, recs@[i as int].display_name@)));
        assert(record_keys(rv.take(i + 1)) =~= record_keys(rv.take(i as int)).push(
            (rank, recs@[i as int].display_name@),
        ));
        i = i + 1;
    }
    assert(rv.take(i as int) =~= rv);
    let p = canonical_order(&keys);
    let ghost c = canonical_records(rv);
    let mut i: usize = 0;
    while i < n
        invariant
            n == recs.len(),
            rv == records_view(recs@),
            c == canonical_records(rv),
            p@ == canonical_perm(record_keys(rv)),
            p@.len() == n,
            forall|k: int| 0 <= k < n ==> p@[k] < n,
            i <= n,
            forall|j: int| 0 <= j < i ==> !diverges_at(rv, j),
        decreases n - i,
    {
        let canon = &recs[p[i]];
        assert(c[i as int] == rv[p@[i as int] as int]);
        assert(rv[i as int] == recs@[i as int]@);
        if compare(recs[i].display_name.as_str(), canon.display_name.as_str()) != 0 || canon.force_warn {
            let d = build_diagnostic(recs, &p, i, kind, keyword);
            assert(rv[i as int] == recs@[i as int]@);
            assert(c[i as int] == recs@[p@[i as int] as int]@);
            assert(is_first_divergence(rv, i as int));
            return Some(d);
        }
        i = i + 1;
    }
    None
}

fn build_diagnostic(recs: &Vec<DeclarationRecord>, p: &Vec<usize>, i: usize, kind: &str, keyword: &str) -> (d: Diagnostic)
    requires
        i < recs.len(),
        p@ == canonical_perm(record_keys(records_view(recs@))),
        p@.len() == recs.len(),
        forall|k: int| 0 <= k < recs.len() ==> p@[k] < recs.len(),
    ensures
        d@ == diagnostic_at(records_view(recs@), i as int, kind@, keyword@),
{
    let ghost rv = records_view(recs@);
    let ghost c = canonical_records(rv);
    let n = recs.len();
    let ghost want = Seq::new((rv.len() - i) as nat, |k: int| suggestion_line(c[i + k], keyword@));
    let mut lines: Vec<String> = Vec::new();
    let mut k: usize = i;
    while k < n
        invariant
            n == recs.len(),
            rv == records_view(recs@),
            c == canonical_records(rv),
            p@ == canonical_perm(record_keys(rv)),
            p@.len() == n,
            forall|j: int| 0 <= j < n ==> p@[j] < n,
            i <= k <= n,
            want == Seq::new((rv.len() - i) as nat, |j: int| suggestion_line(c[i + j], keyword@)),
            strs_view(lines@) == want.take(k - i),
        decreases n - k,
    {
        let r = &recs[p[k]];
        assert(c[k as int] == rv[p@[k as int] as int]);
        let mut line = r.attribute_prefix.clone();
        line.append(keyword);
        line.append(" ");
        line.append(r.display_name.as_str());
        line.append(";");
        let ghost prev = lines@;
        lines.push(line);
        assert(strs_view(lines@) =~= strs_view(prev).push(line@));
        assert(want.take(k + 1 - i) =~= want.take(k - i).push(line@));
        k = k + 1;
    }
    assert(want.take(k - i) =~= want);
    let body = join_strs(&lines, "\n");
    let mut suggestion = String::from_str("Try this...\n\n");
    suggestion.append(body.as_str());
    suggestion.append("\n");
    let mut message = String::from_str(kind);
    message.append(" should be in alphabetical order!");
    let span = Span { file: recs[i].span.file, lo: recs[i].span.lo, hi: recs[n - 1].span.hi };
    Diagnostic { severity: Severity::Warning, span, message, suggestion }
}

/// A group already in canonical order, none of whose declarations has
/// content out of order, gets no warning.
pub proof fn lemma_canonical_group_no_warning(recs: Seq<RecordView>, kind: Seq<char>, keyword: Seq<char>)
    requires
        recs.len() <= usize::MAX,
        forall|a: int, b: int|
            0 <= a < b < recs.len() ==> !key_lt(#[trigger] record_keys(recs)[b], #[trigger] record_keys(recs)[a]),
        forall|i: int| 0 <= i < recs.len() ==> !(#[trigger] recs[i].force_warn),
    ensures
        forall|i: int| 0 <= i < recs.len() ==> !diverges_at(recs, i),
        forall|r: Option<DiagnosticView>| check_result(recs, kind, keyword, r) ==> r is None,
{
    let k = record_keys(recs);
    lemma_identity_canonical(k);
    lemma_canonical_exists(k);
    lemma_canonical_unique(k, canonical_perm(k), identity(k.len()));
    assert(canonical_records(recs) =~= recs);
}

/// A group that diverges anywhere gets exactly one warning: the one at its
/// first divergence, which is unique.
pub proof fn lemma_one_warning_at_first_divergence(
    recs: Seq<RecordView>,
    kind: Seq<char>,
    keyword: Seq<char>,
    r: Option<DiagnosticView>,
    i: int,
)
    requires
        check_result(recs, kind, keyword, r),
        0 <= i < recs.len(),
        diverges_at(recs, i),
    ensures
        r is Some,
        exists|f: int| is_first_divergence(recs, f) && f <= i && r->0 == diagnostic_at(recs, f, kind, keyword),
        forall|f: int, g: int| is_first_divergence(recs, f) && is_first_divergence(recs, g) ==> f == g,
{
    assert forall|f: int, g: int| is_first_divergence(recs, f) && is_first_divergence(recs, g) implies f == g by {
        if f < g {
            assert(!diverges_at(recs, f));
        }
        if g < f {
            assert(!diverges_at(recs, g));
        }
    }
    if r is Some {
        let f = choose|f: int| is_first_divergence(recs, f) && r->0 == diagnostic_at(recs, f, kind, keyword);
        if f > i {
            assert(!diverges_at(recs, i));
        }
    }
}

proof fn lemma_rank_order(recs: Seq<RecordView>, a: int, b: int)
    requires
        recs.len() <= usize::MAX,
        0 <= a < b < recs.len(),
    ensures
        record_rank(canonical_records(recs)[a]) <= record_rank(canonical_records(recs)[b]),
{
    let k = record_keys(recs);
    lemma_canonical_exists(k);
    let p = canonical_perm(k);
    assert(before(k, p[a], p[b]));
}

/// A declaration with the macro-import attribute comes, in canonical order,
/// before every sibling without it, whatever their names.
pub proof fn lemma_macro_import_first(recs: Seq<RecordView>, a: int, b: int)
    requires
        recs.len() <= usize::MAX,
        0 <= a < recs.len(),
        0 <= b < recs.len(),
        starts_with(canonical_records(recs)[a].prefix, "#[macro_use]"@),
        !starts_with(canonical_records(recs)[b].prefix, "#[macro_use]"@),
    ensures
        a < b,
{
    if b <= a {
        if b < a {
            lemma_rank_order(recs, b, a);
        }
    }
}

/// Among siblings alike in the macro-import attribute, a public declaration
/// comes after a private one in canonical order; in particular after a
/// private one of the same name.
pub proof fn lemma_public_after_private(recs: Seq<RecordView>, a: int, b: int)
    requires
        recs.len() <= usize::MAX,
        0 <= a < recs.len(),
        0 <= b < recs.len(),
        starts_with(canonical_records(recs)[a].prefix, "#[macro_use]"@) == starts_with(
            canonical_records(recs)[b].prefix,
            "#[macro_use]"@,
        ),
        ends_with(canonical_records(recs)[a].prefix, "pub "@),
        !ends_with(canonical_records(recs)[b].prefix, "pub "@),
    ensures
        b < a,
{
    if a <= b {
        if a < b {
            lemma_rank_order(recs, a, b);
        }
    }
}

} // verus!
