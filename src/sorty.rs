//! The checker itself: one call per module, giving the warnings for the
//! groups that are out of order.
use crate::attrs::MalformedMeta;
use crate::check::{check_result, check_sort, opt_diag_view, Diagnostic, DiagnosticView, Severity};
use crate::classify::{classify, group_records, module_malformed, Item, Module};
use vstd::prelude::*;

verus! {

/// The checker for unsorted declarations. It holds no state: each module is
/// checked on its own.
pub struct Sorty;

/// A lint this checker raises.
pub struct Lint {
    pub name: String,
    pub default_level: Severity,
    pub description: String,
}

pub open spec fn opt_seq(o: Option<DiagnosticView>) -> Seq<DiagnosticView> {
    match o {
        Some(d) => seq![d],
        None => Seq::empty(),
    }
}

pub open spec fn diags_view(v: Seq<Diagnostic>) -> Seq<DiagnosticView> {
    v.map_values(|d: Diagnostic| d@)
}

/// The warnings owed for a module: those of the external crates, of the
/// out-of-line sub-modules and of the imports, in that order, each group
/// checked on its own.
pub open spec fn module_result(items: Seq<Item>, ds: Seq<DiagnosticView>) -> bool {
    exists|a: Option<DiagnosticView>, b: Option<DiagnosticView>, c: Option<DiagnosticView>|
        {
            &&& check_result(group_records(items, 0), "crate declarations"@, ""@, a)
            &&& check_result(
                group_records(items, 1),
                "module declarations (other than inline modules)"@,
                "mod"@,
                b,
            )
            &&& check_result(group_records(items, 2), "use statements"@, "use"@, c)
            &&& ds == opt_seq(a) + opt_seq(b) + opt_seq(c)
        }
}

fn push_diag(ds: &mut Vec<Diagnostic>, d: Option<Diagnostic>)
    ensures
        diags_view(final(ds)@) == diags_view(old(ds)@) + opt_seq(opt_diag_view(d)),
{
    match d {
        Some(d) => {
            let ghost dv = d@;
            ds.push(d);
            assert(diags_view(final(ds)@) =~= diags_view(old(ds)@) + seq![dv]);
        },
        None => {
            assert(diags_view(old(ds)@) + opt_seq(None) =~= diags_view(old(ds)@));
        },
    }
}

impl Sorty {
    /// The one lint of this checker; it warns by default.
    pub fn get_lints(&self) -> (r: Vec<Lint>)
        ensures
            r@.len() == 1,
            r@[0].name@ == "unsorted_declarations"@,
            r@[0].default_level == Severity::Warning,
            r@[0].description@
                == "Warn when the declarations of crates or modules are not in alphabetical order"@,
    {
        let lint = Lint {
            name: String::from_str("unsorted_declarations"),
            default_level: Severity::Warning,
            description: String::from_str(
                "Warn when the declarations of crates or modules are not in alphabetical order",
            ),
        };
        vec![lint]
    }

    /// Checks a module: the warnings for its groups that are out of order, or
    /// an error where an attribute that would be rendered is malformed.
    pub fn check_mod(&self, module: &Module) -> (r: Result<Vec<Diagnostic>, MalformedMeta>)
        ensures
            match r {
                Ok(ds) => !module_malformed(module.items@) && module_result(module.items@, diags_view(ds@)),
                Err(_) => module_malformed(module.items@),
            },
    {
        let groups = match classify(module) {
            Ok(g) => g,
            Err(e) => {
                return Err(e);
            },
        };
        let a = check_sort(&groups.extern_crates, "crate declarations", "");
        let b = check_sort(&groups.mods, "module declarations (other than inline modules)", "mod");
        let c = check_sort(&groups.uses, "use statements", "use");
        let ghost (av, bv, cv) = (opt_diag_view(a), opt_diag_view(b), opt_diag_view(c));
        let mut ds: Vec<Diagnostic> = Vec::new();
        push_diag(&mut ds, a);
        push_diag(&mut ds, b);
        push_diag(&mut ds, c);
        assert(diags_view(ds@) =~= opt_seq(av) + opt_seq(bv) + opt_seq(cv));
        Ok(ds)
    }
}

} // verus!
