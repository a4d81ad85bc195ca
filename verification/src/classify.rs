use vstd::prelude::*;

use crate::registry::FunctionRegistry;
use crate::registry::RegistryView;
use crate::registry::Site;
use crate::registry::SiteView;
use crate::registry::StatsView;
use crate::registry::has_name;
use crate::registry::lemma_name_index;
use crate::registry::lemma_name_index_of_first_match;
use crate::registry::lemma_record_site_wf;
use crate::registry::name_index;
use crate::registry::record_site;
use crate::registry::registry_wf;
use crate::registry::stats_of;
use crate::strutil::str_eq;
use crate::tree::SyntaxNode;
use crate::tree::run_events;

verus! {

/// The two anomaly categories the classifier reports.
#[derive(Clone, Copy, Debug, PartialEq, Eq, Structural)]
pub enum Category {
    /// The function has declaration sites but no recorded call site.
    Unused,
    /// The function has fewer than two recorded declaration sites.
    Undeclared,
}

/// One reported anomaly: the function name, the category it falls under, and
/// every declaration site recorded for the name.
#[derive(Debug, PartialEq, Eq)]
pub struct Finding {
    pub name: String,
    pub category: Category,
    pub sites: Vec<Site>,
}

/// Mathematical image of a [`Finding`].
#[verifier::ext_equal]
pub ghost struct FindingView {
    pub name: Seq<char>,
    pub category: Category,
    pub sites: Seq<SiteView>,
}

impl View for Finding {
    type V = FindingView;

    open spec fn view(&self) -> FindingView {
        FindingView {
            name: self.name@,
            category: self.category,
            sites: self.sites@.map_values(|s: Site| s@),
        }
    }
}

/// The findings one registry entry yields. The name `main` yields nothing.
/// Any other function yields an unused finding when it has no recorded call,
/// then an undeclared finding when it has fewer than two recorded
/// declarations; either finding lists every recorded declaration site.
pub open spec fn entry_findings(entry: (Seq<char>, StatsView)) -> Seq<FindingView> {
    if entry.0 == "main"@ {
        Seq::empty()
    } else {
        let unused: Seq<FindingView> = if entry.1.calls.len() == 0 {
            seq![
                FindingView {
                    name: entry.0,
                    category: Category::Unused,
                    sites: entry.1.declarations,
                },
            ]
        } else {
            Seq::empty()
        };
        let undeclared: Seq<FindingView> = if entry.1.declarations.len() < 2 {
            seq![
                FindingView {
                    name: entry.0,
                    category: Category::Undeclared,
                    sites: entry.1.declarations,
                },
            ]
        } else {
            Seq::empty()
        };
        unused + undeclared
    }
}

/// All findings of a registry: the findings of each entry, in registry order.
pub open spec fn findings_of(r: RegistryView) -> Seq<FindingView>
    decreases r.len(),
{
    if r.len() == 0 {
        Seq::empty()
    } else {
        findings_of(r.drop_last()) + entry_findings(r.last())
    }
}

/// One step along a registry: taking in one more entry appends that entry's
/// findings.
pub proof fn lemma_findings_step(r: RegistryView, j: int)
    requires
        0 <= j < r.len(),
    ensures
        findings_of(r.subrange(0, j + 1)) == findings_of(r.subrange(0, j)) + entry_findings(r[j]),
{
    assert(r.subrange(0, j + 1).drop_last() =~= r.subrange(0, j));
    assert(r.subrange(0, j + 1).last() == r[j]);
}

/// A copy of one site, field for field.
fn clone_site(site: &Site) -> (r: Site)
    ensures
        r@ == site@,
{
    Site { file: site.file.clone(), row: site.row, col: site.col }
}

/// A copy of a sequence of sites, site for site.
fn clone_sites(sites: &Vec<Site>) -> (r: Vec<Site>)
    ensures
        r@.map_values(|s: Site| s@) == sites@.map_values(|s: Site| s@),
{
    let mut r: Vec<Site> = Vec::new();
    let n: usize = sites.len();
    let mut i: usize = 0;
    while i < n
        invariant
            i <= n,
            n == sites@.len(),
            r@.len() == i,
            forall|j: int| 0 <= j < i ==> r@[j]@ == sites@[j]@,
        decreases n - i,
    {
        r.push(clone_site(&sites[i]));
        i = i + 1;
    }
    proof {
        assert(r@.map_values(|s: Site| s@) =~~= sites@.map_values(|s: Site| s@));
    }
    r
}

/// Classify every function of a finished run and return the findings, in
/// registry (first-sighting) order: for every function but `main`, an unused
/// finding when it has no recorded call, then an undeclared finding when it
/// has fewer than two recorded declarations. Each finding lists every
/// declaration site recorded for the function.
pub fn report_findings(stats: &FunctionRegistry) -> (findings: Vec<Finding>)
    ensures
        findings@.map_values(|f: Finding| f@) == findings_of(stats@),
{
    let mut findings: Vec<Finding> = Vec::new();
    let n: usize = stats.len();
    let mut i: usize = 0;
    while i < n
        invariant
            i <= n,
            n == stats@.len(),
            findings@.map_values(|f: Finding| f@) == findings_of(stats@.subrange(0, i as int)),
        decreases n - i,
    {
        let (name, st) = stats.entry_at(i);
        if !str_eq(name.as_str(), "main") {
            if st.calls.len() == 0 {
                findings.push(
                    Finding {
                        name: name.clone(),
                        category: Category::Unused,
                        sites: clone_sites(&st.declarations),
                    },
                );
            }
            if st.declarations.len() < 2 {
                findings.push(
                    Finding {
                        name: name.clone(),
                        category: Category::Undeclared,
                        sites: clone_sites(&st.declarations),
                    },
                );
            }
        }
        proof {
            lemma_findings_step(stats@, i as int);
            assert(findings@.map_values(|f: Finding| f@) =~~= findings_of(
                stats@.subrange(0, i as int),
            ) + entry_findings(stats@[i as int]));
        }
        i = i + 1;
    }
    proof {
        assert(stats@.subrange(0, n as int) =~= stats@);
    }
    findings
}

/// What a finding of one entry says of that entry: it carries the entry's
/// name, which is not `main`, it lists the entry's declaration sites, and its
/// category's condition held of the entry.
pub proof fn lemma_entry_finding_shape(entry: (Seq<char>, StatsView), f: FindingView)
    requires
        entry_findings(entry).contains(f),
    ensures
        f.name == entry.0,
        entry.0 != "main"@,
        f.sites == entry.1.declarations,
        f.category == Category::Unused ==> entry.1.calls.len() == 0,
        f.category == Category::Undeclared ==> entry.1.declarations.len() < 2,
{
    let efs = entry_findings(entry);
    let k = choose|k: int| 0 <= k < efs.len() && efs[k] == f;
    assert(efs[k] == f);
}

/// Every finding of a registry comes from one of its entries.
pub proof fn lemma_findings_from_entries(r: RegistryView)
    ensures
        forall|k: int|
            0 <= k < findings_of(r).len() ==> exists|i: int|
                0 <= i < r.len() && entry_findings(r[i]).contains(#[trigger] findings_of(r)[k]),
    decreases r.len(),
{
    if r.len() > 0 {
        lemma_findings_from_entries(r.drop_last());
        let a = findings_of(r.drop_last());
        let b = entry_findings(r.last());
        assert forall|k: int| 0 <= k < findings_of(r).len() implies exists|i: int|
            0 <= i < r.len() && entry_findings(r[i]).contains(#[trigger] findings_of(r)[k]) by {
            if k < a.len() {
                assert(findings_of(r)[k] == a[k]);
                let i = choose|i: int|
                    0 <= i < r.drop_last().len() && entry_findings(r.drop_last()[i]).contains(a[k]);
                assert(r.drop_last()[i] == r[i]);
                assert(entry_findings(r[i]).contains(findings_of(r)[k]));
            } else {
                assert(findings_of(r)[k] == b[k - a.len()]);
                assert(entry_findings(r[r.len() - 1]).contains(findings_of(r)[k]));
            }
        }
    }
}

/// `main` is excluded entirely: however often it was declared or called, no
/// finding of any registry carries that name.
pub proof fn lemma_main_never_reported(r: RegistryView)
    ensures
        forall|k: int|
            0 <= k < findings_of(r).len() ==> (#[trigger] findings_of(r)[k]).name != "main"@,
{
    lemma_findings_from_entries(r);
    assert forall|k: int|
        0 <= k < findings_of(r).len() implies (#[trigger] findings_of(r)[k]).name != "main"@ by {
        let f = findings_of(r)[k];
        let i = choose|i: int| 0 <= i < r.len() && entry_findings(r[i]).contains(f);
        lemma_entry_finding_shape(r[i], f);
    }
}

/// Every finding an entry yields stands among the registry's findings.
pub proof fn lemma_entry_findings_included(r: RegistryView, i: int, f: FindingView)
    requires
        0 <= i < r.len(),
        entry_findings(r[i]).contains(f),
    ensures
        findings_of(r).contains(f),
    decreases r.len(),
{
    let a = findings_of(r.drop_last());
    let b = entry_findings(r.last());
    if i == r.len() - 1 {
        let k = choose|k: int| 0 <= k < b.len() && b[k] == f;
        assert(findings_of(r)[a.len() + k] == f);
    } else {
        assert(r.drop_last()[i] == r[i]);
        lemma_entry_findings_included(r.drop_last(), i, f);
        let k = choose|k: int| 0 <= k < a.len() && a[k] == f;
        assert(findings_of(r)[k] == f);
    }
}

/// A function other than `main` with no recorded call is reported as unused,
/// listing exactly its recorded declaration sites.
pub proof fn lemma_unused_reported(r: RegistryView, name: Seq<char>)
    requires
        has_name(r, name),
        name != "main"@,
        stats_of(r, name).calls.len() == 0,
    ensures
        findings_of(r).contains(
            FindingView {
                name,
                category: Category::Unused,
                sites: stats_of(r, name).declarations,
            },
        ),
{
    lemma_name_index(r, name);
    let i = name_index(r, name);
    let f = FindingView { name, category: Category::Unused, sites: stats_of(r, name).declarations };
    assert(entry_findings(r[i])[0] == f);
    assert(entry_findings(r[i]).contains(f));
    lemma_entry_findings_included(r, i, f);
}

/// A function other than `main` with fewer than two recorded declarations —
/// none at all, or exactly one — is reported as undeclared, listing exactly
/// its recorded declaration sites.
pub proof fn lemma_undeclared_reported(r: RegistryView, name: Seq<char>)
    requires
        has_name(r, name),
        name != "main"@,
        stats_of(r, name).declarations.len() < 2,
    ensures
        findings_of(r).contains(
            FindingView {
                name,
                category: Category::Undeclared,
                sites: stats_of(r, name).declarations,
            },
        ),
{
    lemma_name_index(r, name);
    let i = name_index(r, name);
    let f = FindingView {
        name,
        category: Category::Undeclared,
        sites: stats_of(r, name).declarations,
    };
    if r[i].1.calls.len() == 0 {
        assert(entry_findings(r[i])[1] == f);
    } else {
        assert(entry_findings(r[i])[0] == f);
    }
    assert(entry_findings(r[i]).contains(f));
    lemma_entry_findings_included(r, i, f);
}

/// A function with a recorded call is never reported as unused.
pub proof fn lemma_called_not_unused(r: RegistryView, name: Seq<char>)
    requires
        registry_wf(r),
        has_name(r, name),
        stats_of(r, name).calls.len() > 0,
    ensures
        forall|k: int|
            0 <= k < findings_of(r).len() ==> !((#[trigger] findings_of(r)[k]).name == name
                && findings_of(r)[k].category == Category::Unused),
{
    lemma_name_index(r, name);
    lemma_findings_from_entries(r);
    assert forall|k: int|
        0 <= k < findings_of(r).len() implies !((#[trigger] findings_of(r)[k]).name == name
        && findings_of(r)[k].category == Category::Unused) by {
        let f = findings_of(r)[k];
        if f.name == name && f.category == Category::Unused {
            let i = choose|i: int| 0 <= i < r.len() && entry_findings(r[i]).contains(f);
            lemma_entry_finding_shape(r[i], f);
            let ni = name_index(r, name);
            assert(r[i].0 == name && r[ni].0 == name);
            assert(i == ni);
        }
    }
}

/// Declaring a fresh function once and then recording a call of it — the two
/// sites may lie in different files — merges both sites under one registry
/// entry, and the function is not reported as unused.
pub proof fn lemma_merge_sites(r: RegistryView, name: Seq<char>, d: SiteView, c: SiteView)
    requires
        registry_wf(r),
        !has_name(r, name),
        name != "main"@,
    ensures
        ({
            let r2 = record_site(record_site(r, name, d, true), name, c, false);
            &&& has_name(r2, name)
            &&& stats_of(r2, name) == StatsView { declarations: seq![d], calls: seq![c] }
            &&& forall|k: int|
                0 <= k < findings_of(r2).len() ==> !((#[trigger] findings_of(r2)[k]).name == name
                    && findings_of(r2)[k].category == Category::Unused)
        }),
{
    let r1 = record_site(r, name, d, true);
    let r2 = record_site(r1, name, c, false);
    let n = r.len() as int;
    assert(r1[n].0 == name);
    assert forall|j: int| 0 <= j < n implies r1[j].0 != name by {
        assert(r1[j] == r[j]);
    }
    lemma_name_index_of_first_match(r1, name, n);
    assert(r2[n].0 == name);
    assert forall|j: int| 0 <= j < n implies r2[j].0 != name by {
        assert(r2[j] == r1[j]);
    }
    lemma_name_index_of_first_match(r2, name, n);
    assert(stats_of(r2, name) =~~= StatsView { declarations: seq![d], calls: seq![c] });
    lemma_record_site_wf(r, name, d, true);
    lemma_record_site_wf(r1, name, c, false);
    lemma_called_not_unused(r2, name);
}

/// Analysing the same input set twice yields identical results: the registry a
/// run accumulates, and the findings drawn from it, are functions of the input
/// files alone, so two runs over the same unchanged inputs agree.
pub proof fn lemma_run_deterministic(
    files: Seq<(Seq<char>, SyntaxNode)>,
    r1: RegistryView,
    r2: RegistryView,
)
    requires
        r1 == run_events(Seq::<(Seq<char>, StatsView)>::empty(), files),
        r2 == run_events(Seq::<(Seq<char>, StatsView)>::empty(), files),
    ensures
        r1 == r2,
        findings_of(r1) == findings_of(r2),
{
}

} // verus!
