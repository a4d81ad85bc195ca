use vstd::prelude::*;

use crate::strutil::str_eq;

verus! {

/// One textual occurrence of a function name: the file it stands in and the
/// zero-based row and column where the occurrence starts.
#[derive(Clone, Debug, PartialEq, Eq)]
pub struct Site {
    pub file: String,
    pub row: usize,
    pub col: usize,
}

/// Mathematical image of a [`Site`].
#[verifier::ext_equal]
pub ghost struct SiteView {
    pub file: Seq<char>,
    pub row: nat,
    pub col: nat,
}

impl View for Site {
    type V = SiteView;

    open spec fn view(&self) -> SiteView {
        SiteView { file: self.file@, row: self.row as nat, col: self.col as nat }
    }
}

/// The sites accumulated for one function name: every place the name stood as
/// the declarator of a function declaration or definition, and every place it
/// stood as the callee of a call expression.
#[derive(Clone, Debug, PartialEq, Eq)]
pub struct FunctionStats {
    pub declarations: Vec<Site>,
    pub calls: Vec<Site>,
}

/// Mathematical image of a [`FunctionStats`].
#[verifier::ext_equal]
pub ghost struct StatsView {
    pub declarations: Seq<SiteView>,
    pub calls: Seq<SiteView>,
}

impl View for FunctionStats {
    type V = StatsView;

    open spec fn view(&self) -> StatsView {
        StatsView {
            declarations: self.declarations@.map_values(|s: Site| s@),
            calls: self.calls@.map_values(|s: Site| s@),
        }
    }
}

/// The registry of one analysis run, viewed abstractly: one entry per function
/// name, in first-sighting order.
pub type RegistryView = Seq<(Seq<char>, StatsView)>;

/// Does some entry of `r` carry the name `name`?
pub open spec fn has_name(r: RegistryView, name: Seq<char>) -> bool {
    exists|i: int| 0 <= i < r.len() && r[i].0 == name
}

/// Index of the first entry of `r` carrying `name`; meaningful only when
/// `has_name(r, name)` holds.
pub open spec fn name_index(r: RegistryView, name: Seq<char>) -> int
    decreases r.len(),
{
    if r.len() == 0 {
        0
    } else if r[0].0 == name {
        0
    } else {
        1 + name_index(r.drop_first(), name)
    }
}

/// The stats recorded under `name`; meaningful only when `has_name(r, name)`
/// holds.
pub open spec fn stats_of(r: RegistryView, name: Seq<char>) -> StatsView {
    r[name_index(r, name)].1
}

/// Stats with no site recorded yet.
pub open spec fn empty_stats() -> StatsView {
    StatsView { declarations: Seq::empty(), calls: Seq::empty() }
}

/// `stats` extended by one more site, in declaration or in call position.
pub open spec fn stats_plus_site(stats: StatsView, site: SiteView, is_decl: bool) -> StatsView {
    if is_decl {
        StatsView { declarations: stats.declarations.push(site), calls: stats.calls }
    } else {
        StatsView { declarations: stats.declarations, calls: stats.calls.push(site) }
    }
}

/// The registry after one site is recorded: the entry already carrying the
/// name is extended, or a fresh entry is appended when the name is unseen.
pub open spec fn record_site(
    r: RegistryView,
    name: Seq<char>,
    site: SiteView,
    is_decl: bool,
) -> RegistryView {
    if has_name(r, name) {
        let i = name_index(r, name);
        r.update(i, (name, stats_plus_site(r[i].1, site, is_decl)))
    } else {
        r.push((name, stats_plus_site(empty_stats(), site, is_decl)))
    }
}

/// Well-formedness of a registry: no name keys two entries, and every entry
/// carries at least one site.
pub open spec fn registry_wf(r: RegistryView) -> bool {
    &&& forall|i: int, j: int|
        #![trigger r[i].0, r[j].0]
        0 <= i < j < r.len() ==> r[i].0 != r[j].0
    &&& forall|i: int|
        0 <= i < r.len() ==> #[trigger] r[i].1.declarations.len() + r[i].1.calls.len() >= 1
}

/// `name_index` finds the first entry carrying the name.
pub proof fn lemma_name_index(r: RegistryView, name: Seq<char>)
    requires
        has_name(r, name),
    ensures
        0 <= name_index(r, name) < r.len(),
        r[name_index(r, name)].0 == name,
        forall|j: int| 0 <= j < name_index(r, name) ==> r[j].0 != name,
    decreases r.len(),
{
    if r.len() == 0 {
    } else if r[0].0 == name {
    } else {
        assert(has_name(r.drop_first(), name)) by {
            let i = choose|i: int| 0 <= i < r.len() && r[i].0 == name;
            assert(r.drop_first()[i - 1] == r[i]);
        }
        lemma_name_index(r.drop_first(), name);
        assert forall|j: int| 0 <= j < name_index(r, name) implies r[j].0 != name by {
            if j > 0 {
                assert(r.drop_first()[j - 1] == r[j]);
            }
        }
    }
}

/// A position whose prefix is free of the name is exactly `name_index`.
pub proof fn lemma_name_index_of_first_match(r: RegistryView, name: Seq<char>, i: int)
    requires
        0 <= i < r.len(),
        r[i].0 == name,
        forall|j: int| 0 <= j < i ==> r[j].0 != name,
    ensures
        has_name(r, name),
        name_index(r, name) == i,
    decreases r.len(),
{
    if i == 0 {
    } else {
        assert forall|j: int| 0 <= j < i - 1 implies r.drop_first()[j].0 != name by {
            assert(r.drop_first()[j] == r[j + 1]);
        }
        assert(r.drop_first()[i - 1] == r[i]);
        lemma_name_index_of_first_match(r.drop_first(), name, i - 1);
    }
}

/// Recording a site keeps the registry well-formed.
pub proof fn lemma_record_site_wf(r: RegistryView, name: Seq<char>, site: SiteView, is_decl: bool)
    requires
        registry_wf(r),
    ensures
        registry_wf(record_site(r, name, site, is_decl)),
{
    let r2 = record_site(r, name, site, is_decl);
    if has_name(r, name) {
        lemma_name_index(r, name);
    }
    assert forall|i: int|
        0 <= i < r2.len() implies #[trigger] r2[i].1.declarations.len() + r2[i].1.calls.len()
        >= 1 by {
        if i < r.len() && r2[i].1 != r[i].1 {
        }
    }
}

/// All function names seen in one analysis run, mapped to the declaration and
/// call sites accumulated for them. Entries stand in first-sighting order and
/// no name keys two entries.
#[derive(Clone, Debug, PartialEq, Eq)]
pub struct FunctionRegistry {
    entries: Vec<(String, FunctionStats)>,
}

impl View for FunctionRegistry {
    type V = RegistryView;

    closed spec fn view(&self) -> RegistryView {
        self.entries@.map_values(|e: (String, FunctionStats)| (e.0@, e.1@))
    }
}

impl FunctionRegistry {
    /// Invariant maintained by every operation of the registry.
    pub open spec fn wf(&self) -> bool {
        registry_wf(self@)
    }

    /// The empty registry: the state at the start of a run.
    pub fn new() -> (r: FunctionRegistry)
        ensures
            r@ == Seq::<(Seq<char>, StatsView)>::empty(),
            r.wf(),
    {
        let r = FunctionRegistry { entries: Vec::new() };
        proof {
            assert(r@ =~= Seq::<(Seq<char>, StatsView)>::empty());
        }
        r
    }

    /// How many distinct function names have been seen.
    pub fn len(&self) -> (n: usize)
        ensures
            n == self@.len(),
    {
        self.entries.len()
    }

    /// Index of the entry carrying `name`, if one does.
    fn find_entry(&self, name: &str) -> (idx: Option<usize>)
        ensures
            match idx {
                Some(i) => has_name(self@, name@) && i == name_index(self@, name@),
                None => !has_name(self@, name@),
            },
    {
        let n: usize = self.entries.len();
        let mut i: usize = 0;
        while i < n
            invariant
                i <= n,
                n == self@.len(),
                n == self.entries@.len(),
                forall|j: int| 0 <= j < i ==> self@[j].0 != name@,
            decreases n - i,
        {
            if str_eq(self.entries[i].0.as_str(), name) {
                proof {
                    lemma_name_index_of_first_match(self@, name@, i as int);
                }
                return Some(i);
            }
            i = i + 1;
        }
        None
    }

    /// Record one site for `name`, as a declaration when `is_decl` holds and
    /// as a call otherwise.
    fn record(&mut self, name: &str, site: Site, is_decl: bool)
        requires
            old(self).wf(),
        ensures
            final(self)@ == record_site(old(self)@, name@, site@, is_decl),
            final(self).wf(),
    {
        proof {
            lemma_record_site_wf(self@, name@, site@, is_decl);
        }
        match self.find_entry(name) {
            Some(i) => {
                proof {
                    lemma_name_index(self@, name@);
                }
                if is_decl {
                    self.entries[i].1.declarations.push(site);
                } else {
                    self.entries[i].1.calls.push(site);
                }
                proof {
                    assert(self@ =~~= record_site(old(self)@, name@, site@, is_decl));
                }
            },
            None => {
                let mut decls: Vec<Site> = Vec::new();
                let mut calls: Vec<Site> = Vec::new();
                if is_decl {
                    decls.push(site);
                } else {
                    calls.push(site);
                }
                self.entries.push(
                    (name.to_owned(), FunctionStats { declarations: decls, calls }),
                );
                proof {
                    assert(self@ =~~= record_site(old(self)@, name@, site@, is_decl));
                }
            },
        }
    }

    /// Record that `name` stood as the declarator of a function declaration or
    /// definition at `site`.
    pub fn record_declaration(&mut self, name: &str, site: Site)
        requires
            old(self).wf(),
        ensures
            final(self)@ == record_site(old(self)@, name@, site@, true),
            final(self).wf(),
    {
        self.record(name, site, true);
    }

    /// Record that `name` stood as the callee of a call expression at `site`.
    pub fn record_call(&mut self, name: &str, site: Site)
        requires
            old(self).wf(),
        ensures
            final(self)@ == record_site(old(self)@, name@, site@, false),
            final(self).wf(),
    {
        self.record(name, site, false);
    }

    /// The entry at position `i`, in first-sighting order.
    pub fn entry_at(&self, i: usize) -> (entry: (&String, &FunctionStats))
        requires
            i < self@.len(),
        ensures
            entry.0@ == self@[i as int].0,
            entry.1@ == self@[i as int].1,
    {
        proof {
            assert(self@.len() == self.entries@.len());
            assert(self@[i as int] == (self.entries@[i as int].0@, self.entries@[i as int].1@));
        }
        let e = &self.entries[i];
        (&e.0, &e.1)
    }

    /// The stats accumulated for `name`, if the name has been seen.
    pub fn lookup(&self, name: &str) -> (res: Option<&FunctionStats>)
        ensures
            match res {
                Some(stats) => has_name(self@, name@) && stats@ == stats_of(self@, name@),
                None => !has_name(self@, name@),
            },
    {
        match self.find_entry(name) {
            Some(i) => {
                proof {
                    assert(self@.len() == self.entries@.len());
                    lemma_name_index(self@, name@);
                    assert(self@[i as int].1 == self.entries@[i as int].1@);
                }
                Some(&self.entries[i].1)
            },
            None => None,
        }
    }
}

} // verus!
