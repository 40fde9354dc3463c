//! Decisions on the records of installed packages: who depends on whom,
//! what a removal or an upgrade changes in them.
use vstd::prelude::*;
use crate::depend::{specific_views, DepVerView, Specific, SpecificView, SpecificVec};
use crate::errors::{ParseError, ParseErrorView};
use crate::depend::depver_views;
use crate::metadata::{InstalledInstallKindView, InstalledMetaData, InstalledMetaDataView};
use crate::queue::{no_dups, QueuedChanges, QueuedChangesView};
use crate::text::string_views;
use crate::version::{version_parse_spec, version_text, Version, VersionView};

verus! {

// ---------------------------------------------------------------------------
// Recording a dependent
// ---------------------------------------------------------------------------

/// `s` recorded among `v`: the first entry of the same name takes its
/// version; without one, `s` is added at the end.
pub open spec fn set_named(v: Seq<SpecificView>, s: SpecificView) -> Seq<SpecificView> {
    if exists|k: int| 0 <= k < v.len() && (#[trigger] v[k]).name == s.name {
        v.update(first_named(v, s.name), s)
    } else {
        v.push(s)
    }
}

/// Recording a dependent leaves it recorded, changes only the first entry
/// of its name (if any), and grows the list by at most one.
pub proof fn lemma_set_named(v: Seq<SpecificView>, s: SpecificView)
    ensures
        set_named(v, s).contains(s),
        set_named(v, s).len() == v.len() || set_named(v, s).len() == v.len() + 1,
        forall|i: int| 0 <= i < v.len() && (#[trigger] v[i]).name != s.name ==> set_named(v, s)[i] == v[i],
{
    lemma_first_named(v, s.name);
    if exists|k: int| 0 <= k < v.len() && (#[trigger] v[k]).name == s.name {
        let k = choose|k: int| 0 <= k < v.len() && (#[trigger] v[k]).name == s.name;
        assert(first_named(v, s.name) <= k);
        assert(set_named(v, s)[first_named(v, s.name)] == s);
    } else {
        assert(set_named(v, s)[v.len() as int] == s);
    }
}

/// The index of the first entry named `n` (the length when there is none).
pub open spec fn first_named(v: Seq<SpecificView>, n: Seq<char>) -> int
    decreases v.len(),
{
    if v.len() == 0 {
        0
    } else if v[0].name == n {
        0
    } else {
        1 + first_named(v.drop_first(), n)
    }
}

pub proof fn lemma_first_named(v: Seq<SpecificView>, n: Seq<char>)
    ensures
        0 <= first_named(v, n) <= v.len(),
        forall|j: int| 0 <= j < first_named(v, n) ==> (#[trigger] v[j]).name != n,
        first_named(v, n) < v.len() ==> v[first_named(v, n)].name == n,
        first_named(v, n) == v.len() ==> forall|j: int| 0 <= j < v.len() ==> (#[trigger] v[j]).name != n,
    decreases v.len(),
{
    if v.len() > 0 && v[0].name != n {
        lemma_first_named(v.drop_first(), n);
        assert forall|j: int| 1 <= j < v.len() implies v[j] == v.drop_first()[j - 1] by {}
    }
}

/// The index of the first entry of `v` named `n`, or `v.len()`.
fn first_named_exec(v: &Vec<Specific>, n: &String) -> (k: usize)
    ensures
        k == first_named(specific_views(v@), n@),
{
    proof {
        lemma_first_named(specific_views(v@), n@);
    }
    let mut i: usize = 0;
    while i < v.len()
        invariant
            i <= v.len(),
            i <= first_named(specific_views(v@), n@),
            0 <= first_named(specific_views(v@), n@) <= v@.len(),
            forall|j: int|
                0 <= j < first_named(specific_views(v@), n@) ==> (#[trigger] specific_views(
                    v@,
                )[j]).name != n@,
            first_named(specific_views(v@), n@) < v@.len() ==> specific_views(v@)[first_named(
                specific_views(v@),
                n@,
            )].name == n@,
        decreases v.len() - i,
    {
        assert(specific_views(v@)[i as int] == v@[i as int]@);
        if v[i].name == *n {
            return i;
        }
        i += 1;
    }
    i
}

/// Records `s` among `v` (see [`set_named`]).
pub fn set_dependent(v: &mut Vec<Specific>, s: Specific)
    ensures
        specific_views(final(v)@) == set_named(specific_views(old(v)@), s@),
{
    let ghost old_v = specific_views(v@);
    proof {
        lemma_first_named(old_v, s@.name);
    }
    let k = first_named_exec(v, &s.name);
    if k < v.len() {
        let ghost sv = s@;
        v.set(k, s);
        assert(specific_views(v@) =~= old_v.update(k as int, sv));
        assert(old_v[k as int].name == sv.name);
    } else {
        let ghost sv = s@;
        v.push(s);
        assert(specific_views(v@) =~= old_v.push(sv));
        assert(!(exists|j: int| 0 <= j < old_v.len() && (#[trigger] old_v[j]).name == sv.name));
    }
}

/// What recording `their` as a dependent of `data` gives, when `data` is
/// installed at `version`: `None` when it is installed at another version;
/// else the new list of dependents: an entry of that name takes the
/// version, and `their` is added only when it is installed at that exact
/// version (`their_installed`).
pub open spec fn dependent_update(
    data: InstalledMetaDataView,
    version: VersionView,
    their: SpecificView,
    their_ver: Seq<char>,
    their_installed: Option<Seq<char>>,
) -> Option<Seq<SpecificView>> {
    if data.version != version_text(version) {
        None
    } else if exists|k: int|
        0 <= k < data.dependents.len() && (#[trigger] data.dependents[k]).name == their.name {
        Some(set_named(data.dependents, their))
    } else if !data.dependents.contains(their) && their_installed == Some(their_ver) {
        Some(data.dependents.push(their))
    } else {
        Some(data.dependents)
    }
}

impl Specific {
    /// Records the package `their_name` at `their_ver` as a dependent of this
    /// package, whose installed record is `data`; `their_installed` is the
    /// version recorded for `their_name` (if it is installed). Gives the
    /// dependents to store (see [`dependent_update`]), or the error of
    /// reading `their_ver` when the record is at this version.
    pub fn write_dependent(
        &self,
        data: &InstalledMetaData,
        their_name: &str,
        their_ver: &str,
        their_installed: Option<&str>,
    ) -> (r: Result<Option<SpecificVec>, ParseError>)
        ensures
            match r {
                Ok(None) => data@.version != version_text(self@.version),
                Ok(Some(d)) => data@.version == version_text(self@.version) && match version_parse_spec(
                    their_ver@,
                ) {
                    Ok(v) => Some(d@) == dependent_update(
                        data@,
                        self@.version,
                        SpecificView { name: their_name@, version: v },
                        their_ver@,
                        opt_str_view(their_installed),
                    ),
                    Err(_) => false,
                },
                Err(e) => data@.version == version_text(self@.version) && version_parse_spec(
                    their_ver@,
                ) == Err::<VersionView, ParseErrorView>(e@),
            },
    {
        let vt = self.version.to_string();
        if data.version != vt {
            return Ok(None);
        }
        let version = Version::parse(their_ver)?;
        let their = Specific { name: their_name.to_owned(), version };
        let mut deps = clone_specifics(&data.dependents.0);
        let ghost dv = data@.dependents;
        let k = first_named_exec(&deps, &their.name);
        proof {
            lemma_first_named(dv, their@.name);
        }
        if k < deps.len() {
            assert(dv[k as int].name == their@.name);
            set_dependent(&mut deps, their);
        } else {
            let installed_here = match their_installed {
                Some(t) => t.to_owned() == their_ver.to_owned(),
                None => false,
            };
            assert(!(exists|j: int| 0 <= j < dv.len() && (#[trigger] dv[j]).name == their@.name));
            if installed_here && !crate::queue::contains_specific(&deps, &their) {
                let ghost tv = their@;
                deps.push(their);
                assert(specific_views(deps@) =~= dv.push(tv));
            }
        }
        Ok(Some(SpecificVec(deps)))
    }
}

pub open spec fn opt_str_view(o: Option<&str>) -> Option<Seq<char>> {
    match o {
        Some(s) => Some(s@),
        None => None,
    }
}

/// A copy of a list of exact packages.
pub fn clone_specifics(v: &Vec<Specific>) -> (r: Vec<Specific>)
    ensures
        specific_views(r@) == specific_views(v@),
{
    let mut out: Vec<Specific> = Vec::new();
    let mut i: usize = 0;
    while i < v.len()
        invariant
            i <= v.len(),
            specific_views(out@) =~= specific_views(v@).subrange(0, i as int),
        decreases v.len() - i,
    {
        let ghost before = specific_views(out@);
        out.push(v[i].clone());
        assert(specific_views(out@) =~= before.push(v@[i as int]@));
        i += 1;
    }
    out
}

// ---------------------------------------------------------------------------
// Clearing a dependency
// ---------------------------------------------------------------------------

/// Why a dependency could not be cleared from a record.
#[derive(Debug, PartialEq, Eq)]
pub enum RecordError {
    /// No dependency of the package `name` at `version` resolves to the
    /// installed `package`.
    DependentNotFound { name: String, version: String, package: String },
}

pub open spec fn opt_specific_views(s: Seq<Option<Specific>>) -> Seq<Option<SpecificView>> {
    s.map_values(|o: Option<Specific>| match o {
        Some(x) => Some(x@),
        None => None,
    })
}

/// The record without its `k`-th dependency.
pub open spec fn without_dependency(m: InstalledMetaDataView, k: int) -> InstalledMetaDataView {
    InstalledMetaDataView { dependencies: m.dependencies.remove(k), ..m }
}

impl InstalledMetaData {
    /// Removes from this record the first dependency that resolves to the
    /// installed package `specific`; `resolved[i]` is what the `i`-th
    /// dependency resolves to among the installed packages (`None` when it
    /// does not resolve).
    pub fn clear_dependencies(&self, specific: &Specific, resolved: &Vec<Option<Specific>>) -> (r: Result<
        InstalledMetaData,
        RecordError,
    >)
        requires
            resolved@.len() == self@.dependencies.len(),
        ensures
            match r {
                Ok(d) => exists|k: int|
                    0 <= k < resolved@.len() && #[trigger] opt_specific_views(resolved@)[k] == Some(
                        specific@,
                    ) && (forall|j: int|
                        0 <= j < k ==> opt_specific_views(resolved@)[j] != Some(specific@)) && d@
                        == without_dependency(self@, k),
                Err(RecordError::DependentNotFound { name, version, package }) => {
                    &&& forall|j: int|
                        0 <= j < resolved@.len() ==> #[trigger] opt_specific_views(resolved@)[j]
                            != Some(specific@)
                    &&& name@ == self@.name
                    &&& version@ == self@.version
                    &&& package@ == specific@.name
                },
            },
    {
        let ghost rv = opt_specific_views(resolved@);
        let mut i: usize = 0;
        while i < resolved.len()
            invariant
                i <= resolved.len(),
                rv == opt_specific_views(resolved@),
                resolved@.len() == self@.dependencies.len(),
                forall|j: int| 0 <= j < i ==> rv[j] != Some(specific@),
            decreases resolved.len() - i,
        {
            let hit = match &resolved[i] {
                Some(x) => x.same(specific),
                None => false,
            };
            assert(rv[i as int] == match resolved@[i as int] {
                Some(x) => Some(x@),
                None => None::<SpecificView>,
            });
            if hit {
                let mut data = self.clone();
                let ghost before = data.dependencies.0@;
                data.dependencies.0.remove(i);
                assert(depver_views(data.dependencies.0@) =~= depver_views(before).remove(i as int));
                assert(rv[i as int] == Some(specific@));
                return Ok(data);
            }
            i += 1;
        }
        Err(
            RecordError::DependentNotFound {
                name: self.name.clone(),
                version: self.version.clone(),
                package: specific.name.clone(),
            },
        )
    }
}

// ---------------------------------------------------------------------------
// Removing one package
// ---------------------------------------------------------------------------

/// The packages that the dependencies resolve to, in order, skipping those
/// that do not resolve.
pub open spec fn resolved_somes(res: Seq<Option<SpecificView>>) -> Seq<SpecificView>
    decreases res.len(),
{
    if res.len() == 0 {
        Seq::empty()
    } else {
        match res.last() {
            Some(s) => resolved_somes(res.drop_last()).push(s),
            None => resolved_somes(res.drop_last()),
        }
    }
}

/// `d` is the record `m` without its first dependency that resolves to `s`
/// (see [`InstalledMetaData::clear_dependencies`]).
pub open spec fn cleared(
    m: InstalledMetaDataView,
    res: Seq<Option<SpecificView>>,
    s: SpecificView,
    d: InstalledMetaDataView,
) -> bool {
    exists|k: int|
        0 <= k < res.len() && #[trigger] res[k] == Some(s) && (forall|j: int|
            0 <= j < k ==> res[j] != Some(s)) && d == without_dependency(m, k)
}

/// What removing one installed package comes to.
#[derive(Debug)]
pub enum RemovalStep {
    /// There is no record (it went with an earlier removal): skip it.
    Skip,
    /// Write each record of `clears` and then remove its package, in order;
    /// then run the removal script (or fail with its error) and delete the
    /// record.
    Remove {
        clears: Vec<(InstalledMetaData, Specific)>,
        script: Result<(String, &'static str), crate::steps::StepError>,
    },
}

impl InstalledMetaData {
    /// Decides the removal of a package from its installed record (if any):
    /// for each dependency that resolves (`resolved[i]` for the `i`-th), the
    /// record without that dependency is written and the dependency removed;
    /// then the purge or uninstall script runs.
    pub fn removal_step(
        record: Option<&InstalledMetaData>,
        resolved: &Vec<Option<Specific>>,
        purge: bool,
    ) -> (r: RemovalStep)
        requires
            record matches Some(d) ==> resolved@.len() == d@.dependencies.len(),
        ensures
            match record {
                None => r is Skip,
                Some(d) => r matches RemovalStep::Remove { clears, script } && {
                    &&& clears@.len() == resolved_somes(opt_specific_views(resolved@)).len()
                    &&& forall|i: int|
                        0 <= i < clears@.len() ==> (#[trigger] clears@[i]).1@ == resolved_somes(
                            opt_specific_views(resolved@),
                        )[i] && cleared(
                            d@,
                            opt_specific_views(resolved@),
                            clears@[i].1@,
                            clears@[i].0@,
                        )
                    &&& match d@.install_kind {
                        InstalledInstallKindView::PreBuilt(_) => script == Err::<
                            (String, &'static str),
                            crate::steps::StepError,
                        >(crate::steps::StepError::PreBuiltUnsupported),
                        InstalledInstallKindView::Compilable(c) => script matches Ok((t, m)) && if purge {
                            t@ == c.purge && m == "Purge"
                        } else {
                            t@ == c.uninstall && m == "Removal"
                        },
                    }
                },
            },
    {
        let d = match record {
            None => return RemovalStep::Skip,
            Some(d) => d,
        };
        let ghost res = opt_specific_views(resolved@);
        let mut clears: Vec<(InstalledMetaData, Specific)> = Vec::new();
        let mut i: usize = 0;
        while i < resolved.len()
            invariant
                i <= resolved.len(),
                resolved@.len() == d@.dependencies.len(),
                res == opt_specific_views(resolved@),
                clears@.len() == resolved_somes(res.subrange(0, i as int)).len(),
                forall|j: int|
                    0 <= j < clears@.len() ==> (#[trigger] clears@[j]).1@ == resolved_somes(
                        res.subrange(0, i as int),
                    )[j] && cleared(d@, res, clears@[j].1@, clears@[j].0@),
            decreases resolved.len() - i,
        {
            let ghost before = clears@;
            assert(res.subrange(0, i + 1).drop_last() =~= res.subrange(0, i as int));
            assert(res.subrange(0, i + 1).last() == res[i as int]);
            match &resolved[i] {
                Some(s) => {
                    assert(res[i as int] == Some(s@));
                    match d.clear_dependencies(s, resolved) {
                        Ok(c) => {
                            let ghost cv = c@;
                            clears.push((c, s.clone()));
                            assert forall|j: int| 0 <= j < clears@.len() implies (#[trigger] clears@[j]).1@
                                == resolved_somes(res.subrange(0, i + 1))[j] && cleared(
                                d@,
                                res,
                                clears@[j].1@,
                                clears@[j].0@,
                            ) by {
                                if j < before.len() {
                                    assert(clears@[j] == before[j]);
                                }
                            }
                        },
                        Err(_) => {
                            assert(res[i as int] != Some(s@));
                            assert(false);
                        },
                    }
                },
                None => {
                    assert(res[i as int] is None);
                },
            }
            i += 1;
        }
        assert(res.subrange(0, resolved.len() as int) =~= res);
        RemovalStep::Remove { clears, script: d.install_kind.removal_script(purge) }
    }
}

// ---------------------------------------------------------------------------
// Collecting the dependents of a package
// ---------------------------------------------------------------------------

pub open spec fn record_views(s: Seq<InstalledMetaData>) -> Seq<InstalledMetaDataView> {
    s.map_values(|m: InstalledMetaData| m@)
}

/// The index of the first record named `n` (the length when there is none).
pub open spec fn record_index(rv: Seq<InstalledMetaDataView>, n: Seq<char>) -> int
    decreases rv.len(),
{
    if rv.len() == 0 {
        0
    } else if rv[0].name == n {
        0
    } else {
        1 + record_index(rv.drop_first(), n)
    }
}

pub proof fn lemma_record_index(rv: Seq<InstalledMetaDataView>, n: Seq<char>)
    ensures
        0 <= record_index(rv, n) <= rv.len(),
        forall|j: int| 0 <= j < record_index(rv, n) ==> (#[trigger] rv[j]).name != n,
        record_index(rv, n) < rv.len() ==> rv[record_index(rv, n)].name == n,
    decreases rv.len(),
{
    if rv.len() > 0 && rv[0].name != n {
        lemma_record_index(rv.drop_first(), n);
        assert forall|j: int| 1 <= j < rv.len() implies rv[j] == rv.drop_first()[j - 1] by {}
    }
}

/// The record of the installed package `n`, the first of that name.
pub open spec fn record_of(rv: Seq<InstalledMetaDataView>, n: Seq<char>) -> Option<
    InstalledMetaDataView,
> {
    if record_index(rv, n) < rv.len() {
        Some(rv[record_index(rv, n)])
    } else {
        None
    }
}

/// The package `s` is installed at its version.
pub open spec fn good(rv: Seq<InstalledMetaDataView>, s: SpecificView) -> bool {
    record_of(rv, s.name) matches Some(m) && m.version == version_text(s.version)
}

/// The dependents recorded for `s`.
pub open spec fn dependents_of(rv: Seq<InstalledMetaDataView>, s: SpecificView) -> Seq<SpecificView> {
    record_of(rv, s.name)->Some_0.dependents
}

/// Every dependent recorded anywhere.
pub open spec fn all_dependents(rv: Seq<InstalledMetaDataView>) -> Seq<SpecificView>
    decreases rv.len(),
{
    if rv.len() == 0 {
        Seq::empty()
    } else {
        all_dependents(rv.drop_last()) + rv.last().dependents
    }
}

pub proof fn lemma_all_dependents(rv: Seq<InstalledMetaDataView>, k: int, x: SpecificView)
    requires
        0 <= k < rv.len(),
        rv[k].dependents.contains(x),
    ensures
        all_dependents(rv).contains(x),
    decreases rv.len(),
{
    let i = choose|i: int| 0 <= i < rv[k].dependents.len() && rv[k].dependents[i] == x;
    if k == rv.len() - 1 {
        let a = all_dependents(rv.drop_last());
        assert((a + rv.last().dependents)[a.len() + i] == x);
    } else {
        lemma_all_dependents(rv.drop_last(), k, x);
        let a = all_dependents(rv.drop_last());
        let j = choose|j: int| 0 <= j < a.len() && a[j] == x;
        assert((a + rv.last().dependents)[j] == x);
    }
}

/// How many entries of `u` are not in `p`.
pub open spec fn missing(u: Seq<SpecificView>, p: Seq<SpecificView>) -> nat
    decreases u.len(),
{
    if u.len() == 0 {
        0
    } else {
        missing(u.drop_last(), p) + if p.contains(u.last()) {
            0nat
        } else {
            1nat
        }
    }
}

pub proof fn lemma_missing_mono(u: Seq<SpecificView>, p: Seq<SpecificView>, q: Seq<SpecificView>)
    requires
        forall|x: SpecificView| p.contains(x) ==> q.contains(x),
    ensures
        missing(u, q) <= missing(u, p),
    decreases u.len(),
{
    if u.len() > 0 {
        lemma_missing_mono(u.drop_last(), p, q);
    }
}

pub proof fn lemma_missing_strict(
    u: Seq<SpecificView>,
    p: Seq<SpecificView>,
    q: Seq<SpecificView>,
    x: SpecificView,
)
    requires
        forall|y: SpecificView| p.contains(y) ==> q.contains(y),
        u.contains(x),
        !p.contains(x),
        q.contains(x),
    ensures
        missing(u, q) < missing(u, p),
    decreases u.len(),
{
    lemma_missing_mono(u.drop_last(), p, q);
    if u.last() != x {
        let i = choose|i: int| 0 <= i < u.len() && u[i] == x;
        assert(u.drop_last()[i] == x);
        lemma_missing_strict(u.drop_last(), p, q, x);
    }
}

/// A sequence extends another (keeps it as its prefix).
pub open spec fn extends(long: Seq<SpecificView>, short: Seq<SpecificView>) -> bool {
    long.len() >= short.len() && long.subrange(0, short.len() as int) == short
}

pub proof fn lemma_extends_contains(long: Seq<SpecificView>, short: Seq<SpecificView>)
    requires
        extends(long, short),
    ensures
        forall|x: SpecificView| short.contains(x) ==> long.contains(x),
{
    assert forall|x: SpecificView| short.contains(x) implies long.contains(x) by {
        let i = choose|i: int| 0 <= i < short.len() && short[i] == x;
        assert(long.subrange(0, short.len() as int)[i] == x);
    }
}

/// The packages queued after `p0` (from `p0`'s end to `p1`'s) are the
/// dependents reachable from `s`: `s` and each of them is installed at its
/// version with all its dependents queued, and each was found as a dependent
/// of `s` or of one found before it.
pub open spec fn explored(
    rv: Seq<InstalledMetaDataView>,
    s: SpecificView,
    p0: Seq<SpecificView>,
    p1: Seq<SpecificView>,
) -> bool {
    &&& good(rv, s)
    &&& forall|x: SpecificView| dependents_of(rv, s).contains(x) ==> p1.contains(x)
    &&& forall|i: int|
        p0.len() <= i < p1.len() ==> good(rv, #[trigger] p1[i]) && (forall|x: SpecificView|
            dependents_of(rv, p1[i]).contains(x) ==> p1.contains(x))
    &&& forall|i: int|
        p0.len() <= i < p1.len() ==> dependents_of(rv, s).contains(#[trigger] p1[i]) || exists|
            j: int,
        |
            p0.len() <= j < i && dependents_of(rv, #[trigger] p1[j]).contains(p1[i])
}

/// Why the dependents of a package could not be collected.
#[derive(Debug, PartialEq, Eq)]
pub enum DependentsError {
    /// The package (named) is not installed.
    NotInstalled(String),
    /// The package (named) is installed at another version than the one
    /// given (as text).
    VersionNotFound { name: String, version: String },
}

pub enum DependentsErrorView {
    NotInstalled(Seq<char>),
    VersionNotFound { name: Seq<char>, version: Seq<char> },
}

impl View for DependentsError {
    type V = DependentsErrorView;

    open spec fn view(&self) -> DependentsErrorView {
        match self {
            DependentsError::NotInstalled(n) => DependentsErrorView::NotInstalled(n@),
            DependentsError::VersionNotFound { name, version } => DependentsErrorView::VersionNotFound {
                name: name@,
                version: version@,
            },
        }
    }
}

/// The error for a package that is not installed at its version.
pub open spec fn blame(rv: Seq<InstalledMetaDataView>, t: SpecificView) -> DependentsErrorView {
    if record_of(rv, t.name) is None {
        DependentsErrorView::NotInstalled(t.name)
    } else {
        DependentsErrorView::VersionNotFound { name: t.name, version: version_text(t.version) }
    }
}

/// `e` is the error for `s` or for one of the packages queued after `p0`,
/// which is not installed at its version.
pub open spec fn blamed(
    rv: Seq<InstalledMetaDataView>,
    s: SpecificView,
    p0: Seq<SpecificView>,
    p1: Seq<SpecificView>,
    e: DependentsErrorView,
) -> bool {
    ||| !good(rv, s) && e == blame(rv, s)
    ||| exists|i: int| p0.len() <= i < p1.len() && !good(rv, #[trigger] p1[i]) && e == blame(rv, p1[i])
}

/// The index of the first record named `n`.
fn record_index_exec(records: &Vec<InstalledMetaData>, n: &String) -> (k: usize)
    ensures
        k == record_index(record_views(records@), n@),
{
    let ghost rv = record_views(records@);
    proof {
        lemma_record_index(rv, n@);
    }
    let mut i: usize = 0;
    while i < records.len()
        invariant
            i <= records.len(),
            rv == record_views(records@),
            i <= record_index(rv, n@),
            0 <= record_index(rv, n@) <= rv.len(),
            record_index(rv, n@) < rv.len() ==> rv[record_index(rv, n@)].name == n@,
            forall|j: int| 0 <= j < record_index(rv, n@) ==> (#[trigger] rv[j]).name != n@,
        decreases records.len() - i,
    {
        assert(rv[i as int] == records@[i as int]@);
        if records[i].name == *n {
            return i;
        }
        i += 1;
    }
    i
}

impl Specific {
    /// Queues (as asked for) every package that depends on this one,
    /// directly or through others, as the installed `records` show, each
    /// explored once; packages queued before are neither queued again nor
    /// explored. Fails, with what was queued so far kept, on a package that
    /// is not installed at its version; when that is this package itself,
    /// the queue is left as it was.
    pub fn get_dependents(&self, queued: &mut QueuedChanges, records: &Vec<InstalledMetaData>) -> (r:
        Result<(), DependentsError>)
        ensures
            final(queued)@.secondary == old(queued)@.secondary,
            extends(final(queued)@.primary, old(queued)@.primary),
            no_dups(old(queued)@.primary) ==> no_dups(final(queued)@.primary),
            !good(record_views(records@), self@) ==> r is Err && final(queued)@ == old(queued)@,
            match r {
                Ok(()) => explored(
                    record_views(records@),
                    self@,
                    old(queued)@.primary,
                    final(queued)@.primary,
                ),
                Err(e) => blamed(
                    record_views(records@),
                    self@,
                    old(queued)@.primary,
                    final(queued)@.primary,
                    e@,
                ),
            },
        decreases missing(all_dependents(record_views(records@)), old(queued)@.primary),
    {
        let ghost rv = record_views(records@);
        let ghost u = all_dependents(rv);
        let ghost p0 = queued@.primary;
        proof {
            lemma_record_index(rv, self@.name);
        }
        let k = record_index_exec(records, &self.name);
        if k >= records.len() {
            proof {
                assert(extends(queued@.primary, p0)) by {
                    assert(p0.subrange(0, p0.len() as int) =~= p0);
                }
            }
            return Err(DependentsError::NotInstalled(self.name.clone()));
        }
        let data = &records[k];
        assert(rv[k as int] == data@);
        let vt = self.version.to_string();
        if data.version != vt {
            proof {
                assert(extends(queued@.primary, p0)) by {
                    assert(p0.subrange(0, p0.len() as int) =~= p0);
                }
            }
            return Err(DependentsError::VersionNotFound { name: self.name.clone(), version: vt });
        }
        let ghost ds = data@.dependents;
        assert(ds == dependents_of(rv, self@));
        let mut t: usize = 0;
        assert(p0.subrange(0, p0.len() as int) =~= p0);
        while t < data.dependents.0.len()
            invariant
                t <= data.dependents.0.len(),
                rv == record_views(records@),
                u == all_dependents(rv),
                k < records.len(),
                data == &records[k as int],
                rv[k as int] == data@,
                ds == data@.dependents,
                ds == dependents_of(rv, self@),
                good(rv, self@),
                queued@.secondary == old(queued)@.secondary,
                p0 == old(queued)@.primary,
                extends(queued@.primary, p0),
                no_dups(p0) ==> no_dups(queued@.primary),
                missing(u, queued@.primary) <= missing(u, p0),
                forall|j: int| 0 <= j < t ==> queued@.primary.contains(#[trigger] ds[j]),
                forall|i: int|
                    p0.len() <= i < queued@.primary.len() ==> good(rv, #[trigger] queued@.primary[i])
                        && (forall|x: SpecificView|
                        dependents_of(rv, queued@.primary[i]).contains(x)
                            ==> queued@.primary.contains(x)),
                forall|i: int|
                    p0.len() <= i < queued@.primary.len() ==> ds.contains(
                        #[trigger] queued@.primary[i],
                    ) || exists|j: int|
                        p0.len() <= j < i && dependents_of(rv, #[trigger] queued@.primary[j]).contains(
                            queued@.primary[i],
                        ),
            decreases data.dependents.0.len() - t,
        {
            let d = data.dependents.0[t].clone();
            assert(d@ == ds[t as int]);
            let ghost before = queued@.primary;
            let added = queued.insert_primary(d.clone());
            let ghost mid = queued@.primary;
            proof {
                if no_dups(p0) {
                    crate::queue::lemma_add_one(before, d@);
                }
                if added {
                    assert(mid == before.push(d@));
                    assert(mid[before.len() as int] == d@);
                    lemma_all_dependents(rv, k as int, d@);
                    lemma_extends_contains(before, p0);
                    assert forall|y: SpecificView| before.contains(y) implies mid.contains(y) by {
                        let i = choose|i: int| 0 <= i < before.len() && before[i] == y;
                        assert(mid[i] == y);
                    }
                    lemma_missing_strict(u, before, mid, d@);
                } else {
                    assert(mid == before);
                }
            }
            if added {
                let res = d.get_dependents(queued, records);
                let ghost after = queued@.primary;
                proof {
                    // what the nested call queued extends what was queued here
                    assert(extends(after, p0)) by {
                        assert(after.subrange(0, p0.len() as int) =~= after.subrange(
                            0,
                            mid.len() as int,
                        ).subrange(0, p0.len() as int));
                        assert(mid.subrange(0, p0.len() as int) =~= before.subrange(
                            0,
                            p0.len() as int,
                        ));
                    }
                    lemma_extends_contains(after, mid);
                }
                match res {
                    Err(e) => {
                        proof {
                            if !good(rv, d@) {
                                assert(after[before.len() as int] == d@) by {
                                    assert(after.subrange(0, mid.len() as int)[before.len() as int]
                                        == mid[before.len() as int]);
                                }
                            } else {
                                let i = choose|i: int|
                                    mid.len() <= i < after.len() && !good(rv, #[trigger] after[i])
                                        && e@ == blame(rv, after[i]);
                                assert(p0.len() <= i < after.len());
                            }
                        }
                        return Err(e);
                    },
                    Ok(()) => {
                        proof {
                            assert(after[before.len() as int] == d@) by {
                                assert(after.subrange(0, mid.len() as int)[before.len() as int]
                                    == mid[before.len() as int]);
                            }
                            assert(extends(after, before)) by {
                                assert(after.subrange(0, before.len() as int) =~= after.subrange(
                                    0,
                                    mid.len() as int,
                                ).subrange(0, before.len() as int));
                                assert(mid.subrange(0, before.len() as int) =~= before);
                            }
                            lemma_extends_contains(after, before);
                            lemma_missing_mono(u, mid, after);
                            assert forall|i: int| p0.len() <= i < after.len() implies good(
                                rv,
                                #[trigger] after[i],
                            ) && (forall|x: SpecificView|
                                dependents_of(rv, after[i]).contains(x) ==> after.contains(x)) by {
                                if i < before.len() {
                                    assert(after[i] == before[i]) by {
                                        assert(after.subrange(0, mid.len() as int)[i] == mid[i]);
                                    }
                                } else if i == before.len() {
                                } else {
                                }
                            }
                            assert forall|i: int| p0.len() <= i < after.len() implies ds.contains(
                                #[trigger] after[i],
                            ) || exists|j: int|
                                p0.len() <= j < i && dependents_of(
                                    rv,
                                    #[trigger] after[j],
                                ).contains(after[i]) by {
                                if i < before.len() {
                                    assert(after[i] == before[i]) by {
                                        assert(after.subrange(0, mid.len() as int)[i] == mid[i]);
                                    }
                                    if !ds.contains(before[i]) {
                                        let j = choose|j: int|
                                            p0.len() <= j < i && dependents_of(
                                                rv,
                                                #[trigger] before[j],
                                            ).contains(before[i]);
                                        assert(after[j] == before[j]) by {
                                            assert(after.subrange(0, mid.len() as int)[j]
                                                == mid[j]);
                                        }
                                    }
                                } else if i == before.len() {
                                    assert(ds[t as int] == d@);
                                } else {
                                    if !dependents_of(rv, d@).contains(after[i]) {
                                        let j = choose|j: int|
                                            mid.len() <= j < i && dependents_of(
                                                rv,
                                                #[trigger] after[j],
                                            ).contains(after[i]);
                                    } else {
                                        assert(dependents_of(rv, after[before.len() as int]).contains(
                                            after[i],
                                        ));
                                    }
                                }
                            }
                            assert forall|j: int| 0 <= j < t + 1 implies after.contains(
                                #[trigger] ds[j],
                            ) by {
                                if j == t {
                                    assert(after[before.len() as int] == d@);
                                }
                            }
                        }
                    },
                }
            } else {
                proof {
                    assert forall|j: int| 0 <= j < t + 1 implies queued@.primary.contains(
                        #[trigger] ds[j],
                    ) by {
                        if j == t {
                            assert(before.contains(d@));
                        }
                    }
                }
            }
            t += 1;
        }
        Ok(())
    }
}

/// Every package from `p0`'s end to `p1`'s is a dependent of one of `srcs`
/// or of a package queued before it after `p0`.
pub open spec fn reached_from(
    rv: Seq<InstalledMetaDataView>,
    srcs: Seq<SpecificView>,
    p0: Seq<SpecificView>,
    p1: Seq<SpecificView>,
) -> bool {
    forall|i: int|
        #![trigger p1[i]]
        p0.len() <= i < p1.len() ==> (exists|j: int|
            0 <= j < srcs.len() && dependents_of(rv, #[trigger] srcs[j]).contains(p1[i])) || exists|
            j: int,
        | p0.len() <= j < i && dependents_of(rv, #[trigger] p1[j]).contains(p1[i])
}

/// Every package from `p0`'s end to `p1`'s is installed at its version with
/// all its dependents in `p1`.
pub open spec fn closed_from(rv: Seq<InstalledMetaDataView>, p0: Seq<SpecificView>, p1: Seq<SpecificView>) -> bool {
    forall|i: int|
        p0.len() <= i < p1.len() ==> good(rv, #[trigger] p1[i]) && (forall|x: SpecificView|
            dependents_of(rv, p1[i]).contains(x) ==> p1.contains(x))
}

proof fn lemma_reached_step(
    rv: Seq<InstalledMetaDataView>,
    items: Seq<SpecificView>,
    i: int,
    p0: Seq<SpecificView>,
    before: Seq<SpecificView>,
    after: Seq<SpecificView>,
)
    requires
        0 <= i < items.len(),
        extends(before, p0),
        extends(after, before),
        reached_from(rv, items, p0, before),
        explored(rv, items[i], before, after),
    ensures
        reached_from(rv, items, p0, after),
{
    assert forall|k: int| #![trigger after[k]] p0.len() <= k < after.len() implies (exists|j: int|
        0 <= j < items.len() && dependents_of(rv, #[trigger] items[j]).contains(after[k])) || exists|
        j: int,
    | p0.len() <= j < k && dependents_of(rv, #[trigger] after[j]).contains(after[k]) by {
        if k < before.len() {
            assert(after[k] == before[k]) by {
                assert(after.subrange(0, before.len() as int)[k] == before[k]);
            }
            if !(exists|j: int|
                0 <= j < items.len() && dependents_of(rv, #[trigger] items[j]).contains(before[k])) {
                let j = choose|j: int|
                    p0.len() <= j < k && dependents_of(rv, #[trigger] before[j]).contains(before[k]);
                assert(after[j] == before[j]) by {
                    assert(after.subrange(0, before.len() as int)[j] == before[j]);
                }
            }
        } else if dependents_of(rv, items[i]).contains(after[k]) {
        } else {
            let j = choose|j: int|
                before.len() <= j < k && dependents_of(rv, #[trigger] after[j]).contains(after[k]);
        }
    }
}

impl QueuedChanges {
    /// Queues the dependents (see [`Specific::get_dependents`]) of every
    /// package queued, those asked for first, then the modified ones.
    pub fn dependents(&mut self, records: &Vec<InstalledMetaData>) -> (r: Result<(), DependentsError>)
        ensures
            final(self)@.secondary == old(self)@.secondary,
            extends(final(self)@.primary, old(self)@.primary),
            no_dups(old(self)@.primary) ==> no_dups(final(self)@.primary),
            match r {
                Ok(()) => {
                    &&& forall|j: int|
                        0 <= j < (old(self)@.primary + old(self)@.secondary).len() ==> good(
                            record_views(records@),
                            #[trigger] (old(self)@.primary + old(self)@.secondary)[j],
                        ) && forall|x: SpecificView|
                            dependents_of(
                                record_views(records@),
                                (old(self)@.primary + old(self)@.secondary)[j],
                            ).contains(x) ==> final(self)@.primary.contains(x)
                    &&& closed_from(record_views(records@), old(self)@.primary, final(self)@.primary)
                    &&& reached_from(
                        record_views(records@),
                        old(self)@.primary + old(self)@.secondary,
                        old(self)@.primary,
                        final(self)@.primary,
                    )
                },
                Err(e) => exists|j: int|
                    0 <= j < (old(self)@.primary + old(self)@.secondary).len() && #[trigger] blamed(
                        record_views(records@),
                        (old(self)@.primary + old(self)@.secondary)[j],
                        old(self)@.primary,
                        final(self)@.primary,
                        e@,
                    ) || exists|i: int|
                        old(self)@.primary.len() <= i < final(self)@.primary.len() && !good(
                            record_views(records@),
                            #[trigger] final(self)@.primary[i],
                        ) && e@ == blame(record_views(records@), final(self)@.primary[i]),
            },
    {
        let ghost rv = record_views(records@);
        let ghost p0 = self@.primary;
        let ghost items_v = self@.primary + self@.secondary;
        let mut items = clone_specifics(&self.primary);
        let more = clone_specifics(&self.secondary);
        let mut m: usize = 0;
        while m < more.len()
            invariant
                m <= more.len(),
                specific_views(items@) == self@.primary + specific_views(more@).subrange(0, m as int),
            decreases more.len() - m,
        {
            let ghost before = specific_views(items@);
            items.push(more[m].clone());
            assert(specific_views(items@) =~= before.push(more@[m as int]@));
            assert(specific_views(more@).subrange(0, m + 1) =~= specific_views(more@).subrange(
                0,
                m as int,
            ).push(more@[m as int]@));
            m += 1;
        }
        assert(specific_views(more@).subrange(0, more.len() as int) =~= specific_views(more@));
        assert(specific_views(items@) == items_v);
        assert(p0.subrange(0, p0.len() as int) =~= p0);
        let mut i: usize = 0;
        while i < items.len()
            invariant
                i <= items.len(),
                rv == record_views(records@),
                specific_views(items@) == items_v,
                p0 == old(self)@.primary,
                items_v == old(self)@.primary + old(self)@.secondary,
                self@.secondary == old(self)@.secondary,
                extends(self@.primary, p0),
                no_dups(p0) ==> no_dups(self@.primary),
                forall|j: int|
                    0 <= j < i ==> good(rv, #[trigger] items_v[j]) && forall|x: SpecificView|
                        dependents_of(rv, items_v[j]).contains(x) ==> self@.primary.contains(x),
                closed_from(rv, p0, self@.primary),
                reached_from(rv, items_v, p0, self@.primary),
            decreases items.len() - i,
        {
            let ghost before = self@.primary;
            assert(items_v[i as int] == items@[i as int]@);
            let res = items[i].get_dependents(self, records);
            let ghost after = self@.primary;
            proof {
                lemma_extends_contains(after, before);
                assert(extends(after, p0)) by {
                    assert(after.subrange(0, p0.len() as int) =~= after.subrange(
                        0,
                        before.len() as int,
                    ).subrange(0, p0.len() as int));
                }
            }
            match res {
                Err(e) => {
                    proof {
                        if !good(rv, items_v[i as int]) && e@ == blame(rv, items_v[i as int]) {
                            assert(blamed(rv, items_v[i as int], p0, after, e@));
                        } else {
                            let k = choose|k: int|
                                before.len() <= k < after.len() && !good(rv, #[trigger] after[k])
                                    && e@ == blame(rv, after[k]);
                            assert(p0.len() <= k < after.len());
                        }
                    }
                    return Err(e);
                },
                Ok(()) => {
                    proof {
                        assert forall|k: int| p0.len() <= k < after.len() implies good(
                            rv,
                            #[trigger] after[k],
                        ) && (forall|x: SpecificView|
                            dependents_of(rv, after[k]).contains(x) ==> after.contains(x)) by {
                            if k < before.len() {
                                assert(after[k] == before[k]) by {
                                    assert(after.subrange(0, before.len() as int)[k] == before[k]);
                                }
                            }
                        }
                        lemma_reached_step(rv, items_v, i as int, p0, before, after);
                    }
                },
            }
            i += 1;
        }
        Ok(())
    }
}

// ---------------------------------------------------------------------------
// Unbinding a package
// ---------------------------------------------------------------------------

/// What unbinding an installed package comes to.
#[derive(Debug, PartialEq)]
pub enum Unbound {
    /// The version asked for is already independent; nothing is written.
    AlreadyIndependent,
    /// The record to write back; `warned` when all its versions were
    /// already independent.
    Write { record: InstalledMetaData, warned: bool },
}

impl InstalledMetaData {
    /// Marks this installed package as independent: with a version, only
    /// when it is installed at that version (else the record is written
    /// back unchanged), and not at all when already independent; without
    /// one, whatever its version, with a warning when already independent.
    pub fn unbind(&self, ver: Option<&str>) -> (r: Unbound)
        ensures
            match ver {
                Some(v) => if self@.version == v@ {
                    if !self@.dependent {
                        r is AlreadyIndependent
                    } else {
                        r matches Unbound::Write { record, warned } && !warned && record@
                            == (InstalledMetaDataView { dependent: false, ..self@ })
                    }
                } else {
                    r matches Unbound::Write { record, warned } && !warned && record@ == self@
                },
                None => r matches Unbound::Write { record, warned } && warned == !self@.dependent
                    && record@ == (InstalledMetaDataView { dependent: false, ..self@ }),
            },
    {
        let mut data = self.clone();
        match ver {
            Some(v) => {
                if data.version == v.to_owned() {
                    if !data.dependent {
                        return Unbound::AlreadyIndependent;
                    }
                    data.dependent = false;
                }
                Unbound::Write { record: data, warned: false }
            },
            None => {
                let warned = !data.dependent;
                data.dependent = false;
                Unbound::Write { record: data, warned }
            },
        }
    }
}

// ---------------------------------------------------------------------------
// Collecting what a removal takes along
// ---------------------------------------------------------------------------

/// Why the packages of a removal could not be collected.
#[derive(Debug, PartialEq, Eq)]
pub enum LocalError {
    /// The package (named) is not installed.
    NotInstalled(String),
    /// The installed version of the package asked for does not parse.
    BadVersion(ParseError),
}

pub enum LocalErrorView {
    NotInstalled(Seq<char>),
    BadVersion(ParseErrorView),
}

impl View for LocalError {
    type V = LocalErrorView;

    open spec fn view(&self) -> LocalErrorView {
        match self {
            LocalError::NotInstalled(n) => LocalErrorView::NotInstalled(n@),
            LocalError::BadVersion(e) => LocalErrorView::BadVersion(e@),
        }
    }
}

/// The installed package `n` resolves to: its record's name at its
/// version, when it has a record whose version parses.
pub open spec fn resolves(rv: Seq<InstalledMetaDataView>, n: Seq<char>) -> Option<SpecificView> {
    match record_of(rv, n) {
        None => None,
        Some(m) => match version_parse_spec(m.version) {
            Ok(v) => Some(SpecificView { name: m.name, version: v }),
            Err(_) => None,
        },
    }
}

/// A dependency `n` is looked into: it resolves, and its record's version
/// is the printed form of the resolved version.
pub open spec fn expanded(rv: Seq<InstalledMetaDataView>, n: Seq<char>) -> bool {
    match resolves(rv, n) {
        Some(s) => record_of(rv, n)->Some_0.version == version_text(s.version),
        None => false,
    }
}

/// A record lists a dependency named `n`.
pub open spec fn depends_on(m: InstalledMetaDataView, n: Seq<char>) -> bool {
    exists|i: int| 0 <= i < m.dependencies.len() && (#[trigger] m.dependencies[i]).name == n
}

/// Every dependency name recorded anywhere.
pub open spec fn all_dep_names(rv: Seq<InstalledMetaDataView>) -> Seq<Seq<char>>
    decreases rv.len(),
{
    if rv.len() == 0 {
        Seq::empty()
    } else {
        all_dep_names(rv.drop_last()) + rv.last().dependencies.map_values(|d: DepVerView| d.name)
    }
}

pub proof fn lemma_all_dep_names(rv: Seq<InstalledMetaDataView>, k: int, n: Seq<char>)
    requires
        0 <= k < rv.len(),
        depends_on(rv[k], n),
    ensures
        all_dep_names(rv).contains(n),
    decreases rv.len(),
{
    let i = choose|i: int| 0 <= i < rv[k].dependencies.len() && (#[trigger] rv[k].dependencies[i]).name == n;
    let a = all_dep_names(rv.drop_last());
    if k == rv.len() - 1 {
        let names = rv.last().dependencies.map_values(|d: DepVerView| d.name);
        assert(names[i] == n);
        assert((a + names)[a.len() + i] == n);
    } else {
        lemma_all_dep_names(rv.drop_last(), k, n);
        let j = choose|j: int| 0 <= j < a.len() && a[j] == n;
        assert((a + rv.last().dependencies.map_values(|d: DepVerView| d.name))[j] == n);
    }
}

/// How many entries of `u` are not in `p` (names).
pub open spec fn missing_names(u: Seq<Seq<char>>, p: Seq<Seq<char>>) -> nat
    decreases u.len(),
{
    if u.len() == 0 {
        0
    } else {
        missing_names(u.drop_last(), p) + if p.contains(u.last()) {
            0nat
        } else {
            1nat
        }
    }
}

pub proof fn lemma_missing_names_mono(u: Seq<Seq<char>>, p: Seq<Seq<char>>, q: Seq<Seq<char>>)
    requires
        forall|x: Seq<char>| p.contains(x) ==> q.contains(x),
    ensures
        missing_names(u, q) <= missing_names(u, p),
    decreases u.len(),
{
    if u.len() > 0 {
        lemma_missing_names_mono(u.drop_last(), p, q);
    }
}

pub proof fn lemma_missing_names_strict(
    u: Seq<Seq<char>>,
    p: Seq<Seq<char>>,
    q: Seq<Seq<char>>,
    x: Seq<char>,
)
    requires
        forall|y: Seq<char>| p.contains(y) ==> q.contains(y),
        u.contains(x),
        !p.contains(x),
        q.contains(x),
    ensures
        missing_names(u, q) < missing_names(u, p),
    decreases u.len(),
{
    lemma_missing_names_mono(u.drop_last(), p, q);
    if u.last() != x {
        let i = choose|i: int| 0 <= i < u.len() && u[i] == x;
        assert(u.drop_last()[i] == x);
        lemma_missing_names_strict(u.drop_last(), p, q, x);
    }
}

/// Whether the package's own record is looked into: at the version asked
/// for, or, without one, when it is not a mere dependency.
pub open spec fn working(m: InstalledMetaDataView, ver: Option<Seq<char>>) -> bool {
    match ver {
        Some(v) => m.version == v,
        None => !m.dependent,
    }
}

pub open spec fn str_extends(long: Seq<Seq<char>>, short: Seq<Seq<char>>) -> bool {
    long.len() >= short.len() && long.subrange(0, short.len() as int) == short
}

/// What collecting the removal of `name` gives when it succeeds (its record
/// is `m`, `p0` and `p1` the names seen before and after): the names seen
/// after `p0` are the dependencies reached, each found in the record of the
/// package or of a dependency looked into before it; every dependency of
/// the package (when its record is looked into) and of each dependency
/// looked into was seen; the modified packages are what the new names
/// resolve to; the package itself is queued when asked for at the top and
/// its record is looked into.
pub open spec fn collected_local(
    rv: Seq<InstalledMetaDataView>,
    m: InstalledMetaDataView,
    ver: Option<Seq<char>>,
    root: bool,
    p0: Seq<Seq<char>>,
    p1: Seq<Seq<char>>,
    q: QueuedChangesView,
) -> bool {
    &&& working(m, ver) ==> forall|i: int|
        0 <= i < m.dependencies.len() ==> p1.contains(#[trigger] m.dependencies[i].name)
    &&& !working(m, ver) ==> p1 == p0
    &&& forall|i: int|
        p0.len() <= i < p1.len() ==> (expanded(rv, #[trigger] p1[i]) ==> forall|k: int|
            0 <= k < record_of(rv, p1[i])->Some_0.dependencies.len() ==> p1.contains(
                record_of(rv, p1[i])->Some_0.dependencies[k].name,
            ))
    &&& forall|i: int|
        p0.len() <= i < p1.len() ==> (working(m, ver) && depends_on(m, #[trigger] p1[i])) || exists|
            j: int,
        |
            p0.len() <= j < i && expanded(rv, #[trigger] p1[j]) && depends_on(
                record_of(rv, p1[j])->Some_0,
                p1[i],
            )
    &&& forall|x: SpecificView|
        #[trigger] q.secondary.contains(x) ==> exists|i: int|
            p0.len() <= i < p1.len() && resolves(rv, #[trigger] p1[i]) == Some(x)
    &&& forall|i: int|
        p0.len() <= i < p1.len() && resolves(rv, #[trigger] p1[i]) is Some ==> q.secondary.contains(
            resolves(rv, p1[i])->Some_0,
        )
    &&& no_dups(q.secondary)
    &&& q.primary == if root && working(m, ver) {
        seq![SpecificView { name: m.name, version: version_parse_spec(m.version)->Ok_0 }]
    } else {
        Seq::<SpecificView>::empty()
    }
}

/// A sequence of names extending another contains all its names.
pub proof fn lemma_extends_names(long: Seq<Seq<char>>, short: Seq<Seq<char>>)
    requires
        str_extends(long, short),
    ensures
        forall|x: Seq<char>| short.contains(x) ==> long.contains(x),
{
    assert forall|x: Seq<char>| short.contains(x) implies long.contains(x) by {
        let i = choose|i: int| 0 <= i < short.len() && short[i] == x;
        assert(long.subrange(0, short.len() as int)[i] == x);
    }
}

pub open spec fn opt_string_view(o: Option<&String>) -> Option<Seq<char>> {
    match o {
        Some(s) => Some(s@),
        None => None,
    }
}

/// Collects what removing the installed package `name` takes along, as
/// the installed `records` show (see [`collected_local`]): `prior` holds
/// the dependency names already seen, across the packages of one removal;
/// `ver` is the version asked for; `root` marks a package asked for at the
/// top, which alone is queued itself.
pub fn get_local_pkg(
    name: &String,
    ver: Option<&String>,
    prior: &mut Vec<String>,
    root: bool,
    records: &Vec<InstalledMetaData>,
) -> (r: Result<QueuedChanges, LocalError>)
    ensures
        str_extends(string_views(final(prior)@), string_views(old(prior)@)),
        no_dups(string_views(old(prior)@)) ==> no_dups(string_views(final(prior)@)),
        match r {
            Err(LocalError::NotInstalled(n)) => n@ == name@ && record_of(record_views(records@), name@) is None,
            Err(LocalError::BadVersion(e)) => root && (record_of(record_views(records@), name@) matches Some(m)
                && working(m, opt_string_view(ver)) && version_parse_spec(m.version) == Err::<
                VersionView,
                ParseErrorView,
            >(e@)),
            Ok(q) => record_of(record_views(records@), name@) matches Some(m) && collected_local(
                record_views(records@),
                m,
                opt_string_view(ver),
                root,
                string_views(old(prior)@),
                string_views(final(prior)@),
                q@,
            ),
        },
    decreases missing_names(all_dep_names(record_views(records@)), string_views(old(prior)@)),
{
    let ghost rv = record_views(records@);
    let ghost u = all_dep_names(rv);
    let ghost p0 = string_views(prior@);
    proof {
        lemma_record_index(rv, name@);
        assert(p0.subrange(0, p0.len() as int) =~= p0);
    }
    let k = record_index_exec(records, name);
    if k >= records.len() {
        return Err(LocalError::NotInstalled(name.clone()));
    }
    let data = &records[k];
    assert(rv[k as int] == data@);
    let ghost m = data@;
    let work = match ver {
        Some(v) => data.version == *v,
        None => !data.dependent,
    };
    assert(work == working(m, opt_string_view(ver)));
    let mut result = QueuedChanges::new();
    assert(result@.secondary =~= Seq::<SpecificView>::empty());
    assert(result@.primary =~= Seq::<SpecificView>::empty());
    if !work {
        return Ok(result);
    }
    let mut i: usize = 0;
    while i < data.dependencies.0.len()
        invariant
            i <= data.dependencies.0.len(),
            rv == record_views(records@),
            u == all_dep_names(rv),
            k < records.len(),
            data == &records[k as int],
            rv[k as int] == data@,
            m == data@,
            record_of(rv, name@) == Some(m),
            working(m, opt_string_view(ver)),
            p0 == string_views(old(prior)@),
            str_extends(string_views(prior@), p0),
            no_dups(p0) ==> no_dups(string_views(prior@)),
            missing_names(u, string_views(prior@)) <= missing_names(u, p0),
            forall|j: int| 0 <= j < i ==> string_views(prior@).contains(#[trigger] m.dependencies[j].name),
            forall|j: int|
                p0.len() <= j < string_views(prior@).len() ==> (expanded(
                    rv,
                    #[trigger] string_views(prior@)[j],
                ) ==> forall|kk: int|
                    0 <= kk < record_of(rv, string_views(prior@)[j])->Some_0.dependencies.len()
                        ==> string_views(prior@).contains(
                        record_of(rv, string_views(prior@)[j])->Some_0.dependencies[kk].name,
                    )),
            forall|j: int|
                p0.len() <= j < string_views(prior@).len() ==> depends_on(
                    m,
                    #[trigger] string_views(prior@)[j],
                ) || exists|jj: int|
                    p0.len() <= jj < j && expanded(rv, #[trigger] string_views(prior@)[jj])
                        && depends_on(
                        record_of(rv, string_views(prior@)[jj])->Some_0,
                        string_views(prior@)[j],
                    ),
            forall|x: SpecificView|
                #[trigger] result@.secondary.contains(x) ==> exists|j: int|
                    p0.len() <= j < string_views(prior@).len() && resolves(
                        rv,
                        #[trigger] string_views(prior@)[j],
                    ) == Some(x),
            forall|j: int|
                p0.len() <= j < string_views(prior@).len() && resolves(
                    rv,
                    #[trigger] string_views(prior@)[j],
                ) is Some ==> result@.secondary.contains(
                    resolves(rv, string_views(prior@)[j])->Some_0,
                ),
            no_dups(result@.secondary),
            result@.primary.len() == 0,
        decreases data.dependencies.0.len() - i,
    {
        let dependency = &data.dependencies.0[i];
        assert(m.dependencies[i as int] == dependency@);
        let ghost before = string_views(prior@);
        if !crate::depend::contains_string(prior, &dependency.name) {
            prior.push(dependency.name.clone());
            let ghost mid = string_views(prior@);
            proof {
                assert(mid =~= before.push(dependency@.name));
                assert(str_extends(mid, p0)) by {
                    assert(mid.subrange(0, p0.len() as int) =~= before.subrange(0, p0.len() as int));
                }
                if no_dups(p0) {
                    crate::queue::lemma_add_one(before, dependency@.name);
                }
                assert forall|y: Seq<char>| before.contains(y) implies mid.contains(y) by {
                    let t = choose|t: int| 0 <= t < before.len() && before[t] == y;
                    assert(mid[t] == y);
                }
                assert(mid[before.len() as int] == dependency@.name);
                assert(depends_on(m, dependency@.name)) by {
                    assert(m.dependencies[i as int].name == dependency@.name);
                }
                lemma_all_dep_names(rv, k as int, dependency@.name);
                lemma_missing_names_strict(u, before, mid, dependency@.name);
            }
            let dk = record_index_exec(records, &dependency.name);
            proof {
                lemma_record_index(rv, dependency@.name);
            }
            let mut resolved: Option<Specific> = None;
            if dk < records.len() {
                assert(rv[dk as int] == records@[dk as int]@);
                match Version::parse(records[dk].version.as_str()) {
                    Ok(v) => {
                        resolved = Some(Specific { name: records[dk].name.clone(), version: v });
                    },
                    Err(_) => {},
                }
            }
            assert(match resolved {
                Some(x) => resolves(rv, dependency@.name) == Some(x@),
                None => resolves(rv, dependency@.name) is None,
            });
            match resolved {
                None => {
                    proof {
                        // nothing resolves: the new name adds no modified package
                        assert forall|j: int| p0.len() <= j < mid.len() && resolves(rv, #[trigger] mid[j]) is Some
                            implies result@.secondary.contains(resolves(rv, mid[j])->Some_0) by {
                            assert(j < before.len());
                            assert(mid[j] == before[j]);
                        }
                        assert forall|x: SpecificView| #[trigger] result@.secondary.contains(x) implies exists|j: int|
                            p0.len() <= j < mid.len() && resolves(rv, #[trigger] mid[j]) == Some(x) by {
                            let j = choose|j: int| p0.len() <= j < before.len() && resolves(rv, #[trigger] before[j]) == Some(x);
                            assert(mid[j] == before[j]);
                        }
                        assert forall|j: int| p0.len() <= j < mid.len() && expanded(rv, #[trigger] mid[j]) implies forall|kk: int|
                            0 <= kk < record_of(rv, mid[j])->Some_0.dependencies.len()
                                ==> mid.contains(record_of(rv, mid[j])->Some_0.dependencies[kk].name) by {
                            if j < before.len() {
                                assert(mid[j] == before[j]);
                            }
                        }
                        assert forall|j: int| p0.len() <= j < mid.len() implies depends_on(m, #[trigger] mid[j]) || exists|jj: int|
                            p0.len() <= jj < j && expanded(rv, #[trigger] mid[jj]) && depends_on(record_of(rv, mid[jj])->Some_0, mid[j]) by {
                            if j < before.len() {
                                assert(mid[j] == before[j]);
                                if !depends_on(m, before[j]) {
                                    let jj = choose|jj: int| p0.len() <= jj < j && expanded(rv, #[trigger] before[jj]) && depends_on(record_of(rv, before[jj])->Some_0, before[j]);
                                    assert(mid[jj] == before[jj]);
                                }
                            }
                        }
                    }
                },
                Some(dep) => {
                    let vt = dep.version.to_string();
                    let items = match get_local_pkg(&dependency.name, Some(&vt), prior, false, records) {
                        Ok(q) => q,
                        Err(e) => {
                            proof {
                                assert(record_of(rv, dependency@.name) is Some);
                                assert(false);
                            }
                            return Err(e);
                        },
                    };
                    let ghost after = string_views(prior@);
                    let ghost sec0 = result@.secondary;
                    result.extend(items);
                    let ghost sec1 = result@.secondary;
                    let ghost depv = dep@;
                    result.insert_secondary(dep);
                    let ghost sec2 = result@.secondary;
                    proof {
                        let n = dependency@.name;
                        let bl = before.len() as int;
                        let m2 = record_of(rv, n)->Some_0;
                        assert(working(m2, Some(vt@)) == expanded(rv, n));
                        // the names seen after the nested call extend those before
                        assert(after.subrange(0, mid.len() as int) == mid);
                        assert(after[bl] == n) by {
                            assert(after.subrange(0, mid.len() as int)[bl] == mid[bl]);
                        }
                        assert forall|j: int| 0 <= j < mid.len() implies after[j] == mid[j] by {
                            assert(after.subrange(0, mid.len() as int)[j] == mid[j]);
                        }
                        assert(str_extends(after, p0)) by {
                            assert(after.subrange(0, p0.len() as int) =~= mid.subrange(0, p0.len() as int));
                        }
                        lemma_extends_names(after, mid);
                        lemma_missing_names_mono(u, mid, after);
                        // what is modified
                        crate::queue::lemma_add_all(sec0, items@.secondary);
                        crate::queue::lemma_add_one(sec1, depv);
                        assert forall|x: SpecificView| sec2.contains(x) <==> sec0.contains(x)
                            || items@.secondary.contains(x) || x == depv by {
                            assert(sec2.to_set().contains(x) == sec2.contains(x));
                            assert(sec1.to_set().contains(x) == sec1.contains(x));
                            assert(sec0.to_set().contains(x) == sec0.contains(x));
                            assert(items@.secondary.to_set().contains(x) == items@.secondary.contains(x));
                        }
                        assert forall|j: int| 0 <= j < i + 1 implies after.contains(#[trigger] m.dependencies[j].name) by {
                            if j < i {
                                assert(before.contains(m.dependencies[j].name));
                            } else {
                                assert(after[bl] == m.dependencies[j].name);
                            }
                        }
                        assert forall|j: int| p0.len() <= j < after.len() && expanded(rv, #[trigger] after[j]) implies forall|kk: int|
                            0 <= kk < record_of(rv, after[j])->Some_0.dependencies.len()
                                ==> after.contains(record_of(rv, after[j])->Some_0.dependencies[kk].name) by {
                            if j < bl {
                                assert(after[j] == before[j]) by {
                                    assert(mid[j] == before[j]);
                                }
                            } else if j == bl {
                            } else {
                            }
                        }
                        assert forall|j: int| p0.len() <= j < after.len() implies depends_on(m, #[trigger] after[j]) || exists|jj: int|
                            p0.len() <= jj < j && expanded(rv, #[trigger] after[jj]) && depends_on(record_of(rv, after[jj])->Some_0, after[j]) by {
                            if j < bl {
                                assert(after[j] == before[j]) by {
                                    assert(mid[j] == before[j]);
                                }
                                if !depends_on(m, before[j]) {
                                    let jj = choose|jj: int| p0.len() <= jj < j && expanded(rv, #[trigger] before[jj]) && depends_on(record_of(rv, before[jj])->Some_0, before[j]);
                                    assert(after[jj] == before[jj]) by {
                                        assert(mid[jj] == before[jj]);
                                    }
                                }
                            } else if j == bl {
                            } else {
                                if !(exists|jj: int| mid.len() <= jj < j && expanded(rv, #[trigger] after[jj]) && depends_on(record_of(rv, after[jj])->Some_0, after[j])) {
                                    assert(working(m2, Some(vt@)) && depends_on(m2, after[j]));
                                    assert(expanded(rv, after[bl]) && depends_on(record_of(rv, after[bl])->Some_0, after[j]));
                                }
                            }
                        }
                        assert forall|x: SpecificView| #[trigger] sec2.contains(x) implies exists|j: int|
                            p0.len() <= j < after.len() && resolves(rv, #[trigger] after[j]) == Some(x) by {
                            if sec0.contains(x) {
                                let j = choose|j: int| p0.len() <= j < before.len() && resolves(rv, #[trigger] before[j]) == Some(x);
                                assert(after[j] == before[j]) by {
                                    assert(mid[j] == before[j]);
                                }
                            } else if items@.secondary.contains(x) {
                                let j = choose|j: int| mid.len() <= j < after.len() && resolves(rv, #[trigger] after[j]) == Some(x);
                            } else {
                                assert(resolves(rv, after[bl]) == Some(x));
                            }
                        }
                        assert forall|j: int| p0.len() <= j < after.len() && resolves(rv, #[trigger] after[j]) is Some
                            implies sec2.contains(resolves(rv, after[j])->Some_0) by {
                            if j < bl {
                                assert(after[j] == before[j]) by {
                                    assert(mid[j] == before[j]);
                                }
                            } else if j == bl {
                            } else {
                            }
                        }
                    }
                },
            }
        } else {
            proof {
                assert(string_views(prior@) == before);
            }
        }
        i += 1;
    }
    if root {
        let v = match Version::parse(data.version.as_str()) {
            Ok(v) => v,
            Err(e) => {
                return Err(LocalError::BadVersion(e));
            },
        };
        let ghost before = result@.primary;
        result.insert_primary(Specific { name: data.name.clone(), version: v });
        assert(result@.primary =~= seq![SpecificView { name: m.name, version: version_parse_spec(m.version)->Ok_0 }]);
    } else {
        assert(result@.primary =~= Seq::<SpecificView>::empty());
    }
    let ghost p1 = string_views(prior@);
    assert(working(m, opt_string_view(ver)) ==> forall|i: int|
        0 <= i < m.dependencies.len() ==> p1.contains(#[trigger] m.dependencies[i].name));
    assert(forall|i: int|
        p0.len() <= i < p1.len() ==> (working(m, opt_string_view(ver)) && depends_on(m, #[trigger] p1[i])) || exists|
            j: int,
        |
            p0.len() <= j < i && expanded(rv, #[trigger] p1[j]) && depends_on(
                record_of(rv, p1[j])->Some_0,
                p1[i],
            ));
    Ok(result)
}

/// Why a removal could not be planned.
#[derive(Debug, PartialEq, Eq)]
pub enum RemovalError {
    Local(LocalError),
    Dependents(DependentsError),
}

/// The package `s` is what the asked-for `name` resolves to, when its record
/// is looked into at the version asked for.
pub open spec fn asked_and_queued(
    rv: Seq<InstalledMetaDataView>,
    name: Seq<char>,
    ver: Option<Seq<char>>,
    q: Seq<SpecificView>,
) -> bool {
    record_of(rv, name) matches Some(m) && (working(m, ver) ==> q.contains(
        SpecificView { name: m.name, version: version_parse_spec(m.version)->Ok_0 },
    ))
}

/// The record of the `k`-th asked-for package (name and optional version).
pub open spec fn asked_record(
    rv: Seq<InstalledMetaDataView>,
    args: Seq<(Seq<char>, Option<Seq<char>>)>,
    k: int,
) -> InstalledMetaDataView {
    record_of(rv, args[k].0)->Some_0
}

/// The `k`-th asked-for package is installed and its record is looked into.
pub open spec fn asked_working(
    rv: Seq<InstalledMetaDataView>,
    args: Seq<(Seq<char>, Option<Seq<char>>)>,
    k: int,
) -> bool {
    record_of(rv, args[k].0) is Some && working(asked_record(rv, args, k), args[k].1)
}

/// `s` is what an asked-for package whose record is looked into resolves to.
pub open spec fn asked_entry(
    rv: Seq<InstalledMetaDataView>,
    args: Seq<(Seq<char>, Option<Seq<char>>)>,
    s: SpecificView,
) -> bool {
    exists|k: int|
        0 <= k < args.len() && #[trigger] asked_working(rv, args, k) && s == SpecificView {
            name: asked_record(rv, args, k).name,
            version: version_parse_spec(asked_record(rv, args, k).version)->Ok_0,
        }
}

/// Every dependency of an asked-for package (among the first `n`) whose
/// record is looked into is in `p`.
#[verifier::opaque]
pub open spec fn removal_deps_in(
    rv: Seq<InstalledMetaDataView>,
    args: Seq<(Seq<char>, Option<Seq<char>>)>,
    n: int,
    p: Seq<Seq<char>>,
) -> bool {
    forall|k: int, d: int|
        0 <= k < n && asked_working(rv, args, k) && 0 <= d < asked_record(rv, args, k).dependencies.len()
            ==> p.contains(#[trigger] asked_record(rv, args, k).dependencies[d].name)
}

/// Every dependency of a name in `p` that is looked into (see
/// [`expanded`]) is in `p`.
#[verifier::opaque]
pub open spec fn removal_closed(rv: Seq<InstalledMetaDataView>, p: Seq<Seq<char>>) -> bool {
    forall|i: int|
        0 <= i < p.len() && expanded(rv, #[trigger] p[i]) ==> forall|d: int|
            0 <= d < record_of(rv, p[i])->Some_0.dependencies.len() ==> p.contains(
                record_of(rv, p[i])->Some_0.dependencies[d].name,
            )
}

/// The `i`-th name of `p` is a dependency of an asked-for package (among the
/// first `n`) whose record is looked into, or of a name before it that is
/// looked into.
pub open spec fn found_at(
    rv: Seq<InstalledMetaDataView>,
    args: Seq<(Seq<char>, Option<Seq<char>>)>,
    n: int,
    p: Seq<Seq<char>>,
    i: int,
) -> bool {
    (exists|k: int|
        0 <= k < n && #[trigger] asked_working(rv, args, k) && depends_on(asked_record(rv, args, k), p[i]))
        || exists|j: int|
        0 <= j < i && expanded(rv, #[trigger] p[j]) && depends_on(record_of(rv, p[j])->Some_0, p[i])
}

/// Each name in `p` is found so (see [`found_at`]).
#[verifier::opaque]
pub open spec fn removal_found(
    rv: Seq<InstalledMetaDataView>,
    args: Seq<(Seq<char>, Option<Seq<char>>)>,
    n: int,
    p: Seq<Seq<char>>,
) -> bool {
    forall|i: int| 0 <= i < p.len() ==> #[trigger] found_at(rv, args, n, p, i)
}

/// `p` holds exactly the dependency names that removing the first `n`
/// asked-for packages reaches: closed under the dependencies looked into,
/// and each name reached from an asked-for package.
pub open spec fn removal_names(
    rv: Seq<InstalledMetaDataView>,
    args: Seq<(Seq<char>, Option<Seq<char>>)>,
    n: int,
    p: Seq<Seq<char>>,
) -> bool {
    &&& removal_deps_in(rv, args, n, p)
    &&& removal_closed(rv, p)
    &&& removal_found(rv, args, n, p)
}

/// The modified packages are exactly what the names in `p` resolve to.
pub open spec fn resolved_by(rv: Seq<InstalledMetaDataView>, p: Seq<Seq<char>>, sec: Seq<SpecificView>) -> bool {
    forall|x: SpecificView|
        #[trigger] sec.contains(x) <==> exists|i: int| 0 <= i < p.len() && resolves(rv, #[trigger] p[i]) == Some(x)
}

proof fn lemma_removal_deps(
    rv: Seq<InstalledMetaDataView>,
    av: Seq<(Seq<char>, Option<Seq<char>>)>,
    k: int,
    p0: Seq<Seq<char>>,
    p1: Seq<Seq<char>>,
)
    requires
        0 <= k < av.len(),
        forall|x: Seq<char>| p0.contains(x) ==> p1.contains(x),
        removal_deps_in(rv, av, k, p0),
        working(asked_record(rv, av, k), av[k].1) ==> forall|i: int|
            0 <= i < asked_record(rv, av, k).dependencies.len() ==> p1.contains(
                #[trigger] asked_record(rv, av, k).dependencies[i].name,
            ),
    ensures
        removal_deps_in(rv, av, k + 1, p1),
{
    reveal(removal_deps_in);
    assert forall|kk: int, d: int|
        0 <= kk < k + 1 && asked_working(rv, av, kk) && 0 <= d < asked_record(rv, av, kk).dependencies.len()
            implies p1.contains(#[trigger] asked_record(rv, av, kk).dependencies[d].name) by {
        if kk < k {
            assert(p0.contains(asked_record(rv, av, kk).dependencies[d].name));
        }
    }
}

proof fn lemma_removal_closed(
    rv: Seq<InstalledMetaDataView>,
    p0: Seq<Seq<char>>,
    p1: Seq<Seq<char>>,
)
    requires
        forall|i: int| 0 <= i < p0.len() ==> p1[i] == p0[i],
        p0.len() <= p1.len(),
        forall|x: Seq<char>| p0.contains(x) ==> p1.contains(x),
        removal_closed(rv, p0),
        forall|i: int|
            p0.len() <= i < p1.len() ==> (expanded(rv, #[trigger] p1[i]) ==> forall|d: int|
                0 <= d < record_of(rv, p1[i])->Some_0.dependencies.len() ==> p1.contains(
                    record_of(rv, p1[i])->Some_0.dependencies[d].name,
                )),
    ensures
        removal_closed(rv, p1),
{
    reveal(removal_closed);
    assert forall|i: int| 0 <= i < p1.len() && expanded(rv, #[trigger] p1[i]) implies forall|d: int|
        0 <= d < record_of(rv, p1[i])->Some_0.dependencies.len() ==> p1.contains(
            record_of(rv, p1[i])->Some_0.dependencies[d].name,
        ) by {
        if i < p0.len() {
            assert(p1[i] == p0[i]);
            assert(expanded(rv, p0[i]));
        }
    }
}

proof fn lemma_found_old(
    rv: Seq<InstalledMetaDataView>,
    av: Seq<(Seq<char>, Option<Seq<char>>)>,
    k: int,
    p0: Seq<Seq<char>>,
    p1: Seq<Seq<char>>,
    i: int,
)
    requires
        0 <= i < p0.len() <= p1.len(),
        forall|j: int| 0 <= j < p0.len() ==> p1[j] == p0[j],
        found_at(rv, av, k, p0, i),
    ensures
        found_at(rv, av, k + 1, p1, i),
{
    assert(p1[i] == p0[i]);
    if exists|kk: int|
        0 <= kk < k && #[trigger] asked_working(rv, av, kk) && depends_on(asked_record(rv, av, kk), p0[i]) {
        let kk = choose|kk: int|
            0 <= kk < k && #[trigger] asked_working(rv, av, kk) && depends_on(asked_record(rv, av, kk), p0[i]);
        assert(0 <= kk < k + 1 && asked_working(rv, av, kk) && depends_on(asked_record(rv, av, kk), p1[i]));
    } else {
        let j = choose|j: int|
            0 <= j < i && expanded(rv, #[trigger] p0[j]) && depends_on(record_of(rv, p0[j])->Some_0, p0[i]);
        assert(p1[j] == p0[j]);
        assert(0 <= j < i && expanded(rv, p1[j]) && depends_on(record_of(rv, p1[j])->Some_0, p1[i]));
    }
}

proof fn lemma_found_new(
    rv: Seq<InstalledMetaDataView>,
    av: Seq<(Seq<char>, Option<Seq<char>>)>,
    k: int,
    p0: Seq<Seq<char>>,
    p1: Seq<Seq<char>>,
    i: int,
)
    requires
        0 <= k < av.len(),
        p0.len() <= i < p1.len(),
        record_of(rv, av[k].0) is Some,
        (working(asked_record(rv, av, k), av[k].1) && depends_on(asked_record(rv, av, k), p1[i]))
            || exists|j: int|
            p0.len() <= j < i && expanded(rv, #[trigger] p1[j]) && depends_on(record_of(rv, p1[j])->Some_0, p1[i]),
    ensures
        found_at(rv, av, k + 1, p1, i),
{
    if working(asked_record(rv, av, k), av[k].1) && depends_on(asked_record(rv, av, k), p1[i]) {
        assert(asked_working(rv, av, k));
        assert(0 <= k < k + 1 && asked_working(rv, av, k) && depends_on(asked_record(rv, av, k), p1[i]));
    } else {
        let j = choose|j: int|
            p0.len() <= j < i && expanded(rv, #[trigger] p1[j]) && depends_on(record_of(rv, p1[j])->Some_0, p1[i]);
        assert(0 <= j < i && expanded(rv, p1[j]) && depends_on(record_of(rv, p1[j])->Some_0, p1[i]));
    }
}

proof fn lemma_removal_found(
    rv: Seq<InstalledMetaDataView>,
    av: Seq<(Seq<char>, Option<Seq<char>>)>,
    k: int,
    p0: Seq<Seq<char>>,
    p1: Seq<Seq<char>>,
)
    requires
        0 <= k < av.len(),
        forall|i: int| 0 <= i < p0.len() ==> p1[i] == p0[i],
        p0.len() <= p1.len(),
        record_of(rv, av[k].0) is Some,
        removal_found(rv, av, k, p0),
        forall|i: int|
            p0.len() <= i < p1.len() ==> (working(asked_record(rv, av, k), av[k].1) && depends_on(
                asked_record(rv, av, k),
                #[trigger] p1[i],
            )) || exists|j: int|
                p0.len() <= j < i && expanded(rv, #[trigger] p1[j]) && depends_on(
                    record_of(rv, p1[j])->Some_0,
                    p1[i],
                ),
    ensures
        removal_found(rv, av, k + 1, p1),
{
    reveal(removal_found);
    assert forall|i: int| 0 <= i < p1.len() implies #[trigger] found_at(rv, av, k + 1, p1, i) by {
        if i < p0.len() {
            lemma_found_old(rv, av, k, p0, p1, i);
        } else {
            assert(p1[i] == p1[i]);
            lemma_found_new(rv, av, k, p0, p1, i);
        }
    }
}

proof fn lemma_prefix_same(p0: Seq<Seq<char>>, p1: Seq<Seq<char>>)
    requires
        str_extends(p1, p0),
    ensures
        p0.len() <= p1.len(),
        forall|i: int| 0 <= i < p0.len() ==> p1[i] == p0[i],
        forall|x: Seq<char>| p0.contains(x) ==> p1.contains(x),
{
    lemma_extends_names(p1, p0);
    assert forall|i: int| 0 <= i < p0.len() implies p1[i] == p0[i] by {
        assert(p1.subrange(0, p0.len() as int)[i] == p0[i]);
    }
}

#[verifier::rlimit(40)]
proof fn lemma_removal_step(
    rv: Seq<InstalledMetaDataView>,
    av: Seq<(Seq<char>, Option<Seq<char>>)>,
    k: int,
    p0: Seq<Seq<char>>,
    p1: Seq<Seq<char>>,
    q: QueuedChangesView,
)
    requires
        0 <= k < av.len(),
        removal_names(rv, av, k, p0),
        str_extends(p1, p0),
        record_of(rv, av[k].0) is Some,
        collected_local(rv, asked_record(rv, av, k), av[k].1, true, p0, p1, q),
    ensures
        removal_names(rv, av, k + 1, p1),
{
    lemma_prefix_same(p0, p1);
    lemma_removal_deps(rv, av, k, p0, p1);
    lemma_removal_closed(rv, p0, p1);
    lemma_removal_found(rv, av, k, p0, p1);
}

proof fn lemma_resolved_step(
    rv: Seq<InstalledMetaDataView>,
    p0: Seq<Seq<char>>,
    p1: Seq<Seq<char>>,
    sec0: Seq<SpecificView>,
    qsec: Seq<SpecificView>,
)
    requires
        str_extends(p1, p0),
        no_dups(sec0),
        resolved_by(rv, p0, sec0),
        forall|x: SpecificView|
            #[trigger] qsec.contains(x) ==> exists|i: int|
                p0.len() <= i < p1.len() && resolves(rv, #[trigger] p1[i]) == Some(x),
        forall|i: int|
            p0.len() <= i < p1.len() && resolves(rv, #[trigger] p1[i]) is Some ==> qsec.contains(
                resolves(rv, p1[i])->Some_0,
            ),
    ensures
        no_dups(crate::queue::add_all(sec0, qsec)),
        resolved_by(rv, p1, crate::queue::add_all(sec0, qsec)),
{
    let all = crate::queue::add_all(sec0, qsec);
    crate::queue::lemma_add_all(sec0, qsec);
    assert forall|i: int| 0 <= i < p0.len() implies p1[i] == p0[i] by {
        assert(p1.subrange(0, p0.len() as int)[i] == p0[i]);
    }
    assert forall|x: SpecificView| #[trigger] all.contains(x) <==> exists|i: int|
        0 <= i < p1.len() && resolves(rv, #[trigger] p1[i]) == Some(x) by {
        assert(all.to_set().contains(x) == all.contains(x));
        assert(sec0.to_set().contains(x) == sec0.contains(x));
        assert(qsec.to_set().contains(x) == qsec.contains(x));
        if exists|i: int| 0 <= i < p1.len() && resolves(rv, #[trigger] p1[i]) == Some(x) {
            let i = choose|i: int| 0 <= i < p1.len() && resolves(rv, #[trigger] p1[i]) == Some(x);
            if i < p0.len() {
                assert(p1[i] == p0[i]);
                assert(sec0.contains(x));
            } else {
                assert(qsec.contains(x));
            }
        }
        if sec0.contains(x) {
            let i = choose|i: int| 0 <= i < p0.len() && resolves(rv, #[trigger] p0[i]) == Some(x);
            assert(p1[i] == p0[i]);
        }
    }
}

/// Every package queued for removal is an asked-for package (see
/// [`asked_entry`]) or a dependent of a modified package or of a package
/// queued before it.
pub open spec fn removal_reached(
    rv: Seq<InstalledMetaDataView>,
    args: Seq<(Seq<char>, Option<Seq<char>>)>,
    prim: Seq<SpecificView>,
    sec: Seq<SpecificView>,
) -> bool {
    forall|i: int|
        #![trigger prim[i]]
        0 <= i < prim.len() ==> asked_entry(rv, args, prim[i]) || (exists|j: int|
            0 <= j < sec.len() && dependents_of(rv, #[trigger] sec[j]).contains(prim[i])) || exists|
            j: int,
        | 0 <= j < i && dependents_of(rv, #[trigger] prim[j]).contains(prim[i])
}

proof fn lemma_asked_entries(
    rv: Seq<InstalledMetaDataView>,
    av: Seq<(Seq<char>, Option<Seq<char>>)>,
    k: int,
    before: Seq<SpecificView>,
    mine: Seq<SpecificView>,
)
    requires
        0 <= k < av.len(),
        no_dups(before),
        forall|i: int| 0 <= i < before.len() ==> asked_entry(rv, av, #[trigger] before[i]),
        mine == (if asked_working(rv, av, k) {
            seq![
                SpecificView {
                    name: asked_record(rv, av, k).name,
                    version: version_parse_spec(asked_record(rv, av, k).version)->Ok_0,
                },
            ]
        } else {
            Seq::<SpecificView>::empty()
        }),
    ensures
        forall|i: int|
            0 <= i < crate::queue::add_all(before, mine).len() ==> asked_entry(
                rv,
                av,
                #[trigger] crate::queue::add_all(before, mine)[i],
            ),
{
    let after = crate::queue::add_all(before, mine);
    crate::queue::lemma_add_all(before, mine);
    assert forall|i: int| 0 <= i < after.len() implies asked_entry(rv, av, #[trigger] after[i]) by {
        assert(after.to_set().contains(after[i]));
        if before.contains(after[i]) {
            let j = choose|j: int| 0 <= j < before.len() && before[j] == after[i];
            assert(asked_entry(rv, av, before[j]));
        } else {
            assert(mine.to_set().contains(after[i]));
            assert(mine.contains(after[i]));
            assert(asked_working(rv, av, k));
            assert(mine[0] == after[i]);
        }
    }
}

proof fn lemma_removal_reached(
    rv: Seq<InstalledMetaDataView>,
    av: Seq<(Seq<char>, Option<Seq<char>>)>,
    p0: Seq<SpecificView>,
    sec: Seq<SpecificView>,
    p1: Seq<SpecificView>,
)
    requires
        forall|i: int| 0 <= i < p0.len() ==> asked_entry(rv, av, #[trigger] p0[i]),
        extends(p1, p0),
        reached_from(rv, p0 + sec, p0, p1),
    ensures
        removal_reached(rv, av, p1, sec),
{
    let all = p0 + sec;
    assert forall|i: int| #![trigger p1[i]] 0 <= i < p1.len() implies asked_entry(rv, av, p1[i]) || (exists|j: int|
        0 <= j < sec.len() && dependents_of(rv, #[trigger] sec[j]).contains(p1[i])) || exists|j: int|
        0 <= j < i && dependents_of(rv, #[trigger] p1[j]).contains(p1[i]) by {
        if i < p0.len() {
            assert(p1.subrange(0, p0.len() as int)[i] == p0[i]);
            assert(asked_entry(rv, av, p0[i]));
        } else {
            if exists|j: int| 0 <= j < all.len() && dependents_of(rv, #[trigger] all[j]).contains(p1[i]) {
                let j = choose|j: int| 0 <= j < all.len() && dependents_of(rv, #[trigger] all[j]).contains(p1[i]);
                if j < p0.len() {
                    assert(all[j] == p0[j]);
                    assert(p1.subrange(0, p0.len() as int)[j] == p0[j]);
                    assert(p1[j] == all[j]);
                } else {
                    assert(all[j] == sec[j - p0.len()]);
                }
            }
        }
    }
}

impl QueuedChanges {
    /// Plans the removal of the asked-for packages (name and, optionally,
    /// version), as the installed `records` show: each package with what it
    /// takes along (see [`get_local_pkg`]), then every package depending on
    /// those queued (see [`QueuedChanges::dependents`]). On success each
    /// asked-for package whose record is looked into is queued, every queued
    /// package is one of those or reached from them through dependents (see
    /// [`removal_reached`]), and the modified packages are exactly what the
    /// dependency names reached resolve to (see [`removal_names`] and
    /// [`resolved_by`]); a package that is not installed fails the plan.
    pub fn get_local_pkgs(args: &Vec<(String, Option<String>)>, records: &Vec<InstalledMetaData>) -> (r:
        Result<QueuedChanges, RemovalError>)
        ensures
            match r {
                Ok(q) => forall|k: int|
                    0 <= k < args@.len() ==> asked_and_queued(
                        record_views(records@),
                        (#[trigger] args@[k]).0@,
                        opt_string_view(
                            match &args@[k].1 {
                                Some(v) => Some(v),
                                None => None,
                            },
                        ),
                        q@.primary,
                    ) && no_dups(q@.primary) && (forall|i: int|
                    0 <= i < q@.primary.len() ==> good(record_views(records@), #[trigger] q@.primary[i])
                        && forall|x: SpecificView|
                        dependents_of(record_views(records@), q@.primary[i]).contains(x)
                            ==> q@.primary.contains(x)) && (forall|i: int|
                    0 <= i < q@.secondary.len() ==> good(record_views(records@), #[trigger] q@.secondary[i])
                        && forall|x: SpecificView|
                        dependents_of(record_views(records@), q@.secondary[i]).contains(x)
                            ==> q@.primary.contains(x)) && no_dups(q@.secondary) && (exists|p: Seq<Seq<char>>|
                    #[trigger] removal_names(
                        record_views(records@),
                        crate::commands::pair_views(args@),
                        args@.len() as int,
                        p,
                    ) && resolved_by(record_views(records@), p, q@.secondary)) && removal_reached(
                    record_views(records@),
                    crate::commands::pair_views(args@),
                    q@.primary,
                    q@.secondary,
                ),
                Err(RemovalError::Local(LocalError::NotInstalled(n))) => exists|k: int|
                    0 <= k < args@.len() && (#[trigger] args@[k]).0@ == n@ && record_of(
                        record_views(records@),
                        n@,
                    ) is None,
                Err(RemovalError::Local(LocalError::BadVersion(e))) => exists|k: int|
                    0 <= k < args@.len() && (record_of(record_views(records@), (#[trigger] args@[k]).0@) matches Some(m)
                        && working(
                        m,
                        opt_string_view(
                            match &args@[k].1 {
                                Some(v) => Some(v),
                                None => None,
                            },
                        ),
                    ) && version_parse_spec(m.version) == Err::<VersionView, ParseErrorView>(e@)),
                Err(RemovalError::Dependents(e)) => (forall|k: int|
                    0 <= k < args@.len() ==> record_of(record_views(records@), (#[trigger] args@[k]).0@) is Some)
                    && exists|x: SpecificView| !good(record_views(records@), x) && e@ == #[trigger] blame(
                    record_views(records@),
                    x,
                ),
            },
    {
        let ghost rv = record_views(records@);
        let ghost av = crate::commands::pair_views(args@);
        let mut prior: Vec<String> = Vec::new();
        let mut result = QueuedChanges::new();
        let mut k: usize = 0;
        assert(result@.secondary =~= Seq::<SpecificView>::empty());
        assert(result@.primary =~= Seq::<SpecificView>::empty());
        assert(string_views(prior@) =~= Seq::<Seq<char>>::empty());
        assert(removal_names(rv, av, 0, string_views(prior@))) by {
            reveal(removal_deps_in);
            reveal(removal_closed);
            reveal(removal_found);
        }
        while k < args.len()
            invariant
                k <= args.len(),
                rv == record_views(records@),
                av == crate::commands::pair_views(args@),
                no_dups(result@.primary),
                no_dups(result@.secondary),
                removal_names(rv, av, k as int, string_views(prior@)),
                resolved_by(rv, string_views(prior@), result@.secondary),
                forall|i: int| 0 <= i < result@.primary.len() ==> asked_entry(rv, av, #[trigger] result@.primary[i]),
                forall|j: int|
                    0 <= j < k ==> asked_and_queued(
                        rv,
                        (#[trigger] args@[j]).0@,
                        opt_string_view(
                            match &args@[j].1 {
                                Some(v) => Some(v),
                                None => None,
                            },
                        ),
                        result@.primary,
                    ),
            decreases args.len() - k,
        {
            let ver: Option<&String> = match &args[k].1 {
                Some(v) => Some(v),
                None => None,
            };
            let ghost p0_loop = string_views(prior@);
            let items = match get_local_pkg(&args[k].0, ver, &mut prior, true, records) {
                Ok(q) => q,
                Err(e) => {
                    proof {
                        assert(ver == match &args@[k as int].1 {
                            Some(v) => Some(v),
                            None => None::<&String>,
                        });
                    }
                    return Err(RemovalError::Local(e));
                },
            };
            let ghost before = result@.primary;
            let ghost sec0 = result@.secondary;
            let ghost mine = items@.primary;
            let ghost iq = items@;
            let ghost p1 = string_views(prior@);
            proof {
                assert(av[k as int].0 == args@[k as int].0@);
                assert(av[k as int].1 == opt_string_view(ver));
                assert(asked_record(rv, av, k as int) == record_of(rv, args@[k as int].0@)->Some_0);
                lemma_removal_step(rv, av, k as int, p0_loop, p1, iq);
                lemma_resolved_step(rv, p0_loop, p1, sec0, iq.secondary);
            }
            result.extend(items);
            proof {
                crate::queue::lemma_add_all(before, mine);
                let after = result@.primary;
                assert forall|y: SpecificView| before.contains(y) || mine.contains(y) implies after.contains(y) by {
                    assert(after.to_set().contains(y) == after.contains(y));
                    assert(before.to_set().contains(y) == before.contains(y));
                    assert(mine.to_set().contains(y) == mine.contains(y));
                }
                let m = record_of(rv, args@[k as int].0@)->Some_0;
                if working(m, opt_string_view(ver)) {
                    assert(mine[0] == SpecificView { name: m.name, version: version_parse_spec(m.version)->Ok_0 });
                }
                lemma_asked_entries(rv, av, k as int, before, mine);
            }
            k += 1;
        }
        let ghost before = result@.primary;
        let ghost before_sec = result@.secondary;
        match result.dependents(records) {
            Ok(()) => {},
            Err(e) => {
                proof {
                    let all = before + before_sec;
                    let p1 = result@.primary;
                    if exists|j: int| 0 <= j < all.len() && #[trigger] blamed(rv, all[j], before, p1, e@) {
                        let j = choose|j: int| 0 <= j < all.len() && #[trigger] blamed(rv, all[j], before, p1, e@);
                        if !good(rv, all[j]) && e@ == blame(rv, all[j]) {
                            assert(!good(rv, all[j]) && e@ == blame(rv, all[j]));
                        } else {
                            let i = choose|i: int| before.len() <= i < p1.len() && !good(rv, #[trigger] p1[i]) && e@ == blame(rv, p1[i]);
                            assert(!good(rv, p1[i]) && e@ == blame(rv, p1[i]));
                        }
                    } else {
                        let i = choose|i: int| before.len() <= i < p1.len() && !good(rv, #[trigger] p1[i]) && e@ == blame(rv, p1[i]);
                        assert(!good(rv, p1[i]) && e@ == blame(rv, p1[i]));
                    }
                }
                return Err(RemovalError::Dependents(e));
            },
        }
        proof {
            lemma_extends_contains(result@.primary, before);
            let all = before + before_sec;
            let p1 = result@.primary;
            lemma_removal_reached(rv, av, before, before_sec, p1);
            assert(removal_names(rv, av, args@.len() as int, string_views(prior@)));
            assert forall|i: int| 0 <= i < p1.len() implies good(rv, #[trigger] p1[i]) && forall|x: SpecificView|
                dependents_of(rv, p1[i]).contains(x) ==> p1.contains(x) by {
                if i < before.len() {
                    assert(p1.subrange(0, before.len() as int)[i] == before[i]);
                    assert(all[i] == before[i]);
                }
            }
            assert forall|i: int| 0 <= i < result@.secondary.len() implies good(rv, #[trigger] result@.secondary[i]) && forall|x: SpecificView|
                dependents_of(rv, result@.secondary[i]).contains(x) ==> p1.contains(x) by {
                assert(all[before.len() + i] == before_sec[i]);
            }
        }
        Ok(result)
    }
}

} // verus!
