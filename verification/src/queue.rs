//! Sets of packages queued for removal, and the trees of packages queued for
//! installation.
use vstd::prelude::*;
use crate::depend::{
    as_dep_ver_spec, contains_string, depver_views, DepVer, DepVerView, DependKind,
    DependKindView, Specific, SpecificView, specific_views,
};
use crate::errors::{ParseError, ParseErrorView};
use crate::range::{range_negotiate_spec, Range, RangeView};
use crate::verreq::{opt_range_view, VerReq, VerReqView};
use crate::version::{version_lt, version_parse_spec, Version, VersionView};
use crate::metadata::{needed_dep_vers, ProcessedMetaData, ProcessedMetaDataView};
use crate::text::string_views;

verus! {

// ---------------------------------------------------------------------------
// Duplicate-free sequences
// ---------------------------------------------------------------------------

/// No element occurs twice.
pub open spec fn no_dups<T>(s: Seq<T>) -> bool {
    forall|i: int, j: int| 0 <= i < j < s.len() ==> s[i] != s[j]
}

/// `s` with `x` added at the end, unless it is already there.
pub open spec fn add_one<T>(s: Seq<T>, x: T) -> Seq<T> {
    if s.contains(x) {
        s
    } else {
        s.push(x)
    }
}

/// `s` with the elements of `t` added in turn (see [`add_one`]).
pub open spec fn add_all<T>(s: Seq<T>, t: Seq<T>) -> Seq<T>
    decreases t.len(),
{
    if t.len() == 0 {
        s
    } else {
        add_one(add_all(s, t.drop_last()), t.last())
    }
}

/// Adding one element keeps a sequence free of duplicates and adds exactly
/// that element to its set.
pub proof fn lemma_add_one<T>(s: Seq<T>, x: T)
    requires
        no_dups(s),
    ensures
        no_dups(add_one(s, x)),
        add_one(s, x).to_set() == s.to_set().insert(x),
{
    if !s.contains(x) {
        assert forall|i: int, j: int|
            0 <= i < j < s.push(x).len() implies s.push(x)[i] != s.push(x)[j] by {
            if j == s.len() {
                assert(s[i] == s.push(x)[i]);
            }
        }
    }
    assert(add_one(s, x).to_set() =~= s.to_set().insert(x)) by {
        assert forall|y: T| add_one(s, x).to_set().contains(y) <==> s.to_set().insert(x).contains(
            y,
        ) by {
            if !s.contains(x) {
                if s.push(x).contains(y) {
                    let k = choose|k: int| 0 <= k < s.push(x).len() && s.push(x)[k] == y;
                    if k < s.len() {
                        assert(s[k] == y);
                    }
                }
                if s.contains(y) {
                    let k = choose|k: int| 0 <= k < s.len() && s[k] == y;
                    assert(s.push(x)[k] == y);
                }
                if y == x {
                    assert(s.push(x)[s.len() as int] == x);
                }
            }
        }
    }
}

/// Adding a sequence is set union, and keeps the result free of duplicates.
pub proof fn lemma_add_all<T>(s: Seq<T>, t: Seq<T>)
    requires
        no_dups(s),
    ensures
        no_dups(add_all(s, t)),
        add_all(s, t).to_set() == s.to_set().union(t.to_set()),
    decreases t.len(),
{
    if t.len() == 0 {
        assert(t.to_set() =~= Set::<T>::empty());
        assert(s.to_set().union(t.to_set()) =~= s.to_set());
    } else {
        lemma_add_all(s, t.drop_last());
        lemma_add_one(add_all(s, t.drop_last()), t.last());
        assert(t =~= t.drop_last().push(t.last()));
        t.drop_last().lemma_push_to_set_commute(t.last());
        assert(s.to_set().union(t.drop_last().to_set()).insert(t.last()) =~= s.to_set().union(
            t.to_set(),
        ));
    }
}

// ---------------------------------------------------------------------------
// QueuedChanges
// ---------------------------------------------------------------------------

/// Packages queued for removal: the ones asked for (`primary`) and the
/// dependencies that are modified on the way (`secondary`). Each holds a
/// package at most once.
#[derive(Debug, PartialEq)]
pub struct QueuedChanges {
    pub primary: Vec<Specific>,
    pub secondary: Vec<Specific>,
}

pub struct QueuedChangesView {
    pub primary: Seq<SpecificView>,
    pub secondary: Seq<SpecificView>,
}

impl View for QueuedChanges {
    type V = QueuedChangesView;

    open spec fn view(&self) -> QueuedChangesView {
        QueuedChangesView {
            primary: specific_views(self.primary@),
            secondary: specific_views(self.secondary@),
        }
    }
}

impl QueuedChanges {
    /// Neither list holds a package twice.
    pub open spec fn wf(&self) -> bool {
        no_dups(self@.primary) && no_dups(self@.secondary)
    }
}

/// Whether `x` is among `v`.
pub(crate) fn contains_specific(v: &Vec<Specific>, x: &Specific) -> (b: bool)
    ensures
        b == specific_views(v@).contains(x@),
{
    let mut i: usize = 0;
    while i < v.len()
        invariant
            i <= v.len(),
            forall|j: int| 0 <= j < i ==> v@[j]@ != x@,
        decreases v.len() - i,
    {
        if v[i].same(x) {
            assert(specific_views(v@)[i as int] == x@);
            return true;
        }
        i += 1;
    }
    proof {
        if specific_views(v@).contains(x@) {
            let k = choose|k: int| 0 <= k < specific_views(v@).len() && specific_views(v@)[k] == x@;
            assert(v@[k]@ == x@);
        }
    }
    false
}

/// Adds `x` to `v` unless it is there already; says whether it was added.
fn add_specific(v: &mut Vec<Specific>, x: Specific) -> (added: bool)
    ensures
        added == !specific_views(old(v)@).contains(x@),
        specific_views(final(v)@) == add_one(specific_views(old(v)@), x@),
{
    if contains_specific(v, &x) {
        false
    } else {
        let ghost before = specific_views(v@);
        let ghost xv = x@;
        v.push(x);
        assert(specific_views(v@) =~= before.push(xv));
        true
    }
}

/// Adds each of `xs` to `v` in turn (see [`add_all`]).
fn add_specifics(v: &mut Vec<Specific>, xs: &Vec<Specific>)
    ensures
        specific_views(final(v)@) == add_all(specific_views(old(v)@), specific_views(xs@)),
{
    let ghost start = specific_views(v@);
    let mut i: usize = 0;
    while i < xs.len()
        invariant
            i <= xs.len(),
            specific_views(v@) == add_all(start, specific_views(xs@).subrange(0, i as int)),
        decreases xs.len() - i,
    {
        let x = xs[i].clone();
        add_specific(v, x);
        assert(specific_views(xs@).subrange(0, i + 1).drop_last() =~= specific_views(
            xs@,
        ).subrange(0, i as int));
        i += 1;
    }
    assert(specific_views(xs@).subrange(0, xs.len() as int) =~= specific_views(xs@));
}

impl QueuedChanges {
    /// An empty queue.
    pub fn new() -> (q: QueuedChanges)
        ensures
            q@.primary.len() == 0,
            q@.secondary.len() == 0,
            q.wf(),
    {
        QueuedChanges { primary: Vec::new(), secondary: Vec::new() }
    }

    /// Adds the packages of `other` to this queue, each list to its
    /// counterpart, skipping the ones already queued.
    pub fn extend(&mut self, other: QueuedChanges)
        ensures
            final(self)@.primary == add_all(old(self)@.primary, other@.primary),
            final(self)@.secondary == add_all(old(self)@.secondary, other@.secondary),
    {
        add_specifics(&mut self.primary, &other.primary);
        add_specifics(&mut self.secondary, &other.secondary);
    }

    /// Queues a package asked for; says whether it was not queued yet.
    pub fn insert_primary(&mut self, other: Specific) -> (added: bool)
        ensures
            added == !old(self)@.primary.contains(other@),
            final(self)@.primary == add_one(old(self)@.primary, other@),
            final(self)@.secondary == old(self)@.secondary,
    {
        add_specific(&mut self.primary, other)
    }

    /// Queues a dependency that the removal modifies.
    pub fn insert_secondary(&mut self, other: Specific)
        ensures
            final(self)@.secondary == add_one(old(self)@.secondary, other@),
            final(self)@.primary == old(self)@.primary,
    {
        add_specific(&mut self.secondary, other);
    }

    /// Whether no package is queued for removal.
    pub fn is_empty(&self) -> (b: bool)
        ensures
            b == (self@.primary.len() == 0),
    {
        self.primary.len() == 0
    }

    /// Whether removals modify other packages.
    pub fn has_deps(&self) -> (b: bool)
        ensures
            b == (self@.secondary.len() != 0),
    {
        self.secondary.len() != 0
    }
}

impl Default for QueuedChanges {
    fn default() -> (q: QueuedChanges)
        ensures
            q@.primary.len() == 0,
            q@.secondary.len() == 0,
    {
        QueuedChanges::new()
    }
}

/// Queueing keeps each list free of duplicates: after `extend`, each list
/// holds exactly the packages it held or `other` held, each once.
pub proof fn lemma_extend_is_union(q: QueuedChangesView, other: QueuedChangesView)
    requires
        no_dups(q.primary),
        no_dups(q.secondary),
    ensures
        no_dups(add_all(q.primary, other.primary)),
        no_dups(add_all(q.secondary, other.secondary)),
        add_all(q.primary, other.primary).to_set() == q.primary.to_set().union(
            other.primary.to_set(),
        ),
        add_all(q.secondary, other.secondary).to_set() == q.secondary.to_set().union(
            other.secondary.to_set(),
        ),
{
    lemma_add_all(q.primary, other.primary);
    lemma_add_all(q.secondary, other.secondary);
}

/// Inserting a package keeps the list free of duplicates, reports whether
/// it was new, and leaves it queued.
pub proof fn lemma_insert_keeps_wf(s: Seq<SpecificView>, x: SpecificView)
    requires
        no_dups(s),
    ensures
        no_dups(add_one(s, x)),
        add_one(s, x).contains(x),
        add_one(s, x).to_set() == s.to_set().insert(x),
{
    lemma_add_one(s, x);
    if !s.contains(x) {
        assert(s.push(x)[s.len() as int] == x);
    }
}

// ---------------------------------------------------------------------------
// InstallPackage
// ---------------------------------------------------------------------------

/// A package to install with the trees of its build and runtime
/// dependencies.
#[derive(Debug)]
pub struct InstallPackage {
    pub metadata: ProcessedMetaData,
    pub build_deps: Vec<InstallPackage>,
    pub run_deps: Vec<InstallPackage>,
}

/// The names in a package's runtime tree: its own and those of its runtime
/// dependencies, recursively.
pub open spec fn run_names(p: InstallPackage) -> Set<Seq<char>>
    decreases p,
{
    set![p.metadata.name@].union(forest_run_names(p.run_deps@))
}

/// The names in the runtime trees of a list of packages.
pub open spec fn forest_run_names(s: Seq<InstallPackage>) -> Set<Seq<char>>
    decreases s,
{
    if s.len() == 0 {
        Set::empty()
    } else {
        forest_run_names(s.drop_last()).union(run_names(s.last()))
    }
}

/// The metadata of a package tree in installation order: the build
/// dependencies' trees, then the runtime dependencies' trees, then the
/// package itself.
pub open spec fn collected(p: InstallPackage) -> Seq<ProcessedMetaDataView>
    decreases p,
{
    forest_collected(p.build_deps@) + forest_collected(p.run_deps@) + seq![p.metadata@]
}

/// The metadata of a list of package trees, one tree after another.
pub open spec fn forest_collected(s: Seq<InstallPackage>) -> Seq<ProcessedMetaDataView>
    decreases s,
{
    if s.len() == 0 {
        Seq::empty()
    } else {
        forest_collected(s.drop_last()) + collected(s.last())
    }
}

pub open spec fn metadata_views(s: Seq<ProcessedMetaData>) -> Seq<ProcessedMetaDataView> {
    s.map_values(|x: ProcessedMetaData| x@)
}

/// Adds each of `xs` to `v` in turn, skipping those already there.
fn add_strings(v: &mut Vec<String>, xs: &Vec<String>)
    ensures
        string_views(final(v)@) == add_all(string_views(old(v)@), string_views(xs@)),
{
    let ghost start = string_views(v@);
    let mut i: usize = 0;
    while i < xs.len()
        invariant
            i <= xs.len(),
            string_views(v@) == add_all(start, string_views(xs@).subrange(0, i as int)),
        decreases xs.len() - i,
    {
        let x = xs[i].clone();
        let ghost before = string_views(v@);
        if !contains_string(v, &x) {
            v.push(x);
            assert(string_views(v@) =~= before.push(xs@[i as int]@));
        }
        assert(string_views(xs@).subrange(0, i + 1).drop_last() =~= string_views(xs@).subrange(
            0,
            i as int,
        ));
        i += 1;
    }
    assert(string_views(xs@).subrange(0, xs.len() as int) =~= string_views(xs@));
}

impl InstallPackage {
    /// The names of the packages in the runtime tree, each once; with `top`
    /// the tree's root itself is left out (unless a dependency has its name).
    pub fn list_deps(&self, top: bool) -> (r: Vec<String>)
        ensures
            no_dups(string_views(r@)),
            string_views(r@).to_set() == (if top {
                forest_run_names(self.run_deps@)
            } else {
                run_names(*self)
            }),
        decreases self,
    {
        let mut data: Vec<String> = Vec::new();
        if !top {
            data.push(self.metadata.name.clone());
        }
        let ghost base: Set<Seq<char>> = if top {
            Set::empty()
        } else {
            set![self.metadata.name@]
        };
        proof {
            if top {
                assert(string_views(data@).to_set() =~= base);
            } else {
                assert(string_views(data@) =~= seq![self.metadata.name@]);
                assert(seq![self.metadata.name@].to_set() =~= base) by {
                    assert(seq![self.metadata.name@][0] == self.metadata.name@);
                }
            }
            assert(self.run_deps@.subrange(0, 0) =~= Seq::<InstallPackage>::empty());
            assert(base.union(Set::<Seq<char>>::empty()) =~= base);
        }
        let mut i: usize = 0;
        while i < self.run_deps.len()
            invariant
                i <= self.run_deps.len(),
                no_dups(string_views(data@)),
                string_views(data@).to_set() == base.union(
                    forest_run_names(self.run_deps@.subrange(0, i as int)),
                ),
            decreases self.run_deps.len() - i,
        {
            let sub = self.run_deps[i].list_deps(false);
            let ghost before = string_views(data@);
            add_strings(&mut data, &sub);
            proof {
                lemma_add_all(before, string_views(sub@));
                let pre = self.run_deps@.subrange(0, i + 1);
                assert(pre.drop_last() =~= self.run_deps@.subrange(0, i as int));
                assert(pre.last() == self.run_deps@[i as int]);
                assert(base.union(forest_run_names(pre)) =~= base.union(
                    forest_run_names(self.run_deps@.subrange(0, i as int)),
                ).union(run_names(self.run_deps@[i as int])));
            }
            i += 1;
        }
        proof {
            assert(self.run_deps@.subrange(0, self.run_deps.len() as int) =~= self.run_deps@);
            if top {
                assert(base.union(forest_run_names(self.run_deps@)) =~= forest_run_names(
                    self.run_deps@,
                ));
            }
        }
        data
    }

    /// Appends the metadata of this tree, in installation order, to `out`.
    fn collect_into(&self, out: &mut Vec<ProcessedMetaData>)
        ensures
            metadata_views(final(out)@) == metadata_views(old(out)@) + collected(*self),
        decreases self,
    {
        let ghost start = metadata_views(out@);
        let mut i: usize = 0;
        assert(self.build_deps@.subrange(0, 0) =~= Seq::<InstallPackage>::empty());
        assert(start + Seq::<ProcessedMetaDataView>::empty() =~= start);
        while i < self.build_deps.len()
            invariant
                i <= self.build_deps.len(),
                metadata_views(out@) == start + forest_collected(
                    self.build_deps@.subrange(0, i as int),
                ),
            decreases self.build_deps.len() - i,
        {
            let ghost before = metadata_views(out@);
            self.build_deps[i].collect_into(out);
            proof {
                let pre = self.build_deps@.subrange(0, i + 1);
                assert(pre.drop_last() =~= self.build_deps@.subrange(0, i as int));
                assert(pre.last() == self.build_deps@[i as int]);
                assert(metadata_views(out@) =~= start + forest_collected(pre));
            }
            i += 1;
        }
        assert(self.build_deps@.subrange(0, self.build_deps.len() as int) =~= self.build_deps@);
        let ghost mid = metadata_views(out@);
        let mut j: usize = 0;
        assert(self.run_deps@.subrange(0, 0) =~= Seq::<InstallPackage>::empty());
        assert(mid + Seq::<ProcessedMetaDataView>::empty() =~= mid);
        while j < self.run_deps.len()
            invariant
                j <= self.run_deps.len(),
                metadata_views(out@) == mid + forest_collected(self.run_deps@.subrange(0, j as int)),
            decreases self.run_deps.len() - j,
        {
            self.run_deps[j].collect_into(out);
            proof {
                let pre = self.run_deps@.subrange(0, j + 1);
                assert(pre.drop_last() =~= self.run_deps@.subrange(0, j as int));
                assert(pre.last() == self.run_deps@[j as int]);
                assert(metadata_views(out@) =~= mid + forest_collected(pre));
            }
            j += 1;
        }
        assert(self.run_deps@.subrange(0, self.run_deps.len() as int) =~= self.run_deps@);
        let ghost before_self = metadata_views(out@);
        let m = self.metadata.clone();
        out.push(m);
        assert(metadata_views(out@) =~= before_self.push(self.metadata@));
        assert(before_self.push(self.metadata@) =~= start + (forest_collected(self.build_deps@)
            + forest_collected(self.run_deps@) + seq![self.metadata@]));
    }

    /// The metadata of the whole tree in installation order: each package
    /// after the trees of its build dependencies and then of its runtime
    /// dependencies.
    pub fn collect(self) -> (r: Vec<ProcessedMetaData>)
        ensures
            metadata_views(r@) == collected(self),
    {
        let mut out: Vec<ProcessedMetaData> = Vec::new();
        self.collect_into(&mut out);
        assert(metadata_views(out@) =~= Seq::<ProcessedMetaDataView>::empty() + collected(self));
        out
    }
}

// ---------------------------------------------------------------------------
// Choosing one version of each package to install
// ---------------------------------------------------------------------------

/// Why no installation order could be settled.
#[derive(Debug, PartialEq, Eq)]
pub enum InstallError {
    /// The dependencies on a package (named) ask for ranges with no common
    /// version.
    CannotNegotiate(String),
    /// No offered version of a package (named) lies in the common range.
    NoAgreement(String),
    /// An offered version text does not parse.
    BadVersion(ParseError),
}

pub enum InstallErrorView {
    CannotNegotiate(Seq<char>),
    NoAgreement(Seq<char>),
    BadVersion(ParseErrorView),
}

impl View for InstallError {
    type V = InstallErrorView;

    open spec fn view(&self) -> InstallErrorView {
        match self {
            InstallError::CannotNegotiate(n) => InstallErrorView::CannotNegotiate(n@),
            InstallError::NoAgreement(n) => InstallErrorView::NoAgreement(n@),
            InstallError::BadVersion(e) => InstallErrorView::BadVersion(e@),
        }
    }
}

/// The dependencies of a package, build ones first.
pub open spec fn kinds_of(m: ProcessedMetaDataView) -> Seq<DependKindView> {
    m.build_dependencies + m.runtime_dependencies
}

/// Every dependency (with its range) of the collected packages, in order.
pub open spec fn all_dep_vers(c: Seq<ProcessedMetaDataView>, present: Seq<Seq<char>>) -> Seq<
    DepVerView,
>
    decreases c.len(),
{
    if c.len() == 0 {
        Seq::empty()
    } else {
        all_dep_vers(c.drop_last(), present) + needed_dep_vers(kinds_of(c.last()), present)
    }
}

/// The package names of `c`, each once, in order of first appearance.
pub open spec fn name_order(c: Seq<ProcessedMetaDataView>) -> Seq<Seq<char>>
    decreases c.len(),
{
    if c.len() == 0 {
        Seq::empty()
    } else {
        add_one(name_order(c.drop_last()), c.last().name)
    }
}

/// The entries of `c` named `n`, in order.
pub open spec fn group_of(c: Seq<ProcessedMetaDataView>, n: Seq<char>) -> Seq<
    ProcessedMetaDataView,
>
    decreases c.len(),
{
    if c.len() == 0 {
        Seq::empty()
    } else if c.last().name == n {
        group_of(c.drop_last(), n).push(c.last())
    } else {
        group_of(c.drop_last(), n)
    }
}

/// The range every dependency on `n` agrees on: the unbounded range
/// negotiated with each of their ranges in turn; `None` once one fails.
pub open spec fn common_range(deps: Seq<DepVerView>, n: Seq<char>) -> Option<RangeView>
    decreases deps.len(),
{
    if deps.len() == 0 {
        Some(crate::depend::unbounded())
    } else {
        let acc = common_range(deps.drop_last(), n);
        if deps.last().name == n {
            range_negotiate_spec(deps.last().range, acc)
        } else {
            acc
        }
    }
}

/// The range holding exactly `v`.
pub open spec fn exact_range(v: VersionView) -> RangeView {
    RangeView { lower: VerReqView::Eq(v), upper: VerReqView::Eq(v) }
}

/// Entry `i` of `g` offers a version that the range `r` agrees to.
pub open spec fn candidate(g: Seq<ProcessedMetaDataView>, r: RangeView, i: int) -> bool {
    match version_parse_spec(g[i].version) {
        Ok(v) => range_negotiate_spec(exact_range(v), Some(r)) is Some,
        Err(_) => false,
    }
}

/// The version entry `i` of `g` offers (meaningful where it parses).
pub open spec fn offered(g: Seq<ProcessedMetaDataView>, i: int) -> VersionView {
    version_parse_spec(g[i].version)->Ok_0
}

/// Entry `i` is the candidate with the newest version, the last such one
/// when several offer it.
pub open spec fn is_best(g: Seq<ProcessedMetaDataView>, r: RangeView, i: int) -> bool {
    &&& 0 <= i < g.len()
    &&& candidate(g, r, i)
    &&& forall|j: int|
        0 <= j < g.len() && #[trigger] candidate(g, r, j) ==> version_lt(offered(g, j), offered(g, i))
            || (offered(g, j) == offered(g, i) && j <= i)
}

/// Entry `i` is the last one of `g` whose version does not parse.
pub open spec fn last_unparsable(g: Seq<ProcessedMetaDataView>, i: int) -> bool {
    &&& 0 <= i < g.len()
    &&& version_parse_spec(g[i].version) is Err
    &&& forall|j: int| i < j < g.len() ==> #[trigger] version_parse_spec(g[j].version) is Ok
}

/// `m` is what is installed of the package `n`: the only entry of its
/// group, or else the best candidate for the range its dependents agree on.
pub open spec fn settles(
    c: Seq<ProcessedMetaDataView>,
    deps: Seq<DepVerView>,
    n: Seq<char>,
    m: ProcessedMetaDataView,
) -> bool {
    let g = group_of(c, n);
    if g.len() == 1 {
        m == g[0]
    } else {
        common_range(deps, n) matches Some(r) && exists|i: int| is_best(g, r, i) && g[i] == m
    }
}

/// The package `n` cannot be settled, with the error `e`.
pub open spec fn fails(
    c: Seq<ProcessedMetaDataView>,
    deps: Seq<DepVerView>,
    n: Seq<char>,
    e: InstallErrorView,
) -> bool {
    let g = group_of(c, n);
    &&& g.len() != 1
    &&& match common_range(deps, n) {
        None => e == InstallErrorView::CannotNegotiate(n),
        Some(r) => {
            &&& forall|j: int| 0 <= j < g.len() ==> !#[trigger] candidate(g, r, j)
            &&& if exists|j: int| #[trigger] last_unparsable(g, j) {
                exists|j: int|
                    #[trigger] last_unparsable(g, j) && e == InstallErrorView::BadVersion(
                        version_parse_spec(g[j].version)->Err_0,
                    )
            } else {
                e == InstallErrorView::NoAgreement(n)
            }
        },
    }
}

/// The dependencies (with ranges) of the collected packages (see
/// [`all_dep_vers`]).
fn collect_dep_vers(c: &Vec<ProcessedMetaData>, present: &Vec<String>) -> (r: Vec<DepVer>)
    ensures
        depver_views(r@) == all_dep_vers(metadata_views(c@), string_views(present@)),
{
    let ghost pv = string_views(present@);
    let mut out: Vec<DepVer> = Vec::new();
    let mut i: usize = 0;
    assert(metadata_views(c@).subrange(0, 0) =~= Seq::<ProcessedMetaDataView>::empty());
    assert(depver_views(out@) =~= Seq::<DepVerView>::empty());
    while i < c.len()
        invariant
            i <= c.len(),
            pv == string_views(present@),
            depver_views(out@) == all_dep_vers(metadata_views(c@).subrange(0, i as int), pv),
        decreases c.len() - i,
    {
        let m = &c[i];
        let ghost ks = kinds_of(m@);
        let ghost start = depver_views(out@);
        let nb = m.build_dependencies.0.len();
        let nr = m.runtime_dependencies.0.len();
        let mut k: usize = 0;
        assert(ks.subrange(0, 0) =~= Seq::<DependKindView>::empty());
        assert(start + Seq::<DepVerView>::empty() =~= start);
        while k < nb
            invariant
                k <= nb,
                nb == m.build_dependencies.0.len(),
                ks == kinds_of(m@),
                ks.len() == nb + nr,
                pv == string_views(present@),
                depver_views(out@) == start + needed_dep_vers(ks.subrange(0, k as int), pv),
            decreases nb - k,
        {
            let d = &m.build_dependencies.0[k];
            assert(d@ == ks[k as int]);
            let ghost before = depver_views(out@);
            proof {
                assert(ks.subrange(0, k + 1).drop_last() =~= ks.subrange(0, k as int));
            }
            match d.as_dep_ver(present) {
                Some(dv) => {
                    out.push(dv);
                    assert(depver_views(out@) =~= before.push(dv@));
                },
                None => {},
            }
            k += 1;
        }
        let mut k2: usize = 0;
        while k2 < nr
            invariant
                k2 <= nr,
                nb == m.build_dependencies.0.len(),
                nr == m.runtime_dependencies.0.len(),
                ks == kinds_of(m@),
                ks.len() == nb + nr,
                pv == string_views(present@),
                depver_views(out@) == start + needed_dep_vers(ks.subrange(0, nb + k2), pv),
            decreases nr - k2,
        {
            let d = &m.runtime_dependencies.0[k2];
            assert(d@ == ks[nb + k2]);
            let ghost before = depver_views(out@);
            proof {
                assert(ks.subrange(0, nb + k2 + 1).drop_last() =~= ks.subrange(0, nb + k2));
            }
            match d.as_dep_ver(present) {
                Some(dv) => {
                    out.push(dv);
                    assert(depver_views(out@) =~= before.push(dv@));
                },
                None => {},
            }
            k2 += 1;
        }
        proof {
            assert(ks.subrange(0, nb + nr) =~= ks);
            let pre = metadata_views(c@).subrange(0, i + 1);
            assert(pre.drop_last() =~= metadata_views(c@).subrange(0, i as int));
            assert(pre.last() == m@);
        }
        i += 1;
    }
    assert(metadata_views(c@).subrange(0, c.len() as int) =~= metadata_views(c@));
    out
}

/// The package names of `c` in order of first appearance.
fn name_order_exec(c: &Vec<ProcessedMetaData>) -> (r: Vec<String>)
    ensures
        string_views(r@) == name_order(metadata_views(c@)),
{
    let mut out: Vec<String> = Vec::new();
    let mut i: usize = 0;
    assert(metadata_views(c@).subrange(0, 0) =~= Seq::<ProcessedMetaDataView>::empty());
    assert(string_views(out@) =~= Seq::<Seq<char>>::empty());
    while i < c.len()
        invariant
            i <= c.len(),
            string_views(out@) == name_order(metadata_views(c@).subrange(0, i as int)),
        decreases c.len() - i,
    {
        let ghost before = string_views(out@);
        if !contains_string(&out, &c[i].name) {
            out.push(c[i].name.clone());
            assert(string_views(out@) =~= before.push(c@[i as int].name@));
        }
        proof {
            let pre = metadata_views(c@).subrange(0, i + 1);
            assert(pre.drop_last() =~= metadata_views(c@).subrange(0, i as int));
            assert(pre.last() == c@[i as int]@);
        }
        i += 1;
    }
    assert(metadata_views(c@).subrange(0, c.len() as int) =~= metadata_views(c@));
    out
}

/// The entries of `c` named `n`, in order.
fn group_exec(c: &Vec<ProcessedMetaData>, n: &String) -> (r: Vec<ProcessedMetaData>)
    ensures
        metadata_views(r@) == group_of(metadata_views(c@), n@),
{
    let mut out: Vec<ProcessedMetaData> = Vec::new();
    let mut i: usize = 0;
    assert(metadata_views(c@).subrange(0, 0) =~= Seq::<ProcessedMetaDataView>::empty());
    assert(metadata_views(out@) =~= Seq::<ProcessedMetaDataView>::empty());
    while i < c.len()
        invariant
            i <= c.len(),
            metadata_views(out@) == group_of(metadata_views(c@).subrange(0, i as int), n@),
        decreases c.len() - i,
    {
        let ghost before = metadata_views(out@);
        if c[i].name == *n {
            let m = c[i].clone();
            out.push(m);
            assert(metadata_views(out@) =~= before.push(c@[i as int]@));
        }
        proof {
            let pre = metadata_views(c@).subrange(0, i + 1);
            assert(pre.drop_last() =~= metadata_views(c@).subrange(0, i as int));
            assert(pre.last() == c@[i as int]@);
        }
        i += 1;
    }
    assert(metadata_views(c@).subrange(0, c.len() as int) =~= metadata_views(c@));
    out
}

/// The range the dependencies on `n` agree on (see [`common_range`]).
fn common_range_exec(deps: &Vec<DepVer>, n: &String) -> (r: Option<Range>)
    ensures
        opt_range_view(r) == common_range(depver_views(deps@), n@),
{
    let mut acc: Option<Range> = Some(Range::unbounded());
    let mut i: usize = 0;
    assert(depver_views(deps@).subrange(0, 0) =~= Seq::<DepVerView>::empty());
    while i < deps.len()
        invariant
            i <= deps.len(),
            opt_range_view(acc) == common_range(depver_views(deps@).subrange(0, i as int), n@),
        decreases deps.len() - i,
    {
        proof {
            let pre = depver_views(deps@).subrange(0, i + 1);
            assert(pre.drop_last() =~= depver_views(deps@).subrange(0, i as int));
            assert(pre.last() == deps@[i as int]@);
        }
        if deps[i].name == *n {
            acc = deps[i].range.negotiate(acc);
        }
        i += 1;
    }
    assert(depver_views(deps@).subrange(0, deps.len() as int) =~= depver_views(deps@));
    acc
}

/// Finds the best candidate of a group for the range `r` (see [`is_best`]);
/// without one, reports the parse error of the last entry whose version
/// does not parse, if any.
fn best_in_group(g: &Vec<ProcessedMetaData>, r: &Range) -> (res: Result<usize, Option<ParseError>>)
    ensures
        match res {
            Ok(i) => is_best(metadata_views(g@), r@, i as int),
            Err(o) => {
                &&& forall|j: int|
                    0 <= j < g@.len() ==> !#[trigger] candidate(metadata_views(g@), r@, j)
                &&& match o {
                    None => forall|j: int| !#[trigger] last_unparsable(metadata_views(g@), j),
                    Some(e) => exists|j: int|
                        #[trigger] last_unparsable(metadata_views(g@), j) && e@ == version_parse_spec(
                            metadata_views(g@)[j].version,
                        )->Err_0,
                }
            },
        },
{
    let ghost gv = metadata_views(g@);
    let mut best: Option<(usize, Version)> = None;
    let mut last_err: Option<ParseError> = None;
    let ghost mut err_at: int = -1;
    let mut i: usize = 0;
    while i < g.len()
        invariant
            i <= g.len(),
            gv == metadata_views(g@),
            match best {
                Some((b, bv)) => {
                    &&& b < i
                    &&& candidate(gv, r@, b as int)
                    &&& bv@ == offered(gv, b as int)
                    &&& forall|j: int|
                        0 <= j < i && #[trigger] candidate(gv, r@, j) ==> version_lt(
                            offered(gv, j),
                            bv@,
                        ) || (offered(gv, j) == bv@ && j <= b)
                },
                None => forall|j: int| 0 <= j < i ==> !#[trigger] candidate(gv, r@, j),
            },
            match last_err {
                Some(e) => {
                    &&& 0 <= err_at < i
                    &&& version_parse_spec(gv[err_at].version) == Err::<VersionView, ParseErrorView>(
                        e@,
                    )
                    &&& forall|j: int| err_at < j < i ==> #[trigger] version_parse_spec(
                        gv[j].version,
                    ) is Ok
                },
                None => forall|j: int| 0 <= j < i ==> #[trigger] version_parse_spec(gv[j].version) is Ok,
            },
        decreases g.len() - i,
    {
        assert(gv[i as int] == g@[i as int]@);
        match Version::parse(g[i].version.as_str()) {
            Ok(v) => {
                let exact = Range { lower: VerReq::Eq(v.clone()), upper: VerReq::Eq(v.clone()) };
                assert(exact@ == exact_range(v@));
                let agreed = exact.negotiate(Some(r.clone()));
                if agreed.is_some() {
                    assert(candidate(gv, r@, i as int));
                    match best {
                        None => {
                            best = Some((i, v));
                        },
                        Some((b, bv)) => {
                            if bv.le(&v) {
                                proof {
                                    assert forall|j: int|
                                        0 <= j < i + 1 && #[trigger] candidate(
                                            gv,
                                            r@,
                                            j,
                                        ) implies version_lt(offered(gv, j), v@) || (offered(gv, j)
                                        == v@ && j <= i) by {
                                        crate::version::lemma_version_order(
                                            offered(gv, j),
                                            bv@,
                                            v@,
                                        );
                                    }
                                }
                                best = Some((i, v));
                            } else {
                                proof {
                                    crate::version::lemma_version_le(bv@, v@, v@);
                                }
                                best = Some((b, bv));
                            }
                        },
                    }
                } else {
                    assert(!candidate(gv, r@, i as int));
                }
            },
            Err(e) => {
                proof {
                    err_at = i as int;
                }
                last_err = Some(e);
            },
        }
        i += 1;
    }
    match best {
        Some((b, _)) => Ok(b),
        None => {
            proof {
                match &last_err {
                    Some(e) => {
                        assert(last_unparsable(gv, err_at));
                    },
                    None => {
                        assert forall|j: int| !#[trigger] last_unparsable(gv, j) by {
                            if 0 <= j < gv.len() {
                                assert(version_parse_spec(gv[j].version) is Ok);
                            }
                        }
                    },
                }
            }
            Err(last_err)
        },
    }
}

/// What installing the collected packages `c` comes to: one entry for each
/// package name, in order of first appearance, each settled as
/// [`settles`] says.
pub open spec fn plan_ok(
    c: Seq<ProcessedMetaDataView>,
    present: Seq<Seq<char>>,
    out: Seq<ProcessedMetaDataView>,
) -> bool {
    let deps = all_dep_vers(c, present);
    let names = name_order(c);
    &&& out.len() == names.len()
    &&& forall|k: int| 0 <= k < names.len() ==> settles(c, deps, names[k], #[trigger] out[k])
}

/// Installing `c` fails with `e`: every package before some name settles,
/// and that name fails with `e`.
pub open spec fn plan_err(
    c: Seq<ProcessedMetaDataView>,
    present: Seq<Seq<char>>,
    e: InstallErrorView,
) -> bool {
    let deps = all_dep_vers(c, present);
    let names = name_order(c);
    exists|k: int|
        0 <= k < names.len() && (forall|j: int| 0 <= j < k ==> #[trigger] settleable(c, deps, names[j]))
            && #[trigger] fails(c, deps, names[k], e)
}

/// Some entry settles the package `n`.
pub open spec fn settleable(
    c: Seq<ProcessedMetaDataView>,
    deps: Seq<DepVerView>,
    n: Seq<char>,
) -> bool {
    exists|m: ProcessedMetaDataView| #[trigger] settles(c, deps, n, m)
}

/// Settles one version of each package among `collected` (see
/// [`plan_ok`] and [`plan_err`]); `present` lists the volatile names that
/// `which` finds on the system.
pub fn select_versions(collected: &Vec<ProcessedMetaData>, present: &Vec<String>) -> (r: Result<
    Vec<ProcessedMetaData>,
    InstallError,
>)
    ensures
        match r {
            Ok(out) => plan_ok(metadata_views(collected@), string_views(present@), metadata_views(out@)),
            Err(e) => plan_err(metadata_views(collected@), string_views(present@), e@),
        },
{
    let ghost c = metadata_views(collected@);
    let ghost pv = string_views(present@);
    let deps = collect_dep_vers(collected, present);
    let names = name_order_exec(collected);
    let ghost dv = depver_views(deps@);
    let ghost nv = string_views(names@);
    let mut out: Vec<ProcessedMetaData> = Vec::new();
    let mut k: usize = 0;
    while k < names.len()
        invariant
            k <= names.len(),
            c == metadata_views(collected@),
            pv == string_views(present@),
            dv == depver_views(deps@),
            dv == all_dep_vers(c, pv),
            nv == string_views(names@),
            nv == name_order(c),
            out@.len() == k,
            forall|j: int| 0 <= j < k ==> settles(c, dv, nv[j], #[trigger] out@[j]@),
        decreases names.len() - k,
    {
        let n = &names[k];
        assert(n@ == nv[k as int]);
        let group = group_exec(collected, n);
        let ghost g = metadata_views(group@);
        if group.len() == 1 {
            let m = group[0].clone();
            assert(g[0] == group@[0]@);
            out.push(m);
        } else {
            let range = match common_range_exec(&deps, n) {
                None => {
                    let err = InstallError::CannotNegotiate(n.clone());
                    proof {
                        assert(fails(c, dv, nv[k as int], err@));
                        assert forall|j: int| 0 <= j < k implies #[trigger] settleable(c, dv, nv[j]) by {
                            assert(settles(c, dv, nv[j], out@[j]@));
                        }
                    }
                    return Err(err);
                },
                Some(rg) => rg,
            };
            match best_in_group(&group, &range) {
                Ok(i) => {
                    let m = group[i].clone();
                    assert(g[i as int] == group@[i as int]@);
                    out.push(m);
                },
                Err(o) => {
                    let err = match o {
                        None => InstallError::NoAgreement(n.clone()),
                        Some(e) => InstallError::BadVersion(e),
                    };
                    proof {
                        assert(fails(c, dv, nv[k as int], err@));
                        assert forall|j: int| 0 <= j < k implies #[trigger] settleable(c, dv, nv[j]) by {
                            assert(settles(c, dv, nv[j], out@[j]@));
                        }
                    }
                    return Err(err);
                },
            }
        }
        k += 1;
    }
    assert(metadata_views(out@).len() == nv.len());
    assert forall|j: int| 0 <= j < nv.len() implies settles(
        c,
        dv,
        nv[j],
        #[trigger] metadata_views(out@)[j],
    ) by {
        assert(metadata_views(out@)[j] == out@[j]@);
    }
    Ok(out)
}

impl InstallPackage {
    /// The packages to install for this tree, in order: the tree collected
    /// (see [`collected`]) and one version of each package settled (see
    /// [`select_versions`]).
    pub fn install_plan(self, present: &Vec<String>) -> (r: Result<
        Vec<ProcessedMetaData>,
        InstallError,
    >)
        ensures
            match r {
                Ok(out) => plan_ok(collected(self), string_views(present@), metadata_views(out@)),
                Err(e) => plan_err(collected(self), string_views(present@), e@),
            },
    {
        let ghost c = collected(self);
        let all = self.collect();
        select_versions(&all, present)
    }
}

/// The entries of a group all carry its name.
pub proof fn lemma_group_names(c: Seq<ProcessedMetaDataView>, n: Seq<char>)
    ensures
        forall|i: int| 0 <= i < group_of(c, n).len() ==> (#[trigger] group_of(c, n)[i]).name == n,
    decreases c.len(),
{
    if c.len() > 0 {
        lemma_group_names(c.drop_last(), n);
        if c.last().name == n {
            let g = group_of(c.drop_last(), n);
            assert forall|i: int| 0 <= i < g.push(c.last()).len() implies (#[trigger] g.push(
                c.last(),
            )[i]).name == n by {
                if i < g.len() {
                    assert(g.push(c.last())[i] == g[i]);
                }
            }
        }
    }
}

/// The names in installation order are the package names collected, each
/// once.
pub proof fn lemma_name_order(c: Seq<ProcessedMetaDataView>)
    ensures
        no_dups(name_order(c)),
        forall|n: Seq<char>|
            name_order(c).contains(n) <==> exists|i: int| 0 <= i < c.len() && (#[trigger] c[i]).name == n,
    decreases c.len(),
{
    if c.len() > 0 {
        let init = c.drop_last();
        lemma_name_order(init);
        lemma_add_one(name_order(init), c.last().name);
        assert forall|n: Seq<char>|
            name_order(c).contains(n) <==> exists|i: int| 0 <= i < c.len() && (#[trigger] c[i]).name == n by {
            let no = name_order(init);
            assert(add_one(no, c.last().name).to_set() == no.to_set().insert(c.last().name));
            assert(name_order(c).to_set().contains(n) == name_order(c).contains(n));
            assert(no.to_set().contains(n) == no.contains(n));
            if exists|i: int| 0 <= i < init.len() && (#[trigger] init[i]).name == n {
                let i = choose|i: int| 0 <= i < init.len() && (#[trigger] init[i]).name == n;
                assert(c[i] == init[i]);
            }
            if exists|i: int| 0 <= i < c.len() && (#[trigger] c[i]).name == n {
                let i = choose|i: int| 0 <= i < c.len() && (#[trigger] c[i]).name == n;
                if i < c.len() - 1 {
                    assert(init[i] == c[i]);
                }
            }
        }
    }
}

/// An installation plan installs one entry of each collected package
/// name, in order of first appearance, and nothing else: its names are the
/// collected names, each once.
pub proof fn lemma_plan_names(
    c: Seq<ProcessedMetaDataView>,
    present: Seq<Seq<char>>,
    out: Seq<ProcessedMetaDataView>,
)
    requires
        plan_ok(c, present, out),
    ensures
        out.len() == name_order(c).len(),
        forall|k: int| 0 <= k < out.len() ==> (#[trigger] out[k]).name == name_order(c)[k],
        forall|k: int| 0 <= k < out.len() ==> c.contains(#[trigger] out[k]),
        no_dups(name_order(c)),
{
    lemma_name_order(c);
    let deps = all_dep_vers(c, present);
    assert forall|k: int| 0 <= k < out.len() implies (#[trigger] out[k]).name == name_order(c)[k]
        && c.contains(out[k]) by {
        let n = name_order(c)[k];
        assert(settles(c, deps, n, out[k]));
        lemma_group_names(c, n);
        lemma_group_in(c, n);
        let g = group_of(c, n);
        if g.len() == 1 {
            assert(g[0].name == n);
        } else {
            let r = common_range(deps, n)->Some_0;
            let i = choose|i: int| is_best(g, r, i) && g[i] == out[k];
            assert(g[i].name == n);
        }
    }
}

/// The entries of a group are entries of the collection.
pub proof fn lemma_group_in(c: Seq<ProcessedMetaDataView>, n: Seq<char>)
    ensures
        forall|i: int| 0 <= i < group_of(c, n).len() ==> c.contains(#[trigger] group_of(c, n)[i]),
    decreases c.len(),
{
    if c.len() > 0 {
        let init = c.drop_last();
        lemma_group_in(init, n);
        let g0 = group_of(init, n);
        assert forall|i: int| 0 <= i < group_of(c, n).len() implies c.contains(
            #[trigger] group_of(c, n)[i],
        ) by {
            if i < g0.len() {
                assert(group_of(c, n)[i] == g0[i]);
                let j = choose|j: int| 0 <= j < init.len() && init[j] == g0[i];
                assert(c[j] == init[j]);
            } else {
                assert(group_of(c, n)[i] == c.last());
                assert(c[c.len() - 1] == c.last());
            }
        }
    }
}

} // verus!
