//! Planning the upgrade of an installed package to a newly offered version.
use vstd::prelude::*;
use crate::depend::{
    as_dep_ver_spec, depend_kind_views, depend_name, depver_views, DepVer, DepVerView,
    DependKind, DependKindView,
};
use crate::commands::pair_views;
use crate::metadata::{needed_dep_vers, InstalledMetaData, ProcessedMetaData, ProcessedMetaDataView};
use crate::queue::{metadata_views, no_dups};
use crate::text::string_views;

verus! {

/// Some runtime dependency stands for `x` (with its range).
pub open spec fn needs(runtime: Seq<DependKindView>, present: Seq<Seq<char>>, x: DepVerView) -> bool {
    exists|i: int| 0 <= i < runtime.len() && #[trigger] as_dep_ver_spec(runtime[i], present) == Some(x)
}

/// Some installed dependency is what `k` stands for.
pub open spec fn installed_has(inst: Seq<DepVerView>, present: Seq<Seq<char>>, k: DependKindView) -> bool {
    exists|i: int| 0 <= i < inst.len() && Some(#[trigger] inst[i]) == as_dep_ver_spec(k, present)
}

/// Some dependency in `v` is named `n`.
pub open spec fn named_in(v: Seq<DepVerView>, n: Seq<char>) -> bool {
    exists|i: int| 0 <= i < v.len() && (#[trigger] v[i]).name == n
}

/// Some dependency kind in `v` is named `n`.
pub open spec fn kind_named_in(v: Seq<DependKindView>, n: Seq<char>) -> bool {
    exists|i: int| 0 <= i < v.len() && depend_name(#[trigger] v[i]) == n
}

pub open spec fn not_needed(runtime: Seq<DependKindView>, present: Seq<Seq<char>>) -> spec_fn(
    DepVerView,
) -> bool {
    |x: DepVerView| !needs(runtime, present, x)
}

pub open spec fn not_installed(inst: Seq<DepVerView>, present: Seq<Seq<char>>) -> spec_fn(
    DependKindView,
) -> bool {
    |k: DependKindView| !installed_has(inst, present, k)
}

pub open spec fn replaces(stale: Seq<DepVerView>) -> spec_fn(DependKindView) -> bool {
    |k: DependKindView| named_in(stale, depend_name(k))
}

pub open spec fn replaces_none(stale: Seq<DepVerView>) -> spec_fn(DependKindView) -> bool {
    |k: DependKindView| !named_in(stale, depend_name(k))
}

pub open spec fn not_replaced(in_place: Seq<DependKindView>) -> spec_fn(DepVerView) -> bool {
    |x: DepVerView| !kind_named_in(in_place, x.name)
}

/// The installed dependencies that no runtime dependency of the new
/// version stands for any more.
pub open spec fn stale_of(inst: Seq<DepVerView>, runtime: Seq<DependKindView>, present: Seq<Seq<char>>) -> Seq<DepVerView> {
    inst.filter(not_needed(runtime, present))
}

/// The runtime dependencies of the new version that are not installed as
/// such.
pub open spec fn fresh_of(inst: Seq<DepVerView>, runtime: Seq<DependKindView>, present: Seq<Seq<char>>) -> Seq<DependKindView> {
    runtime.filter(not_installed(inst, present))
}

/// What upgrading does to the dependencies.
#[derive(Debug, PartialEq, Eq)]
pub struct UpgradePlan {
    /// The build dependencies to fetch and install first.
    pub children: Vec<DepVer>,
    /// Installed dependencies to remove.
    pub stale: Vec<DepVer>,
    /// New runtime dependencies to install.
    pub new_deps: Vec<DependKind>,
    /// New runtime dependencies that upgrade a stale one of the same name in
    /// place.
    pub in_place: Vec<DependKind>,
}

/// Whether some runtime dependency stands for `x`.
fn needed_exec(runtime: &Vec<DependKind>, present: &Vec<String>, x: &DepVer) -> (b: bool)
    ensures
        b == needs(depend_kind_views(runtime@), string_views(present@), x@),
{
    let ghost rv = depend_kind_views(runtime@);
    let ghost pv = string_views(present@);
    let mut i: usize = 0;
    while i < runtime.len()
        invariant
            i <= runtime.len(),
            rv == depend_kind_views(runtime@),
            pv == string_views(present@),
            forall|j: int| 0 <= j < i ==> #[trigger] as_dep_ver_spec(rv[j], pv) != Some(x@),
        decreases runtime.len() - i,
    {
        assert(rv[i as int] == runtime@[i as int]@);
        match runtime[i].as_dep_ver(present) {
            Some(d) => {
                if d.same(x) {
                    return true;
                }
            },
            None => {},
        }
        i += 1;
    }
    false
}

/// Whether some installed dependency is what `k` stands for.
fn installed_has_exec(inst: &Vec<DepVer>, present: &Vec<String>, k: &DependKind) -> (b: bool)
    ensures
        b == installed_has(depver_views(inst@), string_views(present@), k@),
{
    let ghost iv = depver_views(inst@);
    match k.as_dep_ver(present) {
        None => false,
        Some(d) => {
            let mut i: usize = 0;
            while i < inst.len()
                invariant
                    i <= inst.len(),
                    iv == depver_views(inst@),
                    as_dep_ver_spec(k@, string_views(present@)) == Some(d@),
                    forall|j: int| 0 <= j < i ==> #[trigger] iv[j] != d@,
                decreases inst.len() - i,
            {
                assert(iv[i as int] == inst@[i as int]@);
                if inst[i].same(&d) {
                    return true;
                }
                i += 1;
            }
            false
        },
    }
}

/// Whether some dependency in `v` is named `n`.
fn named_in_exec(v: &Vec<DepVer>, n: &String) -> (b: bool)
    ensures
        b == named_in(depver_views(v@), n@),
{
    let mut i: usize = 0;
    while i < v.len()
        invariant
            i <= v.len(),
            forall|j: int| 0 <= j < i ==> (#[trigger] depver_views(v@)[j]).name != n@,
        decreases v.len() - i,
    {
        assert(depver_views(v@)[i as int] == v@[i as int]@);
        if v[i].name == *n {
            return true;
        }
        i += 1;
    }
    false
}

/// Whether some dependency kind in `v` is named `n`.
fn kind_named_in_exec(v: &Vec<DependKind>, n: &String) -> (b: bool)
    ensures
        b == kind_named_in(depend_kind_views(v@), n@),
{
    let mut i: usize = 0;
    while i < v.len()
        invariant
            i <= v.len(),
            forall|j: int| 0 <= j < i ==> depend_name(#[trigger] depend_kind_views(v@)[j]) != n@,
        decreases v.len() - i,
    {
        assert(depend_kind_views(v@)[i as int] == v@[i as int]@);
        let name = v[i].name();
        if name == *n {
            return true;
        }
        i += 1;
    }
    false
}

/// One step of filtering a prefix.
pub proof fn lemma_filter_step<T>(s: Seq<T>, p: spec_fn(T) -> bool, i: int)
    requires
        0 <= i < s.len(),
    ensures
        s.subrange(0, i + 1).filter(p) == (if p(s[i]) {
            s.subrange(0, i).filter(p).push(s[i])
        } else {
            s.subrange(0, i).filter(p)
        }),
{
    reveal(Seq::filter);
    assert(s.subrange(0, i + 1).drop_last() =~= s.subrange(0, i));
    assert(s.subrange(0, i + 1).last() == s[i]);
}

proof fn lemma_filter_start<T>(s: Seq<T>, p: spec_fn(T) -> bool)
    ensures
        s.subrange(0, 0).filter(p) == Seq::<T>::empty(),
{
    reveal(Seq::filter);
    assert(s.subrange(0, 0) =~= Seq::<T>::empty());
}

/// The installed dependencies no runtime dependency stands for.
fn stale_exec(inst: &Vec<DepVer>, runtime: &Vec<DependKind>, present: &Vec<String>) -> (r: Vec<DepVer>)
    ensures
        depver_views(r@) == stale_of(depver_views(inst@), depend_kind_views(runtime@), string_views(present@)),
{
    let ghost iv = depver_views(inst@);
    let ghost p = not_needed(depend_kind_views(runtime@), string_views(present@));
    let mut out: Vec<DepVer> = Vec::new();
    proof {
        lemma_filter_start(iv, p);
    }
    let mut i: usize = 0;
    while i < inst.len()
        invariant
            i <= inst.len(),
            iv == depver_views(inst@),
            p == not_needed(depend_kind_views(runtime@), string_views(present@)),
            depver_views(out@) =~= iv.subrange(0, i as int).filter(p),
        decreases inst.len() - i,
    {
        proof {
            lemma_filter_step(iv, p, i as int);
        }
        assert(iv[i as int] == inst@[i as int]@);
        let ghost before = depver_views(out@);
        if !needed_exec(runtime, present, &inst[i]) {
            out.push(inst[i].clone());
            assert(depver_views(out@) =~= before.push(iv[i as int]));
        }
        i += 1;
    }
    assert(iv.subrange(0, inst.len() as int) =~= iv);
    out
}

/// The runtime dependencies not installed as such.
fn fresh_exec(inst: &Vec<DepVer>, runtime: &Vec<DependKind>, present: &Vec<String>) -> (r: Vec<DependKind>)
    ensures
        depend_kind_views(r@) == fresh_of(depver_views(inst@), depend_kind_views(runtime@), string_views(present@)),
{
    let ghost rv = depend_kind_views(runtime@);
    let ghost p = not_installed(depver_views(inst@), string_views(present@));
    let mut out: Vec<DependKind> = Vec::new();
    proof {
        lemma_filter_start(rv, p);
    }
    let mut i: usize = 0;
    while i < runtime.len()
        invariant
            i <= runtime.len(),
            rv == depend_kind_views(runtime@),
            p == not_installed(depver_views(inst@), string_views(present@)),
            depend_kind_views(out@) =~= rv.subrange(0, i as int).filter(p),
        decreases runtime.len() - i,
    {
        proof {
            lemma_filter_step(rv, p, i as int);
        }
        assert(rv[i as int] == runtime@[i as int]@);
        let ghost before = depend_kind_views(out@);
        if !installed_has_exec(inst, present, &runtime[i]) {
            out.push(runtime[i].clone());
            assert(depend_kind_views(out@) =~= before.push(rv[i as int]));
        }
        i += 1;
    }
    assert(rv.subrange(0, runtime.len() as int) =~= rv);
    out
}

/// Splits `fresh` into the dependencies that replace a stale one of the same
/// name and the others, keeping the order in each.
fn split_in_place(fresh: &Vec<DependKind>, stale: &Vec<DepVer>) -> (r: (Vec<DependKind>, Vec<DependKind>))
    ensures
        depend_kind_views(r.0@) == depend_kind_views(fresh@).filter(replaces(depver_views(stale@))),
        depend_kind_views(r.1@) == depend_kind_views(fresh@).filter(replaces_none(depver_views(stale@))),
{
    let ghost fv = depend_kind_views(fresh@);
    let ghost p = replaces(depver_views(stale@));
    let ghost q = replaces_none(depver_views(stale@));
    let mut yes: Vec<DependKind> = Vec::new();
    let mut no: Vec<DependKind> = Vec::new();
    proof {
        lemma_filter_start(fv, p);
        lemma_filter_start(fv, q);
    }
    let mut i: usize = 0;
    while i < fresh.len()
        invariant
            i <= fresh.len(),
            fv == depend_kind_views(fresh@),
            p == replaces(depver_views(stale@)),
            q == replaces_none(depver_views(stale@)),
            depend_kind_views(yes@) =~= fv.subrange(0, i as int).filter(p),
            depend_kind_views(no@) =~= fv.subrange(0, i as int).filter(q),
        decreases fresh.len() - i,
    {
        proof {
            lemma_filter_step(fv, p, i as int);
            lemma_filter_step(fv, q, i as int);
        }
        assert(fv[i as int] == fresh@[i as int]@);
        let ghost by = depend_kind_views(yes@);
        let ghost bn = depend_kind_views(no@);
        let name = fresh[i].name();
        if named_in_exec(stale, &name) {
            yes.push(fresh[i].clone());
            assert(depend_kind_views(yes@) =~= by.push(fv[i as int]));
        } else {
            no.push(fresh[i].clone());
            assert(depend_kind_views(no@) =~= bn.push(fv[i as int]));
        }
        i += 1;
    }
    assert(fv.subrange(0, fresh.len() as int) =~= fv);
    (yes, no)
}

/// The stale dependencies that no in-place upgrade takes over.
fn drop_replaced(stale: &Vec<DepVer>, in_place: &Vec<DependKind>) -> (r: Vec<DepVer>)
    ensures
        depver_views(r@) == depver_views(stale@).filter(not_replaced(depend_kind_views(in_place@))),
{
    let ghost sv = depver_views(stale@);
    let ghost p = not_replaced(depend_kind_views(in_place@));
    let mut out: Vec<DepVer> = Vec::new();
    proof {
        lemma_filter_start(sv, p);
    }
    let mut i: usize = 0;
    while i < stale.len()
        invariant
            i <= stale.len(),
            sv == depver_views(stale@),
            p == not_replaced(depend_kind_views(in_place@)),
            depver_views(out@) =~= sv.subrange(0, i as int).filter(p),
        decreases stale.len() - i,
    {
        proof {
            lemma_filter_step(sv, p, i as int);
        }
        assert(sv[i as int] == stale@[i as int]@);
        let ghost before = depver_views(out@);
        if !kind_named_in_exec(in_place, &stale[i].name) {
            out.push(stale[i].clone());
            assert(depver_views(out@) =~= before.push(sv[i as int]));
        }
        i += 1;
    }
    assert(sv.subrange(0, stale.len() as int) =~= sv);
    out
}

/// The new runtime dependencies that upgrade a stale one in place.
pub open spec fn plan_in_place(inst: Seq<DepVerView>, runtime: Seq<DependKindView>, present: Seq<Seq<char>>) -> Seq<DependKindView> {
    fresh_of(inst, runtime, present).filter(replaces(stale_of(inst, runtime, present)))
}

/// The new runtime dependencies to install afresh.
pub open spec fn plan_new(inst: Seq<DepVerView>, runtime: Seq<DependKindView>, present: Seq<Seq<char>>) -> Seq<DependKindView> {
    fresh_of(inst, runtime, present).filter(replaces_none(stale_of(inst, runtime, present)))
}

/// The installed dependencies to remove.
pub open spec fn plan_stale(inst: Seq<DepVerView>, runtime: Seq<DependKindView>, present: Seq<Seq<char>>) -> Seq<DepVerView> {
    stale_of(inst, runtime, present).filter(not_replaced(plan_in_place(inst, runtime, present)))
}

/// The dependencies (with ranges) that a list of dependency kinds needs.
fn dep_vers_of(kinds: &Vec<DependKind>, present: &Vec<String>) -> (r: Vec<DepVer>)
    ensures
        depver_views(r@) == needed_dep_vers(depend_kind_views(kinds@), string_views(present@)),
{
    let ghost kv = depend_kind_views(kinds@);
    let ghost pv = string_views(present@);
    let mut out: Vec<DepVer> = Vec::new();
    let mut i: usize = 0;
    assert(kv.subrange(0, 0) =~= Seq::<DependKindView>::empty());
    assert(depver_views(out@) =~= Seq::<DepVerView>::empty());
    while i < kinds.len()
        invariant
            i <= kinds.len(),
            kv == depend_kind_views(kinds@),
            pv == string_views(present@),
            depver_views(out@) == needed_dep_vers(kv.subrange(0, i as int), pv),
        decreases kinds.len() - i,
    {
        assert(kv[i as int] == kinds@[i as int]@);
        assert(kv.subrange(0, i + 1).drop_last() =~= kv.subrange(0, i as int));
        let ghost before = depver_views(out@);
        match kinds[i].as_dep_ver(present) {
            Some(d) => {
                out.push(d);
                assert(depver_views(out@) =~= before.push(d@));
            },
            None => {},
        }
        i += 1;
    }
    assert(kv.subrange(0, kinds.len() as int) =~= kv);
    out
}

impl ProcessedMetaData {
    /// How upgrading the installed package `installed` to this version
    /// changes its dependencies: the build dependencies to install first;
    /// the installed dependencies no longer needed, to remove; the runtime
    /// dependencies not yet installed, split into those that upgrade a
    /// stale dependency of the same name in place and those to install
    /// afresh (the stale ones they take over are not removed). `present`
    /// lists the volatile names that `which` finds on the system.
    pub fn upgrade_plan(&self, installed: &InstalledMetaData, present: &Vec<String>) -> (p: UpgradePlan)
        ensures
            depver_views(p.children@) == needed_dep_vers(self@.build_dependencies, string_views(present@)),
            depver_views(p.stale@) == plan_stale(installed@.dependencies, self@.runtime_dependencies, string_views(present@)),
            depend_kind_views(p.new_deps@) == plan_new(installed@.dependencies, self@.runtime_dependencies, string_views(present@)),
            depend_kind_views(p.in_place@) == plan_in_place(installed@.dependencies, self@.runtime_dependencies, string_views(present@)),
    {
        let children = dep_vers_of(&self.build_dependencies.0, present);
        let stale0 = stale_exec(&installed.dependencies.0, &self.runtime_dependencies.0, present);
        let fresh = fresh_exec(&installed.dependencies.0, &self.runtime_dependencies.0, present);
        let (in_place, new_deps) = split_in_place(&fresh, &stale0);
        let stale = drop_replaced(&stale0, &in_place);
        UpgradePlan { children, stale, new_deps, in_place }
    }
}

impl ProcessedMetaData {
    /// Whether upgrading a dependency in place installs this fetched
    /// metadata over the installed record `old`: only when the version
    /// differs.
    pub fn replaces(&self, old: &InstalledMetaData) -> (r: bool)
        ensures
            r == (self@.version != old@.version),
    {
        self.version != old.version
    }
}

// ---------------------------------------------------------------------------
// Choosing the packages to upgrade
// ---------------------------------------------------------------------------

/// The cached upgrade metadata. None is kept at present.
pub fn upgrade_all() -> (r: Vec<ProcessedMetaData>)
    ensures
        r@.len() == 0,
{
    Vec::new()
}

/// Some asked-for package names `m`, at its version when one is given.
pub open spec fn wanted_by(m: ProcessedMetaDataView, pkgs: Seq<(Seq<char>, Option<Seq<char>>)>) -> bool {
    exists|k: int|
        0 <= k < pkgs.len() && (#[trigger] pkgs[k]).0 == m.name && (pkgs[k].1 is None || pkgs[k].1
            == Some(m.version))
}

fn wanted_exec(m: &ProcessedMetaData, pkgs: &Vec<(String, Option<String>)>) -> (b: bool)
    ensures
        b == wanted_by(m@, pair_views(pkgs@)),
{
    let ghost pv = pair_views(pkgs@);
    let mut k: usize = 0;
    while k < pkgs.len()
        invariant
            k <= pkgs.len(),
            pv == pair_views(pkgs@),
            forall|j: int|
                0 <= j < k ==> !((#[trigger] pv[j]).0 == m@.name && (pv[j].1 is None || pv[j].1
                    == Some(m@.version))),
        decreases pkgs.len() - k,
    {
        assert(pv[k as int].0 == pkgs@[k as int].0@);
        let hit = pkgs[k].0 == m.name && match &pkgs[k].1 {
            None => true,
            Some(v) => *v == m.version,
        };
        if hit {
            return true;
        }
        k += 1;
    }
    false
}

/// Whether `x` is among `v`.
fn contains_metadata(v: &Vec<ProcessedMetaData>, x: &ProcessedMetaData) -> (b: bool)
    ensures
        b == metadata_views(v@).contains(x@),
{
    let mut i: usize = 0;
    while i < v.len()
        invariant
            i <= v.len(),
            forall|j: int| 0 <= j < i ==> v@[j]@ != x@,
        decreases v.len() - i,
    {
        if v[i].same(x) {
            assert(metadata_views(v@)[i as int] == x@);
            return true;
        }
        i += 1;
    }
    proof {
        if metadata_views(v@).contains(x@) {
            let k = choose|k: int| 0 <= k < metadata_views(v@).len() && metadata_views(v@)[k] == x@;
            assert(v@[k]@ == x@);
        }
    }
    false
}

/// The upgrades among `base` that the asked-for packages name (at their
/// version when one is given), each once.
pub fn select_upgrades(base: &Vec<ProcessedMetaData>, pkgs: &Vec<(String, Option<String>)>) -> (r: Vec<ProcessedMetaData>)
    ensures
        no_dups(metadata_views(r@)),
        forall|m: ProcessedMetaDataView|
            metadata_views(r@).contains(m) <==> metadata_views(base@).contains(m) && wanted_by(
                m,
                pair_views(pkgs@),
            ),
{
    let ghost bv = metadata_views(base@);
    let ghost pv = pair_views(pkgs@);
    let mut out: Vec<ProcessedMetaData> = Vec::new();
    let mut j: usize = 0;
    assert(bv.subrange(0, 0) =~= Seq::<ProcessedMetaDataView>::empty());
    while j < base.len()
        invariant
            j <= base.len(),
            bv == metadata_views(base@),
            pv == pair_views(pkgs@),
            no_dups(metadata_views(out@)),
            forall|m: ProcessedMetaDataView|
                #[trigger] metadata_views(out@).contains(m) <==> bv.subrange(0, j as int).contains(m)
                    && wanted_by(m, pv),
        decreases base.len() - j,
    {
        let ghost before = metadata_views(out@);
        let ghost x = bv[j as int];
        let ghost seen = bv.subrange(0, j as int);
        let ghost seen2 = bv.subrange(0, j + 1);
        assert(seen2 =~= seen.push(x));
        assert(x == base@[j as int]@);
        let w = wanted_exec(&base[j], pkgs);
        let c = if w {
            contains_metadata(&out, &base[j])
        } else {
            false
        };
        if w && !c {
            out.push(base[j].clone());
            proof {
                assert(metadata_views(out@) =~= before.push(x));
                assert forall|a: int, b: int|
                    0 <= a < b < before.push(x).len() implies before.push(x)[a] != before.push(x)[b] by {
                    if b == before.len() {
                        assert(before[a] == before.push(x)[a]);
                    }
                }
                assert forall|m: ProcessedMetaDataView|
                    #[trigger] metadata_views(out@).contains(m) <==> seen2.contains(m) && wanted_by(m, pv) by {
                    lemma_push_contains(before, x, m);
                    lemma_push_contains(seen, x, m);
                }
            }
        } else {
            proof {
                assert forall|m: ProcessedMetaDataView|
                    #[trigger] metadata_views(out@).contains(m) <==> seen2.contains(m) && wanted_by(m, pv) by {
                    lemma_push_contains(seen, x, m);
                }
            }
        }
        j += 1;
    }
    assert(bv.subrange(0, base.len() as int) =~= bv);
    out
}

/// What a sequence with one more element contains.
proof fn lemma_push_contains<T>(s: Seq<T>, x: T, m: T)
    ensures
        s.push(x).contains(m) <==> s.contains(m) || m == x,
{
    if s.push(x).contains(m) {
        let k = choose|k: int| 0 <= k < s.push(x).len() && s.push(x)[k] == m;
        if k < s.len() {
            assert(s[k] == m);
        }
    }
    if s.contains(m) {
        let k = choose|k: int| 0 <= k < s.len() && s[k] == m;
        assert(s.push(x)[k] == m);
    }
    if m == x {
        assert(s.push(x)[s.len() as int] == m);
    }
}

/// The cached upgrades that the asked-for packages name, each once (see
/// [`select_upgrades`]).
pub fn upgrade_only(pkgs: &Vec<(String, Option<String>)>) -> (r: Vec<ProcessedMetaData>)
    ensures
        no_dups(metadata_views(r@)),
        forall|m: ProcessedMetaDataView|
            metadata_views(r@).contains(m) <==> upgrade_all_spec().contains(m)
                && wanted_by(m, pair_views(pkgs@)),
{
    let base = upgrade_all();
    assert(metadata_views(base@) =~= upgrade_all_spec());
    select_upgrades(&base, pkgs)
}

/// The cached upgrade metadata: none at present.
pub open spec fn upgrade_all_spec() -> Seq<ProcessedMetaDataView> {
    Seq::empty()
}

/// What a filter keeps comes from the filtered sequence.
pub proof fn lemma_filter_in<T>(s: Seq<T>, p: spec_fn(T) -> bool, i: int)
    requires
        0 <= i < s.filter(p).len(),
    ensures
        exists|j: int| 0 <= j < s.len() && s[j] == s.filter(p)[i],
    decreases s.len(),
{
    reveal(Seq::filter);
    let init = s.drop_last();
    if p(s.last()) && i == init.filter(p).len() {
        assert(s[s.len() - 1] == s.filter(p)[i]);
    } else {
        lemma_filter_in(init, p, i);
        let j = choose|j: int| 0 <= j < init.len() && init[j] == init.filter(p)[i];
        assert(s[j] == init[j]);
        if p(s.last()) {
            assert(s.filter(p)[i] == init.filter(p).push(s.last())[i]);
        }
    }
}

/// What an upgrade plan keeps apart: no stale dependency is still needed by
/// the new version and none is taken over by an in-place upgrade; every new
/// or in-place dependency is not installed as such; the in-place ones, and
/// only they, share a name with a stale dependency.
pub proof fn lemma_upgrade_plan(inst: Seq<DepVerView>, runtime: Seq<DependKindView>, present: Seq<Seq<char>>)
    ensures
        forall|i: int|
            0 <= i < plan_stale(inst, runtime, present).len() ==> !needs(
                runtime,
                present,
                #[trigger] plan_stale(inst, runtime, present)[i],
            ) && !kind_named_in(
                plan_in_place(inst, runtime, present),
                plan_stale(inst, runtime, present)[i].name,
            ),
        forall|i: int|
            0 <= i < plan_new(inst, runtime, present).len() ==> !installed_has(
                inst,
                present,
                #[trigger] plan_new(inst, runtime, present)[i],
            ) && !named_in(
                stale_of(inst, runtime, present),
                depend_name(plan_new(inst, runtime, present)[i]),
            ),
        forall|i: int|
            0 <= i < plan_in_place(inst, runtime, present).len() ==> !installed_has(
                inst,
                present,
                #[trigger] plan_in_place(inst, runtime, present)[i],
            ) && named_in(
                stale_of(inst, runtime, present),
                depend_name(plan_in_place(inst, runtime, present)[i]),
            ),
{
    let stale0 = stale_of(inst, runtime, present);
    let fresh = fresh_of(inst, runtime, present);
    let ip = plan_in_place(inst, runtime, present);
    let nd = plan_new(inst, runtime, present);
    let st = plan_stale(inst, runtime, present);
    assert forall|i: int| 0 <= i < st.len() implies !needs(runtime, present, #[trigger] st[i])
        && !kind_named_in(ip, st[i].name) by {
        stale0.lemma_filter_pred(not_replaced(ip), i);
        lemma_filter_in(stale0, not_replaced(ip), i);
        let j = choose|j: int| 0 <= j < stale0.len() && stale0[j] == st[i];
        inst.lemma_filter_pred(not_needed(runtime, present), j);
    }
    assert forall|i: int| 0 <= i < nd.len() implies !installed_has(inst, present, #[trigger] nd[i])
        && !named_in(stale0, depend_name(nd[i])) by {
        fresh.lemma_filter_pred(replaces_none(stale0), i);
        lemma_filter_in(fresh, replaces_none(stale0), i);
        let j = choose|j: int| 0 <= j < fresh.len() && fresh[j] == nd[i];
        runtime.lemma_filter_pred(not_installed(inst, present), j);
    }
    assert forall|i: int| 0 <= i < ip.len() implies !installed_has(inst, present, #[trigger] ip[i])
        && named_in(stale0, depend_name(ip[i])) by {
        fresh.lemma_filter_pred(replaces(stale0), i);
        lemma_filter_in(fresh, replaces(stale0), i);
        let j = choose|j: int| 0 <= j < fresh.len() && fresh[j] == ip[i];
        runtime.lemma_filter_pred(not_installed(inst, present), j);
    }
}

} // verus!
