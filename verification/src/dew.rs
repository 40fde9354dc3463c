//! Package descriptions as plz servers publish them (the dew format), and
//! how they become package metadata.
use vstd::prelude::*;
use crate::depend::{depend_kind_views, DepVer, DepVerView, DependKind, DependKindView, DependKindVec};
use crate::errors::{ParseError, ParseErrorView};
use crate::metadata::{
    MetaDataKind, ProcessedCompilable, ProcessedCompilableView, ProcessedInstallKind,
    ProcessedInstallKindView, ProcessedMetaData, ProcessedMetaDataView,
};
use crate::origin::{OriginKind, OriginKindView};
use crate::range::{Range, RangeView};
use crate::text::{chars_of, prepend, split_char, split_char_exec, string_of, string_of_all, string_views};
use crate::verreq::{VerReq, VerReqView};
use crate::version::{version_parse_spec, Version, VersionView};

verus! {

/// A package description as a plz server sends it.
#[derive(Debug)]
pub struct RawDew {
    pub name: String,
    pub description: String,
    pub version: String,
    pub origin: String,
    pub build_dependencies: Vec<String>,
    pub runtime_dependencies: Vec<String>,
    pub build: String,
    pub install: String,
    pub uninstall: String,
    pub purge: String,
    pub hash: String,
}

/// `s` starts with the two characters `a` and `b`.
pub open spec fn starts2(s: Seq<char>, a: char, b: char) -> bool {
    s.len() >= 2 && s[0] == a && s[1] == b
}

/// A range from one requirement bound, reading the version after a
/// two-character operator.
pub open spec fn bound_after(s: Seq<char>, lower: bool, make: spec_fn(VersionView) -> VerReqView) -> Result<RangeView, ParseErrorView> {
    match version_parse_spec(s.subrange(2, s.len() as int)) {
        Ok(v) => Ok(
            if lower {
                RangeView { lower: make(v), upper: VerReqView::NoBound }
            } else {
                RangeView { lower: VerReqView::NoBound, upper: make(v) }
            },
        ),
        Err(e) => Err(e),
    }
}

/// How a dew version constraint reads: `>>`, `>=` give a lower bound,
/// `<=`, `<<` an upper bound, `==` or no operator an exact version.
pub open spec fn dew_range_spec(s: Seq<char>) -> Result<RangeView, ParseErrorView> {
    if starts2(s, '>', '>') {
        bound_after(s, true, |v: VersionView| VerReqView::Gt(v))
    } else if starts2(s, '>', '=') {
        bound_after(s, true, |v: VersionView| VerReqView::Ge(v))
    } else if starts2(s, '=', '=') {
        match version_parse_spec(s.subrange(2, s.len() as int)) {
            Ok(v) => Ok(RangeView { lower: VerReqView::Eq(v), upper: VerReqView::Eq(v) }),
            Err(e) => Err(e),
        }
    } else if starts2(s, '<', '=') {
        bound_after(s, false, |v: VersionView| VerReqView::Le(v))
    } else if starts2(s, '<', '<') {
        bound_after(s, false, |v: VersionView| VerReqView::Lt(v))
    } else {
        match version_parse_spec(s) {
            Ok(v) => Ok(RangeView { lower: VerReqView::Eq(v), upper: VerReqView::Eq(v) }),
            Err(e) => Err(e),
        }
    }
}

/// Whether `c` starts a version constraint.
pub open spec fn is_op(c: char) -> bool {
    c == '=' || c == '>' || c == '<'
}

/// The index of the first `=`, `>` or `<` (the length when there is none).
pub open spec fn first_op(s: Seq<char>) -> int
    decreases s.len(),
{
    if s.len() == 0 {
        0
    } else if is_op(s[0]) {
        0
    } else {
        1 + first_op(s.drop_first())
    }
}

pub proof fn lemma_first_op(s: Seq<char>)
    ensures
        0 <= first_op(s) <= s.len(),
        forall|j: int| 0 <= j < first_op(s) ==> !is_op(#[trigger] s[j]),
        first_op(s) < s.len() ==> is_op(s[first_op(s)]),
    decreases s.len(),
{
    if s.len() > 0 && !is_op(s[0]) {
        lemma_first_op(s.drop_first());
        assert forall|j: int| 1 <= j < s.len() implies s[j] == s.drop_first()[j - 1] by {}
    }
}

/// How one dependency reads: `!name` is volatile; `name` followed by a
/// constraint (from the first `=`, `>` or `<`) is a range; a bare name
/// wants the latest version.
pub open spec fn dew_kind_spec(d: Seq<char>) -> Result<DependKindView, ParseErrorView> {
    if d.len() > 0 && d[0] == '!' {
        Ok(DependKindView::Volatile(d.drop_first()))
    } else if first_op(d) < d.len() {
        match dew_range_spec(d.subrange(first_op(d), d.len() as int)) {
            Ok(r) => Ok(
                DependKindView::Specific(DepVerView { name: d.subrange(0, first_op(d)), range: r }),
            ),
            Err(e) => Err(e),
        }
    } else {
        Ok(DependKindView::Latest(d))
    }
}

/// How a list of dependencies reads: each in turn; the first failure fails
/// the list.
pub open spec fn dew_kinds_spec(ds: Seq<Seq<char>>) -> Result<Seq<DependKindView>, ParseErrorView>
    decreases ds.len(),
{
    if ds.len() == 0 {
        Ok(Seq::empty())
    } else {
        match dew_kind_spec(ds[0]) {
            Err(e) => Err(e),
            Ok(k) => prepend(seq![k], dew_kinds_spec(ds.drop_first())),
        }
    }
}

/// Why a dew description could not become metadata.
#[derive(Debug, PartialEq, Eq)]
pub enum DewError {
    /// A `gh/` origin that is not `gh/user/repo`.
    InvalidOrigin,
    /// A dependency's version does not parse.
    BadDependency(ParseError),
}

pub enum DewErrorView {
    InvalidOrigin,
    BadDependency(ParseErrorView),
}

impl View for DewError {
    type V = DewErrorView;

    open spec fn view(&self) -> DewErrorView {
        match self {
            DewError::InvalidOrigin => DewErrorView::InvalidOrigin,
            DewError::BadDependency(e) => DewErrorView::BadDependency(e@),
        }
    }
}

/// Where a dew package comes from: `gh/user/repo` is a GitHub repository;
/// any other `gh/` origin is invalid; everything else is a plz server.
pub open spec fn dew_origin_spec(o: Seq<char>) -> Option<OriginKindView> {
    if o.len() >= 3 && o[0] == 'g' && o[1] == 'h' && o[2] == '/' {
        let parts = split_char(o, '/').drop_first();
        if parts.len() == 2 {
            Some(OriginKindView::Github { user: parts[0], repo: parts[1] })
        } else {
            None
        }
    } else {
        Some(OriginKindView::Plz { source: o })
    }
}

impl RawDew {
    /// Reads a version constraint (see [`dew_range_spec`]).
    pub fn parse_ver(ver: &str) -> (r: Result<Range, ParseError>)
        ensures
            match r {
                Ok(x) => dew_range_spec(ver@) == Ok::<RangeView, ParseErrorView>(x@),
                Err(e) => dew_range_spec(ver@) == Err::<RangeView, ParseErrorView>(e@),
            },
    {
        let c = chars_of(ver);
        let two = c.len() >= 2;
        let (a, b) = if two {
            (c[0], c[1])
        } else {
            (' ', ' ')
        };
        let op = if two && ((a == '>' && (b == '>' || b == '=')) || (a == '=' && b == '=') || (a
            == '<' && (b == '=' || b == '<'))) {
            true
        } else {
            false
        };
        if op {
            let rest = string_of(&c, 2, c.len());
            let v = Version::parse(rest.as_str())?;
            if a == '>' && b == '>' {
                Ok(Range { lower: VerReq::Gt(v), upper: VerReq::NoBound })
            } else if a == '>' {
                Ok(Range { lower: VerReq::Ge(v), upper: VerReq::NoBound })
            } else if a == '=' {
                Ok(Range { lower: VerReq::Eq(v.clone()), upper: VerReq::Eq(v) })
            } else if b == '=' {
                Ok(Range { lower: VerReq::NoBound, upper: VerReq::Le(v) })
            } else {
                Ok(Range { lower: VerReq::NoBound, upper: VerReq::Lt(v) })
            }
        } else {
            let v = Version::parse(ver)?;
            Ok(Range { lower: VerReq::Eq(v.clone()), upper: VerReq::Eq(v) })
        }
    }

    /// Reads one dependency (see [`dew_kind_spec`]).
    pub fn as_dep_kind_one(dep: &str) -> (r: Result<DependKind, ParseError>)
        ensures
            match r {
                Ok(k) => dew_kind_spec(dep@) == Ok::<DependKindView, ParseErrorView>(k@),
                Err(e) => dew_kind_spec(dep@) == Err::<DependKindView, ParseErrorView>(e@),
            },
    {
        let c = chars_of(dep);
        if c.len() > 0 && c[0] == '!' {
            return Ok(DependKind::Volatile(string_of(&c, 1, c.len())));
        }
        proof {
            lemma_first_op(dep@);
        }
        let mut i: usize = 0;
        while i < c.len() && !(c[i] == '=' || c[i] == '>' || c[i] == '<')
            invariant
                i <= c.len(),
                c@ == dep@,
                i <= first_op(dep@),
                0 <= first_op(dep@) <= dep@.len(),
                forall|j: int| 0 <= j < first_op(dep@) ==> !is_op(#[trigger] dep@[j]),
                first_op(dep@) < dep@.len() ==> is_op(dep@[first_op(dep@)]),
            decreases c.len() - i,
        {
            i += 1;
        }
        if i < c.len() {
            assert(i == first_op(dep@));
            let ver = string_of(&c, i, c.len());
            let range = RawDew::parse_ver(ver.as_str())?;
            Ok(DependKind::Specific(DepVer { name: string_of(&c, 0, i), range }))
        } else {
            assert(first_op(dep@) == dep@.len());
            Ok(DependKind::Latest(dep.to_owned()))
        }
    }

    /// Reads a list of dependencies (see [`dew_kinds_spec`]).
    pub fn as_dep_kind(deps: &Vec<String>) -> (r: Result<Vec<DependKind>, ParseError>)
        ensures
            match r {
                Ok(v) => dew_kinds_spec(string_views(deps@)) == Ok::<
                    Seq<DependKindView>,
                    ParseErrorView,
                >(depend_kind_views(v@)),
                Err(e) => dew_kinds_spec(string_views(deps@)) == Err::<
                    Seq<DependKindView>,
                    ParseErrorView,
                >(e@),
            },
    {
        let ghost dv = string_views(deps@);
        let mut out: Vec<DependKind> = Vec::new();
        let mut k: usize = 0;
        proof {
            assert(dv.subrange(0, dv.len() as int) =~= dv);
            assert(depend_kind_views(out@) =~= Seq::<DependKindView>::empty());
            crate::text::lemma_prepend_empty(dew_kinds_spec(dv));
        }
        while k < deps.len()
            invariant
                k <= deps.len(),
                dv == string_views(deps@),
                dew_kinds_spec(dv) == prepend(
                    depend_kind_views(out@),
                    dew_kinds_spec(dv.subrange(k as int, dv.len() as int)),
                ),
            decreases deps.len() - k,
        {
            let ghost rest = dv.subrange(k as int, dv.len() as int);
            assert(rest.drop_first() =~= dv.subrange(k + 1, dv.len() as int));
            assert(rest[0] == deps@[k as int]@);
            let d = match RawDew::as_dep_kind_one(deps[k].as_str()) {
                Ok(d) => d,
                Err(e) => {
                    assert(dew_kinds_spec(rest) == Err::<Seq<DependKindView>, ParseErrorView>(e@));
                    return Err(e);
                },
            };
            let ghost before = depend_kind_views(out@);
            out.push(d);
            assert(depend_kind_views(out@) =~= before + seq![d@]);
            proof {
                crate::text::lemma_prepend_assoc(before, seq![d@], dew_kinds_spec(rest.drop_first()));
            }
            k += 1;
        }
        assert(dv.subrange(k as int, dv.len() as int) =~= Seq::<Seq<char>>::empty());
        assert(depend_kind_views(out@) + Seq::<DependKindView>::empty() =~= depend_kind_views(out@));
        Ok(out)
    }
}

/// The origin of a dew description (see [`dew_origin_spec`]).
fn dew_origin(o: &String) -> (r: Option<OriginKind>)
    ensures
        match r {
            Some(k) => dew_origin_spec(o@) == Some(k@),
            None => dew_origin_spec(o@) is None,
        },
{
    let c = chars_of(o.as_str());
    if c.len() >= 3 && c[0] == 'g' && c[1] == 'h' && c[2] == '/' {
        let parts = split_char_exec(&c, '/');
        let ghost pv = split_char(o@, '/');
        assert(crate::text::seq_views(parts@) == pv);
        if parts.len() == 3 {
            assert(pv.drop_first()[0] == parts@[1]@);
            assert(pv.drop_first()[1] == parts@[2]@);
            Some(OriginKind::Github { user: string_of_all(&parts[1]), repo: string_of_all(&parts[2]) })
        } else {
            assert(pv.drop_first().len() != 2);
            None
        }
    } else {
        Some(OriginKind::Plz { source: o.clone() })
    }
}

impl RawDew {
    /// The metadata this description gives (see [`dew_origin_spec`] and
    /// [`dew_kinds_spec`]): a dew package, built from its scripts.
    pub fn to_process(self, dependent: bool) -> (r: Result<ProcessedMetaData, DewError>)
        ensures
            match r {
                Ok(m) => {
                    &&& dew_origin_spec(self.origin@) == Some(m@.origin)
                    &&& dew_kinds_spec(string_views(self.build_dependencies@)) == Ok::<
                        Seq<DependKindView>,
                        ParseErrorView,
                    >(m@.build_dependencies)
                    &&& dew_kinds_spec(string_views(self.runtime_dependencies@)) == Ok::<
                        Seq<DependKindView>,
                        ParseErrorView,
                    >(m@.runtime_dependencies)
                    &&& m@.name == self.name@
                    &&& m@.kind == MetaDataKind::Dew
                    &&& m@.description == self.description@
                    &&& m@.version == self.version@
                    &&& m@.dependent == dependent
                    &&& m@.install_kind == ProcessedInstallKindView::Compilable(
                        ProcessedCompilableView {
                            build: self.build@,
                            install: self.install@,
                            uninstall: self.uninstall@,
                            purge: self.purge@,
                        },
                    )
                    &&& m@.hash == self.hash@
                },
                Err(DewError::InvalidOrigin) => dew_origin_spec(self.origin@) is None,
                Err(DewError::BadDependency(e)) => {
                    &&& dew_origin_spec(self.origin@) is Some
                    &&& (dew_kinds_spec(string_views(self.build_dependencies@)) == Err::<
                        Seq<DependKindView>,
                        ParseErrorView,
                    >(e@) || (dew_kinds_spec(string_views(self.build_dependencies@)) is Ok
                        && dew_kinds_spec(string_views(self.runtime_dependencies@)) == Err::<
                        Seq<DependKindView>,
                        ParseErrorView,
                    >(e@)))
                },
            },
    {
        let origin = match dew_origin(&self.origin) {
            Some(o) => o,
            None => return Err(DewError::InvalidOrigin),
        };
        let build_dependencies = match RawDew::as_dep_kind(&self.build_dependencies) {
            Ok(v) => DependKindVec(v),
            Err(e) => return Err(DewError::BadDependency(e)),
        };
        let runtime_dependencies = match RawDew::as_dep_kind(&self.runtime_dependencies) {
            Ok(v) => DependKindVec(v),
            Err(e) => return Err(DewError::BadDependency(e)),
        };
        Ok(
            ProcessedMetaData {
                name: self.name,
                kind: MetaDataKind::Dew,
                description: self.description,
                version: self.version,
                origin,
                dependent,
                build_dependencies,
                runtime_dependencies,
                install_kind: ProcessedInstallKind::Compilable(
                    ProcessedCompilable {
                        build: self.build,
                        install: self.install,
                        uninstall: self.uninstall,
                        purge: self.purge,
                    },
                ),
                hash: self.hash,
            },
        )
    }
}

} // verus!
