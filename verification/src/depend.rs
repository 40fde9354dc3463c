//! Dependency descriptions: a package with a version range (`DepVer`), an
//! exact installed package (`Specific`), and the kinds of dependency a
//! package declares (`DependKind`), with their lists and text encodings.
use vstd::prelude::*;
use crate::errors::{Field, ParseError, ParseErrorView};
use crate::range::{range_negotiate_spec, range_parse_spec, range_text, Range, RangeView};
use crate::text::{
    chars_of, fold_join, fold_join_exec, lemma_prepend_assoc, lemma_prepend_empty, prepend, push_char, split_char, split_char_exec,
    split_exec, split_once_char, split_once_char_exec, split_pat, string_of, string_of_all,
    string_views,
};
use crate::verreq::{low_byte, opt_range_view, VerReq, VerReqView};
use crate::version::{version_parse_spec, version_text, Version, VersionView};

verus! {

// ---------------------------------------------------------------------------
// DepVer
// ---------------------------------------------------------------------------

/// A dependency on a package within a version range.
#[derive(Debug, PartialEq, Eq, Hash)]
pub struct DepVer {
    pub name: String,
    pub range: Range,
}

pub struct DepVerView {
    pub name: Seq<char>,
    pub range: RangeView,
}

impl View for DepVer {
    type V = DepVerView;

    open spec fn view(&self) -> DepVerView {
        DepVerView { name: self.name@, range: self.range@ }
    }
}

impl Clone for DepVer {
    fn clone(&self) -> (r: Self)
        ensures
            r@ == self@,
    {
        DepVer { name: self.name.clone(), range: self.range.clone() }
    }
}

/// The printed form: name, a space, the range.
pub open spec fn depver_text(d: DepVerView) -> Seq<char> {
    d.name + seq![' '] + range_text(d.range)
}

/// How `DepVer::parse` reads: name up to the first space, then a range.
pub open spec fn depver_parse_spec(s: Seq<char>) -> Result<DepVerView, ParseErrorView> {
    match split_once_char(s, ' ') {
        None => Err(ParseErrorView::MissingField(Field::Range)),
        Some((n, r)) => match range_parse_spec(r) {
            Err(e) => Err(e),
            Ok(range) => Ok(DepVerView { name: n, range }),
        },
    }
}

impl DepVer {
    /// Whether two dependencies are equal (name and range).
    pub fn same(&self, other: &DepVer) -> (b: bool)
        ensures
            b == (self@ == other@),
    {
        self.name == other.name && self.range.same(&other.range)
    }

    /// Reads a dependency (see [`depver_parse_spec`]).
    pub fn parse(input: &str) -> (r: Result<DepVer, ParseError>)
        ensures
            match r {
                Ok(v) => depver_parse_spec(input@) == Ok::<DepVerView, ParseErrorView>(v@),
                Err(e) => depver_parse_spec(input@) == Err::<DepVerView, ParseErrorView>(e@),
            },
    {
        let chars = chars_of(input);
        let (n, r) = match split_once_char_exec(&chars, ' ') {
            None => return Err(ParseError::MissingField(Field::Range)),
            Some(p) => p,
        };
        let rs = string_of_all(&r);
        let range = Range::parse(rs.as_str())?;
        Ok(DepVer { name: string_of_all(&n), range })
    }

    /// The printed form (see [`depver_text`]).
    pub fn to_string(&self) -> (s: String)
        ensures
            s@ == depver_text(self@),
    {
        let mut s = self.name.clone();
        push_char(&mut s, ' ');
        let r = self.range.to_string();
        crate::text::append_str(&mut s, r.as_str());
        s
    }
}

// ---------------------------------------------------------------------------
// Specific
// ---------------------------------------------------------------------------

/// A package at one exact version.
#[derive(Debug, PartialEq, Eq, Hash)]
pub struct Specific {
    pub name: String,
    pub version: Version,
}

pub struct SpecificView {
    pub name: Seq<char>,
    pub version: VersionView,
}

impl View for Specific {
    type V = SpecificView;

    open spec fn view(&self) -> SpecificView {
        SpecificView { name: self.name@, version: self.version@ }
    }
}

impl Clone for Specific {
    fn clone(&self) -> (r: Self)
        ensures
            r@ == self@,
    {
        Specific { name: self.name.clone(), version: self.version.clone() }
    }
}

/// The printed form: name, a space, the version.
pub open spec fn specific_text(s: SpecificView) -> Seq<char> {
    s.name + seq![' '] + version_text(s.version)
}

/// How `Specific::parse` reads: name up to the first space, then a version.
pub open spec fn specific_parse_spec(s: Seq<char>) -> Result<SpecificView, ParseErrorView> {
    match split_once_char(s, ' ') {
        None => Err(ParseErrorView::MissingField(Field::Version)),
        Some((n, v)) => match version_parse_spec(v) {
            Err(e) => Err(e),
            Ok(version) => Ok(SpecificView { name: n, version }),
        },
    }
}

impl Specific {
    /// Reads an exact package (see [`specific_parse_spec`]).
    pub fn parse(input: &str) -> (r: Result<Specific, ParseError>)
        ensures
            match r {
                Ok(v) => specific_parse_spec(input@) == Ok::<SpecificView, ParseErrorView>(v@),
                Err(e) => specific_parse_spec(input@) == Err::<SpecificView, ParseErrorView>(e@),
            },
    {
        let chars = chars_of(input);
        let (n, v) = match split_once_char_exec(&chars, ' ') {
            None => return Err(ParseError::MissingField(Field::Version)),
            Some(p) => p,
        };
        let vs = string_of_all(&v);
        let version = Version::parse(vs.as_str())?;
        Ok(Specific { name: string_of_all(&n), version })
    }

    /// The printed form (see [`specific_text`]).
    pub fn to_string(&self) -> (s: String)
        ensures
            s@ == specific_text(self@),
    {
        let mut s = self.name.clone();
        push_char(&mut s, ' ');
        let v = self.version.to_string();
        crate::text::append_str(&mut s, v.as_str());
        s
    }

    /// Whether two exact packages are the same (name and version).
    pub fn same(&self, other: &Specific) -> (b: bool)
        ensures
            b == (self@ == other@),
    {
        self.name == other.name && self.version.same(&other.version)
    }
}

// ---------------------------------------------------------------------------
// DependKind
// ---------------------------------------------------------------------------

/// How a package depends on another.
#[derive(Debug, PartialEq, Eq, Hash)]
pub enum DependKind {
    /// Any version; the newest is wanted.
    Latest(String),
    /// A version within a range.
    Specific(DepVer),
    /// Needed only when no program of that name is already on the system.
    Volatile(String),
}

pub enum DependKindView {
    Latest(Seq<char>),
    Specific(DepVerView),
    Volatile(Seq<char>),
}

impl View for DependKind {
    type V = DependKindView;

    open spec fn view(&self) -> DependKindView {
        match self {
            DependKind::Latest(l) => DependKindView::Latest(l@),
            DependKind::Specific(d) => DependKindView::Specific(d@),
            DependKind::Volatile(v) => DependKindView::Volatile(v@),
        }
    }
}

impl Clone for DependKind {
    fn clone(&self) -> (r: Self)
        ensures
            r@ == self@,
    {
        match self {
            DependKind::Latest(l) => DependKind::Latest(l.clone()),
            DependKind::Specific(d) => DependKind::Specific(d.clone()),
            DependKind::Volatile(v) => DependKind::Volatile(v.clone()),
        }
    }
}

/// The name of the package a dependency is on.
pub open spec fn depend_name(k: DependKindView) -> Seq<char> {
    match k {
        DependKindView::Latest(l) => l,
        DependKindView::Specific(d) => d.name,
        DependKindView::Volatile(v) => v,
    }
}

/// The range without bounds.
pub open spec fn unbounded() -> RangeView {
    RangeView { lower: VerReqView::NoBound, upper: VerReqView::NoBound }
}

/// `DependKind::as_dep_ver`: the dependency as a package and range; a
/// volatile dependency whose program is `present` on the system needs
/// nothing and gives `None`.
pub open spec fn as_dep_ver_spec(k: DependKindView, present: Seq<Seq<char>>) -> Option<
    DepVerView,
> {
    match k {
        DependKindView::Latest(l) => Some(DepVerView { name: l, range: unbounded() }),
        DependKindView::Specific(d) => Some(d),
        DependKindView::Volatile(v) => if present.contains(v) {
            None
        } else {
            Some(DepVerView { name: v, range: unbounded() })
        },
    }
}

/// The printed form: a kind character (`\x01` latest, `\x02` specific,
/// `\x03` volatile) and the name or dependency text.
pub open spec fn depend_kind_text(k: DependKindView) -> Seq<char> {
    match k {
        DependKindView::Latest(l) => seq!['\x01'] + l,
        DependKindView::Specific(d) => seq!['\x02'] + depver_text(d),
        DependKindView::Volatile(v) => seq!['\x03'] + v,
    }
}

/// How `DependKind::parse` reads: the low byte of the first character picks
/// the kind, the rest is the name or the dependency text.
pub open spec fn depend_kind_parse_spec(s: Seq<char>) -> Result<DependKindView, ParseErrorView> {
    if s.len() == 0 {
        Err(ParseErrorView::MissingIdentifier)
    } else {
        let kind = low_byte(s[0]);
        let data = s.drop_first();
        if kind == 1 {
            Ok(DependKindView::Latest(data))
        } else if kind == 2 {
            match depver_parse_spec(data) {
                Err(e) => Err(e),
                Ok(d) => Ok(DependKindView::Specific(d)),
            }
        } else if kind == 3 {
            Ok(DependKindView::Volatile(data))
        } else {
            Err(ParseErrorView::InvalidIdentifier(kind))
        }
    }
}

/// Whether the text `t` is one of `present`.
pub fn contains_string(present: &Vec<String>, t: &String) -> (b: bool)
    ensures
        b == string_views(present@).contains(t@),
{
    let mut i: usize = 0;
    while i < present.len()
        invariant
            i <= present.len(),
            forall|j: int| 0 <= j < i ==> present@[j]@ != t@,
        decreases present.len() - i,
    {
        if present[i] == *t {
            assert(string_views(present@)[i as int] == t@);
            return true;
        }
        i += 1;
    }
    proof {
        if string_views(present@).contains(t@) {
            let j = choose|j: int|
                0 <= j < string_views(present@).len() && string_views(present@)[j] == t@;
            assert(present@[j]@ == t@);
        }
    }
    false
}

impl DependKind {
    /// Whether two dependencies are equal.
    pub fn same(&self, other: &DependKind) -> (b: bool)
        ensures
            b == (self@ == other@),
    {
        match (self, other) {
            (DependKind::Latest(a), DependKind::Latest(b)) => *a == *b,
            (DependKind::Specific(a), DependKind::Specific(b)) => a.same(b),
            (DependKind::Volatile(a), DependKind::Volatile(b)) => *a == *b,
            _ => false,
        }
    }

    /// The name of the package depended on.
    pub fn name(&self) -> (s: String)
        ensures
            s@ == depend_name(self@),
    {
        match self {
            DependKind::Latest(l) => l.clone(),
            DependKind::Specific(d) => d.name.clone(),
            DependKind::Volatile(v) => v.clone(),
        }
    }

    /// The dependency as a package and range (see [`as_dep_ver_spec`]);
    /// `present` lists the volatile names that `which` finds on the system.
    pub fn as_dep_ver(&self, present: &Vec<String>) -> (r: Option<DepVer>)
        ensures
            match r {
                Some(d) => as_dep_ver_spec(self@, string_views(present@)) == Some(d@),
                None => as_dep_ver_spec(self@, string_views(present@)) is None,
            },
    {
        match self {
            DependKind::Latest(l) => Some(
                DepVer { name: l.clone(), range: Range { lower: VerReq::NoBound, upper: VerReq::NoBound } },
            ),
            DependKind::Specific(d) => Some(d.clone()),
            DependKind::Volatile(v) => {
                if contains_string(present, v) {
                    None
                } else {
                    Some(
                        DepVer {
                            name: v.clone(),
                            range: Range { lower: VerReq::NoBound, upper: VerReq::NoBound },
                        },
                    )
                }
            },
        }
    }

    /// Reads a dependency kind (see [`depend_kind_parse_spec`]).
    pub fn parse(input: &str) -> (r: Result<DependKind, ParseError>)
        ensures
            match r {
                Ok(v) => depend_kind_parse_spec(input@) == Ok::<DependKindView, ParseErrorView>(
                    v@,
                ),
                Err(e) => depend_kind_parse_spec(input@) == Err::<DependKindView, ParseErrorView>(
                    e@,
                ),
            },
    {
        let chars = chars_of(input);
        if chars.len() == 0 {
            return Err(ParseError::MissingIdentifier);
        }
        let kind = ((chars[0] as u32) % 256) as u8;
        let data = string_of(&chars, 1, chars.len());
        assert(data@ =~= input@.drop_first());
        if kind == 1 {
            Ok(DependKind::Latest(data))
        } else if kind == 2 {
            Ok(DependKind::Specific(DepVer::parse(data.as_str())?))
        } else if kind == 3 {
            Ok(DependKind::Volatile(data))
        } else {
            Err(ParseError::InvalidIdentifier(kind))
        }
    }

    /// The printed form (see [`depend_kind_text`]).
    pub fn to_string(&self) -> (s: String)
        ensures
            s@ == depend_kind_text(self@),
    {
        let mut s = String::new();
        match self {
            DependKind::Latest(l) => {
                push_char(&mut s, '\x01');
                crate::text::append_str(&mut s, l.as_str());
            },
            DependKind::Specific(d) => {
                push_char(&mut s, '\x02');
                let t = d.to_string();
                crate::text::append_str(&mut s, t.as_str());
            },
            DependKind::Volatile(v) => {
                push_char(&mut s, '\x03');
                crate::text::append_str(&mut s, v.as_str());
            },
        }
        s
    }
}

// ---------------------------------------------------------------------------
// Lists
// ---------------------------------------------------------------------------

/// A list of dependencies with ranges.
#[derive(Debug, PartialEq, Eq, Hash)]
pub struct DepVerVec(pub Vec<DepVer>);

/// A list of exact packages.
#[derive(Debug, PartialEq, Eq, Hash)]
pub struct SpecificVec(pub Vec<Specific>);

/// A list of dependency kinds.
#[derive(Debug, PartialEq, Eq, Hash)]
pub struct DependKindVec(pub Vec<DependKind>);

pub open spec fn depver_views(s: Seq<DepVer>) -> Seq<DepVerView> {
    s.map_values(|x: DepVer| x@)
}

pub open spec fn specific_views(s: Seq<Specific>) -> Seq<SpecificView> {
    s.map_values(|x: Specific| x@)
}

pub open spec fn depend_kind_views(s: Seq<DependKind>) -> Seq<DependKindView> {
    s.map_values(|x: DependKind| x@)
}

impl View for DepVerVec {
    type V = Seq<DepVerView>;

    open spec fn view(&self) -> Seq<DepVerView> {
        depver_views(self.0@)
    }
}

impl View for SpecificVec {
    type V = Seq<SpecificView>;

    open spec fn view(&self) -> Seq<SpecificView> {
        specific_views(self.0@)
    }
}

impl View for DependKindVec {
    type V = Seq<DependKindView>;

    open spec fn view(&self) -> Seq<DependKindView> {
        depend_kind_views(self.0@)
    }
}

pub open spec fn parse_depvers(parts: Seq<Seq<char>>) -> Result<Seq<DepVerView>, ParseErrorView>
    decreases parts.len(),
{
    if parts.len() == 0 {
        Ok(Seq::empty())
    } else {
        match depver_parse_spec(parts[0]) {
            Err(e) => Err(e),
            Ok(x) => prepend(seq![x], parse_depvers(parts.drop_first())),
        }
    }
}

pub open spec fn parse_specifics(parts: Seq<Seq<char>>) -> Result<
    Seq<SpecificView>,
    ParseErrorView,
>
    decreases parts.len(),
{
    if parts.len() == 0 {
        Ok(Seq::empty())
    } else {
        match specific_parse_spec(parts[0]) {
            Err(e) => Err(e),
            Ok(x) => prepend(seq![x], parse_specifics(parts.drop_first())),
        }
    }
}

pub open spec fn parse_depend_kinds(parts: Seq<Seq<char>>) -> Result<
    Seq<DependKindView>,
    ParseErrorView,
>
    decreases parts.len(),
{
    if parts.len() == 0 {
        Ok(Seq::empty())
    } else {
        match depend_kind_parse_spec(parts[0]) {
            Err(e) => Err(e),
            Ok(x) => prepend(seq![x], parse_depend_kinds(parts.drop_first())),
        }
    }
}

/// How `DepVerVec::parse` reads: empty text is the empty list; otherwise the
/// pieces between `\x00\x00` separators, each a dependency.
pub open spec fn depver_vec_parse_spec(s: Seq<char>) -> Result<Seq<DepVerView>, ParseErrorView> {
    if s.len() == 0 {
        Ok(Seq::empty())
    } else {
        parse_depvers(split_pat(s, seq!['\x00', '\x00']))
    }
}

/// How `SpecificVec::parse` reads: empty text is the empty list; otherwise
/// the pieces between `\x00` separators, each an exact package.
pub open spec fn specific_vec_parse_spec(s: Seq<char>) -> Result<
    Seq<SpecificView>,
    ParseErrorView,
> {
    if s.len() == 0 {
        Ok(Seq::empty())
    } else {
        parse_specifics(split_char(s, '\x00'))
    }
}

/// How `DependKindVec::parse` reads: empty text is the empty list; otherwise
/// the pieces between `\x00` separators, each a dependency kind.
pub open spec fn depend_kind_vec_parse_spec(s: Seq<char>) -> Result<
    Seq<DependKindView>,
    ParseErrorView,
> {
    if s.len() == 0 {
        Ok(Seq::empty())
    } else {
        parse_depend_kinds(split_char(s, '\x00'))
    }
}

/// The printed form of a dependency list: the items joined by `\x00\x00`.
pub open spec fn depver_vec_text(s: Seq<DepVerView>) -> Seq<char> {
    fold_join(s.map_values(|d: DepVerView| depver_text(d)), seq!['\x00', '\x00'])
}

/// The printed form of an exact-package list: the items joined by `\x00`.
pub open spec fn specific_vec_text(s: Seq<SpecificView>) -> Seq<char> {
    fold_join(s.map_values(|d: SpecificView| specific_text(d)), seq!['\x00'])
}

/// The printed form of a dependency-kind list: the items joined by `\x00`.
pub open spec fn depend_kind_vec_text(s: Seq<DependKindView>) -> Seq<char> {
    fold_join(s.map_values(|d: DependKindView| depend_kind_text(d)), seq!['\x00'])
}

impl DepVerVec {
    /// Reads a dependency list (see [`depver_vec_parse_spec`]).
    pub fn parse(input: &str) -> (r: Result<DepVerVec, ParseError>)
        ensures
            match r {
                Ok(v) => depver_vec_parse_spec(input@) == Ok::<Seq<DepVerView>, ParseErrorView>(
                    v@,
                ),
                Err(e) => depver_vec_parse_spec(input@) == Err::<
                    Seq<DepVerView>,
                    ParseErrorView,
                >(e@),
            },
    {
        let chars = chars_of(input);
        if chars.len() == 0 {
            let r = DepVerVec(Vec::new());
            assert(r@ =~= Seq::<DepVerView>::empty());
            return Ok(r);
        }
        let sep = vec!['\x00', '\x00'];
        assert(sep@ =~= seq!['\x00', '\x00']);
        let parts = split_exec(&chars, &sep);
        let ghost pv = split_pat(input@, seq!['\x00', '\x00']);
        let mut out: Vec<DepVer> = Vec::new();
        let mut k: usize = 0;
        proof {
            assert(pv.subrange(0, pv.len() as int) =~= pv);
            assert(depver_views(out@) =~= Seq::<DepVerView>::empty());
            lemma_prepend_empty(parse_depvers(pv));
        }
        while k < parts.len()
            invariant
                k <= parts.len(),
                parts@.len() == pv.len(),
                forall|j: int| 0 <= j < parts@.len() ==> #[trigger] parts@[j]@ == pv[j],
                depver_vec_parse_spec(input@) == parse_depvers(pv),
                parse_depvers(pv) == prepend(
                    depver_views(out@),
                    parse_depvers(pv.subrange(k as int, pv.len() as int)),
                ),
            decreases parts.len() - k,
        {
            let t = string_of_all(&parts[k]);
            let ghost rest = pv.subrange(k as int, pv.len() as int);
            assert(rest.drop_first() =~= pv.subrange(k + 1, pv.len() as int));
            assert(rest[0] == t@);
            let d = match DepVer::parse(t.as_str()) {
                Ok(d) => d,
                Err(e) => {
                    assert(parse_depvers(rest) == Err::<Seq<DepVerView>, ParseErrorView>(e@));
                    return Err(e);
                },
            };
            let ghost before = depver_views(out@);
            out.push(d);
            assert(depver_views(out@) =~= before + seq![d@]);
            proof {
                lemma_prepend_assoc(before, seq![d@], parse_depvers(rest.drop_first()));
            }
            k += 1;
        }
        assert(pv.subrange(k as int, pv.len() as int) =~= Seq::<Seq<char>>::empty());
        assert(depver_views(out@) + Seq::<DepVerView>::empty() =~= depver_views(out@));
        Ok(DepVerVec(out))
    }

    /// The printed form (see [`depver_vec_text`]).
    pub fn to_string(&self) -> (s: String)
        ensures
            s@ == depver_vec_text(self@),
    {
        let mut texts: Vec<String> = Vec::new();
        let mut i: usize = 0;
        while i < self.0.len()
            invariant
                i <= self.0.len(),
                string_views(texts@) =~= self@.subrange(0, i as int).map_values(
                    |d: DepVerView| depver_text(d),
                ),
            decreases self.0.len() - i,
        {
            let t = self.0[i].to_string();
            let ghost before = texts@;
            texts.push(t);
            proof {
                assert(string_views(texts@) =~= string_views(before).push(t@));
                assert(self@.subrange(0, i + 1) =~= self@.subrange(0, i as int).push(self@[i as int]));
            }
            i += 1;
        }
        assert(self@.subrange(0, self.0.len() as int) =~= self@);
        let sep = vec!['\x00', '\x00'];
        assert(sep@ =~= seq!['\x00', '\x00']);
        fold_join_exec(&texts, &sep)
    }
}

impl SpecificVec {
    /// Reads an exact-package list (see [`specific_vec_parse_spec`]).
    pub fn parse(input: &str) -> (r: Result<SpecificVec, ParseError>)
        ensures
            match r {
                Ok(v) => specific_vec_parse_spec(input@) == Ok::<
                    Seq<SpecificView>,
                    ParseErrorView,
                >(v@),
                Err(e) => specific_vec_parse_spec(input@) == Err::<
                    Seq<SpecificView>,
                    ParseErrorView,
                >(e@),
            },
    {
        let chars = chars_of(input);
        if chars.len() == 0 {
            let r = SpecificVec(Vec::new());
            assert(r@ =~= Seq::<SpecificView>::empty());
            return Ok(r);
        }
        let parts = split_char_exec(&chars, '\x00');
        let ghost pv = split_char(input@, '\x00');
        let mut out: Vec<Specific> = Vec::new();
        let mut k: usize = 0;
        proof {
            assert(pv.subrange(0, pv.len() as int) =~= pv);
            assert(specific_views(out@) =~= Seq::<SpecificView>::empty());
            lemma_prepend_empty(parse_specifics(pv));
        }
        while k < parts.len()
            invariant
                k <= parts.len(),
                parts@.len() == pv.len(),
                forall|j: int| 0 <= j < parts@.len() ==> #[trigger] parts@[j]@ == pv[j],
                specific_vec_parse_spec(input@) == parse_specifics(pv),
                parse_specifics(pv) == prepend(
                    specific_views(out@),
                    parse_specifics(pv.subrange(k as int, pv.len() as int)),
                ),
            decreases parts.len() - k,
        {
            let t = string_of_all(&parts[k]);
            let ghost rest = pv.subrange(k as int, pv.len() as int);
            assert(rest.drop_first() =~= pv.subrange(k + 1, pv.len() as int));
            assert(rest[0] == t@);
            let d = match Specific::parse(t.as_str()) {
                Ok(d) => d,
                Err(e) => {
                    assert(parse_specifics(rest) == Err::<Seq<SpecificView>, ParseErrorView>(e@));
                    return Err(e);
                },
            };
            let ghost before = specific_views(out@);
            out.push(d);
            assert(specific_views(out@) =~= before + seq![d@]);
            proof {
                lemma_prepend_assoc(before, seq![d@], parse_specifics(rest.drop_first()));
            }
            k += 1;
        }
        assert(pv.subrange(k as int, pv.len() as int) =~= Seq::<Seq<char>>::empty());
        assert(specific_views(out@) + Seq::<SpecificView>::empty() =~= specific_views(out@));
        Ok(SpecificVec(out))
    }

    /// The printed form (see [`specific_vec_text`]).
    pub fn to_string(&self) -> (s: String)
        ensures
            s@ == specific_vec_text(self@),
    {
        let mut texts: Vec<String> = Vec::new();
        let mut i: usize = 0;
        while i < self.0.len()
            invariant
                i <= self.0.len(),
                string_views(texts@) =~= self@.subrange(0, i as int).map_values(
                    |d: SpecificView| specific_text(d),
                ),
            decreases self.0.len() - i,
        {
            let t = self.0[i].to_string();
            let ghost before = texts@;
            texts.push(t);
            proof {
                assert(string_views(texts@) =~= string_views(before).push(t@));
                assert(self@.subrange(0, i + 1) =~= self@.subrange(0, i as int).push(self@[i as int]));
            }
            i += 1;
        }
        assert(self@.subrange(0, self.0.len() as int) =~= self@);
        let sep = vec!['\x00'];
        assert(sep@ =~= seq!['\x00']);
        fold_join_exec(&texts, &sep)
    }
}

impl DependKindVec {
    /// Reads a dependency-kind list (see [`depend_kind_vec_parse_spec`]).
    pub fn parse(input: &str) -> (r: Result<DependKindVec, ParseError>)
        ensures
            match r {
                Ok(v) => depend_kind_vec_parse_spec(input@) == Ok::<
                    Seq<DependKindView>,
                    ParseErrorView,
                >(v@),
                Err(e) => depend_kind_vec_parse_spec(input@) == Err::<
                    Seq<DependKindView>,
                    ParseErrorView,
                >(e@),
            },
    {
        let chars = chars_of(input);
        if chars.len() == 0 {
            let r = DependKindVec(Vec::new());
            assert(r@ =~= Seq::<DependKindView>::empty());
            return Ok(r);
        }
        let parts = split_char_exec(&chars, '\x00');
        let ghost pv = split_char(input@, '\x00');
        let mut out: Vec<DependKind> = Vec::new();
        let mut k: usize = 0;
        proof {
            assert(pv.subrange(0, pv.len() as int) =~= pv);
            assert(depend_kind_views(out@) =~= Seq::<DependKindView>::empty());
            lemma_prepend_empty(parse_depend_kinds(pv));
        }
        while k < parts.len()
            invariant
                k <= parts.len(),
                parts@.len() == pv.len(),
                forall|j: int| 0 <= j < parts@.len() ==> #[trigger] parts@[j]@ == pv[j],
                depend_kind_vec_parse_spec(input@) == parse_depend_kinds(pv),
                parse_depend_kinds(pv) == prepend(
                    depend_kind_views(out@),
                    parse_depend_kinds(pv.subrange(k as int, pv.len() as int)),
                ),
            decreases parts.len() - k,
        {
            let t = string_of_all(&parts[k]);
            let ghost rest = pv.subrange(k as int, pv.len() as int);
            assert(rest.drop_first() =~= pv.subrange(k + 1, pv.len() as int));
            assert(rest[0] == t@);
            let d = match DependKind::parse(t.as_str()) {
                Ok(d) => d,
                Err(e) => {
                    assert(parse_depend_kinds(rest) == Err::<Seq<DependKindView>, ParseErrorView>(e@));
                    return Err(e);
                },
            };
            let ghost before = depend_kind_views(out@);
            out.push(d);
            assert(depend_kind_views(out@) =~= before + seq![d@]);
            proof {
                lemma_prepend_assoc(before, seq![d@], parse_depend_kinds(rest.drop_first()));
            }
            k += 1;
        }
        assert(pv.subrange(k as int, pv.len() as int) =~= Seq::<Seq<char>>::empty());
        assert(depend_kind_views(out@) + Seq::<DependKindView>::empty() =~= depend_kind_views(
            out@,
        ));
        Ok(DependKindVec(out))
    }

    /// The printed form (see [`depend_kind_vec_text`]).
    pub fn to_string(&self) -> (s: String)
        ensures
            s@ == depend_kind_vec_text(self@),
    {
        let mut texts: Vec<String> = Vec::new();
        let mut i: usize = 0;
        while i < self.0.len()
            invariant
                i <= self.0.len(),
                string_views(texts@) =~= self@.subrange(0, i as int).map_values(
                    |d: DependKindView| depend_kind_text(d),
                ),
            decreases self.0.len() - i,
        {
            let t = self.0[i].to_string();
            let ghost before = texts@;
            texts.push(t);
            proof {
                assert(string_views(texts@) =~= string_views(before).push(t@));
                assert(self@.subrange(0, i + 1) =~= self@.subrange(0, i as int).push(self@[i as int]));
            }
            i += 1;
        }
        assert(self@.subrange(0, self.0.len() as int) =~= self@);
        let sep = vec!['\x00'];
        assert(sep@ =~= seq!['\x00']);
        fold_join_exec(&texts, &sep)
    }
}

// ---------------------------------------------------------------------------
// Collapsing, choosing, installed checks
// ---------------------------------------------------------------------------

/// Index of the first entry depending on the package `n`, or -1.
pub open spec fn find_name(c: Seq<DependKindView>, n: Seq<char>) -> int
    decreases c.len(),
{
    if c.len() == 0 {
        -1
    } else if depend_name(c[0]) == n {
        0
    } else {
        let r = find_name(c.drop_first(), n);
        if r < 0 {
            -1
        } else {
            r + 1
        }
    }
}

pub proof fn lemma_find_name(c: Seq<DependKindView>, n: Seq<char>)
    ensures
        -1 <= find_name(c, n) < c.len(),
        find_name(c, n) >= 0 ==> depend_name(c[find_name(c, n)]) == n,
        find_name(c, n) >= 0 ==> forall|j: int| 0 <= j < find_name(c, n) ==> depend_name(c[j]) != n,
        find_name(c, n) < 0 ==> forall|j: int| 0 <= j < c.len() ==> depend_name(c[j]) != n,
    decreases c.len(),
{
    if c.len() > 0 && depend_name(c[0]) != n {
        lemma_find_name(c.drop_first(), n);
        assert forall|j: int| 1 <= j < c.len() implies c[j] == c.drop_first()[j - 1] by {}
    }
}

/// One step of `DependKind::collapse`: a dependency on a new package is
/// appended; one on a package already listed replaces a volatile entry,
/// upgrades a latest entry when it is specific, and narrows a specific entry
/// by its own range (failing when the ranges cannot be negotiated).
pub open spec fn collapse_step(c: Seq<DependKindView>, d: DependKindView) -> Option<
    Seq<DependKindView>,
> {
    let i = find_name(c, depend_name(d));
    if i < 0 {
        Some(c.push(d))
    } else {
        match c[i] {
            DependKindView::Volatile(_) => Some(c.update(i, d)),
            DependKindView::Latest(_) => match d {
                DependKindView::Specific(_) => Some(c.update(i, d)),
                _ => Some(c),
            },
            DependKindView::Specific(e) => match d {
                DependKindView::Specific(ds) => match range_negotiate_spec(
                    ds.range,
                    Some(e.range),
                ) {
                    Some(r) => Some(
                        c.update(i, DependKindView::Specific(DepVerView { name: ds.name, range: r })),
                    ),
                    None => None,
                },
                _ => Some(c),
            },
        }
    }
}

/// `DependKind::collapse`: the steps applied to the dependencies in order.
pub open spec fn collapse_spec(deps: Seq<DependKindView>) -> Option<Seq<DependKindView>>
    decreases deps.len(),
{
    if deps.len() == 0 {
        Some(Seq::empty())
    } else {
        match collapse_spec(deps.drop_last()) {
            None => None,
            Some(c) => collapse_step(c, deps.last()),
        }
    }
}

/// Once a prefix fails to collapse, the whole list fails.
pub proof fn lemma_collapse_fails_on(deps: Seq<DependKindView>, k: int)
    requires
        0 <= k <= deps.len(),
        collapse_spec(deps.subrange(0, k)) is None,
    ensures
        collapse_spec(deps) is None,
    decreases deps.len() - k,
{
    if k == deps.len() {
        assert(deps.subrange(0, k) =~= deps);
    } else {
        assert(deps.subrange(0, k + 1).drop_last() =~= deps.subrange(0, k));
        lemma_collapse_fails_on(deps, k + 1);
    }
}

/// No package is named twice.
pub open spec fn names_distinct(c: Seq<DependKindView>) -> bool {
    forall|i: int, j: int|
        0 <= i < j < c.len() ==> depend_name(#[trigger] c[i]) != depend_name(#[trigger] c[j])
}

/// The packages named in a list.
pub open spec fn names_of(c: Seq<DependKindView>) -> Set<Seq<char>> {
    Set::new(|n: Seq<char>| exists|i: int| 0 <= i < c.len() && depend_name(c[i]) == n)
}

proof fn lemma_collapse_step(c: Seq<DependKindView>, d: DependKindView)
    requires
        names_distinct(c),
        collapse_step(c, d) is Some,
    ensures
        names_distinct(collapse_step(c, d)->0),
        names_of(collapse_step(c, d)->0) == names_of(c).insert(depend_name(d)),
{
    lemma_find_name(c, depend_name(d));
    let i = find_name(c, depend_name(d));
    let r = collapse_step(c, d)->0;
    if i >= 0 {
        assert forall|j: int| 0 <= j < r.len() implies depend_name(r[j]) == depend_name(c[j]) by {}
        assert(r.len() == c.len());
    }
    assert(names_of(r) =~= names_of(c).insert(depend_name(d))) by {
        if i < 0 {
            assert(r[c.len() as int] == d);
            assert forall|n: Seq<char>| names_of(c).contains(n) implies names_of(r).contains(n) by {
                let k = choose|k: int| 0 <= k < c.len() && depend_name(c[k]) == n;
                assert(r[k] == c[k]);
            }
            assert forall|n: Seq<char>| names_of(r).contains(n) implies names_of(c).insert(
                depend_name(d),
            ).contains(n) by {
                let k = choose|k: int| 0 <= k < r.len() && depend_name(r[k]) == n;
                if k < c.len() {
                    assert(r[k] == c[k]);
                }
            }
        } else {
            assert forall|n: Seq<char>| names_of(c).contains(n) implies names_of(r).contains(n) by {
                let k = choose|k: int| 0 <= k < c.len() && depend_name(c[k]) == n;
                assert(depend_name(r[k]) == depend_name(c[k]));
            }
            assert forall|n: Seq<char>| names_of(r).contains(n) implies names_of(c).contains(n) by {
                let k = choose|k: int| 0 <= k < r.len() && depend_name(r[k]) == n;
                assert(depend_name(r[k]) == depend_name(c[k]));
            }
        }
    }
}

/// Collapsing leaves each package named once, and names exactly the
/// packages of the input.
pub proof fn lemma_collapse_names(deps: Seq<DependKindView>)
    requires
        collapse_spec(deps) is Some,
    ensures
        names_distinct(collapse_spec(deps)->0),
        names_of(collapse_spec(deps)->0) == names_of(deps),
    decreases deps.len(),
{
    if deps.len() == 0 {
        assert(names_of(Seq::<DependKindView>::empty()) =~= names_of(deps));
    } else {
        let init = deps.drop_last();
        lemma_collapse_names(init);
        let c = collapse_spec(init)->0;
        lemma_collapse_step(c, deps.last());
        assert(names_of(deps) =~= names_of(init).insert(depend_name(deps.last()))) by {
            assert forall|n: Seq<char>| names_of(deps).contains(n) implies names_of(init).insert(
                depend_name(deps.last()),
            ).contains(n) by {
                let k = choose|k: int| 0 <= k < deps.len() && depend_name(deps[k]) == n;
                if k < init.len() {
                    assert(deps[k] == init[k]);
                }
            }
            assert forall|n: Seq<char>| names_of(init).contains(n) implies names_of(deps).contains(
                n,
            ) by {
                let k = choose|k: int| 0 <= k < init.len() && depend_name(init[k]) == n;
                assert(deps[k] == init[k]);
            }
        }
    }
}

/// Some dependency of `deps` asks for a range of versions of `n`.
pub open spec fn has_specific(deps: Seq<DependKindView>, n: Seq<char>) -> bool {
    exists|j: int| 0 <= j < deps.len() && (#[trigger] deps[j]) is Specific && depend_name(deps[j]) == n
}

/// Some dependency of `deps` asks for the newest `n`.
pub open spec fn has_latest(deps: Seq<DependKindView>, n: Seq<char>) -> bool {
    exists|j: int| 0 <= j < deps.len() && (#[trigger] deps[j]) is Latest && depend_name(deps[j]) == n
}

/// `v` lies in the range of every dependency of `deps` that asks for a
/// range of versions of `n`.
pub open spec fn all_ranges_hold(deps: Seq<DependKindView>, n: Seq<char>, v: VersionView) -> bool {
    forall|j: int|
        0 <= j < deps.len() && (#[trigger] deps[j]) is Specific && depend_name(deps[j]) == n
            ==> crate::verreq::range_holds(deps[j]->Specific_0.range, v)
}

/// The entry that merging `deps` must give for the package `n`: when some
/// dependency asks for a range of versions, a ranged dependency holding
/// exactly the versions that every such range holds (no requirement is
/// loosened or dropped); otherwise the newest version when some dependency
/// asks for it; otherwise the volatile dependency.
pub open spec fn merged_entry(deps: Seq<DependKindView>, n: Seq<char>, e: DependKindView) -> bool {
    &&& depend_name(e) == n
    &&& if has_specific(deps, n) {
        e is Specific && forall|v: VersionView|
            crate::verreq::range_holds(#[trigger] e->Specific_0.range, v) == all_ranges_hold(deps, n, v)
    } else if has_latest(deps, n) {
        e == DependKindView::Latest(n)
    } else {
        e == DependKindView::Volatile(n)
    }
}

proof fn lemma_merge_facts(init: Seq<DependKindView>, d: DependKindView, n: Seq<char>)
    ensures
        has_specific(init.push(d), n) == (has_specific(init, n) || (d is Specific && depend_name(d) == n)),
        has_latest(init.push(d), n) == (has_latest(init, n) || (d is Latest && depend_name(d) == n)),
        forall|v: VersionView|
            #[trigger] all_ranges_hold(init.push(d), n, v) == (all_ranges_hold(init, n, v) && (
            d is Specific && depend_name(d) == n ==> crate::verreq::range_holds(d->Specific_0.range, v))),
{
    let deps = init.push(d);
    assert forall|j: int| 0 <= j < init.len() implies #[trigger] deps[j] == init[j] by {}
    assert(deps[init.len() as int] == d);
    if has_specific(init, n) {
        let j = choose|j: int| 0 <= j < init.len() && (#[trigger] init[j]) is Specific && depend_name(init[j]) == n;
        assert(deps[j] == init[j]);
    }
    if has_specific(deps, n) {
        let j = choose|j: int| 0 <= j < deps.len() && (#[trigger] deps[j]) is Specific && depend_name(deps[j]) == n;
        if j < init.len() {
            assert(init[j] == deps[j]);
        }
    }
    if has_latest(init, n) {
        let j = choose|j: int| 0 <= j < init.len() && (#[trigger] init[j]) is Latest && depend_name(init[j]) == n;
        assert(deps[j] == init[j]);
    }
    if has_latest(deps, n) {
        let j = choose|j: int| 0 <= j < deps.len() && (#[trigger] deps[j]) is Latest && depend_name(deps[j]) == n;
        if j < init.len() {
            assert(init[j] == deps[j]);
        }
    }
    assert forall|v: VersionView|
        #[trigger] all_ranges_hold(deps, n, v) == (all_ranges_hold(init, n, v) && (d is Specific
            && depend_name(d) == n ==> crate::verreq::range_holds(d->Specific_0.range, v))) by {
        if all_ranges_hold(deps, n, v) {
            assert forall|j: int|
                0 <= j < init.len() && (#[trigger] init[j]) is Specific && depend_name(init[j]) == n
                    implies crate::verreq::range_holds(init[j]->Specific_0.range, v) by {
                assert(deps[j] == init[j]);
            }
        }
        if all_ranges_hold(init, n, v) && (d is Specific && depend_name(d) == n
            ==> crate::verreq::range_holds(d->Specific_0.range, v)) {
            assert forall|j: int|
                0 <= j < deps.len() && (#[trigger] deps[j]) is Specific && depend_name(deps[j]) == n
                    implies crate::verreq::range_holds(deps[j]->Specific_0.range, v) by {
                if j < init.len() {
                    assert(init[j] == deps[j]);
                }
            }
        }
    }
}

/// Merging by name keeps every requirement: each package named in `deps`
/// gets one entry (see [`lemma_collapse_names`]) and it is the entry
/// [`merged_entry`] describes: when some dependency asks for a range of
/// versions of it, a ranged dependency holding exactly the versions that
/// every such range holds; so a volatile or newest-version dependency
/// followed by a ranged one gives the ranged one.
pub proof fn lemma_collapse_keeps_requirements(deps: Seq<DependKindView>, n: Seq<char>)
    requires
        collapse_spec(deps) is Some,
        names_of(deps).contains(n),
    ensures
        exists|i: int|
            0 <= i < collapse_spec(deps)->0.len() && merged_entry(deps, n, #[trigger] collapse_spec(deps)->0[i]),
    decreases deps.len(),
{
    let init = deps.drop_last();
    let d = deps.last();
    assert(init.push(d) =~= deps);
    let c = collapse_spec(init)->0;
    let r = collapse_spec(deps)->0;
    lemma_merge_facts(init, d, n);
    lemma_collapse_names(init);
    let m = depend_name(d);
    lemma_find_name(c, m);
    let i = find_name(c, m);
    let in_init = names_of(init).contains(n);
    if in_init {
        lemma_collapse_keeps_requirements(init, n);
        let k = choose|k: int| 0 <= k < c.len() && merged_entry(init, n, #[trigger] c[k]);
        if n != m {
            // the entry for `n` is untouched
            if i < 0 {
                assert(r[k] == c[k]);
            } else {
                assert(depend_name(c[i]) == m);
                assert(k != i);
                assert(r[k] == c[k]);
            }
            assert(merged_entry(deps, n, r[k]));
        } else {
            assert(i >= 0) by {
                if i < 0 {
                    assert(depend_name(c[k]) == n);
                }
            }
            assert(i == k) by {
                if i != k {
                    if i < k {
                        assert(depend_name(c[i]) != depend_name(c[k]));
                    } else {
                        assert(depend_name(c[k]) != depend_name(c[i]));
                    }
                }
            }
            match c[i] {
                DependKindView::Volatile(_) => {
                    assert(r[i] == d);
                    if d is Specific {
                        assert forall|v: VersionView|
                            crate::verreq::range_holds(#[trigger] r[i]->Specific_0.range, v)
                                == all_ranges_hold(deps, n, v) by {
                            assert(all_ranges_hold(deps, n, v) == (all_ranges_hold(init, n, v) && (d is Specific
                                && depend_name(d) == n ==> crate::verreq::range_holds(d->Specific_0.range, v))));
                        }
                    }
                    assert(merged_entry(deps, n, r[i]));
                },
                DependKindView::Latest(_) => {
                    if d is Specific {
                        assert(r[i] == d);
                        assert forall|v: VersionView|
                            crate::verreq::range_holds(#[trigger] r[i]->Specific_0.range, v)
                                == all_ranges_hold(deps, n, v) by {
                            assert(all_ranges_hold(deps, n, v) == (all_ranges_hold(init, n, v) && (d is Specific
                                && depend_name(d) == n ==> crate::verreq::range_holds(d->Specific_0.range, v))));
                        }
                    } else {
                        assert(r[i] == c[i]);
                    }
                    assert(merged_entry(deps, n, r[i]));
                },
                DependKindView::Specific(e) => {
                    match d {
                        DependKindView::Specific(ds) => {
                            let rg = range_negotiate_spec(ds.range, Some(e.range))->0;
                            assert(r[i] == DependKindView::Specific(DepVerView { name: ds.name, range: rg }));
                            assert forall|v: VersionView|
                                crate::verreq::range_holds(#[trigger] r[i]->Specific_0.range, v)
                                    == all_ranges_hold(deps, n, v) by {
                                crate::range::lemma_range_negotiate_is_intersection(ds.range, e.range, v);
                                assert(crate::verreq::range_holds(c[k]->Specific_0.range, v)
                                    == all_ranges_hold(init, n, v));
                                assert(all_ranges_hold(deps, n, v) == (all_ranges_hold(init, n, v) && (d is Specific
                                    && depend_name(d) == n ==> crate::verreq::range_holds(d->Specific_0.range, v))));
                            }
                        },
                        _ => {
                            assert(r[i] == c[i]);
                            assert forall|v: VersionView|
                                crate::verreq::range_holds(#[trigger] r[i]->Specific_0.range, v)
                                    == all_ranges_hold(deps, n, v) by {
                                assert(crate::verreq::range_holds(c[k]->Specific_0.range, v)
                                    == all_ranges_hold(init, n, v));
                                assert(all_ranges_hold(deps, n, v) == (all_ranges_hold(init, n, v) && (d is Specific
                                    && depend_name(d) == n ==> crate::verreq::range_holds(d->Specific_0.range, v))));
                            }
                        },
                    }
                    assert(merged_entry(deps, n, r[i]));
                },
            }
        }
    } else {
        // `n` is new: it is `d`'s name, and `d` is appended
        assert(m == n) by {
            let j = choose|j: int| 0 <= j < deps.len() && depend_name(deps[j]) == n;
            if j < init.len() {
                assert(init[j] == deps[j]);
                assert(names_of(init).contains(n));
            }
        }
        assert(i < 0) by {
            if i >= 0 {
                lemma_collapse_names(init);
                assert(names_of(c).contains(n));
            }
        }
        assert(!has_specific(init, n)) by {
            if has_specific(init, n) {
                let j = choose|j: int| 0 <= j < init.len() && (#[trigger] init[j]) is Specific && depend_name(init[j]) == n;
                assert(names_of(init).contains(n));
            }
        }
        assert(!has_latest(init, n)) by {
            if has_latest(init, n) {
                let j = choose|j: int| 0 <= j < init.len() && (#[trigger] init[j]) is Latest && depend_name(init[j]) == n;
                assert(names_of(init).contains(n));
            }
        }
        assert(r[c.len() as int] == d);
        if d is Specific {
            assert forall|v: VersionView|
                crate::verreq::range_holds(#[trigger] d->Specific_0.range, v) == all_ranges_hold(deps, n, v) by {
                assert(!all_ranges_hold(init, n, v) ==> has_specific(init, n)) by {
                    if !all_ranges_hold(init, n, v) {
                        let j = choose|j: int|
                            !(0 <= j < init.len() && (#[trigger] init[j]) is Specific && depend_name(init[j]) == n
                                ==> crate::verreq::range_holds(init[j]->Specific_0.range, v));
                        assert(init[j] is Specific);
                    }
                }
            }
        }
        assert(merged_entry(deps, n, r[c.len() as int]));
    }
}

/// Whether a dependency counts as installed, given the installed version of
/// its package (if its metadata exists) and whether `which` finds its
/// program: a latest dependency when the package is installed, a specific
/// one when the installed version lies in its range, a volatile one when its
/// program is found or the package is installed.
pub open spec fn is_installed_spec(
    k: DependKindView,
    installed_version: Option<Seq<char>>,
    on_path: bool,
) -> bool {
    match k {
        DependKindView::Latest(_) => installed_version is Some,
        DependKindView::Specific(d) => match installed_version {
            None => false,
            Some(v) => match version_parse_spec(v) {
                Ok(x) => range_negotiate_spec(
                    d.range,
                    Some(RangeView { lower: VerReqView::Eq(x), upper: VerReqView::Eq(x) }),
                ) is Some,
                Err(_) => false,
            },
        },
        DependKindView::Volatile(_) => on_path || installed_version is Some,
    }
}

/// A dependency on a package whose metadata is installed counts as
/// installed, unless it asks for a range of versions; a volatile dependency
/// also counts as installed when its program is found.
pub proof fn lemma_installed_when_recorded(k: DependKindView, installed_version: Option<Seq<char>>, on_path: bool)
    ensures
        installed_version is Some && !(k is Specific) ==> is_installed_spec(k, installed_version, on_path),
        k is Volatile && on_path ==> is_installed_spec(k, installed_version, on_path),
        installed_version is None && !(k is Volatile && on_path) ==> !is_installed_spec(
            k,
            installed_version,
            on_path,
        ),
{
}

/// `DependKind::choose`: nothing when one of the alternatives is installed,
/// else the first alternative.
pub open spec fn choose_spec(choices: Seq<DependKindView>, installed: Seq<bool>) -> Option<
    DependKindView,
> {
    if installed.contains(true) || choices.len() == 0 {
        None
    } else {
        Some(choices[0])
    }
}

impl DependKind {
    /// Merges dependencies on the same package (see [`collapse_spec`]).
    pub fn collapse(deps: Vec<DependKind>) -> (r: Option<Vec<DependKind>>)
        ensures
            match r {
                Some(c) => collapse_spec(depend_kind_views(deps@)) == Some(depend_kind_views(c@)),
                None => collapse_spec(depend_kind_views(deps@)) is None,
            },
    {
        let ghost dv = depend_kind_views(deps@);
        let mut collapsed: Vec<DependKind> = Vec::new();
        let mut k: usize = 0;
        assert(dv.subrange(0, 0) =~= Seq::<DependKindView>::empty());
        assert(depend_kind_views(collapsed@) =~= Seq::<DependKindView>::empty());
        while k < deps.len()
            invariant
                k <= deps.len(),
                dv == depend_kind_views(deps@),
                collapse_spec(dv.subrange(0, k as int)) == Some(depend_kind_views(collapsed@)),
            decreases deps.len() - k,
        {
            let dep = deps[k].clone();
            let ghost c0 = depend_kind_views(collapsed@);
            assert(dv.subrange(0, k + 1).drop_last() =~= dv.subrange(0, k as int));
            assert(dv.subrange(0, k + 1).last() == dep@);
            let dn = dep.name();
            let mut i: usize = 0;
            let mut found = false;
            while i < collapsed.len()
                invariant_except_break
                    !found,
                invariant
                    i <= collapsed.len(),
                    c0 == depend_kind_views(collapsed@),
                    dn@ == depend_name(dep@),
                    forall|j: int| 0 <= j < i ==> depend_name(c0[j]) != dn@,
                ensures
                    found ==> (i < collapsed.len() && depend_name(c0[i as int]) == dn@),
                    !found ==> i == collapsed.len(),
                decreases collapsed.len() - i,
            {
                if collapsed[i].name() == dn {
                    found = true;
                    break ;
                }
                i += 1;
            }
            proof {
                lemma_find_name(c0, dn@);
                if found {
                    if find_name(c0, dn@) < i as int {
                        assert(depend_name(c0[find_name(c0, dn@)]) != dn@);
                    }
                    if find_name(c0, dn@) > i as int || find_name(c0, dn@) < 0 {
                        assert(depend_name(c0[i as int]) == dn@);
                    }
                    assert(find_name(c0, dn@) == i);
                } else {
                    if find_name(c0, dn@) >= 0 {
                        assert(depend_name(c0[find_name(c0, dn@)]) != dn@);
                    }
                }
            }
            if !found {
                collapsed.push(dep);
                assert(depend_kind_views(collapsed@) =~= c0.push(dep@));
            } else {
                let replace: Option<DependKind> = match &collapsed[i] {
                    DependKind::Volatile(_) => Some(dep),
                    DependKind::Latest(_) => match dep {
                        DependKind::Specific(_) => Some(dep),
                        _ => None,
                    },
                    DependKind::Specific(entry) => match dep {
                        DependKind::Specific(ds) => {
                            let entry_range = entry.range.clone();
                            match ds.range.negotiate(Some(entry_range)) {
                                Some(range) => Some(
                                    DependKind::Specific(DepVer { name: ds.name, range }),
                                ),
                                None => {
                                    proof {
                                        assert(collapse_step(c0, dep@) is None);
                                        lemma_collapse_fails_on(dv, k + 1);
                                    }
                                    return None;
                                },
                            }
                        },
                        _ => None,
                    },
                };
                match replace {
                    Some(x) => {
                        let ghost xv = x@;
                        collapsed.set(i, x);
                        assert(depend_kind_views(collapsed@) =~= c0.update(i as int, xv));
                    },
                    None => {},
                }
            }
            k += 1;
        }
        assert(dv.subrange(0, deps.len() as int) =~= dv);
        Some(collapsed)
    }

    /// Whether the dependency counts as installed (see
    /// [`is_installed_spec`]); `installed_version` is the version text of the
    /// installed package's metadata, `on_path` whether `which` finds the
    /// program of a volatile dependency.
    pub fn is_installed(&self, installed_version: Option<&str>, on_path: bool) -> (b: bool)
        ensures
            b == is_installed_spec(
                self@,
                match installed_version {
                    Some(v) => Some(v@),
                    None => None,
                },
                on_path,
            ),
    {
        match self {
            DependKind::Latest(_) => installed_version.is_some(),
            DependKind::Specific(d) => match installed_version {
                None => false,
                Some(v) => match Version::parse(v) {
                    Ok(x) => {
                        let prior = Range { lower: VerReq::Eq(x.clone()), upper: VerReq::Eq(x) };
                        d.range.negotiate(Some(prior)).is_some()
                    },
                    Err(_) => false,
                },
            },
            DependKind::Volatile(_) => on_path || installed_version.is_some(),
        }
    }

    /// Picks among alternative dependencies (see [`choose_spec`]);
    /// `installed[i]` says whether `choices[i]` is installed.
    pub fn choose_alternative(choices: Vec<DependKind>, installed: &Vec<bool>) -> (r: Option<DependKind>)
        requires
            installed.len() == choices.len(),
        ensures
            match r {
                Some(c) => choose_spec(depend_kind_views(choices@), installed@) == Some(c@),
                None => choose_spec(depend_kind_views(choices@), installed@) is None,
            },
    {
        let mut i: usize = 0;
        while i < installed.len()
            invariant
                i <= installed.len(),
                forall|j: int| 0 <= j < i ==> !installed@[j],
            decreases installed.len() - i,
        {
            if installed[i] {
                assert(installed@.contains(true)) by {
                    assert(installed@[i as int] == true);
                }
                return None;
            }
            i += 1;
        }
        assert(!installed@.contains(true));
        if choices.len() == 0 {
            None
        } else {
            Some(choices[0].clone())
        }
    }
}

/// What collecting a dependency of a package to install fetches.
#[derive(Debug, PartialEq, Eq)]
pub enum FetchStep {
    /// Nothing: a volatile dependency whose program is on the system.
    Skip,
    /// The metadata of the named package, at its newest version.
    Newest(String),
    /// The metadata of the newest version that the dependency's range admits.
    InRange(DepVer),
}

impl DependKind {
    /// What to fetch for this dependency; `on_path` says whether `which`
    /// finds a program of its name (it matters for a volatile one only).
    pub fn fetch_step(&self, on_path: bool) -> (r: FetchStep)
        ensures
            match self@ {
                DependKindView::Latest(n) => r matches FetchStep::Newest(m) && m@ == n,
                DependKindView::Specific(d) => r matches FetchStep::InRange(x) && x@ == d,
                DependKindView::Volatile(v) => if on_path {
                    r is Skip
                } else {
                    r matches FetchStep::Newest(m) && m@ == v
                },
            },
    {
        match self {
            DependKind::Latest(n) => FetchStep::Newest(n.clone()),
            DependKind::Specific(d) => FetchStep::InRange(d.clone()),
            DependKind::Volatile(v) => if on_path {
                FetchStep::Skip
            } else {
                FetchStep::Newest(v.clone())
            },
        }
    }
}

// ---------------------------------------------------------------------------
// Choosing a version for a dependency
// ---------------------------------------------------------------------------

/// Why no version could be picked for a dependency.
#[derive(Debug, PartialEq, Eq, Clone, Copy)]
pub enum PickError {
    /// The lower bound is an upper-kind requirement.
    UnexpectedLower,
    /// The upper bound is a lower-kind requirement.
    UnexpectedUpper,
    /// No offered version lies in the range.
    NoMatchingVersion,
}

/// Whether the lower bound is of a kind the version filter handles.
pub open spec fn lower_kind_ok(r: VerReqView) -> bool {
    !(r is Le || r is Lt)
}

/// Whether the upper bound is of a kind the version filter handles.
pub open spec fn upper_kind_ok(r: VerReqView) -> bool {
    !(r is Gt || r is Ge)
}

/// Whether the filter keeps `v`: it meets the lower bound and an upper `<=`
/// or `<` bound (an exact upper bound is left to the lower one).
pub open spec fn admits(r: RangeView, v: VersionView) -> bool {
    &&& match r.lower {
        VerReqView::Gt(b) => crate::version::version_lt(b, v),
        VerReqView::Ge(b) => crate::version::version_le(b, v),
        VerReqView::Eq(b) => v == b,
        _ => true,
    }
    &&& match r.upper {
        VerReqView::Le(b) => crate::version::version_le(v, b),
        VerReqView::Lt(b) => crate::version::version_lt(v, b),
        _ => true,
    }
}

/// The version filter agrees with the requirements: it keeps a version
/// exactly when the version meets the lower bound and, unless the upper
/// bound is exact (that case is left to the lower bound), the upper bound.
pub proof fn lemma_admits_is_satisfaction(r: RangeView, v: VersionView)
    requires
        lower_kind_ok(r.lower),
        upper_kind_ok(r.upper),
    ensures
        admits(r, v) <==> crate::verreq::req_holds(r.lower, v) && (r.upper is Eq
            || crate::verreq::req_holds(r.upper, v)),
{
}

pub open spec fn version_views(s: Seq<Version>) -> Seq<VersionView> {
    s.map_values(|x: Version| x@)
}

/// The versions among the pieces of a comma-separated list that parse.
pub open spec fn parsed_versions(parts: Seq<Seq<char>>) -> Seq<VersionView>
    decreases parts.len(),
{
    if parts.len() == 0 {
        Seq::empty()
    } else {
        match version_parse_spec(parts[0]) {
            Ok(v) => seq![v] + parsed_versions(parts.drop_first()),
            Err(_) => parsed_versions(parts.drop_first()),
        }
    }
}

/// Reads the versions a package source lists, comma separated, skipping the
/// pieces that are not versions.
pub fn parse_version_list(body: &str) -> (r: Vec<Version>)
    ensures
        version_views(r@) == parsed_versions(split_char(body@, ',')),
{
    let chars = chars_of(body);
    let parts = split_char_exec(&chars, ',');
    let ghost pv = split_char(body@, ',');
    let mut rev: Vec<Version> = Vec::new();
    assert(pv.subrange(0, pv.len() as int) =~= pv);
    assert(version_views(rev@) + parsed_versions(pv) =~= parsed_versions(pv));
    let mut j: usize = 0;
    while j < parts.len()
        invariant
            j <= parts.len(),
            parts@.len() == pv.len(),
            forall|i: int| 0 <= i < parts@.len() ==> #[trigger] parts@[i]@ == pv[i],
            parsed_versions(pv) == version_views(rev@) + parsed_versions(
                pv.subrange(j as int, pv.len() as int),
            ),
        decreases parts.len() - j,
    {
        let ghost rest = pv.subrange(j as int, pv.len() as int);
        assert(rest.drop_first() =~= pv.subrange(j + 1, pv.len() as int));
        let t = string_of_all(&parts[j]);
        assert(rest[0] == t@);
        match Version::parse(t.as_str()) {
            Ok(v) => {
                let ghost before = version_views(rev@);
                rev.push(v);
                assert(version_views(rev@) =~= before + seq![v@]);
                assert(before + (seq![v@] + parsed_versions(rest.drop_first())) =~= (before
                    + seq![v@]) + parsed_versions(rest.drop_first()));
            },
            Err(_) => {},
        }
        j += 1;
    }
    assert(pv.subrange(j as int, pv.len() as int) =~= Seq::<Seq<char>>::empty());
    assert(version_views(rev@) + Seq::<VersionView>::empty() =~= version_views(rev@));
    rev
}

impl DepVer {
    /// Picks the newest of the offered versions that the dependency's range
    /// admits (see [`admits`]); the range's bounds must be of the kinds the
    /// filter handles.
    pub fn pick_version(&self, versions: &Vec<Version>) -> (r: Result<Version, PickError>)
        ensures
            match r {
                Ok(v) => {
                    &&& lower_kind_ok(self@.range.lower)
                    &&& upper_kind_ok(self@.range.upper)
                    &&& version_views(versions@).contains(v@)
                    &&& admits(self@.range, v@)
                    &&& forall|i: int|
                        0 <= i < versions@.len() && admits(self@.range, #[trigger] versions@[i]@)
                            ==> crate::version::version_le(versions@[i]@, v@)
                },
                Err(PickError::UnexpectedLower) => !lower_kind_ok(self@.range.lower),
                Err(PickError::UnexpectedUpper) => lower_kind_ok(self@.range.lower)
                    && !upper_kind_ok(self@.range.upper),
                Err(PickError::NoMatchingVersion) => {
                    &&& lower_kind_ok(self@.range.lower)
                    &&& upper_kind_ok(self@.range.upper)
                    &&& forall|i: int|
                        0 <= i < versions@.len() ==> !admits(self@.range, #[trigger] versions@[i]@)
                },
            },
    {
        match &self.range.lower {
            VerReq::Le(_) | VerReq::Lt(_) => return Err(PickError::UnexpectedLower),
            _ => {},
        }
        match &self.range.upper {
            VerReq::Gt(_) | VerReq::Ge(_) => return Err(PickError::UnexpectedUpper),
            _ => {},
        }
        let mut best: Option<usize> = None;
        let mut i: usize = 0;
        while i < versions.len()
            invariant
                i <= versions.len(),
                match best {
                    Some(b) => b < i && admits(self@.range, versions@[b as int]@) && forall|j: int|
                        0 <= j < i && admits(self@.range, #[trigger] versions@[j]@)
                            ==> crate::version::version_le(versions@[j]@, versions@[b as int]@),
                    None => forall|j: int|
                        0 <= j < i ==> !admits(self@.range, #[trigger] versions@[j]@),
                },
            decreases versions.len() - i,
        {
            let v = &versions[i];
            let ok_lower = match &self.range.lower {
                VerReq::Gt(b) => b.lt(v),
                VerReq::Ge(b) => b.le(v),
                VerReq::Eq(b) => v.same(b),
                _ => true,
            };
            let ok_upper = match &self.range.upper {
                VerReq::Le(b) => v.le(b),
                VerReq::Lt(b) => v.lt(b),
                _ => true,
            };
            if ok_lower && ok_upper {
                match best {
                    None => {
                        best = Some(i);
                    },
                    Some(b) => {
                        if versions[b].lt(v) {
                            proof {
                                assert forall|j: int|
                                    0 <= j < i + 1 && admits(
                                        self@.range,
                                        #[trigger] versions@[j]@,
                                    ) implies crate::version::version_le(
                                    versions@[j]@,
                                    versions@[i as int]@,
                                ) by {
                                    crate::version::lemma_version_le(
                                        versions@[j]@,
                                        versions@[b as int]@,
                                        versions@[i as int]@,
                                    );
                                }
                            }
                            best = Some(i);
                        } else {
                            proof {
                                crate::version::lemma_version_le(
                                    versions@[i as int]@,
                                    versions@[b as int]@,
                                    versions@[i as int]@,
                                );
                            }
                        }
                    },
                }
            }
            i += 1;
        }
        match best {
            None => Err(PickError::NoMatchingVersion),
            Some(b) => {
                assert(version_views(versions@)[b as int] == versions@[b as int]@);
                Ok(versions[b].clone())
            },
        }
    }
}

// ---------------------------------------------------------------------------
// Reading back what was printed
// ---------------------------------------------------------------------------

/// Printing an exact package and reading it back gives it, when its name
/// holds no space and its pre-release text no `+`.
pub proof fn lemma_specific_roundtrip(s: SpecificView)
    requires
        !s.name.contains(' '),
        !s.version.pre.contains('+'),
    ensures
        specific_parse_spec(specific_text(s)) == Ok::<SpecificView, ParseErrorView>(s),
{
    crate::version::lemma_split_once_char_concat(s.name, ' ', version_text(s.version));
    crate::version::lemma_version_roundtrip(s.version);
}

/// Printing a dependency and reading it back gives it, under the
/// conditions of [`crate::range::lemma_range_roundtrip`] and a name without
/// spaces.
pub proof fn lemma_depver_roundtrip(d: DepVerView)
    requires
        !d.name.contains(' '),
        crate::verreq::req_version(d.range.lower) matches Some(v) ==> !v.pre.contains('+'),
        crate::verreq::req_version(d.range.upper) matches Some(v) ==> !v.pre.contains('+'),
        crate::range::req_text_has_no_space(d.range.lower),
    ensures
        depver_parse_spec(depver_text(d)) == Ok::<DepVerView, ParseErrorView>(d),
{
    crate::version::lemma_split_once_char_concat(d.name, ' ', range_text(d.range));
    crate::range::lemma_range_roundtrip(d.range);
}

/// Printing a dependency kind and reading it back gives it, under the
/// conditions of [`lemma_depver_roundtrip`] for a ranged one.
pub proof fn lemma_depend_kind_roundtrip(k: DependKindView)
    requires
        k matches DependKindView::Specific(d) ==> {
            &&& !d.name.contains(' ')
            &&& crate::verreq::req_version(d.range.lower) matches Some(v) ==> !v.pre.contains('+')
            &&& crate::verreq::req_version(d.range.upper) matches Some(v) ==> !v.pre.contains('+')
            &&& crate::range::req_text_has_no_space(d.range.lower)
        },
    ensures
        depend_kind_parse_spec(depend_kind_text(k)) == Ok::<DependKindView, ParseErrorView>(k),
{
    let t = depend_kind_text(k);
    assert(low_byte('\x01') == 1);
    assert(low_byte('\x02') == 2);
    assert(low_byte('\x03') == 3);
    match k {
        DependKindView::Latest(l) => {
            assert(t.drop_first() =~= l);
        },
        DependKindView::Specific(d) => {
            assert(t.drop_first() =~= depver_text(d));
            lemma_depver_roundtrip(d);
        },
        DependKindView::Volatile(v) => {
            assert(t.drop_first() =~= v);
        },
    }
}


proof fn lemma_parse_specifics_back(s: Seq<SpecificView>, t: Seq<Seq<char>>)
    requires
        t.len() == s.len(),
        forall|i: int| 0 <= i < s.len() ==> specific_parse_spec(#[trigger] t[i]) == Ok::<SpecificView, ParseErrorView>(s[i]),
    ensures
        parse_specifics(t) == Ok::<Seq<SpecificView>, ParseErrorView>(s),
    decreases s.len(),
{
    if s.len() > 0 {
        assert forall|i: int| 0 <= i < s.drop_first().len() implies specific_parse_spec(
            #[trigger] t.drop_first()[i],
        ) == Ok::<SpecificView, ParseErrorView>(s.drop_first()[i]) by {
            assert(t.drop_first()[i] == t[i + 1]);
            assert(s.drop_first()[i] == s[i + 1]);
        }
        lemma_parse_specifics_back(s.drop_first(), t.drop_first());
        assert(specific_parse_spec(t[0]) == Ok::<SpecificView, ParseErrorView>(s[0]));
        assert(parse_specifics(t) == prepend(seq![s[0]], parse_specifics(t.drop_first())));
        assert(seq![s[0]] + s.drop_first() =~= s);
    } else {
        assert(s =~= Seq::<SpecificView>::empty());
    }
}

/// Printing a list of exact packages and reading it back gives the list,
/// when every package reads back alone (see [`lemma_specific_roundtrip`])
/// and no printed package holds the separator `\x00`.
pub proof fn lemma_specific_vec_roundtrip(s: Seq<SpecificView>)
    requires
        forall|i: int|
            0 <= i < s.len() ==> !(#[trigger] s[i]).name.contains(' ') && !s[i].version.pre.contains(
                '+',
            ) && !specific_text(s[i]).contains('\x00'),
    ensures
        specific_vec_parse_spec(specific_vec_text(s)) == Ok::<Seq<SpecificView>, ParseErrorView>(s),
{
    let t = s.map_values(|d: SpecificView| specific_text(d));
    assert(specific_vec_text(s) == fold_join(t, seq!['\x00']));
    if s.len() == 0 {
        assert(t.len() == 0);
        assert(s =~= Seq::<SpecificView>::empty());
    } else {
        assert forall|i: int| 0 <= i < t.len() implies !(#[trigger] t[i]).contains('\x00') by {
            assert(t[i] == specific_text(s[i]));
        }
        assert(t[0] == specific_text(s[0]));
        assert(t[0][s[0].name.len() as int] == ' ');
        crate::text::lemma_split_fold_join(t, '\x00');
        assert forall|i: int| 0 <= i < s.len() implies specific_parse_spec(#[trigger] t[i]) == Ok::<
            SpecificView,
            ParseErrorView,
        >(s[i]) by {
            assert(t[i] == specific_text(s[i]));
            lemma_specific_roundtrip(s[i]);
        }
        lemma_parse_specifics_back(s, t);
        assert(specific_vec_parse_spec(fold_join(t, seq!['\x00'])) == parse_specifics(t));
    }
}

proof fn lemma_parse_depend_kinds_back(s: Seq<DependKindView>, t: Seq<Seq<char>>)
    requires
        t.len() == s.len(),
        forall|i: int| 0 <= i < s.len() ==> depend_kind_parse_spec(#[trigger] t[i]) == Ok::<DependKindView, ParseErrorView>(s[i]),
    ensures
        parse_depend_kinds(t) == Ok::<Seq<DependKindView>, ParseErrorView>(s),
    decreases s.len(),
{
    if s.len() > 0 {
        assert forall|i: int| 0 <= i < s.drop_first().len() implies depend_kind_parse_spec(
            #[trigger] t.drop_first()[i],
        ) == Ok::<DependKindView, ParseErrorView>(s.drop_first()[i]) by {
            assert(t.drop_first()[i] == t[i + 1]);
            assert(s.drop_first()[i] == s[i + 1]);
        }
        lemma_parse_depend_kinds_back(s.drop_first(), t.drop_first());
        assert(depend_kind_parse_spec(t[0]) == Ok::<DependKindView, ParseErrorView>(s[0]));
        assert(parse_depend_kinds(t) == prepend(seq![s[0]], parse_depend_kinds(t.drop_first())));
        assert(seq![s[0]] + s.drop_first() =~= s);
    } else {
        assert(s =~= Seq::<DependKindView>::empty());
    }
}

/// Whether a dependency reads back after printing (see
/// [`lemma_depver_roundtrip`]).
pub open spec fn depver_reads_back(d: DepVerView) -> bool {
    &&& !d.name.contains(' ')
    &&& crate::verreq::req_version(d.range.lower) matches Some(v) ==> !v.pre.contains('+')
    &&& crate::verreq::req_version(d.range.upper) matches Some(v) ==> !v.pre.contains('+')
    &&& crate::range::req_text_has_no_space(d.range.lower)
}

/// Whether a dependency kind reads back after printing (see
/// [`lemma_depend_kind_roundtrip`]).
pub open spec fn depend_kind_reads_back(k: DependKindView) -> bool {
    k matches DependKindView::Specific(d) ==> depver_reads_back(d)
}

proof fn lemma_parse_depvers_back(s: Seq<DepVerView>, t: Seq<Seq<char>>)
    requires
        t.len() == s.len(),
        forall|i: int| 0 <= i < s.len() ==> depver_parse_spec(#[trigger] t[i]) == Ok::<DepVerView, ParseErrorView>(s[i]),
    ensures
        parse_depvers(t) == Ok::<Seq<DepVerView>, ParseErrorView>(s),
    decreases s.len(),
{
    if s.len() > 0 {
        assert forall|i: int| 0 <= i < s.drop_first().len() implies depver_parse_spec(
            #[trigger] t.drop_first()[i],
        ) == Ok::<DepVerView, ParseErrorView>(s.drop_first()[i]) by {
            assert(t.drop_first()[i] == t[i + 1]);
            assert(s.drop_first()[i] == s[i + 1]);
        }
        lemma_parse_depvers_back(s.drop_first(), t.drop_first());
        assert(depver_parse_spec(t[0]) == Ok::<DepVerView, ParseErrorView>(s[0]));
        assert(parse_depvers(t) == prepend(seq![s[0]], parse_depvers(t.drop_first())));
        assert(seq![s[0]] + s.drop_first() =~= s);
    } else {
        assert(s =~= Seq::<DepVerView>::empty());
    }
}

/// Printing a dependency list and reading it back gives the list, when
/// every dependency reads back alone (see [`lemma_depver_roundtrip`]), no
/// printed dependency holds `\x00` twice in a row, and none but the last
/// ends with `\x00`, as one without an upper bound does.
pub proof fn lemma_depver_vec_roundtrip(s: Seq<DepVerView>)
    requires
        forall|i: int|
            0 <= i < s.len() ==> depver_reads_back(#[trigger] s[i]) && !crate::text::has_pair(
                depver_text(s[i]),
                '\x00',
            ),
        forall|i: int| 0 <= i < s.len() - 1 ==> depver_text(#[trigger] s[i]).last() != '\x00',
    ensures
        depver_vec_parse_spec(depver_vec_text(s)) == Ok::<Seq<DepVerView>, ParseErrorView>(s),
{
    let pp = seq!['\x00', '\x00'];
    let t = s.map_values(|d: DepVerView| depver_text(d));
    assert(depver_vec_text(s) == fold_join(t, pp));
    if s.len() == 0 {
        assert(t.len() == 0);
        assert(s =~= Seq::<DepVerView>::empty());
    } else {
        assert(t[0] == depver_text(s[0]));
        assert(t[0][s[0].name.len() as int] == ' ');
        crate::text::lemma_fold_join_is_join(t, pp);
        assert forall|i: int| 0 <= i < t.len() implies !crate::text::has_pair(#[trigger] t[i], '\x00') by {
            assert(t[i] == depver_text(s[i]));
        }
        assert forall|i: int| 0 <= i < t.len() - 1 implies (#[trigger] t[i]).len() == 0 || t[i].last()
            != '\x00' by {
            assert(t[i] == depver_text(s[i]));
        }
        crate::text::lemma_split_pair_join(t, '\x00');
        assert forall|i: int| 0 <= i < s.len() implies depver_parse_spec(#[trigger] t[i]) == Ok::<
            DepVerView,
            ParseErrorView,
        >(s[i]) by {
            assert(t[i] == depver_text(s[i]));
            lemma_depver_roundtrip(s[i]);
        }
        lemma_parse_depvers_back(s, t);
        assert(depver_vec_parse_spec(fold_join(t, pp)) == parse_depvers(t));
    }
}

/// Printing a list of dependency kinds and reading it back gives the list,
/// when every kind reads back alone (see [`lemma_depend_kind_roundtrip`])
/// and no printed kind holds the separator `\x00`, which a ranged
/// dependency without a bound does.
pub proof fn lemma_depend_kind_vec_roundtrip(s: Seq<DependKindView>)
    requires
        forall|i: int|
            0 <= i < s.len() ==> depend_kind_reads_back(#[trigger] s[i]) && !depend_kind_text(
                s[i],
            ).contains('\x00'),
    ensures
        depend_kind_vec_parse_spec(depend_kind_vec_text(s)) == Ok::<Seq<DependKindView>, ParseErrorView>(s),
{
    let t = s.map_values(|d: DependKindView| depend_kind_text(d));
    assert(depend_kind_vec_text(s) == fold_join(t, seq!['\x00']));
    if s.len() == 0 {
        assert(t.len() == 0);
        assert(s =~= Seq::<DependKindView>::empty());
    } else {
        assert forall|i: int| 0 <= i < t.len() implies !(#[trigger] t[i]).contains('\x00') by {
            assert(t[i] == depend_kind_text(s[i]));
        }
        assert(t[0] == depend_kind_text(s[0]));
        assert(t[0].len() > 0);
        crate::text::lemma_split_fold_join(t, '\x00');
        assert forall|i: int| 0 <= i < s.len() implies depend_kind_parse_spec(#[trigger] t[i]) == Ok::<
            DependKindView,
            ParseErrorView,
        >(s[i]) by {
            assert(t[i] == depend_kind_text(s[i]));
            lemma_depend_kind_roundtrip(s[i]);
        }
        lemma_parse_depend_kinds_back(s, t);
        assert(depend_kind_vec_parse_spec(fold_join(t, seq!['\x00'])) == parse_depend_kinds(t));
    }
}

} // verus!
