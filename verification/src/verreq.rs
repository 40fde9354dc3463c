//! Version requirements (`> v`, `>= v`, `== v`, `<= v`, `< v`, none) and
//! how a requirement narrows a range.
use vstd::prelude::*;
use crate::errors::{ParseError, ParseErrorView};
use crate::range::{range_sane, Range, RangeView};
use crate::text::{chars_of, push_char, string_of};
use crate::version::{
    lemma_version_le, lemma_version_order, version_le, version_lt, version_parse_spec,
    version_text, Version, VersionView,
};

verus! {

/// A bound on a version.
#[derive(Debug, PartialEq, Eq, Hash)]
pub enum VerReq {
    Gt(Version),
    Ge(Version),
    Eq(Version),
    Le(Version),
    Lt(Version),
    NoBound,
}

/// The abstract value of a [`VerReq`].
pub enum VerReqView {
    Gt(VersionView),
    Ge(VersionView),
    Eq(VersionView),
    Le(VersionView),
    Lt(VersionView),
    NoBound,
}

impl View for VerReq {
    type V = VerReqView;

    open spec fn view(&self) -> VerReqView {
        match self {
            VerReq::Gt(v) => VerReqView::Gt(v@),
            VerReq::Ge(v) => VerReqView::Ge(v@),
            VerReq::Eq(v) => VerReqView::Eq(v@),
            VerReq::Le(v) => VerReqView::Le(v@),
            VerReq::Lt(v) => VerReqView::Lt(v@),
            VerReq::NoBound => VerReqView::NoBound,
        }
    }
}

impl Clone for VerReq {
    fn clone(&self) -> (r: Self)
        ensures
            r@ == self@,
    {
        match self {
            VerReq::Gt(v) => VerReq::Gt(v.clone()),
            VerReq::Ge(v) => VerReq::Ge(v.clone()),
            VerReq::Eq(v) => VerReq::Eq(v.clone()),
            VerReq::Le(v) => VerReq::Le(v.clone()),
            VerReq::Lt(v) => VerReq::Lt(v.clone()),
            VerReq::NoBound => VerReq::NoBound,
        }
    }
}

/// Whether the version `v` meets the requirement `r`.
pub open spec fn req_holds(r: VerReqView, v: VersionView) -> bool {
    match r {
        VerReqView::Gt(b) => version_lt(b, v),
        VerReqView::Ge(b) => version_le(b, v),
        VerReqView::Eq(b) => v == b,
        VerReqView::Le(b) => version_le(v, b),
        VerReqView::Lt(b) => version_lt(v, b),
        VerReqView::NoBound => true,
    }
}

pub open spec fn with_lower(p: RangeView, l: VerReqView) -> RangeView {
    RangeView { lower: l, upper: p.upper }
}

pub open spec fn with_upper(p: RangeView, u: VerReqView) -> RangeView {
    RangeView { lower: p.lower, upper: u }
}

/// How `r` narrows the range `p` before the sanity check: a lower
/// requirement replaces a weaker lower bound of `p`, an upper requirement a
/// weaker upper bound, an exact requirement pins both bounds; combinations
/// the negotiation does not handle give `None`.
pub open spec fn narrow(r: VerReqView, p: RangeView) -> Option<RangeView> {
    match r {
        VerReqView::Gt(gt) => match p.lower {
            VerReqView::Gt(pg) => Some(
                if version_lt(pg, gt) {
                    with_lower(p, r)
                } else {
                    p
                },
            ),
            VerReqView::Ge(pg) => Some(
                if version_le(pg, gt) {
                    with_lower(p, r)
                } else {
                    p
                },
            ),
            VerReqView::NoBound => Some(with_lower(p, r)),
            _ => None,
        },
        VerReqView::Ge(ge) => match p.lower {
            VerReqView::Gt(pg) => Some(
                if version_lt(pg, ge) {
                    with_lower(p, r)
                } else {
                    p
                },
            ),
            VerReqView::Ge(pg) => Some(
                if version_lt(pg, ge) {
                    with_lower(p, r)
                } else {
                    p
                },
            ),
            VerReqView::Eq(pe) => if ge == pe {
                Some(p)
            } else {
                None
            },
            VerReqView::NoBound => Some(with_lower(p, r)),
            _ => None,
        },
        VerReqView::Eq(eq) => {
            let lowered = match p.lower {
                VerReqView::Gt(pg) => if version_lt(pg, eq) {
                    Some(with_lower(p, r))
                } else {
                    None
                },
                VerReqView::Ge(pg) => if version_le(pg, eq) {
                    Some(with_lower(p, r))
                } else {
                    None
                },
                VerReqView::Eq(pe) => if eq == pe {
                    Some(p)
                } else {
                    None
                },
                VerReqView::NoBound => Some(with_lower(p, r)),
                _ => None,
            };
            match lowered {
                None => None,
                Some(q) => match q.upper {
                    VerReqView::Eq(pe) => if eq == pe {
                        Some(q)
                    } else {
                        None
                    },
                    VerReqView::Le(pl) => if version_le(eq, pl) {
                        Some(with_upper(q, r))
                    } else {
                        None
                    },
                    VerReqView::Lt(pl) => if version_lt(eq, pl) {
                        Some(with_upper(q, r))
                    } else {
                        None
                    },
                    VerReqView::NoBound => Some(with_upper(q, r)),
                    _ => None,
                },
            }
        },
        VerReqView::Le(le) => match p.upper {
            VerReqView::Lt(pl) => Some(
                if version_lt(le, pl) {
                    with_upper(p, r)
                } else {
                    p
                },
            ),
            VerReqView::Le(pl) => Some(
                if version_lt(le, pl) {
                    with_upper(p, r)
                } else {
                    p
                },
            ),
            VerReqView::Eq(pe) => if le == pe {
                Some(p)
            } else {
                None
            },
            VerReqView::NoBound => Some(with_upper(p, r)),
            _ => None,
        },
        VerReqView::Lt(lt) => match p.upper {
            VerReqView::Lt(pl) => Some(
                if version_lt(lt, pl) {
                    with_upper(p, r)
                } else {
                    p
                },
            ),
            VerReqView::Le(pl) => Some(
                if version_le(lt, pl) {
                    with_upper(p, r)
                } else {
                    p
                },
            ),
            VerReqView::NoBound => Some(with_upper(p, r)),
            _ => None,
        },
        VerReqView::NoBound => Some(p),
    }
}

/// `VerReq::negotiate`: narrow the prior range and keep the result only when
/// it is sane; no prior range gives `None`.
pub open spec fn negotiate_spec(r: VerReqView, prior: Option<RangeView>) -> Option<RangeView> {
    match prior {
        None => None,
        Some(p) => match narrow(r, p) {
            Some(q) => if range_sane(q) {
                Some(q)
            } else {
                None
            },
            None => None,
        },
    }
}

/// Whether `v` lies within the range (meets both bounds).
pub open spec fn range_holds(r: RangeView, v: VersionView) -> bool {
    req_holds(r.lower, v) && req_holds(r.upper, v)
}

/// A negotiated range holds exactly the versions that meet both the
/// requirement and the prior range: negotiation is intersection, whenever it
/// succeeds.
pub proof fn lemma_narrow_is_intersection(r: VerReqView, p: RangeView, v: VersionView)
    requires
        narrow(r, p) is Some,
    ensures
        range_holds(narrow(r, p)->0, v) <==> req_holds(r, v) && range_holds(p, v),
{
    match r {
        VerReqView::Gt(b) => match p.lower {
            VerReqView::Gt(pb) => {
                lemma_version_order(pb, b, v);
                lemma_version_order(b, pb, v);
            },
            VerReqView::Ge(pb) => {
                lemma_version_order(pb, b, v);
                lemma_version_order(b, pb, v);
                lemma_version_le(pb, b, v);
            },
            _ => {},
        },
        VerReqView::Ge(b) => match p.lower {
            VerReqView::Gt(pb) => {
                lemma_version_order(pb, b, v);
                lemma_version_order(b, pb, v);
                lemma_version_le(b, pb, v);
                lemma_version_le(pb, b, v);
            },
            VerReqView::Ge(pb) => {
                lemma_version_le(pb, b, v);
                lemma_version_le(b, pb, v);
                lemma_version_order(pb, b, v);
            },
            _ => {},
        },
        VerReqView::Eq(b) => {
            lemma_version_order(b, b, v);
            match p.lower {
                VerReqView::Gt(pb) => {
                    lemma_version_order(pb, b, v);
                },
                VerReqView::Ge(pb) => {
                    lemma_version_le(pb, b, v);
                },
                _ => {},
            }
            match p.upper {
                VerReqView::Le(pb) => {
                    lemma_version_le(b, pb, v);
                },
                VerReqView::Lt(pb) => {
                    lemma_version_order(b, pb, v);
                },
                _ => {},
            }
        },
        VerReqView::Le(b) => match p.upper {
            VerReqView::Lt(pb) => {
                lemma_version_order(v, b, pb);
                lemma_version_order(b, pb, v);
                lemma_version_le(v, pb, b);
                lemma_version_le(b, pb, v);
                lemma_version_le(v, b, pb);
            },
            VerReqView::Le(pb) => {
                lemma_version_le(v, b, pb);
                lemma_version_le(v, pb, b);
                lemma_version_order(b, pb, v);
            },
            _ => {},
        },
        VerReqView::Lt(b) => match p.upper {
            VerReqView::Lt(pb) => {
                lemma_version_order(v, b, pb);
                lemma_version_order(v, pb, b);
                lemma_version_order(b, pb, v);
            },
            VerReqView::Le(pb) => {
                lemma_version_order(v, b, pb);
                lemma_version_order(v, pb, b);
                lemma_version_le(v, pb, b);
                lemma_version_le(b, pb, v);
                lemma_version_le(v, b, pb);
                lemma_version_order(b, pb, v);
            },
            _ => {},
        },
        VerReqView::NoBound => {},
    }
}

/// Negotiation is intersection: when `negotiate` yields a range, a version
/// lies in it exactly when it meets the requirement and lies in the prior
/// range; and the yielded range is sane.
pub proof fn lemma_negotiate_is_intersection(r: VerReqView, prior: RangeView, v: VersionView)
    requires
        negotiate_spec(r, Some(prior)) is Some,
    ensures
        range_holds(negotiate_spec(r, Some(prior))->0, v) <==> req_holds(r, v) && range_holds(
            prior,
            v,
        ),
        range_sane(negotiate_spec(r, Some(prior))->0),
{
    lemma_narrow_is_intersection(r, prior, v);
}

/// A range whose lower bound is `>`, `>=` or none and whose upper bound is
/// `<=`, `<` or none: an interval of versions.
pub open spec fn is_interval(p: RangeView) -> bool {
    (p.lower is Gt || p.lower is Ge || p.lower is NoBound) && (p.upper is Le || p.upper is Lt
        || p.upper is NoBound)
}

/// An interval, or a range pinned to one version at both ends, that holds a
/// version is sane.
pub proof fn lemma_holding_range_sane(q: RangeView, v: VersionView)
    requires
        is_interval(q) || (q.lower is Eq && q.upper is Eq),
        range_holds(q, v),
    ensures
        range_sane(q),
{
    match q.lower {
        VerReqView::Gt(a) => match q.upper {
            VerReqView::Le(b) => {
                lemma_version_order(a, v, b);
            },
            VerReqView::Lt(b) => {
                lemma_version_order(a, v, b);
            },
            _ => {},
        },
        VerReqView::Ge(a) => match q.upper {
            VerReqView::Le(b) => {
                lemma_version_le(a, v, b);
            },
            VerReqView::Lt(b) => {
                lemma_version_order(a, v, b);
            },
            _ => {},
        },
        _ => {},
    }
}

/// Negotiation is complete on intervals: when some version meets the
/// requirement and lies in an interval prior range, negotiating gives a
/// range (which then holds exactly those versions, see
/// [`lemma_negotiate_is_intersection`]).
pub proof fn lemma_negotiate_complete(r: VerReqView, p: RangeView, v: VersionView)
    requires
        is_interval(p),
        req_holds(r, v),
        range_holds(p, v),
    ensures
        negotiate_spec(r, Some(p)) is Some,
{
    assert(narrow(r, p) is Some);
    lemma_narrow_is_intersection(r, p, v);
    let q = narrow(r, p)->0;
    assert(is_interval(q) || (q.lower is Eq && q.upper is Eq));
    lemma_holding_range_sane(q, v);
}

/// A requirement of the lower kind (`>`, `>=` or none) negotiated into an
/// interval gives an interval.
pub proof fn lemma_negotiate_lower_keeps_interval(r: VerReqView, p: RangeView)
    requires
        is_interval(p),
        r is Gt || r is Ge || r is NoBound,
        negotiate_spec(r, Some(p)) is Some,
    ensures
        is_interval(negotiate_spec(r, Some(p))->0),
{
}

/// Without a prior range there is nothing to negotiate.
pub proof fn lemma_negotiate_none(r: VerReqView)
    ensures
        negotiate_spec(r, None) is None,
{
}

/// The printed form: a kind character (`\x01` to `\x05` for `>`, `>=`,
/// `==`, `<=`, `<`), then the version; `\x00` alone for no bound.
pub open spec fn verreq_text(r: VerReqView) -> Seq<char> {
    match r {
        VerReqView::Gt(v) => seq!['\x01'] + version_text(v),
        VerReqView::Ge(v) => seq!['\x02'] + version_text(v),
        VerReqView::Eq(v) => seq!['\x03'] + version_text(v),
        VerReqView::Le(v) => seq!['\x04'] + version_text(v),
        VerReqView::Lt(v) => seq!['\x05'] + version_text(v),
        VerReqView::NoBound => seq!['\x00'],
    }
}

/// The low byte of a character, as `char as u8` gives it.
pub open spec fn low_byte(c: char) -> u8 {
    ((c as u32) % 256) as u8
}

/// How `VerReq::parse` reads its input: the low byte of the first character
/// selects the kind (0 for no bound, 1 to 5 for `>`, `>=`, `==`, `<=`, `<`);
/// for a non-zero kind the rest must be a version, read before the kind is
/// checked.
pub open spec fn verreq_parse_spec(s: Seq<char>) -> Result<VerReqView, ParseErrorView> {
    if s.len() == 0 {
        Err(ParseErrorView::MissingIdentifier)
    } else {
        let kind = low_byte(s[0]);
        if kind == 0 {
            Ok(VerReqView::NoBound)
        } else {
            match version_parse_spec(s.drop_first()) {
                Err(e) => Err(e),
                Ok(v) => if kind == 1 {
                    Ok(VerReqView::Gt(v))
                } else if kind == 2 {
                    Ok(VerReqView::Ge(v))
                } else if kind == 3 {
                    Ok(VerReqView::Eq(v))
                } else if kind == 4 {
                    Ok(VerReqView::Le(v))
                } else if kind == 5 {
                    Ok(VerReqView::Lt(v))
                } else {
                    Err(ParseErrorView::InvalidIdentifier(kind))
                },
            }
        }
    }
}

/// The version a requirement carries, if any.
pub open spec fn req_version(r: VerReqView) -> Option<VersionView> {
    match r {
        VerReqView::Gt(v) => Some(v),
        VerReqView::Ge(v) => Some(v),
        VerReqView::Eq(v) => Some(v),
        VerReqView::Le(v) => Some(v),
        VerReqView::Lt(v) => Some(v),
        VerReqView::NoBound => None,
    }
}

/// Printing a requirement and parsing it back gives the requirement, when its
/// version's pre-release text holds no `+`.
pub proof fn lemma_verreq_roundtrip(r: VerReqView)
    requires
        req_version(r) matches Some(v) ==> !v.pre.contains('+'),
    ensures
        verreq_parse_spec(verreq_text(r)) == Ok::<VerReqView, ParseErrorView>(r),
{
    let t = verreq_text(r);
    match r {
        VerReqView::NoBound => {
            assert(low_byte('\x00') == 0);
        },
        _ => {
            let v = req_version(r)->0;
            crate::version::lemma_version_roundtrip(v);
            assert(t.drop_first() =~= version_text(v));
            assert(low_byte('\x01') == 1);
            assert(low_byte('\x02') == 2);
            assert(low_byte('\x03') == 3);
            assert(low_byte('\x04') == 4);
            assert(low_byte('\x05') == 5);
        },
    }
}

fn low_byte_exec(c: char) -> (b: u8)
    ensures
        b == low_byte(c),
{
    ((c as u32) % 256) as u8
}

impl VerReq {
    /// Whether two requirements are equal (same kind, same version).
    pub fn same(&self, other: &VerReq) -> (b: bool)
        ensures
            b == (self@ == other@),
    {
        match (self, other) {
            (VerReq::Gt(a), VerReq::Gt(b)) => a.same(b),
            (VerReq::Ge(a), VerReq::Ge(b)) => a.same(b),
            (VerReq::Eq(a), VerReq::Eq(b)) => a.same(b),
            (VerReq::Le(a), VerReq::Le(b)) => a.same(b),
            (VerReq::Lt(a), VerReq::Lt(b)) => a.same(b),
            (VerReq::NoBound, VerReq::NoBound) => true,
            _ => false,
        }
    }

    /// Narrows `prior` by this requirement (see [`negotiate_spec`]).
    pub fn negotiate(&self, prior: Option<Range>) -> (r: Option<Range>)
        ensures
            opt_range_view(r) == negotiate_spec(self@, opt_range_view(prior)),
    {
        let mut p = match prior {
            None => return None,
            Some(p) => p,
        };
        let ghost p0 = p@;
        let narrowed: bool = match self {
            VerReq::Gt(gt) => match &p.lower {
                VerReq::Gt(pg) => {
                    if pg.lt(gt) {
                        p.lower = self.clone();
                    }
                    true
                },
                VerReq::Ge(pg) => {
                    if pg.le(gt) {
                        p.lower = self.clone();
                    }
                    true
                },
                VerReq::NoBound => {
                    p.lower = self.clone();
                    true
                },
                _ => false,
            },
            VerReq::Ge(ge) => match &p.lower {
                VerReq::Gt(pg) => {
                    if pg.lt(ge) {
                        p.lower = self.clone();
                    }
                    true
                },
                VerReq::Ge(pg) => {
                    if pg.lt(ge) {
                        p.lower = self.clone();
                    }
                    true
                },
                VerReq::Eq(pe) => ge.same(pe),
                VerReq::NoBound => {
                    p.lower = self.clone();
                    true
                },
                _ => false,
            },
            VerReq::Eq(eq) => {
                let lowered = match &p.lower {
                    VerReq::Gt(pg) => if pg.lt(eq) {
                        p.lower = self.clone();
                        true
                    } else {
                        false
                    },
                    VerReq::Ge(pg) => if pg.le(eq) {
                        p.lower = self.clone();
                        true
                    } else {
                        false
                    },
                    VerReq::Eq(pe) => eq.same(pe),
                    VerReq::NoBound => {
                        p.lower = self.clone();
                        true
                    },
                    _ => false,
                };
                if !lowered {
                    false
                } else {
                    match &p.upper {
                        VerReq::Eq(pe) => eq.same(pe),
                        VerReq::Le(pl) => if eq.le(pl) {
                            p.upper = self.clone();
                            true
                        } else {
                            false
                        },
                        VerReq::Lt(pl) => if eq.lt(pl) {
                            p.upper = self.clone();
                            true
                        } else {
                            false
                        },
                        VerReq::NoBound => {
                            p.upper = self.clone();
                            true
                        },
                        _ => false,
                    }
                }
            },
            VerReq::Le(le) => match &p.upper {
                VerReq::Lt(pl) => {
                    if le.lt(pl) {
                        p.upper = self.clone();
                    }
                    true
                },
                VerReq::Le(pl) => {
                    if le.lt(pl) {
                        p.upper = self.clone();
                    }
                    true
                },
                VerReq::Eq(pe) => le.same(pe),
                VerReq::NoBound => {
                    p.upper = self.clone();
                    true
                },
                _ => false,
            },
            VerReq::Lt(lt) => match &p.upper {
                VerReq::Lt(pl) => {
                    if lt.lt(pl) {
                        p.upper = self.clone();
                    }
                    true
                },
                VerReq::Le(pl) => {
                    if lt.le(pl) {
                        p.upper = self.clone();
                    }
                    true
                },
                VerReq::NoBound => {
                    p.upper = self.clone();
                    true
                },
                _ => false,
            },
            VerReq::NoBound => true,
        };
        proof {
            if narrowed {
                assert(narrow(self@, p0) == Some(p@));
            } else {
                assert(narrow(self@, p0) is None);
            }
        }
        if narrowed && p.is_sane() {
            Some(p)
        } else {
            None
        }
    }

    /// Reads a requirement (see [`verreq_parse_spec`]).
    pub fn parse(input: &str) -> (r: Result<VerReq, ParseError>)
        ensures
            match r {
                Ok(v) => verreq_parse_spec(input@) == Ok::<VerReqView, ParseErrorView>(v@),
                Err(e) => verreq_parse_spec(input@) == Err::<VerReqView, ParseErrorView>(e@),
            },
    {
        let chars = chars_of(input);
        if chars.len() == 0 {
            return Err(ParseError::MissingIdentifier);
        }
        let kind = low_byte_exec(chars[0]);
        if kind == 0 {
            return Ok(VerReq::NoBound);
        }
        let data = string_of(&chars, 1, chars.len());
        assert(data@ =~= input@.drop_first());
        let version = Version::parse(data.as_str())?;
        if kind == 1 {
            Ok(VerReq::Gt(version))
        } else if kind == 2 {
            Ok(VerReq::Ge(version))
        } else if kind == 3 {
            Ok(VerReq::Eq(version))
        } else if kind == 4 {
            Ok(VerReq::Le(version))
        } else if kind == 5 {
            Ok(VerReq::Lt(version))
        } else {
            Err(ParseError::InvalidIdentifier(kind))
        }
    }

    /// The printed form (see [`verreq_text`]).
    pub fn to_string(&self) -> (s: String)
        ensures
            s@ == verreq_text(self@),
    {
        let (k, v) = match self {
            VerReq::Gt(v) => ('\x01', Some(v)),
            VerReq::Ge(v) => ('\x02', Some(v)),
            VerReq::Eq(v) => ('\x03', Some(v)),
            VerReq::Le(v) => ('\x04', Some(v)),
            VerReq::Lt(v) => ('\x05', Some(v)),
            VerReq::NoBound => ('\x00', None),
        };
        let mut s = String::new();
        push_char(&mut s, k);
        match v {
            Some(v) => {
                let t = v.to_string();
                crate::text::append_str(&mut s, t.as_str());
            },
            None => {},
        }
        s
    }
}

/// The abstract value of an optional range.
pub open spec fn opt_range_view(r: Option<Range>) -> Option<RangeView> {
    match r {
        Some(x) => Some(x@),
        None => None,
    }
}

} // verus!
