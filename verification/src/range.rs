//! Version ranges: a lower and an upper requirement.
use vstd::prelude::*;
use crate::errors::{Field, ParseError, ParseErrorView};
use crate::text::{chars_of, push_char, split_once_char, split_once_char_exec, string_of_all};
use crate::verreq::{
    lemma_negotiate_is_intersection, lemma_verreq_roundtrip, negotiate_spec, opt_range_view,
    range_holds, req_holds, req_version, verreq_parse_spec, verreq_text, VerReq, VerReqView,
};
use crate::version::{version_le, version_lt, version_text, VersionView};

verus! {

/// A range of versions.
#[derive(Debug, PartialEq, Eq, Hash)]
pub struct Range {
    pub lower: VerReq,
    pub upper: VerReq,
}

/// The abstract value of a [`Range`].
pub struct RangeView {
    pub lower: VerReqView,
    pub upper: VerReqView,
}

impl View for Range {
    type V = RangeView;

    open spec fn view(&self) -> RangeView {
        RangeView { lower: self.lower@, upper: self.upper@ }
    }
}

impl Clone for Range {
    fn clone(&self) -> (r: Self)
        ensures
            r@ == self@,
    {
        Range { lower: self.lower.clone(), upper: self.upper.clone() }
    }
}

/// `Range::is_sane`: the lower bound is a lower-kind requirement (or none)
/// and, when both bounds carry versions, they are in the expected order.
/// A strict lower bound equal to an exact upper bound counts as sane.
pub open spec fn range_sane(r: RangeView) -> bool {
    match r.lower {
        VerReqView::Gt(gt) => match r.upper {
            VerReqView::Eq(e) => gt == e,
            VerReqView::Le(o) => version_lt(gt, o),
            VerReqView::Lt(o) => version_lt(gt, o),
            VerReqView::NoBound => true,
            _ => false,
        },
        VerReqView::Ge(ge) => match r.upper {
            VerReqView::Eq(e) => ge == e,
            VerReqView::Le(o) => version_le(ge, o),
            VerReqView::Lt(o) => version_lt(ge, o),
            VerReqView::NoBound => true,
            _ => false,
        },
        VerReqView::Eq(eq) => match r.upper {
            VerReqView::Eq(e) => eq == e,
            VerReqView::NoBound => true,
            _ => false,
        },
        VerReqView::NoBound => true,
        _ => false,
    }
}

/// `Range::negotiate`: the lower requirement narrows the prior range, then
/// the upper requirement narrows the result.
pub open spec fn range_negotiate_spec(r: RangeView, prior: Option<RangeView>) -> Option<
    RangeView,
> {
    negotiate_spec(r.upper, negotiate_spec(r.lower, prior))
}

/// The printed form: the lower requirement, a space, the upper requirement.
pub open spec fn range_text(r: RangeView) -> Seq<char> {
    verreq_text(r.lower) + seq![' '] + verreq_text(r.upper)
}

/// How `Range::parse` reads its input: split at the first space, each side a
/// requirement; no space is a missing `upper` field.
pub open spec fn range_parse_spec(s: Seq<char>) -> Result<RangeView, ParseErrorView> {
    match split_once_char(s, ' ') {
        None => Err(ParseErrorView::MissingField(Field::Upper)),
        Some((l, u)) => match verreq_parse_spec(l) {
            Err(e) => Err(e),
            Ok(lower) => match verreq_parse_spec(u) {
                Err(e) => Err(e),
                Ok(upper) => Ok(RangeView { lower, upper }),
            },
        },
    }
}

/// Negotiating a whole range is intersection: when `Range::negotiate` yields
/// a range, a version lies in it exactly when it lies in both the range and
/// the prior range; and the yielded range is sane.
pub proof fn lemma_range_negotiate_is_intersection(
    r: RangeView,
    prior: RangeView,
    v: VersionView,
)
    requires
        range_negotiate_spec(r, Some(prior)) is Some,
    ensures
        range_holds(range_negotiate_spec(r, Some(prior))->0, v) <==> range_holds(r, v)
            && range_holds(prior, v),
        range_sane(range_negotiate_spec(r, Some(prior))->0),
{
    let mid = negotiate_spec(r.lower, Some(prior));
    lemma_negotiate_is_intersection(r.lower, prior, v);
    lemma_negotiate_is_intersection(r.upper, mid->0, v);
}

/// Whether a requirement's printed form contains no space.
pub open spec fn req_text_has_no_space(r: VerReqView) -> bool {
    !verreq_text(r).contains(' ')
}

/// Printing a range and parsing it back gives the range, when neither
/// version's pre-release text holds a `+` and the lower requirement's printed
/// form holds no space (the parser splits at the first space).
pub proof fn lemma_range_roundtrip(r: RangeView)
    requires
        req_version(r.lower) matches Some(v) ==> !v.pre.contains('+'),
        req_version(r.upper) matches Some(v) ==> !v.pre.contains('+'),
        req_text_has_no_space(r.lower),
    ensures
        range_parse_spec(range_text(r)) == Ok::<RangeView, ParseErrorView>(r),
{
    lemma_verreq_roundtrip(r.lower);
    lemma_verreq_roundtrip(r.upper);
    crate::version::lemma_split_once_char_concat(verreq_text(r.lower), ' ', verreq_text(r.upper));
}

impl Range {
    /// Whether two ranges are equal.
    pub fn same(&self, other: &Range) -> (b: bool)
        ensures
            b == (self@ == other@),
    {
        self.lower.same(&other.lower) && self.upper.same(&other.upper)
    }

    /// Whether the range is sane (see [`range_sane`]).
    pub fn is_sane(&self) -> (b: bool)
        ensures
            b == range_sane(self@),
    {
        match &self.lower {
            VerReq::Gt(gt) => match &self.upper {
                VerReq::Eq(o) => gt.same(o),
                VerReq::Le(o) => gt.lt(o),
                VerReq::Lt(o) => gt.lt(o),
                VerReq::NoBound => true,
                _ => false,
            },
            VerReq::Ge(ge) => match &self.upper {
                VerReq::Eq(o) => ge.same(o),
                VerReq::Le(o) => ge.le(o),
                VerReq::Lt(o) => ge.lt(o),
                VerReq::NoBound => true,
                _ => false,
            },
            VerReq::Eq(eq) => match &self.upper {
                VerReq::Eq(o) => eq.same(o),
                VerReq::NoBound => true,
                _ => false,
            },
            VerReq::NoBound => true,
            _ => false,
        }
    }

    /// Narrows `prior` by both bounds (see [`range_negotiate_spec`]).
    pub fn negotiate(&self, prior: Option<Range>) -> (r: Option<Range>)
        ensures
            opt_range_view(r) == range_negotiate_spec(self@, opt_range_view(prior)),
    {
        self.upper.negotiate(self.lower.negotiate(prior))
    }

    /// Reads a range (see [`range_parse_spec`]).
    pub fn parse(input: &str) -> (r: Result<Range, ParseError>)
        ensures
            match r {
                Ok(v) => range_parse_spec(input@) == Ok::<RangeView, ParseErrorView>(v@),
                Err(e) => range_parse_spec(input@) == Err::<RangeView, ParseErrorView>(e@),
            },
    {
        let chars = chars_of(input);
        let (l, u) = match split_once_char_exec(&chars, ' ') {
            None => return Err(ParseError::MissingField(Field::Upper)),
            Some(p) => p,
        };
        let ls = string_of_all(&l);
        let us = string_of_all(&u);
        let lower = VerReq::parse(ls.as_str())?;
        let upper = VerReq::parse(us.as_str())?;
        Ok(Range { lower, upper })
    }

    /// The printed form (see [`range_text`]).
    pub fn to_string(&self) -> (s: String)
        ensures
            s@ == range_text(self@),
    {
        let mut s = self.lower.to_string();
        push_char(&mut s, ' ');
        let u = self.upper.to_string();
        crate::text::append_str(&mut s, u.as_str());
        s
    }

    /// The range without bounds.
    pub fn unbounded() -> (r: Range)
        ensures
            r@ == (RangeView { lower: VerReqView::NoBound, upper: VerReqView::NoBound }),
    {
        Range { lower: VerReq::NoBound, upper: VerReq::NoBound }
    }
}

/// Negotiating a range is complete on intervals: when some version lies in
/// both the interval and the interval prior range, negotiating gives a range
/// (which then holds exactly those versions, see
/// [`lemma_range_negotiate_is_intersection`]).
pub proof fn lemma_range_negotiate_complete(r: RangeView, prior: RangeView, v: VersionView)
    requires
        crate::verreq::is_interval(r),
        crate::verreq::is_interval(prior),
        range_holds(r, v),
        range_holds(prior, v),
    ensures
        range_negotiate_spec(r, Some(prior)) is Some,
{
    crate::verreq::lemma_negotiate_complete(r.lower, prior, v);
    let mid = negotiate_spec(r.lower, Some(prior))->0;
    crate::verreq::lemma_negotiate_lower_keeps_interval(r.lower, prior);
    crate::verreq::lemma_negotiate_is_intersection(r.lower, prior, v);
    crate::verreq::lemma_negotiate_complete(r.upper, mid, v);
}

} // verus!
