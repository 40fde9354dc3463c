use plz::errors::ParseError;
use plz::range::Range;
use plz::verreq::VerReq;
use plz::version::Version;

fn v(major: usize, minor: usize, patch: usize) -> Version {
    Version { major, minor, patch, pre: String::new(), build: None }
}

#[test]
fn version_parse_full() {
    let p = Version::parse("1.2.3-beta+build5").unwrap();
    assert_eq!(p.major, 1);
    assert_eq!(p.minor, 2);
    assert_eq!(p.patch, 3);
    assert_eq!(p.pre, "beta");
    assert_eq!(p.build, Some("build5".to_string()));
}

#[test]
fn version_parse_missing_parts_are_zero() {
    assert_eq!(Version::parse("4").unwrap(), v(4, 0, 0));
    assert_eq!(Version::parse("4.5").unwrap(), v(4, 5, 0));
}

#[test]
fn version_parse_errors() {
    assert_eq!(Version::parse("x.1"), Err(ParseError::MajorNotNumber("x".to_string())));
    assert_eq!(Version::parse("1.y"), Err(ParseError::MinorNotNumber("y".to_string())));
    // the patch error reports the minor component's text
    assert_eq!(Version::parse("1.2.z"), Err(ParseError::PatchNotNumber("2".to_string())));
    assert_eq!(Version::parse("1.2.3.4"), Err(ParseError::TooManySegments));
    assert_eq!(Version::parse(""), Err(ParseError::MajorNotNumber(String::new())));
}

#[test]
fn version_to_string_forms() {
    assert_eq!(v(1, 2, 3).to_string(), "1.2.3");
    let full = Version { major: 10, minor: 0, patch: 7, pre: "rc1".to_string(), build: Some("b".to_string()) };
    assert_eq!(full.to_string(), "10.0.7-rc1+b");
    let build_only = Version { major: 0, minor: 0, patch: 0, pre: String::new(), build: Some(String::new()) };
    assert_eq!(build_only.to_string(), "0.0.0+");
}

#[test]
fn version_text_roundtrip() {
    let full = Version { major: 3, minor: 14, patch: 15, pre: "alpha-2".to_string(), build: Some("x+y".to_string()) };
    assert_eq!(Version::parse(&full.to_string()).unwrap(), full);
}

#[test]
fn version_order() {
    assert!(v(1, 2, 3).lt(&v(1, 3, 0)));
    assert!(!v(1, 3, 0).lt(&v(1, 2, 3)));
    assert!(v(1, 2, 3).le(&v(1, 2, 3)));
    let pre = Version { major: 1, minor: 2, patch: 3, pre: "a".to_string(), build: None };
    assert!(v(1, 2, 3).lt(&pre));
    let b = Version { major: 1, minor: 2, patch: 3, pre: String::new(), build: Some("1".to_string()) };
    assert!(v(1, 2, 3).lt(&b));
    assert_eq!(v(2, 0, 0).compare(&v(1, 9, 9)), std::cmp::Ordering::Greater);
    assert_eq!(v(2, 0, 0).compare(&v(2, 0, 0)), std::cmp::Ordering::Equal);
    assert_eq!(v(1, 0, 0).compare(&v(2, 0, 0)), std::cmp::Ordering::Less);
}

#[test]
fn verreq_parse_kinds() {
    assert_eq!(VerReq::parse("\u{0}"), Ok(VerReq::NoBound));
    assert_eq!(VerReq::parse("\u{1}1.0.0"), Ok(VerReq::Gt(v(1, 0, 0))));
    assert_eq!(VerReq::parse("\u{2}1.0.0"), Ok(VerReq::Ge(v(1, 0, 0))));
    assert_eq!(VerReq::parse("\u{3}1.0.0"), Ok(VerReq::Eq(v(1, 0, 0))));
    assert_eq!(VerReq::parse("\u{4}1.0.0"), Ok(VerReq::Le(v(1, 0, 0))));
    assert_eq!(VerReq::parse("\u{5}1.0.0"), Ok(VerReq::Lt(v(1, 0, 0))));
    assert_eq!(VerReq::parse(""), Err(ParseError::MissingIdentifier));
    assert_eq!(VerReq::parse("\u{7}1.0.0"), Err(ParseError::InvalidIdentifier(7)));
    // the version is read before the kind is checked
    assert_eq!(VerReq::parse("\u{7}x"), Err(ParseError::MajorNotNumber("x".to_string())));
    // the kind is the low byte of the first character
    assert_eq!(VerReq::parse("\u{102}1.0.0"), Ok(VerReq::Ge(v(1, 0, 0))));
}

#[test]
fn verreq_to_string_forms() {
    assert_eq!(VerReq::NoBound.to_string(), "\u{0}");
    assert_eq!(VerReq::Lt(v(2, 1, 0)).to_string(), "\u{5}2.1.0");
}

#[test]
fn verreq_negotiate_narrows() {
    let unbounded = Range { lower: VerReq::NoBound, upper: VerReq::NoBound };
    let r = VerReq::Ge(v(1, 0, 0)).negotiate(Some(unbounded)).unwrap();
    assert_eq!(r, Range { lower: VerReq::Ge(v(1, 0, 0)), upper: VerReq::NoBound });
    let r = VerReq::Lt(v(2, 0, 0)).negotiate(Some(r)).unwrap();
    assert_eq!(r, Range { lower: VerReq::Ge(v(1, 0, 0)), upper: VerReq::Lt(v(2, 0, 0)) });
    // a stronger lower bound replaces a weaker one
    let r = VerReq::Gt(v(1, 5, 0)).negotiate(Some(r)).unwrap();
    assert_eq!(r, Range { lower: VerReq::Gt(v(1, 5, 0)), upper: VerReq::Lt(v(2, 0, 0)) });
    // a weaker one keeps the range
    let r2 = VerReq::Ge(v(1, 0, 0)).negotiate(Some(r.clone())).unwrap();
    assert_eq!(r2, r);
    // no common version
    assert_eq!(VerReq::Ge(v(3, 0, 0)).negotiate(Some(r)), None);
    assert_eq!(VerReq::NoBound.negotiate(None), None);
}

#[test]
fn verreq_negotiate_exact() {
    let r = Range { lower: VerReq::Ge(v(1, 0, 0)), upper: VerReq::Lt(v(2, 0, 0)) };
    assert_eq!(
        VerReq::Eq(v(1, 4, 0)).negotiate(Some(r.clone())),
        Some(Range { lower: VerReq::Eq(v(1, 4, 0)), upper: VerReq::Eq(v(1, 4, 0)) })
    );
    assert_eq!(VerReq::Eq(v(2, 0, 0)).negotiate(Some(r)), None);
}

#[test]
fn negotiation_is_intersection_on_examples() {
    // a version lies in the negotiated range exactly when it lies in both
    let prior = Range { lower: VerReq::Ge(v(1, 0, 0)), upper: VerReq::NoBound };
    let narrowed = VerReq::Le(v(1, 5, 0)).negotiate(Some(prior)).unwrap();
    for (ver, inside) in [(v(0, 9, 0), false), (v(1, 0, 0), true), (v(1, 5, 0), true), (v(1, 6, 0), false)] {
        let exact = Range { lower: VerReq::Eq(ver.clone()), upper: VerReq::Eq(ver.clone()) };
        assert_eq!(exact.negotiate(Some(narrowed.clone())).is_some(), inside);
    }
}

#[test]
fn range_parse_and_print() {
    let r = Range::parse("\u{2}1.0.0 \u{5}2.0.0").unwrap();
    assert_eq!(r, Range { lower: VerReq::Ge(v(1, 0, 0)), upper: VerReq::Lt(v(2, 0, 0)) });
    assert_eq!(r.to_string(), "\u{2}1.0.0 \u{5}2.0.0");
    assert_eq!(Range::parse("\u{2}1.0.0"), Err(ParseError::MissingField(plz::errors::Field::Upper)));
}

#[test]
fn range_sanity() {
    assert!(Range { lower: VerReq::Ge(v(1, 0, 0)), upper: VerReq::Lt(v(2, 0, 0)) }.is_sane());
    assert!(!Range { lower: VerReq::Ge(v(3, 0, 0)), upper: VerReq::Lt(v(2, 0, 0)) }.is_sane());
    assert!(!Range { lower: VerReq::Lt(v(1, 0, 0)), upper: VerReq::NoBound }.is_sane());
    // a strict lower bound equal to an exact upper bound counts as sane
    assert!(Range { lower: VerReq::Gt(v(1, 0, 0)), upper: VerReq::Eq(v(1, 0, 0)) }.is_sane());
    assert!(Range { lower: VerReq::NoBound, upper: VerReq::NoBound }.is_sane());
}

#[test]
fn range_negotiate_both_bounds() {
    let a = Range { lower: VerReq::Ge(v(1, 0, 0)), upper: VerReq::Lt(v(3, 0, 0)) };
    let b = Range { lower: VerReq::Ge(v(2, 0, 0)), upper: VerReq::Le(v(4, 0, 0)) };
    assert_eq!(
        b.negotiate(Some(a.clone())),
        Some(Range { lower: VerReq::Ge(v(2, 0, 0)), upper: VerReq::Lt(v(3, 0, 0)) })
    );
    let c = Range { lower: VerReq::Ge(v(5, 0, 0)), upper: VerReq::NoBound };
    assert_eq!(c.negotiate(Some(a)), None);
}
