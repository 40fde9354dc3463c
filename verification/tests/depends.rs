use plz::depend::{DepVer, DepVerVec, DependKind, DependKindVec, FetchStep, PickError, Specific, SpecificVec};
use plz::depend::parse_version_list;
use plz::errors::{Field, ParseError};
use plz::range::Range;
use plz::verreq::VerReq;
use plz::version::Version;

fn v(major: usize, minor: usize, patch: usize) -> Version {
    Version { major, minor, patch, pre: String::new(), build: None }
}

fn any() -> Range {
    Range { lower: VerReq::NoBound, upper: VerReq::NoBound }
}

fn dv(name: &str, lower: VerReq, upper: VerReq) -> DepVer {
    DepVer { name: name.to_string(), range: Range { lower, upper } }
}

#[test]
fn depver_parse_and_print() {
    let d = DepVer::parse("foo \u{2}1.0.0 \u{0}").unwrap();
    assert_eq!(d, dv("foo", VerReq::Ge(v(1, 0, 0)), VerReq::NoBound));
    assert_eq!(d.to_string(), "foo \u{2}1.0.0 \u{0}");
    assert_eq!(DepVer::parse("foo"), Err(ParseError::MissingField(Field::Range)));
}

#[test]
fn specific_parse_and_print() {
    let s = Specific::parse("bar 2.1.0").unwrap();
    assert_eq!(s, Specific { name: "bar".to_string(), version: v(2, 1, 0) });
    assert_eq!(s.to_string(), "bar 2.1.0");
    assert_eq!(Specific::parse("bar"), Err(ParseError::MissingField(Field::Version)));
}

#[test]
fn depend_kind_parse_and_print() {
    assert_eq!(DependKind::parse("\u{1}curl"), Ok(DependKind::Latest("curl".to_string())));
    assert_eq!(DependKind::parse("\u{3}git"), Ok(DependKind::Volatile("git".to_string())));
    assert_eq!(
        DependKind::parse("\u{2}lib \u{0} \u{5}2.0.0"),
        Ok(DependKind::Specific(dv("lib", VerReq::NoBound, VerReq::Lt(v(2, 0, 0)))))
    );
    assert_eq!(DependKind::parse(""), Err(ParseError::MissingIdentifier));
    assert_eq!(DependKind::parse("\u{9}x"), Err(ParseError::InvalidIdentifier(9)));
    assert_eq!(DependKind::Volatile("git".to_string()).to_string(), "\u{3}git");
    let k = DependKind::Specific(dv("lib", VerReq::Eq(v(1, 0, 0)), VerReq::Eq(v(1, 0, 0))));
    assert_eq!(DependKind::parse(&k.to_string()), Ok(k));
}

#[test]
fn lists_parse_and_print() {
    let list = DepVerVec(vec![
        dv("a", VerReq::Ge(v(1, 0, 0)), VerReq::Lt(v(2, 0, 0))),
        dv("b", VerReq::Ge(v(1, 0, 0)), VerReq::Le(v(3, 0, 0))),
    ]);
    let text = list.to_string();
    assert_eq!(text, "a \u{2}1.0.0 \u{5}2.0.0\u{0}\u{0}b \u{2}1.0.0 \u{4}3.0.0");
    assert_eq!(DepVerVec::parse(&text), Ok(list));
    assert_eq!(DepVerVec::parse(""), Ok(DepVerVec(Vec::new())));
    let specs = SpecificVec(vec![
        Specific { name: "a".to_string(), version: v(1, 0, 0) },
        Specific { name: "b".to_string(), version: v(0, 2, 0) },
    ]);
    assert_eq!(SpecificVec::parse(&specs.to_string()), Ok(specs));
    let kinds = DependKindVec(vec![DependKind::Latest("x".to_string()), DependKind::Volatile("y".to_string())]);
    assert_eq!(DependKindVec::parse(&kinds.to_string()), Ok(kinds));
    assert_eq!(DepVerVec::parse("a"), Err(ParseError::MissingField(Field::Range)));
}

#[test]
fn list_with_unbounded_upper_does_not_read_back() {
    // an entry ending in the no-bound character runs into the separator
    let list = DepVerVec(vec![dv("a", VerReq::NoBound, VerReq::NoBound), dv("b", VerReq::NoBound, VerReq::NoBound)]);
    let text = list.to_string();
    assert_eq!(text, "a \u{0} \u{0}\u{0}\u{0}b \u{0} \u{0}");
    assert_eq!(DepVerVec::parse(&text), Err(ParseError::MissingIdentifier));
}

#[test]
fn dependency_name_and_ranges() {
    assert_eq!(DependKind::Latest("x".to_string()).name(), "x");
    assert_eq!(DependKind::Specific(dv("y", VerReq::NoBound, VerReq::NoBound)).name(), "y");
    let present = vec!["git".to_string()];
    assert_eq!(
        DependKind::Latest("x".to_string()).as_dep_ver(&present),
        Some(DepVer { name: "x".to_string(), range: any() })
    );
    assert_eq!(DependKind::Volatile("git".to_string()).as_dep_ver(&present), None);
    assert_eq!(
        DependKind::Volatile("make".to_string()).as_dep_ver(&present),
        Some(DepVer { name: "make".to_string(), range: any() })
    );
}

#[test]
fn collapse_merges_by_name() {
    let deps = vec![
        DependKind::Volatile("a".to_string()),
        DependKind::Latest("a".to_string()),
        DependKind::Latest("b".to_string()),
        DependKind::Specific(dv("b", VerReq::Ge(v(1, 0, 0)), VerReq::NoBound)),
        DependKind::Specific(dv("b", VerReq::NoBound, VerReq::Lt(v(2, 0, 0)))),
        DependKind::Volatile("c".to_string()),
    ];
    let c = DependKind::collapse(deps).unwrap();
    assert_eq!(
        c,
        vec![
            DependKind::Latest("a".to_string()),
            DependKind::Specific(dv("b", VerReq::Ge(v(1, 0, 0)), VerReq::Lt(v(2, 0, 0)))),
            DependKind::Volatile("c".to_string()),
        ]
    );
}

#[test]
fn collapse_fails_on_conflict() {
    let deps = vec![
        DependKind::Specific(dv("b", VerReq::Ge(v(3, 0, 0)), VerReq::NoBound)),
        DependKind::Specific(dv("b", VerReq::NoBound, VerReq::Lt(v(2, 0, 0)))),
    ];
    assert_eq!(DependKind::collapse(deps), None);
}

#[test]
fn is_installed_cases() {
    assert!(DependKind::Latest("x".to_string()).is_installed(Some("1.0.0"), false));
    assert!(!DependKind::Latest("x".to_string()).is_installed(None, true));
    let open = DependKind::Specific(dv("x", VerReq::NoBound, VerReq::NoBound));
    assert!(open.is_installed(Some("1.2.0"), false));
    assert!(!open.is_installed(Some("nonsense"), false));
    assert!(!open.is_installed(None, true));
    // a bound is checked against the installed version by negotiation, which
    // only accepts a bound at exactly that version
    let k = DependKind::Specific(dv("x", VerReq::Ge(v(1, 2, 0)), VerReq::NoBound));
    assert!(k.is_installed(Some("1.2.0"), false));
    let k = DependKind::Specific(dv("x", VerReq::Ge(v(1, 0, 0)), VerReq::NoBound));
    assert!(!k.is_installed(Some("1.2.0"), false));
    assert!(DependKind::Volatile("git".to_string()).is_installed(None, true));
    assert!(!DependKind::Volatile("git".to_string()).is_installed(None, false));
}

#[test]
fn choose_alternative_cases() {
    let choices = vec![DependKind::Latest("a".to_string()), DependKind::Latest("b".to_string())];
    assert_eq!(DependKind::choose_alternative(choices, &vec![false, true]), None);
    let choices = vec![DependKind::Latest("a".to_string()), DependKind::Latest("b".to_string())];
    assert_eq!(DependKind::choose_alternative(choices, &vec![false, false]), Some(DependKind::Latest("a".to_string())));
    assert_eq!(DependKind::choose_alternative(Vec::new(), &Vec::new()), None);
}

#[test]
fn version_list_skips_garbage() {
    assert_eq!(parse_version_list("1.0.0,abc,2.0.0"), vec![v(1, 0, 0), v(2, 0, 0)]);
    assert_eq!(parse_version_list(""), Vec::<Version>::new());
}

#[test]
fn pick_version_newest_admitted() {
    let versions = vec![v(1, 0, 0), v(1, 5, 0), v(2, 0, 0), v(1, 2, 0)];
    let d = dv("x", VerReq::Ge(v(1, 1, 0)), VerReq::Lt(v(2, 0, 0)));
    assert_eq!(d.pick_version(&versions), Ok(v(1, 5, 0)));
    let none = dv("x", VerReq::Gt(v(5, 0, 0)), VerReq::NoBound);
    assert_eq!(none.pick_version(&versions), Err(PickError::NoMatchingVersion));
    let bad_lower = dv("x", VerReq::Le(v(1, 0, 0)), VerReq::NoBound);
    assert_eq!(bad_lower.pick_version(&versions), Err(PickError::UnexpectedLower));
    let bad_upper = dv("x", VerReq::NoBound, VerReq::Gt(v(1, 0, 0)));
    assert_eq!(bad_upper.pick_version(&versions), Err(PickError::UnexpectedUpper));
    // an exact upper bound is left to the lower one
    let exact = dv("x", VerReq::Eq(v(1, 2, 0)), VerReq::Eq(v(1, 2, 0)));
    assert_eq!(exact.pick_version(&versions), Ok(v(1, 2, 0)));
}

#[test]
fn kinds_with_unbounded_range_do_not_read_back() {
    let make = || {
        DependKindVec(vec![
            DependKind::Specific(dv("a", VerReq::NoBound, VerReq::NoBound)),
            DependKind::Latest("b".to_string()),
        ])
    };
    let text = make().to_string();
    assert!(text.contains('\x00'));
    assert_ne!(DependKindVec::parse(&text), Ok(make()));
}

#[test]
fn list_with_unbounded_lower_reads_back() {
    let make = || {
        DepVerVec(vec![
            dv("a", VerReq::NoBound, VerReq::Lt(v(2, 0, 0))),
            dv("b", VerReq::Ge(v(1, 0, 0)), VerReq::NoBound),
        ])
    };
    let text = make().to_string();
    assert_eq!(DepVerVec::parse(&text), Ok(make()));
}

#[test]
fn fetch_steps() {
    assert_eq!(DependKind::Latest("x".to_string()).fetch_step(true), FetchStep::Newest("x".to_string()));
    assert_eq!(DependKind::Volatile("sh".to_string()).fetch_step(true), FetchStep::Skip);
    assert_eq!(DependKind::Volatile("sh".to_string()).fetch_step(false), FetchStep::Newest("sh".to_string()));
    let d = dv("a", VerReq::NoBound, VerReq::NoBound);
    assert_eq!(DependKind::Specific(dv("a", VerReq::NoBound, VerReq::NoBound)).fetch_step(false), FetchStep::InRange(d));
}
