use plz::apt::{AptError, ControlInfo, RawApt};
use plz::depend::{DepVer, DependKind, DependKindVec};
use plz::dew::{DewError, RawDew};
use plz::errors::ParseError;
use plz::metadata::{MetaDataKind, PreBuilt, ProcessedCompilable, ProcessedInstallKind};
use plz::origin::OriginKind;
use plz::range::Range;
use plz::settings::Arch;
use plz::verreq::VerReq;
use plz::version::Version;

fn v(major: usize, minor: usize, patch: usize) -> Version {
    Version { major, minor, patch, pre: String::new(), build: None }
}

fn range(lower: VerReq, upper: VerReq) -> Range {
    Range { lower, upper }
}

#[test]
fn apt_architectures() {
    assert_eq!(RawApt::get_arch("all"), Arch::Any);
    assert_eq!(RawApt::get_arch("any"), Arch::Any);
    assert_eq!(RawApt::get_arch("amd64"), Arch::X86_64);
    assert_eq!(RawApt::get_arch("arm64"), Arch::Aarch64);
    assert_eq!(RawApt::get_arch("i386"), Arch::NoArch);
}

#[test]
fn apt_relations_groups() {
    let r = RawApt::parse_relations("libc6, perl | python3:any, make", &Arch::X86_64v3);
    assert_eq!(
        r,
        Some(Ok(vec![
            vec![DependKind::Latest("libc6".to_string())],
            vec![DependKind::Latest("perl".to_string()), DependKind::Latest("python3".to_string())],
            vec![DependKind::Latest("make".to_string())],
        ]))
    );
}

#[test]
fn apt_relation_with_operator() {
    // the text after ` )` carries a two-byte operator and a version
    let r = RawApt::parse_relations("libfoo )>=1.2.0)", &Arch::Any);
    assert_eq!(
        r,
        Some(Ok(vec![vec![DependKind::Specific(DepVer {
            name: "libfoo".to_string(),
            range: range(VerReq::Ge(v(1, 2, 0)), VerReq::NoBound),
        })]]))
    );
    assert_eq!(
        RawApt::parse_relations("libfoo )<<2.0.0", &Arch::Any),
        Some(Ok(vec![vec![DependKind::Specific(DepVer {
            name: "libfoo".to_string(),
            range: range(VerReq::NoBound, VerReq::Lt(v(2, 0, 0))),
        })]]))
    );
    assert_eq!(
        RawApt::parse_relations("libfoo )==1.0.0", &Arch::Any),
        Some(Err(AptError::BadOpcode("==".to_string())))
    );
    assert_eq!(
        RawApt::parse_relations("libfoo )>=x", &Arch::Any),
        Some(Err(AptError::BadVersion("x".to_string())))
    );
    // a single byte after ` )` cannot be split: the reading panics
    assert_eq!(RawApt::parse_relations("libfoo )>", &Arch::Any), None);
}

#[test]
fn apt_relation_architectures() {
    assert_eq!(
        RawApt::parse_relations("foo:arm64", &Arch::X86_64),
        Some(Err(AptError::IncompatibleRelation))
    );
    assert_eq!(
        RawApt::parse_relations("foo:i386", &Arch::X86_64),
        Some(Err(AptError::Unrecognized("foo".to_string())))
    );
    assert_eq!(
        RawApt::parse_relations("foo:amd64", &Arch::X86_64v2),
        Some(Ok(vec![vec![DependKind::Latest("foo".to_string())]]))
    );
}

#[test]
fn apt_version_entries() {
    let e = RawApt::version_entry("curl_8.5.0", "amd64", "curl").unwrap();
    assert_eq!(e, ("curl_8.5.0_amd64".to_string(), v(8, 5, 0), Arch::X86_64));
    assert_eq!(RawApt::version_entry("wget_1.0.0", "amd64", "curl"), None);
    assert_eq!(RawApt::version_entry("curl_x", "amd64", "curl"), None);
    assert_eq!(RawApt::version_entry("curl", "amd64", "curl"), None);
}

#[test]
fn apt_pick_version() {
    let entries = vec![
        ("a_1".to_string(), v(1, 0, 0), Arch::Any),
        ("a_3".to_string(), v(3, 0, 0), Arch::Any),
        ("a_2".to_string(), v(2, 0, 0), Arch::Any),
    ];
    assert_eq!(RawApt::pick_version(&entries, None), Some(1));
    assert_eq!(RawApt::pick_version(&entries, Some("2.0.0")), Some(2));
    assert_eq!(RawApt::pick_version(&entries, Some("9.0.0")), None);
    assert_eq!(RawApt::pick_version(&Vec::new(), None), None);
}

#[test]
fn apt_archive_flags() {
    assert_eq!(RawApt::archive_flag("gz"), Some("-xzf"));
    assert_eq!(RawApt::archive_flag("xz"), Some("-xJf"));
    assert_eq!(RawApt::archive_flag("bz2"), Some("-xjf"));
    assert_eq!(RawApt::archive_flag("zst"), Some("-xf"));
    assert_eq!(RawApt::archive_flag("deb"), None);
}

#[test]
fn apt_control_file() {
    let text = "Package: hello\nVersion: 2.10-3\nArchitecture: amd64\nDepends: libc6 (>= 2.34)\nDescription: example package\n";
    let info = RawApt::read_control(text, "hello", &Arch::X86_64).unwrap();
    assert_eq!(info.name, "hello");
    assert_eq!(info.depends, Some("libc6 (>= 2.34)".to_string()));
    assert_eq!(info.recommended, None);
    assert!(info.description.starts_with("example package"));
    assert_eq!(RawApt::read_control(text, "hello", &Arch::Aarch64), Err(AptError::IncompatiblePackage));
    assert_eq!(RawApt::read_control("Source: x\n", "x", &Arch::Any), Err(AptError::MissingBinary));
}

#[test]
fn apt_control_fields() {
    assert_eq!(
        RawApt::control_info("req", Some("p".to_string()), None, Some("all".to_string()), None, None, &Arch::Armv7l),
        Ok(ControlInfo { name: "p".to_string(), description: String::new(), depends: None, recommended: None })
    );
    assert_eq!(
        RawApt::control_info("req", Some("p".to_string()), None, None, None, None, &Arch::Any),
        Err(AptError::Unrecognized("req".to_string()))
    );
    assert_eq!(
        RawApt::control_info("req", None, None, Some("any".to_string()), None, None, &Arch::Any),
        Err(AptError::Unnamed)
    );
}

#[test]
fn apt_metadata() {
    let info = ControlInfo { name: "p".to_string(), description: "d".to_string(), depends: None, recommended: None };
    let chosen = vec![DependKind::Latest("a".to_string()), DependKind::Latest("a".to_string()), DependKind::Volatile("b".to_string())];
    let src = OriginKind::Plz { source: "s".to_string() };
    let m = RawApt::to_processed(info, chosen, "1.0", &src, true).unwrap();
    assert_eq!(m.name, "p");
    assert_eq!(m.kind, MetaDataKind::Apt);
    assert_eq!(m.version, "1.0");
    assert!(m.dependent);
    assert_eq!(m.build_dependencies, DependKindVec(Vec::new()));
    assert_eq!(
        m.runtime_dependencies,
        DependKindVec(vec![DependKind::Latest("a".to_string()), DependKind::Volatile("b".to_string())])
    );
    assert_eq!(m.install_kind, ProcessedInstallKind::PreBuilt(PreBuilt { critical: Vec::new(), configs: Vec::new() }));
    let info = ControlInfo { name: "p".to_string(), description: "d".to_string(), depends: None, recommended: None };
    let conflicting = vec![
        DependKind::Specific(DepVer { name: "a".to_string(), range: range(VerReq::Ge(v(2, 0, 0)), VerReq::NoBound) }),
        DependKind::Specific(DepVer { name: "a".to_string(), range: range(VerReq::NoBound, VerReq::Lt(v(1, 0, 0))) }),
    ];
    assert_eq!(RawApt::to_processed(info, conflicting, "1.0", &src, true), Err(AptError::DependencyConflict));
}

#[test]
fn dew_version_constraints() {
    assert_eq!(RawDew::parse_ver(">>1.0"), Ok(range(VerReq::Gt(v(1, 0, 0)), VerReq::NoBound)));
    assert_eq!(RawDew::parse_ver(">=1.0"), Ok(range(VerReq::Ge(v(1, 0, 0)), VerReq::NoBound)));
    assert_eq!(RawDew::parse_ver("==1.0"), Ok(range(VerReq::Eq(v(1, 0, 0)), VerReq::Eq(v(1, 0, 0)))));
    assert_eq!(RawDew::parse_ver("<=1.0"), Ok(range(VerReq::NoBound, VerReq::Le(v(1, 0, 0)))));
    assert_eq!(RawDew::parse_ver("<<1.0"), Ok(range(VerReq::NoBound, VerReq::Lt(v(1, 0, 0)))));
    assert_eq!(RawDew::parse_ver("1.0"), Ok(range(VerReq::Eq(v(1, 0, 0)), VerReq::Eq(v(1, 0, 0)))));
    assert_eq!(RawDew::parse_ver(">x"), Err(ParseError::MajorNotNumber(">x".to_string())));
}

#[test]
fn dew_dependencies() {
    let deps = vec!["!git".to_string(), "lib>=2.0".to_string(), "curl".to_string()];
    assert_eq!(
        RawDew::as_dep_kind(&deps),
        Ok(vec![
            DependKind::Volatile("git".to_string()),
            DependKind::Specific(DepVer { name: "lib".to_string(), range: range(VerReq::Ge(v(2, 0, 0)), VerReq::NoBound) }),
            DependKind::Latest("curl".to_string()),
        ])
    );
    let bad = vec!["ok".to_string(), "lib==x".to_string()];
    assert_eq!(RawDew::as_dep_kind(&bad), Err(ParseError::MajorNotNumber("x".to_string())));
}

fn raw(origin: &str) -> RawDew {
    RawDew {
        name: "tool".to_string(),
        description: "a tool".to_string(),
        version: "1.0.0".to_string(),
        origin: origin.to_string(),
        build_dependencies: vec!["cc".to_string()],
        runtime_dependencies: vec!["!sh".to_string()],
        build: "make".to_string(),
        install: "make install".to_string(),
        uninstall: "make uninstall".to_string(),
        purge: "make purge".to_string(),
        hash: "abc".to_string(),
    }
}

#[test]
fn dew_to_process() {
    let m = raw("https://srv").to_process(true).unwrap();
    assert_eq!(m.origin, OriginKind::Plz { source: "https://srv".to_string() });
    assert_eq!(m.kind, MetaDataKind::Dew);
    assert_eq!(m.build_dependencies, DependKindVec(vec![DependKind::Latest("cc".to_string())]));
    assert_eq!(m.runtime_dependencies, DependKindVec(vec![DependKind::Volatile("sh".to_string())]));
    assert_eq!(
        m.install_kind,
        ProcessedInstallKind::Compilable(ProcessedCompilable {
            build: "make".to_string(),
            install: "make install".to_string(),
            uninstall: "make uninstall".to_string(),
            purge: "make purge".to_string(),
        })
    );
    assert!(m.dependent);
    let g = raw("gh/me/tool").to_process(false).unwrap();
    assert_eq!(g.origin, OriginKind::Github { user: "me".to_string(), repo: "tool".to_string() });
    assert_eq!(raw("gh/me").to_process(false).unwrap_err(), DewError::InvalidOrigin);
    let mut bad = raw("x");
    bad.runtime_dependencies = vec!["a<=q".to_string()];
    assert_eq!(
        bad.to_process(false).unwrap_err(),
        DewError::BadDependency(ParseError::MajorNotNumber("q".to_string()))
    );
}

#[test]
fn unparsable_control_text() {
    assert_eq!(RawApt::read_control(": orphan\n", "x", &Arch::Any), Err(AptError::NotControl));
}

#[test]
fn malformed_relations_are_kept_as_text() {
    let text = "Package: odd\nArchitecture: all\nDepends: ((( not a relation\nRecommends: x | y\nDescription: d\n";
    let info = RawApt::read_control(text, "odd", &Arch::Any).unwrap();
    assert_eq!(info.name, "odd");
    assert_eq!(info.depends, Some("((( not a relation".to_string()));
    assert_eq!(info.recommended, Some("x | y".to_string()));
}
