use plz::errors::{Field, ParseError};
use plz::metadata::{
    InstalledCompilable, InstalledInstallKind, MetaDataKind, PreBuilt, ProcessedCompilable,
    ProcessedInstallKind,
};
use plz::origin::{AptComponent, EndpointError, OriginKind, OriginKindVec};

fn strings(v: &[&str]) -> Vec<String> {
    v.iter().map(|x| x.to_string()).collect()
}

#[test]
fn metadata_kind_codec() {
    assert_eq!(MetaDataKind::parse("\u{0}"), Ok(MetaDataKind::Dew));
    assert_eq!(MetaDataKind::parse("\u{1}rest"), Ok(MetaDataKind::Apt));
    assert_eq!(MetaDataKind::parse(""), Err(ParseError::MissingIdentifier));
    assert_eq!(MetaDataKind::parse("\u{2}"), Err(ParseError::InvalidIdentifier(2)));
    assert_eq!(MetaDataKind::Apt.to_string(), "\u{1}");
}

#[test]
fn prebuilt_codec() {
    let p = PreBuilt::parse("a\u{0}b\u{0}\u{0}c").unwrap();
    assert_eq!(p, PreBuilt { critical: strings(&["a", "b"]), configs: strings(&["c"]) });
    assert_eq!(p.to_string(), "a\u{0}b\u{0}\u{0}c");
    assert_eq!(PreBuilt::parse("abc"), Err(ParseError::MissingField(Field::Configs)));
    let empty = PreBuilt { critical: Vec::new(), configs: Vec::new() };
    assert_eq!(empty.to_string(), "\u{0}\u{0}");
    assert_eq!(PreBuilt::parse("\u{0}\u{0}"), Ok(PreBuilt { critical: strings(&[""]), configs: strings(&[""]) }));
}

#[test]
fn compilable_codec() {
    let c = ProcessedCompilable::parse("make\u{0}make install\u{0}rm x\u{0}rm -r x").unwrap();
    assert_eq!(
        c,
        ProcessedCompilable {
            build: "make".to_string(),
            install: "make install".to_string(),
            uninstall: "rm x".to_string(),
            purge: "rm -r x".to_string(),
        }
    );
    assert_eq!(c.to_string(), "make\u{0}make install\u{0}rm x\u{0}rm -r x");
    // pieces after the fourth are ignored
    assert_eq!(ProcessedCompilable::parse("a\u{0}b\u{0}c\u{0}d\u{0}e").unwrap().purge, "d");
    assert_eq!(ProcessedCompilable::parse("a\u{0}b"), Err(ParseError::MissingField(Field::Uninstall)));
    assert_eq!(ProcessedCompilable::parse("a\u{0}b\u{0}c"), Err(ParseError::MissingField(Field::Purge)));
    let i = InstalledCompilable::parse("rm x\u{0}rm -r x").unwrap();
    assert_eq!(i, InstalledCompilable { uninstall: "rm x".to_string(), purge: "rm -r x".to_string() });
    assert_eq!(i.to_string(), "rm x\u{0}rm -r x");
    assert_eq!(InstalledCompilable::parse("rm x"), Err(ParseError::MissingField(Field::Purge)));
}

#[test]
fn install_kind_codec() {
    let k = ProcessedInstallKind::parse("\u{1}a\u{0}b\u{0}c\u{0}d").unwrap();
    assert_eq!(
        k,
        ProcessedInstallKind::Compilable(ProcessedCompilable {
            build: "a".to_string(),
            install: "b".to_string(),
            uninstall: "c".to_string(),
            purge: "d".to_string(),
        })
    );
    assert_eq!(k.to_string(), "\u{1}a\u{0}b\u{0}c\u{0}d");
    let p = ProcessedInstallKind::parse("\u{0}x\u{0}\u{0}y").unwrap();
    assert_eq!(p, ProcessedInstallKind::PreBuilt(PreBuilt { critical: strings(&["x"]), configs: strings(&["y"]) }));
    assert_eq!(ProcessedInstallKind::parse(""), Err(ParseError::MissingIdentifier));
    assert_eq!(ProcessedInstallKind::parse("\u{4}"), Err(ParseError::InvalidIdentifier(4)));
    let ik = InstalledInstallKind::parse("\u{1}u\u{0}p").unwrap();
    assert_eq!(ik, InstalledInstallKind::Compilable(InstalledCompilable { uninstall: "u".to_string(), purge: "p".to_string() }));
    assert_eq!(ik.to_string(), "\u{1}u\u{0}p");
}

#[test]
fn plz_origin_bytes_roundtrip() {
    let o = OriginKind::Plz { source: "https://pkgs.example.org".to_string() };
    let b = o.as_bytes();
    assert_eq!(b[0], 2);
    assert_eq!(&b[1..], "https://pkgs.example.org".as_bytes());
    assert_eq!(OriginKind::from_bytes(&b), Ok(o));
}

#[test]
fn github_origin_bytes_keep_the_newline() {
    let o = OriginKind::Github { user: "me".to_string(), repo: "tool".to_string() };
    let b = o.as_bytes();
    assert_eq!(b, b"\x01me\ntool".to_vec());
    // the repository field starts at the newline
    assert_eq!(
        OriginKind::from_bytes(&b),
        Ok(OriginKind::Github { user: "me".to_string(), repo: "\ntool".to_string() })
    );
}

#[test]
fn apt_origin_bytes() {
    let o = OriginKind::Apt {
        uri: "http://deb".to_string(),
        suite: "stable".to_string(),
        component: AptComponent::Main,
        signature_path: b"/k".to_vec(),
    };
    let b = o.as_bytes();
    let mut expected = vec![0u8];
    expected.extend_from_slice(b"http://deb\n");
    expected.push(6);
    expected.extend_from_slice(b"stable");
    expected.push(4);
    expected.extend_from_slice(b"main/k");
    assert_eq!(b, expected);
    // the newline is read as the suite's length, so the fields run on
    assert_eq!(OriginKind::from_bytes(&b), Err(ParseError::MissingComponentData));
}

#[test]
fn origin_bytes_errors() {
    assert_eq!(OriginKind::from_bytes(&[]), Err(ParseError::MissingEnumIdentifier));
    assert_eq!(OriginKind::from_bytes(&[1, b'a']), Err(ParseError::MissingNewline));
    assert_eq!(OriginKind::from_bytes(&[0, b'a']), Err(ParseError::MissingNewline));
    assert_eq!(OriginKind::from_bytes(&[9]), Err(ParseError::UnknownIdentifier(9)));
    assert_eq!(OriginKind::from_bytes(&[0, b'a', b'\n']), Err(ParseError::MissingSuiteData));
}

#[test]
fn invalid_utf8_is_replaced() {
    let o = OriginKind::from_bytes(&[2, 0xff, b'a']).unwrap();
    assert_eq!(o, OriginKind::Plz { source: "\u{fffd}a".to_string() });
    assert_eq!(AptComponent::from_bytes(&[0xff]), AptComponent::Custom("\u{fffd}".to_string()));
}

#[test]
fn apt_components() {
    assert_eq!(AptComponent::from_bytes(b"universe"), AptComponent::Universe);
    assert_eq!(AptComponent::from_bytes(b"contrib"), AptComponent::Custom("contrib".to_string()));
    assert_eq!(AptComponent::Restricted.to_string(), "restricted");
    assert_eq!(AptComponent::Custom("x".to_string()).to_string(), "x");
}

#[test]
fn endpoints() {
    let o = OriginKind::Plz { source: "https://s".to_string() };
    assert_eq!(o.to_endpoint("pkg", None), Ok("https://s/packages/metadata/pkg".to_string()));
    assert_eq!(o.to_endpoint("pkg", Some("1.0.0")), Ok("https://s/packages/metadata/pkg?v=1.0.0".to_string()));
    let g = OriginKind::Github { user: "u".to_string(), repo: "r".to_string() };
    assert_eq!(g.to_endpoint("pkg", None), Err(EndpointError::GithubUnsupported));
}

#[test]
fn default_sources_from_text() {
    let v = OriginKindVec::from_source_list("  https://a\nhttps://b\n");
    assert_eq!(
        v,
        OriginKindVec(vec![
            OriginKind::Plz { source: "https://a".to_string() },
            OriginKind::Plz { source: "https://b".to_string() },
        ])
    );
}

#[test]
fn component_names_read_back() {
    for c in [AptComponent::Main, AptComponent::Multiverse, AptComponent::Restricted, AptComponent::Universe] {
        let text = c.to_string();
        assert_eq!(AptComponent::from_text(text), c);
    }
    let custom = AptComponent::Custom("contrib".to_string());
    assert_eq!(AptComponent::from_text(custom.to_string()), AptComponent::Custom("contrib".to_string()));
    let shadowed = AptComponent::Custom("main".to_string());
    assert_eq!(AptComponent::from_text(shadowed.to_string()), AptComponent::Main);
}
