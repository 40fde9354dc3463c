use plz::depend::{DepVer, DependKind, DependKindVec, Specific};
use plz::errors::ParseError;
use plz::metadata::{MetaDataKind, PreBuilt, ProcessedInstallKind, ProcessedMetaData};
use plz::origin::OriginKind;
use plz::queue::{select_versions, InstallError, InstallPackage, QueuedChanges};
use plz::range::Range;
use plz::verreq::VerReq;
use plz::version::Version;

fn v(major: usize, minor: usize, patch: usize) -> Version {
    Version { major, minor, patch, pre: String::new(), build: None }
}

fn pm(name: &str, version: &str, build: Vec<DependKind>, run: Vec<DependKind>) -> ProcessedMetaData {
    ProcessedMetaData {
        name: name.to_string(),
        kind: MetaDataKind::Dew,
        description: String::new(),
        version: version.to_string(),
        origin: OriginKind::Plz { source: "s".to_string() },
        dependent: false,
        build_dependencies: DependKindVec(build),
        runtime_dependencies: DependKindVec(run),
        install_kind: ProcessedInstallKind::PreBuilt(PreBuilt { critical: Vec::new(), configs: Vec::new() }),
        hash: String::new(),
    }
}

fn leaf(m: ProcessedMetaData) -> InstallPackage {
    InstallPackage { metadata: m, build_deps: Vec::new(), run_deps: Vec::new() }
}

fn spec(name: &str, lower: VerReq, upper: VerReq) -> DependKind {
    DependKind::Specific(DepVer { name: name.to_string(), range: Range { lower, upper } })
}

fn s(name: &str, ver: Version) -> Specific {
    Specific { name: name.to_string(), version: ver }
}

#[test]
fn queue_inserts_each_package_once() {
    let mut q = QueuedChanges::new();
    assert!(q.is_empty());
    assert!(!q.has_deps());
    assert!(q.insert_primary(s("a", v(1, 0, 0))));
    assert!(!q.insert_primary(s("a", v(1, 0, 0))));
    assert!(q.insert_primary(s("a", v(2, 0, 0))));
    q.insert_secondary(s("b", v(1, 0, 0)));
    q.insert_secondary(s("b", v(1, 0, 0)));
    assert_eq!(q.primary, vec![s("a", v(1, 0, 0)), s("a", v(2, 0, 0))]);
    assert_eq!(q.secondary, vec![s("b", v(1, 0, 0))]);
    assert!(!q.is_empty());
    assert!(q.has_deps());
}

#[test]
fn queue_extend_is_union() {
    let mut q = QueuedChanges { primary: vec![s("a", v(1, 0, 0))], secondary: Vec::new() };
    let other = QueuedChanges {
        primary: vec![s("b", v(1, 0, 0)), s("a", v(1, 0, 0))],
        secondary: vec![s("c", v(1, 0, 0))],
    };
    q.extend(other);
    assert_eq!(q.primary, vec![s("a", v(1, 0, 0)), s("b", v(1, 0, 0))]);
    assert_eq!(q.secondary, vec![s("c", v(1, 0, 0))]);
    assert_eq!(QueuedChanges::default(), QueuedChanges::new());
}

fn tree() -> InstallPackage {
    // top: build dep `b`, runtime deps `r1` (with runtime dep `r2`) and `r3`
    InstallPackage {
        metadata: pm("top", "1.0.0", Vec::new(), Vec::new()),
        build_deps: vec![leaf(pm("b", "1.0.0", Vec::new(), Vec::new()))],
        run_deps: vec![
            InstallPackage {
                metadata: pm("r1", "1.0.0", Vec::new(), Vec::new()),
                build_deps: Vec::new(),
                run_deps: vec![leaf(pm("r2", "1.0.0", Vec::new(), Vec::new()))],
            },
            leaf(pm("r3", "1.0.0", Vec::new(), Vec::new())),
        ],
    }
}

#[test]
fn list_deps_runtime_tree() {
    let t = tree();
    let mut top = t.list_deps(true);
    top.sort();
    assert_eq!(top, vec!["r1".to_string(), "r2".to_string(), "r3".to_string()]);
    let mut all = t.list_deps(false);
    all.sort();
    assert_eq!(all, vec!["r1".to_string(), "r2".to_string(), "r3".to_string(), "top".to_string()]);
}

#[test]
fn collect_in_install_order() {
    let names: Vec<String> = tree().collect().into_iter().map(|m| m.name).collect();
    assert_eq!(names, vec!["b", "r2", "r1", "r3", "top"]);
}

#[test]
fn select_versions_single_entries() {
    let c = vec![pm("a", "1.0.0", Vec::new(), Vec::new()), pm("b", "2.0.0", Vec::new(), Vec::new())];
    let out = select_versions(&c, &Vec::new()).unwrap();
    assert_eq!(out, c);
}

#[test]
fn select_versions_newest_agreed() {
    // `x` wants `lib` below 2.0.0; three versions of `lib` were collected
    let x = pm("x", "1.0.0", Vec::new(), vec![spec("lib", VerReq::NoBound, VerReq::Lt(v(2, 0, 0)))]);
    let c = vec![
        pm("lib", "1.0.0", Vec::new(), Vec::new()),
        pm("lib", "2.0.0", Vec::new(), Vec::new()),
        x.clone(),
        pm("lib", "1.5.0", Vec::new(), Vec::new()),
    ];
    let out = select_versions(&c, &Vec::new()).unwrap();
    assert_eq!(out.len(), 2);
    assert_eq!(out[0].name, "lib");
    assert_eq!(out[0].version, "1.5.0");
    assert_eq!(out[1], x);
}

#[test]
fn select_versions_errors() {
    let wants_old = pm("x", "1.0.0", Vec::new(), vec![spec("lib", VerReq::NoBound, VerReq::Lt(v(1, 0, 0)))]);
    let wants_new = pm("y", "1.0.0", Vec::new(), vec![spec("lib", VerReq::Ge(v(2, 0, 0)), VerReq::NoBound)]);
    let c = vec![
        pm("lib", "1.0.0", Vec::new(), Vec::new()),
        pm("lib", "2.0.0", Vec::new(), Vec::new()),
        wants_old.clone(),
        wants_new,
    ];
    assert_eq!(select_versions(&c, &Vec::new()), Err(InstallError::CannotNegotiate("lib".to_string())));
    let c = vec![
        pm("lib", "1.0.0", Vec::new(), Vec::new()),
        pm("lib", "2.0.0", Vec::new(), Vec::new()),
        pm("z", "1.0.0", Vec::new(), vec![spec("lib", VerReq::Ge(v(3, 0, 0)), VerReq::NoBound)]),
    ];
    assert_eq!(select_versions(&c, &Vec::new()), Err(InstallError::NoAgreement("lib".to_string())));
    let c = vec![
        pm("lib", "bad", Vec::new(), Vec::new()),
        pm("lib", "2.0.0", Vec::new(), Vec::new()),
        wants_old,
    ];
    assert_eq!(
        select_versions(&c, &Vec::new()),
        Err(InstallError::BadVersion(ParseError::MajorNotNumber("bad".to_string())))
    );
}

#[test]
fn select_versions_volatile_present_is_no_constraint() {
    let x = pm("x", "1.0.0", Vec::new(), vec![DependKind::Volatile("lib".to_string())]);
    let c = vec![pm("lib", "1.0.0", Vec::new(), Vec::new()), pm("lib", "2.0.0", Vec::new(), Vec::new()), x];
    let out = select_versions(&c, &vec!["lib".to_string()]).unwrap();
    assert_eq!(out[0].version, "2.0.0");
}

#[test]
fn install_plan_of_tree() {
    let plan = tree().install_plan(&Vec::new()).unwrap();
    let names: Vec<String> = plan.into_iter().map(|m| m.name).collect();
    assert_eq!(names, vec!["b", "r2", "r1", "r3", "top"]);
}
