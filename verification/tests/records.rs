use plz::depend::{DepVer, DepVerVec, DependKind, DependKindVec, Specific, SpecificVec};
use plz::errors::ParseError;
use plz::metadata::{
    InstalledCompilable, InstalledInstallKind, InstalledMetaData, MetaDataKind, PreBuilt,
    ProcessedCompilable, ProcessedInstallKind, ProcessedMetaData,
};
use plz::origin::OriginKind;
use plz::queue::QueuedChanges;
use plz::range::Range;
use plz::records::{set_dependent, DependentsError, RecordError, RemovalStep, Unbound};
use plz::steps::{InstallSteps, StepError};
use plz::upgrade::{select_upgrades, upgrade_all, upgrade_only, UpgradePlan};
use plz::verreq::VerReq;
use plz::version::Version;

fn v(major: usize, minor: usize, patch: usize) -> Version {
    Version { major, minor, patch, pre: String::new(), build: None }
}

fn s(name: &str, ver: Version) -> Specific {
    Specific { name: name.to_string(), version: ver }
}

fn any(name: &str) -> DepVer {
    DepVer { name: name.to_string(), range: Range { lower: VerReq::NoBound, upper: VerReq::NoBound } }
}

fn installed(name: &str, version: &str, deps: Vec<DepVer>, dependents: Vec<Specific>) -> InstalledMetaData {
    InstalledMetaData {
        name: name.to_string(),
        kind: MetaDataKind::Dew,
        version: version.to_string(),
        origin: OriginKind::Plz { source: "s".to_string() },
        dependent: true,
        dependencies: DepVerVec(deps),
        dependents: SpecificVec(dependents),
        install_kind: InstalledInstallKind::Compilable(InstalledCompilable {
            uninstall: "rm".to_string(),
            purge: "rm -r".to_string(),
        }),
        hash: String::new(),
    }
}

fn offered(name: &str, version: &str, build: Vec<DependKind>, run: Vec<DependKind>) -> ProcessedMetaData {
    ProcessedMetaData {
        name: name.to_string(),
        kind: MetaDataKind::Dew,
        description: String::new(),
        version: version.to_string(),
        origin: OriginKind::Plz { source: "https://s".to_string() },
        dependent: false,
        build_dependencies: DependKindVec(build),
        runtime_dependencies: DependKindVec(run),
        install_kind: ProcessedInstallKind::Compilable(ProcessedCompilable {
            build: "cc {$~} -o out".to_string(),
            install: "cp out /bin; rm {$~}".to_string(),
            uninstall: "rm /bin/out".to_string(),
            purge: "rm -r /etc/out".to_string(),
        }),
        hash: "h".to_string(),
    }
}

#[test]
fn set_dependent_updates_or_adds() {
    let mut list = vec![s("a", v(1, 0, 0)), s("b", v(1, 0, 0))];
    set_dependent(&mut list, s("b", v(2, 0, 0)));
    assert_eq!(list, vec![s("a", v(1, 0, 0)), s("b", v(2, 0, 0))]);
    set_dependent(&mut list, s("c", v(1, 0, 0)));
    assert_eq!(list, vec![s("a", v(1, 0, 0)), s("b", v(2, 0, 0)), s("c", v(1, 0, 0))]);
}

#[test]
fn write_dependent_cases() {
    let me = s("lib", v(1, 0, 0));
    let data = installed("lib", "1.0.0", Vec::new(), vec![s("app", v(1, 0, 0))]);
    // an entry of that name takes the new version
    assert_eq!(
        me.write_dependent(&data, "app", "1.1.0", None),
        Ok(Some(SpecificVec(vec![s("app", v(1, 1, 0))])))
    );
    // a new dependent is added only when installed at that version
    assert_eq!(
        me.write_dependent(&data, "tool", "2.0.0", Some("2.0.0")),
        Ok(Some(SpecificVec(vec![s("app", v(1, 0, 0)), s("tool", v(2, 0, 0))])))
    );
    assert_eq!(
        me.write_dependent(&data, "tool", "2.0.0", Some("1.0.0")),
        Ok(Some(SpecificVec(vec![s("app", v(1, 0, 0))])))
    );
    // another installed version: nothing to write
    let other = installed("lib", "0.9.0", Vec::new(), Vec::new());
    assert_eq!(me.write_dependent(&other, "tool", "2.0.0", Some("2.0.0")), Ok(None));
    assert_eq!(
        me.write_dependent(&data, "tool", "x", Some("x")),
        Err(ParseError::MajorNotNumber("x".to_string()))
    );
}

#[test]
fn clear_dependencies_removes_first_match() {
    let data = installed("app", "1.0.0", vec![any("a"), any("b"), any("c")], Vec::new());
    let resolved = vec![Some(s("a", v(1, 0, 0))), None, Some(s("c", v(2, 0, 0)))];
    let cleared = data.clear_dependencies(&s("c", v(2, 0, 0)), &resolved).unwrap();
    assert_eq!(cleared.dependencies, DepVerVec(vec![any("a"), any("b")]));
    assert_eq!(
        data.clear_dependencies(&s("c", v(3, 0, 0)), &resolved),
        Err(RecordError::DependentNotFound {
            name: "app".to_string(),
            version: "1.0.0".to_string(),
            package: "c".to_string(),
        })
    );
}

fn records() -> Vec<InstalledMetaData> {
    vec![
        installed("lib", "1.0.0", Vec::new(), vec![s("app", v(1, 0, 0)), s("tool", v(2, 0, 0))]),
        installed("app", "1.0.0", vec![any("lib")], vec![s("top", v(3, 0, 0))]),
        installed("tool", "2.0.0", vec![any("lib")], Vec::new()),
        installed("top", "3.0.0", vec![any("app")], Vec::new()),
    ]
}

#[test]
fn dependents_are_collected_transitively() {
    let mut q = QueuedChanges::new();
    assert_eq!(s("lib", v(1, 0, 0)).get_dependents(&mut q, &records()), Ok(()));
    assert_eq!(q.primary, vec![s("app", v(1, 0, 0)), s("top", v(3, 0, 0)), s("tool", v(2, 0, 0))]);
    assert!(q.secondary.is_empty());
}

#[test]
fn dependents_errors() {
    let mut q = QueuedChanges::new();
    assert_eq!(
        s("ghost", v(1, 0, 0)).get_dependents(&mut q, &records()),
        Err(DependentsError::NotInstalled("ghost".to_string()))
    );
    assert_eq!(
        s("lib", v(9, 0, 0)).get_dependents(&mut q, &records()),
        Err(DependentsError::VersionNotFound { name: "lib".to_string(), version: "9.0.0".to_string() })
    );
    // a dependent recorded at another version than installed
    let mut recs = records();
    recs[3].version = "3.1.0".to_string();
    let mut q = QueuedChanges::new();
    assert_eq!(
        s("lib", v(1, 0, 0)).get_dependents(&mut q, &recs),
        Err(DependentsError::VersionNotFound { name: "top".to_string(), version: "3.0.0".to_string() })
    );
}

#[test]
fn queue_dependents_of_all() {
    let mut q = QueuedChanges { primary: vec![s("app", v(1, 0, 0))], secondary: vec![s("tool", v(2, 0, 0))] };
    assert_eq!(q.dependents(&records()), Ok(()));
    assert_eq!(q.primary, vec![s("app", v(1, 0, 0)), s("top", v(3, 0, 0))]);
}

#[test]
fn unbind_cases() {
    let d = installed("x", "1.0.0", Vec::new(), Vec::new());
    let mut free = d.clone();
    free.dependent = false;
    assert_eq!(d.unbind(Some("1.0.0")), Unbound::Write { record: free.clone(), warned: false });
    assert_eq!(d.unbind(Some("2.0.0")), Unbound::Write { record: d.clone(), warned: false });
    assert_eq!(free.unbind(Some("1.0.0")), Unbound::AlreadyIndependent);
    assert_eq!(d.unbind(None), Unbound::Write { record: free.clone(), warned: false });
    assert_eq!(free.unbind(None), Unbound::Write { record: free.clone(), warned: true });
}

#[test]
fn install_steps_substitute_the_file() {
    let m = offered("out", "1.2.0", Vec::new(), Vec::new());
    assert_eq!(
        m.install_steps("/tmp/f"),
        Ok(InstallSteps {
            endpoint: "https://s?v=1.2.0".to_string(),
            build: "cc /tmp/f -o out".to_string(),
            install: "cp out /bin; rm /tmp/f".to_string(),
        })
    );
    let mut g = m.clone();
    g.origin = OriginKind::Github { user: "u".to_string(), repo: "r".to_string() };
    assert_eq!(g.install_steps("/tmp/f"), Err(StepError::GithubUnsupported));
    let mut p = m.clone();
    p.install_kind = ProcessedInstallKind::PreBuilt(PreBuilt { critical: Vec::new(), configs: Vec::new() });
    assert_eq!(p.install_steps("/tmp/f"), Err(StepError::PreBuiltUnsupported));
}

#[test]
fn removal_scripts() {
    let d = installed("x", "1.0.0", Vec::new(), Vec::new());
    assert_eq!(d.install_kind.removal_script(true), Ok(("rm -r".to_string(), "Purge")));
    assert_eq!(d.install_kind.removal_script(false), Ok(("rm".to_string(), "Removal")));
}

#[test]
fn upgrade_plan_splits_dependencies() {
    let inst = installed("app", "1.0.0", vec![any("old"), any("keep"), any("lib")], Vec::new());
    let newer_lib = DependKind::Specific(DepVer {
        name: "lib".to_string(),
        range: Range { lower: VerReq::Ge(v(2, 0, 0)), upper: VerReq::NoBound },
    });
    let next = offered(
        "app",
        "2.0.0",
        vec![DependKind::Latest("cc".to_string())],
        vec![DependKind::Latest("keep".to_string()), newer_lib.clone(), DependKind::Latest("fresh".to_string())],
    );
    let plan = next.upgrade_plan(&inst, &Vec::new());
    assert_eq!(
        plan,
        UpgradePlan {
            children: vec![any("cc")],
            stale: vec![any("old")],
            new_deps: vec![DependKind::Latest("fresh".to_string())],
            in_place: vec![newer_lib],
        }
    );
}

#[test]
fn upgrades_selected_by_name_and_version() {
    let base = vec![
        offered("a", "1.0.0", Vec::new(), Vec::new()),
        offered("a", "2.0.0", Vec::new(), Vec::new()),
        offered("b", "1.0.0", Vec::new(), Vec::new()),
        offered("a", "1.0.0", Vec::new(), Vec::new()),
    ];
    let pkgs = vec![("a".to_string(), Some("1.0.0".to_string())), ("b".to_string(), None)];
    let out = select_upgrades(&base, &pkgs);
    assert_eq!(out, vec![base[0].clone(), base[2].clone()]);
    assert!(upgrade_all().is_empty());
    assert!(upgrade_only(&pkgs).is_empty());
}

#[test]
fn local_packages_of_a_removal() {
    let recs = records();
    let mut prior: Vec<String> = Vec::new();
    let q = plz::records::get_local_pkg(&"top".to_string(), Some(&"3.0.0".to_string()), &mut prior, true, &recs).unwrap();
    assert_eq!(q.primary, vec![s("top", v(3, 0, 0))]);
    assert_eq!(q.secondary, vec![s("lib", v(1, 0, 0)), s("app", v(1, 0, 0))]);
    assert_eq!(prior, vec!["app".to_string(), "lib".to_string()]);
    // a dependency only: not looked into without a version
    let mut prior: Vec<String> = Vec::new();
    let q = plz::records::get_local_pkg(&"top".to_string(), None, &mut prior, true, &recs).unwrap();
    assert!(q.primary.is_empty() && q.secondary.is_empty() && prior.is_empty());
    let mut prior: Vec<String> = Vec::new();
    assert_eq!(
        plz::records::get_local_pkg(&"nope".to_string(), None, &mut prior, true, &recs),
        Err(plz::records::LocalError::NotInstalled("nope".to_string()))
    );
}

#[test]
fn removal_plan_takes_dependents_along() {
    let args = vec![("top".to_string(), Some("3.0.0".to_string()))];
    let q = QueuedChanges::get_local_pkgs(&args, &records()).unwrap();
    assert_eq!(q.primary, vec![s("top", v(3, 0, 0)), s("app", v(1, 0, 0)), s("tool", v(2, 0, 0))]);
    assert_eq!(q.secondary, vec![s("lib", v(1, 0, 0)), s("app", v(1, 0, 0))]);
    let missing = vec![("ghost".to_string(), None)];
    assert_eq!(
        QueuedChanges::get_local_pkgs(&missing, &records()),
        Err(plz::records::RemovalError::Local(plz::records::LocalError::NotInstalled("ghost".to_string())))
    );
}

#[test]
fn removal_step_clears_each_resolved_dependency() {
    let data = installed("app", "1.0.0", vec![any("a"), any("b"), any("c")], Vec::new());
    let resolved = vec![Some(s("a", v(1, 0, 0))), None, Some(s("c", v(2, 0, 0)))];
    match InstalledMetaData::removal_step(Some(&data), &resolved, true) {
        RemovalStep::Remove { clears, script } => {
            assert_eq!(clears.len(), 2);
            assert_eq!(clears[0].1, s("a", v(1, 0, 0)));
            assert_eq!(clears[0].0.dependencies, DepVerVec(vec![any("b"), any("c")]));
            assert_eq!(clears[1].1, s("c", v(2, 0, 0)));
            assert_eq!(clears[1].0.dependencies, DepVerVec(vec![any("a"), any("b")]));
            assert_eq!(script, Ok(("rm -r".to_string(), "Purge")));
        }
        RemovalStep::Skip => panic!("expected a removal"),
    }
    assert!(matches!(InstalledMetaData::removal_step(None, &Vec::new(), false), RemovalStep::Skip));
}

#[test]
fn in_place_upgrade_installs_only_a_new_version() {
    let old = installed("lib", "1.0.0", Vec::new(), Vec::new());
    assert!(!offered("lib", "1.0.0", Vec::new(), Vec::new()).replaces(&old));
    assert!(offered("lib", "1.1.0", Vec::new(), Vec::new()).replaces(&old));
}
