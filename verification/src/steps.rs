//! What installing or removing a package runs.
use vstd::prelude::*;
use crate::metadata::{
    InstalledInstallKind, InstalledInstallKindView, ProcessedInstallKind,
    ProcessedInstallKindView, ProcessedMetaData,
};
use crate::origin::{OriginKind, OriginKindView};
use crate::text::{append_str, replace_all, replace_exec};

verus! {

/// Why a package cannot be installed or removed yet: its source or its kind
/// is not supported.
#[derive(Debug, PartialEq, Eq, Structural, Clone, Copy)]
pub enum StepError {
    /// Packages from GitHub cannot be fetched yet.
    GithubUnsupported,
    /// Packages from APT cannot be fetched this way yet.
    AptUnsupported,
    /// Pre-built packages cannot be installed or removed yet.
    PreBuiltUnsupported,
}

/// What installing a compiled package runs: the file to fetch, and the
/// build and install scripts, with `{$~}` standing for the fetched file.
#[derive(Debug, PartialEq, Eq)]
pub struct InstallSteps {
    pub endpoint: String,
    pub build: String,
    pub install: String,
}

/// The placeholder for the fetched file in the scripts.
pub open spec fn placeholder() -> Seq<char> {
    seq!['{', '$', '~', '}']
}

impl ProcessedMetaData {
    /// The steps of installing this package, with its file fetched to
    /// `tmp`: from a plz server the file is `source?v=version`; GitHub and
    /// APT sources fail; then a compiled package's build and install
    /// scripts, with the placeholder `{$~}` replaced by `tmp`; a pre-built
    /// package fails.
    pub fn install_steps(&self, tmp: &str) -> (r: Result<InstallSteps, StepError>)
        ensures
            match self@.origin {
                OriginKindView::Github { .. } => r == Err::<InstallSteps, StepError>(
                    StepError::GithubUnsupported,
                ),
                OriginKindView::Apt { .. } => r == Err::<InstallSteps, StepError>(
                    StepError::AptUnsupported,
                ),
                OriginKindView::Plz { source } => match self@.install_kind {
                    ProcessedInstallKindView::PreBuilt(_) => r == Err::<InstallSteps, StepError>(
                        StepError::PreBuiltUnsupported,
                    ),
                    ProcessedInstallKindView::Compilable(c) => r matches Ok(s) && s.endpoint@
                        == source + seq!['?', 'v', '='] + self@.version && s.build@ == replace_all(
                        c.build,
                        placeholder(),
                        tmp@,
                    ) && s.install@ == replace_all(c.install, placeholder(), tmp@),
                },
            },
    {
        let endpoint = match &self.origin {
            OriginKind::Plz { source } => {
                let mut e = source.clone();
                crate::text::push_char(&mut e, '?');
                crate::text::push_char(&mut e, 'v');
                crate::text::push_char(&mut e, '=');
                append_str(&mut e, self.version.as_str());
                e
            },
            OriginKind::Github { .. } => return Err(StepError::GithubUnsupported),
            OriginKind::Apt { .. } => return Err(StepError::AptUnsupported),
        };
        match &self.install_kind {
            ProcessedInstallKind::PreBuilt(_) => Err(StepError::PreBuiltUnsupported),
            ProcessedInstallKind::Compilable(c) => {
                let mut p = String::new();
                crate::text::push_char(&mut p, '{');
                crate::text::push_char(&mut p, '$');
                crate::text::push_char(&mut p, '~');
                crate::text::push_char(&mut p, '}');
                assert(p@ =~= placeholder());
                let build = replace_exec(c.build.as_str(), p.as_str(), tmp);
                let install = replace_exec(c.install.as_str(), p.as_str(), tmp);
                Ok(InstallSteps { endpoint, build, install })
            },
        }
    }
}

impl InstalledInstallKind {
    /// The script that removes the package, and its name for messages: the
    /// purge script (`Purge`) when purging, else the uninstall script
    /// (`Removal`); pre-built packages fail.
    pub fn removal_script(&self, purge: bool) -> (r: Result<(String, &'static str), StepError>)
        ensures
            match self@ {
                InstalledInstallKindView::PreBuilt(_) => r == Err::<(String, &'static str), StepError>(
                    StepError::PreBuiltUnsupported,
                ),
                InstalledInstallKindView::Compilable(c) => r matches Ok((s, m)) && if purge {
                    s@ == c.purge && m == "Purge"
                } else {
                    s@ == c.uninstall && m == "Removal"
                },
            },
    {
        match self {
            InstalledInstallKind::PreBuilt(_) => Err(StepError::PreBuiltUnsupported),
            InstalledInstallKind::Compilable(c) => {
                if purge {
                    Ok((c.purge.clone(), "Purge"))
                } else {
                    Ok((c.uninstall.clone(), "Removal"))
                }
            },
        }
    }
}

} // verus!
