//! Package metadata: what a source offers (`ProcessedMetaData`) and what is
//! recorded for an installed package (`InstalledMetaData`), with the text
//! encodings of their parts.
use vstd::prelude::*;
use crate::depend::{
    as_dep_ver_spec, depend_kind_views, DepVer, DepVerVec, DepVerView, DependKindVec,
    DependKindView, Specific, SpecificVec, SpecificView, depver_views, specific_views,
};
use crate::errors::{Field, ParseError, ParseErrorView};
use crate::origin::{OriginKind, OriginKindView};
use crate::text::{
    chars_of, fold_join, fold_join_exec, push_char, split_char, split_char_exec, split_once_char,
    split_once_char_exec, split_once_exec, split_once_pat, string_of, string_of_all,
    string_views,
};
use crate::verreq::low_byte;
use crate::version::{version_parse_spec, Version, VersionView};

verus! {

// ---------------------------------------------------------------------------
// MetaDataKind
// ---------------------------------------------------------------------------

/// Which kind of source a package's metadata came from.
#[derive(Debug, PartialEq, Eq, Structural, Hash, Clone, Copy)]
pub enum MetaDataKind {
    Dew,
    Apt,
}

/// The printed form: `\x00` for dew, `\x01` for APT.
pub open spec fn metadata_kind_text(k: MetaDataKind) -> Seq<char> {
    match k {
        MetaDataKind::Dew => seq!['\x00'],
        MetaDataKind::Apt => seq!['\x01'],
    }
}

/// How `MetaDataKind::parse` reads: the low byte of the first character.
pub open spec fn metadata_kind_parse_spec(s: Seq<char>) -> Result<MetaDataKind, ParseErrorView> {
    if s.len() == 0 {
        Err(ParseErrorView::MissingIdentifier)
    } else if low_byte(s[0]) == 0 {
        Ok(MetaDataKind::Dew)
    } else if low_byte(s[0]) == 1 {
        Ok(MetaDataKind::Apt)
    } else {
        Err(ParseErrorView::InvalidIdentifier(low_byte(s[0])))
    }
}

fn first_low_byte(v: &Vec<char>) -> (b: u8)
    requires
        v.len() > 0,
    ensures
        b == low_byte(v@[0]),
{
    ((v[0] as u32) % 256) as u8
}

impl MetaDataKind {
    /// Reads a kind (see [`metadata_kind_parse_spec`]).
    pub fn parse(input: &str) -> (r: Result<MetaDataKind, ParseError>)
        ensures
            match r {
                Ok(k) => metadata_kind_parse_spec(input@) == Ok::<MetaDataKind, ParseErrorView>(k),
                Err(e) => metadata_kind_parse_spec(input@) == Err::<MetaDataKind, ParseErrorView>(
                    e@,
                ),
            },
    {
        let chars = chars_of(input);
        if chars.len() == 0 {
            return Err(ParseError::MissingIdentifier);
        }
        let k = first_low_byte(&chars);
        if k == 0 {
            Ok(MetaDataKind::Dew)
        } else if k == 1 {
            Ok(MetaDataKind::Apt)
        } else {
            Err(ParseError::InvalidIdentifier(k))
        }
    }

    /// The printed form (see [`metadata_kind_text`]).
    pub fn to_string(&self) -> (s: String)
        ensures
            s@ == metadata_kind_text(*self),
    {
        let mut s = String::new();
        match self {
            MetaDataKind::Dew => push_char(&mut s, '\x00'),
            MetaDataKind::Apt => push_char(&mut s, '\x01'),
        }
        s
    }
}

// ---------------------------------------------------------------------------
// Install kinds
// ---------------------------------------------------------------------------

/// A package shipped ready-built: its critical files and its configs.
#[derive(Debug, PartialEq, Eq, Hash)]
pub struct PreBuilt {
    pub critical: Vec<String>,
    pub configs: Vec<String>,
}

pub struct PreBuiltView {
    pub critical: Seq<Seq<char>>,
    pub configs: Seq<Seq<char>>,
}

impl View for PreBuilt {
    type V = PreBuiltView;

    open spec fn view(&self) -> PreBuiltView {
        PreBuiltView { critical: string_views(self.critical@), configs: string_views(self.configs@) }
    }
}

fn clone_strings(v: &Vec<String>) -> (r: Vec<String>)
    ensures
        string_views(r@) == string_views(v@),
{
    let mut r: Vec<String> = Vec::new();
    let mut i: usize = 0;
    while i < v.len()
        invariant
            i <= v.len(),
            string_views(r@) =~= string_views(v@.subrange(0, i as int)),
        decreases v.len() - i,
    {
        let c = v[i].clone();
        let ghost before = r@;
        r.push(c);
        assert(string_views(r@) =~= string_views(before).push(c@));
        assert(v@.subrange(0, i + 1) =~= v@.subrange(0, i as int).push(v@[i as int]));
        i += 1;
    }
    assert(v@.subrange(0, v.len() as int) =~= v@);
    r
}

impl Clone for PreBuilt {
    fn clone(&self) -> (r: Self)
        ensures
            r@ == self@,
    {
        PreBuilt { critical: clone_strings(&self.critical), configs: clone_strings(&self.configs) }
    }
}

/// The printed form: the critical files joined by `\x00`, then `\x00\x00`,
/// then the configs joined by `\x00`.
pub open spec fn prebuilt_text(p: PreBuiltView) -> Seq<char> {
    fold_join(p.critical, seq!['\x00']) + seq!['\x00', '\x00'] + fold_join(p.configs, seq!['\x00'])
}

/// How `PreBuilt::parse` reads: split at the first `\x00\x00`; each side is
/// a `\x00`-separated list (an empty side is one empty item).
pub open spec fn prebuilt_parse_spec(s: Seq<char>) -> Result<PreBuiltView, ParseErrorView> {
    match split_once_pat(s, seq!['\x00', '\x00']) {
        None => Err(ParseErrorView::MissingField(Field::Configs)),
        Some((a, b)) => Ok(
            PreBuiltView { critical: split_char(a, '\x00'), configs: split_char(b, '\x00') },
        ),
    }
}

fn strings_of(parts: &Vec<Vec<char>>) -> (r: Vec<String>)
    ensures
        r@.len() == parts@.len(),
        forall|i: int| 0 <= i < r@.len() ==> #[trigger] r@[i]@ == parts@[i]@,
{
    let mut r: Vec<String> = Vec::new();
    let mut i: usize = 0;
    while i < parts.len()
        invariant
            i <= parts.len(),
            r@.len() == i,
            forall|j: int| 0 <= j < i ==> #[trigger] r@[j]@ == parts@[j]@,
        decreases parts.len() - i,
    {
        r.push(string_of_all(&parts[i]));
        i += 1;
    }
    r
}

impl PreBuilt {
    /// Reads a pre-built description (see [`prebuilt_parse_spec`]).
    pub fn parse(input: &str) -> (r: Result<PreBuilt, ParseError>)
        ensures
            match r {
                Ok(p) => prebuilt_parse_spec(input@) == Ok::<PreBuiltView, ParseErrorView>(p@),
                Err(e) => prebuilt_parse_spec(input@) == Err::<PreBuiltView, ParseErrorView>(e@),
            },
    {
        let chars = chars_of(input);
        let sep = vec!['\x00', '\x00'];
        assert(sep@ =~= seq!['\x00', '\x00']);
        let (a, b) = match split_once_exec(&chars, &sep) {
            None => return Err(ParseError::MissingField(Field::Configs)),
            Some(p) => p,
        };
        let critical = strings_of(&split_char_exec(&a, '\x00'));
        let configs = strings_of(&split_char_exec(&b, '\x00'));
        let r = PreBuilt { critical, configs };
        assert(r@.critical =~= split_char(a@, '\x00'));
        assert(r@.configs =~= split_char(b@, '\x00'));
        Ok(r)
    }

    /// The printed form (see [`prebuilt_text`]).
    pub fn to_string(&self) -> (s: String)
        ensures
            s@ == prebuilt_text(self@),
    {
        let sep = vec!['\x00'];
        assert(sep@ =~= seq!['\x00']);
        let mut s = fold_join_exec(&self.critical, &sep);
        push_char(&mut s, '\x00');
        push_char(&mut s, '\x00');
        let c = fold_join_exec(&self.configs, &sep);
        crate::text::append_str(&mut s, c.as_str());
        proof {
            assert(s@ =~= prebuilt_text(self@));
        }
        s
    }
}

/// The scripts that build, install and remove a compiled package.
#[derive(Debug, PartialEq, Eq, Hash)]
pub struct ProcessedCompilable {
    pub build: String,
    pub install: String,
    pub uninstall: String,
    pub purge: String,
}

pub struct ProcessedCompilableView {
    pub build: Seq<char>,
    pub install: Seq<char>,
    pub uninstall: Seq<char>,
    pub purge: Seq<char>,
}

impl View for ProcessedCompilable {
    type V = ProcessedCompilableView;

    open spec fn view(&self) -> ProcessedCompilableView {
        ProcessedCompilableView {
            build: self.build@,
            install: self.install@,
            uninstall: self.uninstall@,
            purge: self.purge@,
        }
    }
}

impl Clone for ProcessedCompilable {
    fn clone(&self) -> (r: Self)
        ensures
            r@ == self@,
    {
        ProcessedCompilable {
            build: self.build.clone(),
            install: self.install.clone(),
            uninstall: self.uninstall.clone(),
            purge: self.purge.clone(),
        }
    }
}

/// The printed form: the four scripts joined by `\x00`.
pub open spec fn processed_compilable_text(c: ProcessedCompilableView) -> Seq<char> {
    c.build + seq!['\x00'] + c.install + seq!['\x00'] + c.uninstall + seq!['\x00'] + c.purge
}

/// How `ProcessedCompilable::parse` reads: the first four `\x00`-separated
/// pieces are the scripts; pieces beyond the fourth are ignored.
pub open spec fn processed_compilable_parse_spec(s: Seq<char>) -> Result<
    ProcessedCompilableView,
    ParseErrorView,
> {
    let parts = split_char(s, '\x00');
    if parts.len() < 2 {
        Err(ParseErrorView::MissingField(Field::Install))
    } else if parts.len() < 3 {
        Err(ParseErrorView::MissingField(Field::Uninstall))
    } else if parts.len() < 4 {
        Err(ParseErrorView::MissingField(Field::Purge))
    } else {
        Ok(
            ProcessedCompilableView {
                build: parts[0],
                install: parts[1],
                uninstall: parts[2],
                purge: parts[3],
            },
        )
    }
}

impl ProcessedCompilable {
    /// Reads the scripts (see [`processed_compilable_parse_spec`]).
    pub fn parse(input: &str) -> (r: Result<ProcessedCompilable, ParseError>)
        ensures
            match r {
                Ok(p) => processed_compilable_parse_spec(input@) == Ok::<
                    ProcessedCompilableView,
                    ParseErrorView,
                >(p@),
                Err(e) => processed_compilable_parse_spec(input@) == Err::<
                    ProcessedCompilableView,
                    ParseErrorView,
                >(e@),
            },
    {
        let chars = chars_of(input);
        let parts = split_char_exec(&chars, '\x00');
        if parts.len() < 2 {
            return Err(ParseError::MissingField(Field::Install));
        }
        if parts.len() < 3 {
            return Err(ParseError::MissingField(Field::Uninstall));
        }
        if parts.len() < 4 {
            return Err(ParseError::MissingField(Field::Purge));
        }
        Ok(
            ProcessedCompilable {
                build: string_of_all(&parts[0]),
                install: string_of_all(&parts[1]),
                uninstall: string_of_all(&parts[2]),
                purge: string_of_all(&parts[3]),
            },
        )
    }

    /// The printed form (see [`processed_compilable_text`]).
    pub fn to_string(&self) -> (s: String)
        ensures
            s@ == processed_compilable_text(self@),
    {
        let mut s = self.build.clone();
        push_char(&mut s, '\x00');
        crate::text::append_str(&mut s, self.install.as_str());
        push_char(&mut s, '\x00');
        crate::text::append_str(&mut s, self.uninstall.as_str());
        push_char(&mut s, '\x00');
        crate::text::append_str(&mut s, self.purge.as_str());
        s
    }
}

/// How a package offered by a source is installed.
#[derive(Debug, PartialEq, Eq, Hash)]
pub enum ProcessedInstallKind {
    PreBuilt(PreBuilt),
    Compilable(ProcessedCompilable),
}

pub enum ProcessedInstallKindView {
    PreBuilt(PreBuiltView),
    Compilable(ProcessedCompilableView),
}

impl View for ProcessedInstallKind {
    type V = ProcessedInstallKindView;

    open spec fn view(&self) -> ProcessedInstallKindView {
        match self {
            ProcessedInstallKind::PreBuilt(p) => ProcessedInstallKindView::PreBuilt(p@),
            ProcessedInstallKind::Compilable(c) => ProcessedInstallKindView::Compilable(c@),
        }
    }
}

impl Clone for ProcessedInstallKind {
    fn clone(&self) -> (r: Self)
        ensures
            r@ == self@,
    {
        match self {
            ProcessedInstallKind::PreBuilt(p) => ProcessedInstallKind::PreBuilt(p.clone()),
            ProcessedInstallKind::Compilable(c) => ProcessedInstallKind::Compilable(c.clone()),
        }
    }
}

/// The printed form: `\x00` and the pre-built text, or `\x01` and the
/// scripts.
pub open spec fn processed_install_kind_text(k: ProcessedInstallKindView) -> Seq<char> {
    match k {
        ProcessedInstallKindView::PreBuilt(p) => seq!['\x00'] + prebuilt_text(p),
        ProcessedInstallKindView::Compilable(c) => seq!['\x01'] + processed_compilable_text(c),
    }
}

/// How `ProcessedInstallKind::parse` reads: the low byte of the first
/// character picks the kind, the rest is its description.
pub open spec fn processed_install_kind_parse_spec(s: Seq<char>) -> Result<
    ProcessedInstallKindView,
    ParseErrorView,
> {
    if s.len() == 0 {
        Err(ParseErrorView::MissingIdentifier)
    } else if low_byte(s[0]) == 0 {
        match prebuilt_parse_spec(s.drop_first()) {
            Ok(p) => Ok(ProcessedInstallKindView::PreBuilt(p)),
            Err(e) => Err(e),
        }
    } else if low_byte(s[0]) == 1 {
        match processed_compilable_parse_spec(s.drop_first()) {
            Ok(c) => Ok(ProcessedInstallKindView::Compilable(c)),
            Err(e) => Err(e),
        }
    } else {
        Err(ParseErrorView::InvalidIdentifier(low_byte(s[0])))
    }
}

impl ProcessedInstallKind {
    /// Reads an install kind (see [`processed_install_kind_parse_spec`]).
    pub fn parse(input: &str) -> (r: Result<ProcessedInstallKind, ParseError>)
        ensures
            match r {
                Ok(p) => processed_install_kind_parse_spec(input@) == Ok::<
                    ProcessedInstallKindView,
                    ParseErrorView,
                >(p@),
                Err(e) => processed_install_kind_parse_spec(input@) == Err::<
                    ProcessedInstallKindView,
                    ParseErrorView,
                >(e@),
            },
    {
        let chars = chars_of(input);
        if chars.len() == 0 {
            return Err(ParseError::MissingIdentifier);
        }
        let k = first_low_byte(&chars);
        let data = string_of(&chars, 1, chars.len());
        assert(data@ =~= input@.drop_first());
        if k == 0 {
            match PreBuilt::parse(data.as_str()) {
                Ok(p) => Ok(ProcessedInstallKind::PreBuilt(p)),
                Err(e) => Err(e),
            }
        } else if k == 1 {
            match ProcessedCompilable::parse(data.as_str()) {
                Ok(c) => Ok(ProcessedInstallKind::Compilable(c)),
                Err(e) => Err(e),
            }
        } else {
            Err(ParseError::InvalidIdentifier(k))
        }
    }

    /// The printed form (see [`processed_install_kind_text`]).
    pub fn to_string(&self) -> (s: String)
        ensures
            s@ == processed_install_kind_text(self@),
    {
        let mut s = String::new();
        match self {
            ProcessedInstallKind::PreBuilt(p) => {
                push_char(&mut s, '\x00');
                let t = p.to_string();
                crate::text::append_str(&mut s, t.as_str());
            },
            ProcessedInstallKind::Compilable(c) => {
                push_char(&mut s, '\x01');
                let t = c.to_string();
                crate::text::append_str(&mut s, t.as_str());
            },
        }
        s
    }
}

/// The removal scripts kept for an installed compiled package.
#[derive(Debug, PartialEq, Eq, Hash)]
pub struct InstalledCompilable {
    pub uninstall: String,
    pub purge: String,
}

pub struct InstalledCompilableView {
    pub uninstall: Seq<char>,
    pub purge: Seq<char>,
}

impl View for InstalledCompilable {
    type V = InstalledCompilableView;

    open spec fn view(&self) -> InstalledCompilableView {
        InstalledCompilableView { uninstall: self.uninstall@, purge: self.purge@ }
    }
}

impl Clone for InstalledCompilable {
    fn clone(&self) -> (r: Self)
        ensures
            r@ == self@,
    {
        InstalledCompilable { uninstall: self.uninstall.clone(), purge: self.purge.clone() }
    }
}

/// The printed form: the two scripts joined by `\x00`.
pub open spec fn installed_compilable_text(c: InstalledCompilableView) -> Seq<char> {
    c.uninstall + seq!['\x00'] + c.purge
}

/// How `InstalledCompilable::parse` reads: split at the first `\x00`.
pub open spec fn installed_compilable_parse_spec(s: Seq<char>) -> Result<
    InstalledCompilableView,
    ParseErrorView,
> {
    match split_once_char(s, '\x00') {
        None => Err(ParseErrorView::MissingField(Field::Purge)),
        Some((u, p)) => Ok(InstalledCompilableView { uninstall: u, purge: p }),
    }
}

impl InstalledCompilable {
    /// Reads the scripts (see [`installed_compilable_parse_spec`]).
    pub fn parse(input: &str) -> (r: Result<InstalledCompilable, ParseError>)
        ensures
            match r {
                Ok(p) => installed_compilable_parse_spec(input@) == Ok::<
                    InstalledCompilableView,
                    ParseErrorView,
                >(p@),
                Err(e) => installed_compilable_parse_spec(input@) == Err::<
                    InstalledCompilableView,
                    ParseErrorView,
                >(e@),
            },
    {
        let chars = chars_of(input);
        match split_once_char_exec(&chars, '\x00') {
            None => Err(ParseError::MissingField(Field::Purge)),
            Some((u, p)) => Ok(
                InstalledCompilable { uninstall: string_of_all(&u), purge: string_of_all(&p) },
            ),
        }
    }

    /// The printed form (see [`installed_compilable_text`]).
    pub fn to_string(&self) -> (s: String)
        ensures
            s@ == installed_compilable_text(self@),
    {
        let mut s = self.uninstall.clone();
        push_char(&mut s, '\x00');
        crate::text::append_str(&mut s, self.purge.as_str());
        s
    }
}

/// How an installed package is removed.
#[derive(Debug, PartialEq, Eq, Hash)]
pub enum InstalledInstallKind {
    PreBuilt(PreBuilt),
    Compilable(InstalledCompilable),
}

pub enum InstalledInstallKindView {
    PreBuilt(PreBuiltView),
    Compilable(InstalledCompilableView),
}

impl View for InstalledInstallKind {
    type V = InstalledInstallKindView;

    open spec fn view(&self) -> InstalledInstallKindView {
        match self {
            InstalledInstallKind::PreBuilt(p) => InstalledInstallKindView::PreBuilt(p@),
            InstalledInstallKind::Compilable(c) => InstalledInstallKindView::Compilable(c@),
        }
    }
}

impl Clone for InstalledInstallKind {
    fn clone(&self) -> (r: Self)
        ensures
            r@ == self@,
    {
        match self {
            InstalledInstallKind::PreBuilt(p) => InstalledInstallKind::PreBuilt(p.clone()),
            InstalledInstallKind::Compilable(c) => InstalledInstallKind::Compilable(c.clone()),
        }
    }
}

/// The printed form: `\x00` and the pre-built text, or `\x01` and the
/// removal scripts.
pub open spec fn installed_install_kind_text(k: InstalledInstallKindView) -> Seq<char> {
    match k {
        InstalledInstallKindView::PreBuilt(p) => seq!['\x00'] + prebuilt_text(p),
        InstalledInstallKindView::Compilable(c) => seq!['\x01'] + installed_compilable_text(c),
    }
}

/// How `InstalledInstallKind::parse` reads: like the offered kind.
pub open spec fn installed_install_kind_parse_spec(s: Seq<char>) -> Result<
    InstalledInstallKindView,
    ParseErrorView,
> {
    if s.len() == 0 {
        Err(ParseErrorView::MissingIdentifier)
    } else if low_byte(s[0]) == 0 {
        match prebuilt_parse_spec(s.drop_first()) {
            Ok(p) => Ok(InstalledInstallKindView::PreBuilt(p)),
            Err(e) => Err(e),
        }
    } else if low_byte(s[0]) == 1 {
        match installed_compilable_parse_spec(s.drop_first()) {
            Ok(c) => Ok(InstalledInstallKindView::Compilable(c)),
            Err(e) => Err(e),
        }
    } else {
        Err(ParseErrorView::InvalidIdentifier(low_byte(s[0])))
    }
}

impl InstalledInstallKind {
    /// Reads an installed kind (see [`installed_install_kind_parse_spec`]).
    pub fn parse(input: &str) -> (r: Result<InstalledInstallKind, ParseError>)
        ensures
            match r {
                Ok(p) => installed_install_kind_parse_spec(input@) == Ok::<
                    InstalledInstallKindView,
                    ParseErrorView,
                >(p@),
                Err(e) => installed_install_kind_parse_spec(input@) == Err::<
                    InstalledInstallKindView,
                    ParseErrorView,
                >(e@),
            },
    {
        let chars = chars_of(input);
        if chars.len() == 0 {
            return Err(ParseError::MissingIdentifier);
        }
        let k = first_low_byte(&chars);
        let data = string_of(&chars, 1, chars.len());
        assert(data@ =~= input@.drop_first());
        if k == 0 {
            match PreBuilt::parse(data.as_str()) {
                Ok(p) => Ok(InstalledInstallKind::PreBuilt(p)),
                Err(e) => Err(e),
            }
        } else if k == 1 {
            match InstalledCompilable::parse(data.as_str()) {
                Ok(c) => Ok(InstalledInstallKind::Compilable(c)),
                Err(e) => Err(e),
            }
        } else {
            Err(ParseError::InvalidIdentifier(k))
        }
    }

    /// The printed form (see [`installed_install_kind_text`]).
    pub fn to_string(&self) -> (s: String)
        ensures
            s@ == installed_install_kind_text(self@),
    {
        let mut s = String::new();
        match self {
            InstalledInstallKind::PreBuilt(p) => {
                push_char(&mut s, '\x00');
                let t = p.to_string();
                crate::text::append_str(&mut s, t.as_str());
            },
            InstalledInstallKind::Compilable(c) => {
                push_char(&mut s, '\x01');
                let t = c.to_string();
                crate::text::append_str(&mut s, t.as_str());
            },
        }
        s
    }
}

// ---------------------------------------------------------------------------
// Metadata records
// ---------------------------------------------------------------------------

/// A package as a source offers it.
#[derive(Debug, PartialEq, Eq, Hash)]
pub struct ProcessedMetaData {
    pub name: String,
    pub kind: MetaDataKind,
    pub description: String,
    pub version: String,
    pub origin: OriginKind,
    pub dependent: bool,
    pub build_dependencies: DependKindVec,
    pub runtime_dependencies: DependKindVec,
    pub install_kind: ProcessedInstallKind,
    pub hash: String,
}

pub struct ProcessedMetaDataView {
    pub name: Seq<char>,
    pub kind: MetaDataKind,
    pub description: Seq<char>,
    pub version: Seq<char>,
    pub origin: OriginKindView,
    pub dependent: bool,
    pub build_dependencies: Seq<DependKindView>,
    pub runtime_dependencies: Seq<DependKindView>,
    pub install_kind: ProcessedInstallKindView,
    pub hash: Seq<char>,
}

impl View for ProcessedMetaData {
    type V = ProcessedMetaDataView;

    open spec fn view(&self) -> ProcessedMetaDataView {
        ProcessedMetaDataView {
            name: self.name@,
            kind: self.kind,
            description: self.description@,
            version: self.version@,
            origin: self.origin@,
            dependent: self.dependent,
            build_dependencies: self.build_dependencies@,
            runtime_dependencies: self.runtime_dependencies@,
            install_kind: self.install_kind@,
            hash: self.hash@,
        }
    }
}

fn clone_kinds(v: &DependKindVec) -> (r: DependKindVec)
    ensures
        r@ == v@,
{
    let mut out: Vec<crate::depend::DependKind> = Vec::new();
    let mut i: usize = 0;
    while i < v.0.len()
        invariant
            i <= v.0.len(),
            depend_kind_views(out@) =~= v@.subrange(0, i as int),
        decreases v.0.len() - i,
    {
        let c = v.0[i].clone();
        let ghost before = out@;
        out.push(c);
        assert(depend_kind_views(out@) =~= depend_kind_views(before).push(c@));
        assert(v@.subrange(0, i + 1) =~= v@.subrange(0, i as int).push(v@[i as int]));
        i += 1;
    }
    assert(v@.subrange(0, v.0.len() as int) =~= v@);
    DependKindVec(out)
}

impl Clone for ProcessedMetaData {
    fn clone(&self) -> (r: Self)
        ensures
            r@ == self@,
    {
        ProcessedMetaData {
            name: self.name.clone(),
            kind: self.kind,
            description: self.description.clone(),
            version: self.version.clone(),
            origin: self.origin.clone(),
            dependent: self.dependent,
            build_dependencies: clone_kinds(&self.build_dependencies),
            runtime_dependencies: clone_kinds(&self.runtime_dependencies),
            install_kind: self.install_kind.clone(),
            hash: self.hash.clone(),
        }
    }
}

/// What is recorded for an installed package.
#[derive(Debug, PartialEq)]
pub struct InstalledMetaData {
    pub name: String,
    pub kind: MetaDataKind,
    pub version: String,
    pub origin: OriginKind,
    pub dependent: bool,
    pub dependencies: DepVerVec,
    pub dependents: SpecificVec,
    pub install_kind: InstalledInstallKind,
    pub hash: String,
}

pub struct InstalledMetaDataView {
    pub name: Seq<char>,
    pub kind: MetaDataKind,
    pub version: Seq<char>,
    pub origin: OriginKindView,
    pub dependent: bool,
    pub dependencies: Seq<DepVerView>,
    pub dependents: Seq<SpecificView>,
    pub install_kind: InstalledInstallKindView,
    pub hash: Seq<char>,
}

impl View for InstalledMetaData {
    type V = InstalledMetaDataView;

    open spec fn view(&self) -> InstalledMetaDataView {
        InstalledMetaDataView {
            name: self.name@,
            kind: self.kind,
            version: self.version@,
            origin: self.origin@,
            dependent: self.dependent,
            dependencies: self.dependencies@,
            dependents: self.dependents@,
            install_kind: self.install_kind@,
            hash: self.hash@,
        }
    }
}

fn clone_dep_vers(v: &Vec<DepVer>) -> (r: Vec<DepVer>)
    ensures
        depver_views(r@) == depver_views(v@),
{
    let mut out: Vec<DepVer> = Vec::new();
    let mut i: usize = 0;
    while i < v.len()
        invariant
            i <= v.len(),
            depver_views(out@) =~= depver_views(v@).subrange(0, i as int),
        decreases v.len() - i,
    {
        let ghost before = depver_views(out@);
        out.push(v[i].clone());
        assert(depver_views(out@) =~= before.push(v@[i as int]@));
        i += 1;
    }
    out
}

impl Clone for InstalledMetaData {
    fn clone(&self) -> (r: Self)
        ensures
            r@ == self@,
    {
        InstalledMetaData {
            name: self.name.clone(),
            kind: self.kind,
            version: self.version.clone(),
            origin: self.origin.clone(),
            dependent: self.dependent,
            dependencies: DepVerVec(clone_dep_vers(&self.dependencies.0)),
            dependents: SpecificVec(crate::records::clone_specifics(&self.dependents.0)),
            install_kind: self.install_kind.clone(),
            hash: self.hash.clone(),
        }
    }
}

/// The runtime dependencies that need a package, as packages with ranges
/// (see [`as_dep_ver_spec`]), in order.
pub open spec fn needed_dep_vers(deps: Seq<DependKindView>, present: Seq<Seq<char>>) -> Seq<
    DepVerView,
>
    decreases deps.len(),
{
    if deps.len() == 0 {
        Seq::empty()
    } else {
        let init = needed_dep_vers(deps.drop_last(), present);
        match as_dep_ver_spec(deps.last(), present) {
            Some(d) => init.push(d),
            None => init,
        }
    }
}

/// The installed kind kept for an offered kind: pre-built stays as it is,
/// compiled keeps its removal scripts.
pub open spec fn installed_kind_of(k: ProcessedInstallKindView) -> InstalledInstallKindView {
    match k {
        ProcessedInstallKindView::PreBuilt(p) => InstalledInstallKindView::PreBuilt(p),
        ProcessedInstallKindView::Compilable(c) => InstalledInstallKindView::Compilable(
            InstalledCompilableView { uninstall: c.uninstall, purge: c.purge },
        ),
    }
}

/// The record made when an offered package is installed: its fields carried
/// over, its runtime dependencies as packages with ranges, no dependents yet.
pub open spec fn to_installed_spec(m: ProcessedMetaDataView, present: Seq<Seq<char>>) -> InstalledMetaDataView {
    InstalledMetaDataView {
        name: m.name,
        kind: m.kind,
        version: m.version,
        origin: m.origin,
        dependent: m.dependent,
        dependencies: needed_dep_vers(m.runtime_dependencies, present),
        dependents: Seq::empty(),
        install_kind: installed_kind_of(m.install_kind),
        hash: m.hash,
    }
}

/// Why an installed dependency could not be resolved.
#[derive(Debug, PartialEq, Eq)]
pub enum LookupError {
    /// No installed package of that name.
    NotInstalled(String),
    /// The recorded version does not parse.
    BadVersion(ParseError),
}

impl ProcessedMetaData {
    /// The record for installing this package (see [`to_installed_spec`]);
    /// `present` lists the volatile names that `which` finds on the system.
    pub fn to_installed(&self, present: &Vec<String>) -> (r: InstalledMetaData)
        ensures
            r@ == to_installed_spec(self@, string_views(present@)),
    {
        let deps = &self.runtime_dependencies.0;
        let mut result: Vec<DepVer> = Vec::new();
        let mut i: usize = 0;
        while i < deps.len()
            invariant
                i <= deps.len(),
                depver_views(result@) == needed_dep_vers(
                    depend_kind_views(deps@).subrange(0, i as int),
                    string_views(present@),
                ),
            decreases deps.len() - i,
        {
            let ghost before = depver_views(result@);
            proof {
                let pre = depend_kind_views(deps@).subrange(0, i + 1);
                assert(pre.drop_last() =~= depend_kind_views(deps@).subrange(0, i as int));
            }
            match deps[i].as_dep_ver(present) {
                Some(d) => {
                    result.push(d);
                    assert(depver_views(result@) =~= before.push(d@));
                },
                None => {},
            }
            i += 1;
        }
        assert(depend_kind_views(deps@).subrange(0, deps.len() as int) =~= depend_kind_views(
            deps@,
        ));
        let dependents = SpecificVec(Vec::new());
        assert(dependents@ =~= Seq::<SpecificView>::empty());
        InstalledMetaData {
            name: self.name.clone(),
            kind: self.kind,
            version: self.version.clone(),
            origin: self.origin.clone(),
            dependent: self.dependent,
            dependencies: DepVerVec(result),
            dependents,
            install_kind: match &self.install_kind {
                ProcessedInstallKind::PreBuilt(p) => InstalledInstallKind::PreBuilt(p.clone()),
                ProcessedInstallKind::Compilable(c) => InstalledInstallKind::Compilable(
                    InstalledCompilable { uninstall: c.uninstall.clone(), purge: c.purge.clone() },
                ),
            },
            hash: self.hash.clone(),
        }
    }

    /// The package at its offered version; fails when the version text does
    /// not parse.
    pub fn as_specific(&self) -> (r: Result<Specific, ParseError>)
        ensures
            match r {
                Ok(s) => version_parse_spec(self@.version) == Ok::<VersionView, ParseErrorView>(
                    s@.version,
                ) && s@.name == self@.name,
                Err(e) => version_parse_spec(self@.version) == Err::<VersionView, ParseErrorView>(
                    e@,
                ),
            },
    {
        match Version::parse(self.version.as_str()) {
            Ok(v) => Ok(Specific { name: self.name.clone(), version: v }),
            Err(e) => Err(e),
        }
    }
}

impl DepVer {
    /// The installed package a dependency resolves to, given the installed
    /// record found under its name (if any).
    pub fn get_installed_specific(&self, installed: Option<&InstalledMetaData>) -> (r: Result<
        Specific,
        LookupError,
    >)
        ensures
            match installed {
                None => r matches Err(LookupError::NotInstalled(n)) && n@ == self@.name,
                Some(m) => match version_parse_spec(m@.version) {
                    Ok(v) => r matches Ok(s) && s@ == (SpecificView { name: m@.name, version: v }),
                    Err(e) => r matches Err(LookupError::BadVersion(pe)) && pe@ == e,
                },
            },
    {
        match installed {
            None => Err(LookupError::NotInstalled(self.name.clone())),
            Some(m) => match Version::parse(m.version.as_str()) {
                Ok(v) => Ok(Specific { name: m.name.clone(), version: v }),
                Err(e) => Err(LookupError::BadVersion(e)),
            },
        }
    }
}

// ---------------------------------------------------------------------------
// Equality
// ---------------------------------------------------------------------------

fn strings_eq(a: &Vec<String>, b: &Vec<String>) -> (r: bool)
    ensures
        r == (string_views(a@) == string_views(b@)),
{
    if a.len() != b.len() {
        assert(string_views(a@).len() != string_views(b@).len());
        return false;
    }
    let mut i: usize = 0;
    while i < a.len()
        invariant
            i <= a.len(),
            a.len() == b.len(),
            forall|j: int| 0 <= j < i ==> a@[j]@ == b@[j]@,
        decreases a.len() - i,
    {
        if a[i] != b[i] {
            assert(string_views(a@)[i as int] != string_views(b@)[i as int]);
            return false;
        }
        i += 1;
    }
    assert(string_views(a@) =~= string_views(b@));
    true
}

fn kinds_eq(a: &DependKindVec, b: &DependKindVec) -> (r: bool)
    ensures
        r == (a@ == b@),
{
    if a.0.len() != b.0.len() {
        assert(a@.len() != b@.len());
        return false;
    }
    let mut i: usize = 0;
    while i < a.0.len()
        invariant
            i <= a.0.len(),
            a.0.len() == b.0.len(),
            forall|j: int| 0 <= j < i ==> a.0@[j]@ == b.0@[j]@,
        decreases a.0.len() - i,
    {
        if !a.0[i].same(&b.0[i]) {
            assert(a@[i as int] != b@[i as int]);
            return false;
        }
        i += 1;
    }
    assert(a@ =~= b@);
    true
}

impl ProcessedInstallKind {
    /// Whether two install kinds are equal.
    pub fn same(&self, other: &ProcessedInstallKind) -> (r: bool)
        ensures
            r == (self@ == other@),
    {
        match (self, other) {
            (ProcessedInstallKind::PreBuilt(a), ProcessedInstallKind::PreBuilt(b)) => strings_eq(
                &a.critical,
                &b.critical,
            ) && strings_eq(&a.configs, &b.configs),
            (ProcessedInstallKind::Compilable(a), ProcessedInstallKind::Compilable(b)) => a.build
                == b.build && a.install == b.install && a.uninstall == b.uninstall && a.purge
                == b.purge,
            _ => false,
        }
    }
}

impl ProcessedMetaData {
    /// Whether two offered packages are equal in every field.
    pub fn same(&self, other: &ProcessedMetaData) -> (r: bool)
        ensures
            r == (self@ == other@),
    {
        self.name == other.name && self.kind == other.kind && self.description == other.description
            && self.version == other.version && self.origin.same(&other.origin) && self.dependent
            == other.dependent && kinds_eq(&self.build_dependencies, &other.build_dependencies)
            && kinds_eq(&self.runtime_dependencies, &other.runtime_dependencies)
            && self.install_kind.same(&other.install_kind) && self.hash == other.hash
    }
}

// ---------------------------------------------------------------------------
// Reading back what was stored
// ---------------------------------------------------------------------------

/// A metadata kind reads back as written.
pub proof fn lemma_metadata_kind_roundtrip(k: MetaDataKind)
    ensures
        metadata_kind_parse_spec(metadata_kind_text(k)) == Ok::<MetaDataKind, ParseErrorView>(k),
{
    assert(low_byte('\x00') == 0);
    assert(low_byte('\x01') == 1);
}

/// The scripts of a compiled package read back as written, when none holds
/// a `\x00`.
pub proof fn lemma_processed_compilable_roundtrip(c: ProcessedCompilableView)
    requires
        !c.build.contains('\x00'),
        !c.install.contains('\x00'),
        !c.uninstall.contains('\x00'),
        !c.purge.contains('\x00'),
    ensures
        processed_compilable_parse_spec(processed_compilable_text(c)) == Ok::<
            ProcessedCompilableView,
            ParseErrorView,
        >(c),
{
    let z = '\x00';
    let t = processed_compilable_text(c);
    let r3 = c.uninstall + seq![z] + c.purge;
    let r2 = c.install + seq![z] + r3;
    assert(t =~= c.build + seq![z] + r2);
    crate::text::lemma_split_char_concat_text(c.build, z, r2);
    crate::text::lemma_split_char_concat_text(c.install, z, r3);
    crate::text::lemma_split_char_concat_text(c.uninstall, z, c.purge);
    crate::version::lemma_split_char_single(c.purge, z);
    assert(split_char(t, z) =~= seq![c.build, c.install, c.uninstall, c.purge]);
}

/// The removal scripts of an installed package read back as written, when
/// the uninstall script holds no `\x00`.
pub proof fn lemma_installed_compilable_roundtrip(c: InstalledCompilableView)
    requires
        !c.uninstall.contains('\x00'),
    ensures
        installed_compilable_parse_spec(installed_compilable_text(c)) == Ok::<
            InstalledCompilableView,
            ParseErrorView,
        >(c),
{
    crate::version::lemma_split_once_char_concat(c.uninstall, '\x00', c.purge);
}

/// A compiled install kind reads back as written (see
/// [`lemma_processed_compilable_roundtrip`]).
pub proof fn lemma_processed_kind_roundtrip(c: ProcessedCompilableView)
    requires
        !c.build.contains('\x00'),
        !c.install.contains('\x00'),
        !c.uninstall.contains('\x00'),
        !c.purge.contains('\x00'),
    ensures
        processed_install_kind_parse_spec(
            processed_install_kind_text(ProcessedInstallKindView::Compilable(c)),
        ) == Ok::<ProcessedInstallKindView, ParseErrorView>(ProcessedInstallKindView::Compilable(c)),
{
    let t = processed_install_kind_text(ProcessedInstallKindView::Compilable(c));
    assert(t.drop_first() =~= processed_compilable_text(c));
    assert(low_byte('\x01') == 1);
    lemma_processed_compilable_roundtrip(c);
}

/// A compiled installed kind reads back as written (see
/// [`lemma_installed_compilable_roundtrip`]).
pub proof fn lemma_installed_kind_roundtrip(c: InstalledCompilableView)
    requires
        !c.uninstall.contains('\x00'),
    ensures
        installed_install_kind_parse_spec(
            installed_install_kind_text(InstalledInstallKindView::Compilable(c)),
        ) == Ok::<InstalledInstallKindView, ParseErrorView>(InstalledInstallKindView::Compilable(c)),
{
    let t = installed_install_kind_text(InstalledInstallKindView::Compilable(c));
    assert(t.drop_first() =~= installed_compilable_text(c));
    assert(low_byte('\x01') == 1);
    lemma_installed_compilable_roundtrip(c);
}

/// A list of non-empty parts without `c`, joined by `c`: it is not empty,
/// does not end in `c`, and never holds `c` twice in a row.
pub proof fn lemma_fold_join_no_double(parts: Seq<Seq<char>>, c: char)
    requires
        parts.len() >= 1,
        forall|i: int| 0 <= i < parts.len() ==> (#[trigger] parts[i]).len() > 0 && !parts[i].contains(c),
    ensures
        fold_join(parts, seq![c]).len() > 0,
        fold_join(parts, seq![c]).last() != c,
        forall|i: int|
            0 <= i < fold_join(parts, seq![c]).len() - 1 ==> !(#[trigger] fold_join(parts, seq![c])[i]
                == c && fold_join(parts, seq![c])[i + 1] == c),
    decreases parts.len(),
{
    let j = fold_join(parts, seq![c]);
    let last = parts.last();
    assert(parts[parts.len() - 1] == last);
    assert(last.len() > 0);
    assert(!last.contains(c));
    assert(last.last() != c) by {
        assert(last[last.len() - 1] == last.last());
    }
    if parts.len() == 1 {
        assert(parts.drop_last().len() == 0);
        assert(fold_join(parts.drop_last(), seq![c]).len() == 0);
        assert(j == last);
        assert forall|i: int| 0 <= i < j.len() - 1 implies !(#[trigger] j[i] == c && j[i + 1] == c) by {
            assert(j[i] == last[i]);
        }
    } else {
        let init = parts.drop_last();
        assert forall|i: int| 0 <= i < init.len() implies (#[trigger] init[i]).len() > 0 && !init[i].contains(c) by {
            assert(init[i] == parts[i]);
        }
        lemma_fold_join_no_double(init, c);
        let acc = fold_join(init, seq![c]);
        assert(j == acc + seq![c] + last);
        assert(j.last() == last.last());
        assert forall|i: int| 0 <= i < j.len() - 1 implies !(#[trigger] j[i] == c && j[i + 1] == c) by {
            if i < acc.len() - 1 {
                assert(j[i] == acc[i] && j[i + 1] == acc[i + 1]);
            } else if i == acc.len() - 1 {
                assert(j[i] == acc.last());
            } else if i == acc.len() {
                assert(j[i + 1] == last[0]);
            } else {
                assert(j[i] == last[i - acc.len() - 1]);
            }
        }
    }
}

/// The files of a pre-built package read back as written, when both lists
/// have an entry and every entry is non-empty and holds no `\x00`.
pub proof fn lemma_prebuilt_roundtrip(p: PreBuiltView)
    requires
        p.critical.len() >= 1,
        p.configs.len() >= 1,
        forall|i: int|
            0 <= i < p.critical.len() ==> (#[trigger] p.critical[i]).len() > 0
                && !p.critical[i].contains('\x00'),
        forall|i: int|
            0 <= i < p.configs.len() ==> (#[trigger] p.configs[i]).len() > 0
                && !p.configs[i].contains('\x00'),
    ensures
        prebuilt_parse_spec(prebuilt_text(p)) == Ok::<PreBuiltView, ParseErrorView>(p),
{
    let z = '\x00';
    let pp = seq![z, z];
    let j = fold_join(p.critical, seq![z]);
    let k = fold_join(p.configs, seq![z]);
    lemma_fold_join_no_double(p.critical, z);
    crate::text::lemma_split_fold_join(p.critical, z);
    crate::text::lemma_split_fold_join(p.configs, z);
    let t = prebuilt_text(p);
    assert(t == j + pp + k);
    assert(t.subrange(j.len() as int, j.len() as int + 2) =~= pp);
    assert forall|i: int| 0 <= i < j.len() implies !crate::text::matches_at(t, pp, i) by {
        assert(t.subrange(i, i + 2)[0] == t[i]);
        assert(t.subrange(i, i + 2)[1] == t[i + 1]);
        if i < j.len() - 1 {
            assert(t[i] == j[i] && t[i + 1] == j[i + 1]);
        } else {
            assert(t[i] == j.last());
        }
    }
    crate::text::lemma_find_pat_at(t, pp, j.len() as int);
    assert(t.subrange(0, j.len() as int) =~= j);
    assert(t.subrange(j.len() as int + 2, t.len() as int) =~= k);
}

} // verus!
