//! APT packages: architectures, the relation fields of a Debian control
//! file, and the metadata an APT binary package gives.
use vstd::prelude::*;
use debian_control::lossless::Control;
use crate::depend::{
    collapse_spec, depend_kind_views, unbounded, DepVer, DepVerView, DependKind, DependKindVec,
    DependKindView,
};
use crate::metadata::{
    MetaDataKind, PreBuilt, PreBuiltView, ProcessedInstallKind, ProcessedInstallKindView,
    ProcessedMetaData, ProcessedMetaDataView,
};
use crate::origin::{OriginKind, OriginKindView};
use crate::queue::add_all;
use crate::range::Range;
use crate::settings::{compatible, trim, trim_exec, Arch};
use crate::text::{
    chars_of, prepend, seq_views, split_char, split_char_exec, split_once_char,
    split_once_char_exec, split_once_exec, split_once_pat, string_of, string_of_all,
};
use crate::verreq::{negotiate_spec, opt_range_view, VerReq, VerReqView};
use crate::version::{version_parse_spec, Version, VersionView};

verus! {

/// A package entry of an APT index.
#[derive(Debug)]
pub struct RawApt {
    pub package: String,
    pub version: String,
    pub installed_size: String,
    pub depends: String,
    pub filename: String,
    pub size: String,
    pub sha512: String,
    pub description: String,
}

/// The architecture an APT name gives: `all` and `any` run anywhere,
/// `amd64` is x86-64, `arm64` is AArch64; any other is not recognised.
pub open spec fn arch_of(s: Seq<char>) -> Arch {
    if s == seq!['a', 'l', 'l'] || s == seq!['a', 'n', 'y'] {
        Arch::Any
    } else if s == seq!['a', 'm', 'd', '6', '4'] {
        Arch::X86_64
    } else if s == seq!['a', 'r', 'm', '6', '4'] {
        Arch::Aarch64
    } else {
        Arch::NoArch
    }
}

/// Whether `v` holds exactly the characters of `t`.
pub fn chars_are(v: &Vec<char>, t: &[char]) -> (b: bool)
    ensures
        b == (v@ == t@),
{
    if v.len() != t.len() {
        return false;
    }
    let mut i: usize = 0;
    while i < v.len()
        invariant
            i <= v.len(),
            v.len() == t@.len(),
            forall|j: int| 0 <= j < i ==> v@[j] == t@[j],
        decreases v.len() - i,
    {
        if v[i] != t[i] {
            return false;
        }
        i += 1;
    }
    assert(v@ =~= t@);
    true
}

fn arch_of_chars(v: &Vec<char>) -> (a: Arch)
    ensures
        a == arch_of(v@),
{
    let all = ['a', 'l', 'l'];
    let any = ['a', 'n', 'y'];
    let amd = ['a', 'm', 'd', '6', '4'];
    let arm = ['a', 'r', 'm', '6', '4'];
    assert(all@ == seq!['a', 'l', 'l']);
    assert(any@ == seq!['a', 'n', 'y']);
    assert(amd@ == seq!['a', 'm', 'd', '6', '4']);
    assert(arm@ == seq!['a', 'r', 'm', '6', '4']);
    if chars_are(v, &all) || chars_are(v, &any) {
        Arch::Any
    } else if chars_are(v, &amd) {
        Arch::X86_64
    } else if chars_are(v, &arm) {
        Arch::Aarch64
    } else {
        Arch::NoArch
    }
}

impl RawApt {
    /// The architecture an APT name gives (see [`arch_of`]).
    pub fn get_arch(arch: &str) -> (a: Arch)
        ensures
            a == arch_of(arch@),
    {
        let c = chars_of(arch);
        arch_of_chars(&c)
    }
}

// ---------------------------------------------------------------------------
// Relation fields
// ---------------------------------------------------------------------------

/// Why an APT package could not become metadata.
#[derive(Debug, PartialEq, Eq)]
pub enum AptError {
    /// A relation names an architecture that is not recognised; holds the
    /// relation's text before the `:`.
    Unrecognized(String),
    /// A relation's architecture does not run on this machine.
    IncompatibleRelation,
    /// A relation's version text does not parse; holds it.
    BadVersion(String),
    /// A relation's operator is not one of `>>`, `>=`, `=`, `<<`, `<=`;
    /// holds it.
    BadOpcode(String),
    /// A relation's requirement admits no version.
    NoAgreeableVersion,
    /// The control text does not parse.
    NotControl,
    /// The control text holds no binary package.
    MissingBinary,
    /// The binary package's architecture does not run on this machine.
    IncompatiblePackage,
    /// The binary package has no name.
    Unnamed,
    /// The chosen dependencies conflict.
    DependencyConflict,
}

pub enum AptErrorView {
    Unrecognized(Seq<char>),
    IncompatibleRelation,
    BadVersion(Seq<char>),
    BadOpcode(Seq<char>),
    NoAgreeableVersion,
    NotControl,
    MissingBinary,
    IncompatiblePackage,
    Unnamed,
    DependencyConflict,
}

impl View for AptError {
    type V = AptErrorView;

    open spec fn view(&self) -> AptErrorView {
        match self {
            AptError::Unrecognized(s) => AptErrorView::Unrecognized(s@),
            AptError::IncompatibleRelation => AptErrorView::IncompatibleRelation,
            AptError::BadVersion(s) => AptErrorView::BadVersion(s@),
            AptError::BadOpcode(s) => AptErrorView::BadOpcode(s@),
            AptError::NoAgreeableVersion => AptErrorView::NoAgreeableVersion,
            AptError::NotControl => AptErrorView::NotControl,
            AptError::MissingBinary => AptErrorView::MissingBinary,
            AptError::IncompatiblePackage => AptErrorView::IncompatiblePackage,
            AptError::Unnamed => AptErrorView::Unnamed,
            AptError::DependencyConflict => AptErrorView::DependencyConflict,
        }
    }
}

/// The number of bytes of a character in UTF-8.
pub open spec fn utf8_len(c: char) -> int {
    if (c as u32) < 0x80 {
        1
    } else if (c as u32) < 0x800 {
        2
    } else if (c as u32) < 0x10000 {
        3
    } else {
        4
    }
}

/// Characters `)` removed from the end, as many as there are.
pub open spec fn strip_parens(s: Seq<char>) -> Seq<char>
    decreases s.len(),
{
    if s.len() > 0 && s.last() == ')' {
        strip_parens(s.drop_last())
    } else {
        s
    }
}

/// How many characters the first two bytes of `s` hold, when they end on a
/// character boundary: two one-byte characters, or one two-byte character.
/// `None` when splitting there is impossible (the split then panics).
pub open spec fn op_chars(s: Seq<char>) -> Option<int> {
    if s.len() >= 2 && utf8_len(s[0]) == 1 && utf8_len(s[1]) == 1 {
        Some(2)
    } else if s.len() >= 1 && utf8_len(s[0]) == 2 {
        Some(1)
    } else {
        None
    }
}

/// The requirement an operator makes of a version.
pub open spec fn op_req(op: Seq<char>, v: VersionView) -> Option<VerReqView> {
    if op == seq!['>', '>'] {
        Some(VerReqView::Gt(v))
    } else if op == seq!['>', '='] {
        Some(VerReqView::Ge(v))
    } else if op == seq!['='] {
        Some(VerReqView::Eq(v))
    } else if op == seq!['<', '<'] {
        Some(VerReqView::Lt(v))
    } else if op == seq!['<', '='] {
        Some(VerReqView::Le(v))
    } else {
        None
    }
}

/// The text of a relation before its `:` (all of it without one).
pub open spec fn alt_name_part(a: Seq<char>) -> Seq<char> {
    match split_once_char(a, ':') {
        Some((v, _)) => v,
        None => a,
    }
}

/// The architecture after a relation's `:` (any without one).
pub open spec fn alt_arch(a: Seq<char>) -> Arch {
    match split_once_char(a, ':') {
        Some((_, ar)) => arch_of(ar),
        None => Arch::Any,
    }
}

/// How one alternative of a relation reads, on a machine of architecture
/// `installed`; `None` where the reading panics. The architecture must run
/// here; then the trimmed text is split at the first ` )`: without one it
/// names a package wanted at its latest version; with one, the part after
/// it, with trailing `)` removed, is a two-byte operator and a version.
pub open spec fn alt_spec(a: Seq<char>, installed: Arch) -> Option<Result<DependKindView, AptErrorView>> {
    let v0 = alt_name_part(a);
    match compatible(alt_arch(a), installed) {
        None => Some(Err(AptErrorView::Unrecognized(v0))),
        Some(false) => Some(Err(AptErrorView::IncompatibleRelation)),
        Some(true) => {
            let v = trim(v0);
            match split_once_pat(v, seq![' ', ')']) {
                None => Some(Ok(DependKindView::Latest(v))),
                Some((name, ver)) => {
                    let fv = strip_parens(ver);
                    match op_chars(fv) {
                        None => None,
                        Some(k) => {
                            let op = fv.subrange(0, k);
                            let vt = fv.subrange(k, fv.len() as int);
                            Some(
                                match version_parse_spec(vt) {
                                    Err(_) => Err(AptErrorView::BadVersion(vt)),
                                    Ok(x) => match op_req(op, x) {
                                        None => Err(AptErrorView::BadOpcode(op)),
                                        Some(req) => match negotiate_spec(req, Some(unbounded())) {
                                            None => Err(AptErrorView::NoAgreeableVersion),
                                            Some(r) => Ok(
                                                DependKindView::Specific(
                                                    DepVerView { name, range: r },
                                                ),
                                            ),
                                        },
                                    },
                                },
                            )
                        },
                    }
                },
            }
        },
    }
}

/// The alternatives of one relation group in turn; the first failure (or
/// panic) decides.
pub open spec fn alts_spec(alts: Seq<Seq<char>>, installed: Arch) -> Option<
    Result<Seq<DependKindView>, AptErrorView>,
>
    decreases alts.len(),
{
    if alts.len() == 0 {
        Some(Ok(Seq::empty()))
    } else {
        match alt_spec(alts[0], installed) {
            None => None,
            Some(Err(e)) => Some(Err(e)),
            Some(Ok(k)) => match alts_spec(alts.drop_first(), installed) {
                None => None,
                Some(r) => Some(prepend(seq![k], r)),
            },
        }
    }
}

/// The relation groups in turn (each split at `|`).
pub open spec fn groups_spec(groups: Seq<Seq<char>>, installed: Arch) -> Option<
    Result<Seq<Seq<DependKindView>>, AptErrorView>,
>
    decreases groups.len(),
{
    if groups.len() == 0 {
        Some(Ok(Seq::empty()))
    } else {
        match alts_spec(split_char(groups[0], '|'), installed) {
            None => None,
            Some(Err(e)) => Some(Err(e)),
            Some(Ok(g)) => match groups_spec(groups.drop_first(), installed) {
                None => None,
                Some(r) => Some(prepend(seq![g], r)),
            },
        }
    }
}

/// How a relation field reads: groups separated by `,`, alternatives
/// within a group by `|`.
pub open spec fn relations_spec(text: Seq<char>, installed: Arch) -> Option<
    Result<Seq<Seq<DependKindView>>, AptErrorView>,
> {
    groups_spec(split_char(text, ','), installed)
}

fn utf8_len_exec(c: char) -> (n: usize)
    ensures
        n == utf8_len(c),
{
    let u = c as u32;
    if u < 0x80 {
        1
    } else if u < 0x800 {
        2
    } else if u < 0x10000 {
        3
    } else {
        4
    }
}

fn strip_parens_exec(v: &Vec<char>) -> (r: Vec<char>)
    ensures
        r@ == strip_parens(v@),
{
    let mut n: usize = v.len();
    assert(v@.subrange(0, n as int) =~= v@);
    while n > 0 && v[n - 1] == ')'
        invariant
            n <= v.len(),
            strip_parens(v@.subrange(0, n as int)) == strip_parens(v@),
        decreases n,
    {
        assert(v@.subrange(0, n as int).drop_last() =~= v@.subrange(0, n - 1));
        n -= 1;
    }
    crate::text::slice_chars(v, 0, n)
}

fn op_req_exec(op: &Vec<char>, v: Version) -> (r: Option<VerReq>)
    ensures
        match r {
            Some(q) => op_req(op@, v@) == Some(q@),
            None => op_req(op@, v@) is None,
        },
{
    let gt = ['>', '>'];
    let ge = ['>', '='];
    let eq = ['='];
    let lt = ['<', '<'];
    let le = ['<', '='];
    assert(gt@ == seq!['>', '>']);
    assert(ge@ == seq!['>', '=']);
    assert(eq@ == seq!['=']);
    assert(lt@ == seq!['<', '<']);
    assert(le@ == seq!['<', '=']);
    if chars_are(op, &gt) {
        Some(VerReq::Gt(v))
    } else if chars_are(op, &ge) {
        Some(VerReq::Ge(v))
    } else if chars_are(op, &eq) {
        Some(VerReq::Eq(v))
    } else if chars_are(op, &lt) {
        Some(VerReq::Lt(v))
    } else if chars_are(op, &le) {
        Some(VerReq::Le(v))
    } else {
        None
    }
}

/// Reads one alternative of a relation (see [`alt_spec`]); `None` where
/// the operator cannot be split off.
fn parse_alt(a: &Vec<char>, installed: &Arch) -> (r: Option<Result<DependKind, AptError>>)
    ensures
        match r {
            None => alt_spec(a@, *installed) is None,
            Some(Ok(k)) => alt_spec(a@, *installed) == Some(Ok::<DependKindView, AptErrorView>(k@)),
            Some(Err(e)) => alt_spec(a@, *installed) == Some(Err::<DependKindView, AptErrorView>(e@)),
        },
{
    let (v0, arch) = match split_once_char_exec(a, ':') {
        Some((v, ar)) => (v, arch_of_chars(&ar)),
        None => (crate::text::slice_chars(a, 0, a.len()), Arch::Any),
    };
    assert(a@.subrange(0, a@.len() as int) =~= a@);
    assert(v0@ == alt_name_part(a@));
    assert(arch == alt_arch(a@));
    let v0s = string_of_all(&v0);
    match arch.is_compatible(v0s.as_str(), installed) {
        Err(_) => return Some(Err(AptError::Unrecognized(v0s))),
        Ok(false) => return Some(Err(AptError::IncompatibleRelation)),
        Ok(true) => {},
    }
    let v = trim_exec(&v0);
    let pat = vec![' ', ')'];
    assert(pat@ == seq![' ', ')']);
    match split_once_exec(&v, &pat) {
        None => Some(Ok(DependKind::Latest(string_of_all(&v)))),
        Some((name, ver)) => {
            let fv = strip_parens_exec(&ver);
            let k: usize = if fv.len() >= 2 && utf8_len_exec(fv[0]) == 1 && utf8_len_exec(fv[1]) == 1 {
                2
            } else if fv.len() >= 1 && utf8_len_exec(fv[0]) == 2 {
                1
            } else {
                return None;
            };
            assert(op_chars(fv@) == Some(k as int));
            let op = crate::text::slice_chars(&fv, 0, k);
            let vt = crate::text::slice_chars(&fv, k, fv.len());
            let vts = string_of_all(&vt);
            Some(
                match Version::parse(vts.as_str()) {
                    Err(_) => Err(AptError::BadVersion(vts)),
                    Ok(x) => match op_req_exec(&op, x) {
                        None => Err(AptError::BadOpcode(string_of_all(&op))),
                        Some(req) => match req.negotiate(Some(Range::unbounded())) {
                            None => Err(AptError::NoAgreeableVersion),
                            Some(rg) => Ok(
                                DependKind::Specific(DepVer { name: string_of_all(&name), range: rg }),
                            ),
                        },
                    },
                },
            )
        },
    }
}

/// `xs` put in front of a result that did not panic.
pub open spec fn prepend_opt<T, E>(xs: Seq<T>, o: Option<Result<Seq<T>, E>>) -> Option<Result<Seq<T>, E>> {
    match o {
        None => None,
        Some(r) => Some(prepend(xs, r)),
    }
}

proof fn lemma_prepend_opt_assoc<T, E>(xs: Seq<T>, ys: Seq<T>, o: Option<Result<Seq<T>, E>>)
    ensures
        prepend_opt(xs, prepend_opt(ys, o)) == prepend_opt(xs + ys, o),
{
    match o {
        None => {},
        Some(r) => crate::text::lemma_prepend_assoc(xs, ys, r),
    }
}

proof fn lemma_prepend_opt_empty<T, E>(o: Option<Result<Seq<T>, E>>)
    ensures
        prepend_opt(Seq::<T>::empty(), o) == o,
{
    match o {
        None => {},
        Some(r) => crate::text::lemma_prepend_empty(r),
    }
}

/// Reads the alternatives of one group (see [`alts_spec`]).
fn parse_alts(alts: &Vec<Vec<char>>, installed: &Arch) -> (r: Option<Result<Vec<DependKind>, AptError>>)
    ensures
        match r {
            None => alts_spec(seq_views(alts@), *installed) is None,
            Some(Ok(v)) => alts_spec(seq_views(alts@), *installed) == Some(
                Ok::<Seq<DependKindView>, AptErrorView>(depend_kind_views(v@)),
            ),
            Some(Err(e)) => alts_spec(seq_views(alts@), *installed) == Some(
                Err::<Seq<DependKindView>, AptErrorView>(e@),
            ),
        },
{
    let ghost av = seq_views(alts@);
    let mut out: Vec<DependKind> = Vec::new();
    let mut k: usize = 0;
    proof {
        assert(av.subrange(0, av.len() as int) =~= av);
        assert(depend_kind_views(out@) =~= Seq::<DependKindView>::empty());
        lemma_prepend_opt_empty(alts_spec(av, *installed));
    }
    while k < alts.len()
        invariant
            k <= alts.len(),
            av == seq_views(alts@),
            alts_spec(av, *installed) == prepend_opt(
                depend_kind_views(out@),
                alts_spec(av.subrange(k as int, av.len() as int), *installed),
            ),
        decreases alts.len() - k,
    {
        let ghost rest = av.subrange(k as int, av.len() as int);
        assert(rest.drop_first() =~= av.subrange(k + 1, av.len() as int));
        assert(rest[0] == alts@[k as int]@);
        let d = match parse_alt(&alts[k], installed) {
            None => {
                return None;
            },
            Some(Err(e)) => {
                return Some(Err(e));
            },
            Some(Ok(d)) => d,
        };
        let ghost before = depend_kind_views(out@);
        out.push(d);
        assert(depend_kind_views(out@) =~= before + seq![d@]);
        proof {
            lemma_prepend_opt_assoc(before, seq![d@], alts_spec(rest.drop_first(), *installed));
        }
        k += 1;
    }
    assert(av.subrange(k as int, av.len() as int) =~= Seq::<Seq<char>>::empty());
    assert(depend_kind_views(out@) + Seq::<DependKindView>::empty() =~= depend_kind_views(out@));
    Some(Ok(out))
}

pub open spec fn group_views(s: Seq<Vec<DependKind>>) -> Seq<Seq<DependKindView>> {
    s.map_values(|g: Vec<DependKind>| depend_kind_views(g@))
}

impl RawApt {
    /// Reads a relation field (see [`relations_spec`]) on a machine of
    /// architecture `installed`: for each `,`-separated group, its
    /// `|`-separated alternatives. `None` where splitting off an operator
    /// panics.
    pub fn parse_relations(text: &str, installed: &Arch) -> (r: Option<
        Result<Vec<Vec<DependKind>>, AptError>,
    >)
        ensures
            match r {
                None => relations_spec(text@, *installed) is None,
                Some(Ok(v)) => relations_spec(text@, *installed) == Some(
                    Ok::<Seq<Seq<DependKindView>>, AptErrorView>(group_views(v@)),
                ),
                Some(Err(e)) => relations_spec(text@, *installed) == Some(
                    Err::<Seq<Seq<DependKindView>>, AptErrorView>(e@),
                ),
            },
    {
        let chars = chars_of(text);
        let groups = split_char_exec(&chars, ',');
        let ghost gv = split_char(text@, ',');
        assert(seq_views(groups@) =~= gv);
        let mut out: Vec<Vec<DependKind>> = Vec::new();
        let mut k: usize = 0;
        proof {
            assert(gv.subrange(0, gv.len() as int) =~= gv);
            assert(group_views(out@) =~= Seq::<Seq<DependKindView>>::empty());
            lemma_prepend_opt_empty(groups_spec(gv, *installed));
        }
        while k < groups.len()
            invariant
                k <= groups.len(),
                gv == seq_views(groups@),
                relations_spec(text@, *installed) == groups_spec(gv, *installed),
                groups_spec(gv, *installed) == prepend_opt(
                    group_views(out@),
                    groups_spec(gv.subrange(k as int, gv.len() as int), *installed),
                ),
            decreases groups.len() - k,
        {
            let ghost rest = gv.subrange(k as int, gv.len() as int);
            assert(rest.drop_first() =~= gv.subrange(k + 1, gv.len() as int));
            assert(rest[0] == groups@[k as int]@);
            let alts = split_char_exec(&groups[k], '|');
            assert(seq_views(alts@) =~= split_char(rest[0], '|'));
            let g = match parse_alts(&alts, installed) {
                None => {
                    return None;
                },
                Some(Err(e)) => {
                    return Some(Err(e));
                },
                Some(Ok(g)) => g,
            };
            let ghost before = group_views(out@);
            let ghost gview = depend_kind_views(g@);
            out.push(g);
            assert(group_views(out@) =~= before + seq![gview]);
            proof {
                lemma_prepend_opt_assoc(before, seq![gview], groups_spec(rest.drop_first(), *installed));
            }
            k += 1;
        }
        assert(gv.subrange(k as int, gv.len() as int) =~= Seq::<Seq<char>>::empty());
        assert(group_views(out@) + Seq::<Seq<DependKindView>>::empty() =~= group_views(out@));
        Some(Ok(out))
    }
}

// ---------------------------------------------------------------------------
// The control file of a binary package
// ---------------------------------------------------------------------------

/// Whether `Control::parse` reads `text` without reporting errors.
pub uninterp spec fn control_parses(text: Seq<char>) -> bool;

/// Whether the control file that `text` holds has a binary paragraph (one
/// with a `Package` field), as `Control::binaries` finds them.
pub uninterp spec fn control_has_binary(text: Seq<char>) -> bool;

/// What `Binary::get` gives for the field `key` of the first binary
/// paragraph of the control file that `text` holds.
pub uninterp spec fn binary_field(text: Seq<char>, key: Seq<char>) -> Option<Seq<char>>;

/// What `Binary::description` gives for the first binary paragraph of the
/// control file that `text` holds.
pub uninterp spec fn binary_description_of(text: Seq<char>) -> Option<Seq<char>>;

/// `Control::parse` and `Parse::to_result`: whether `text` parses as a
/// control file without errors. The parse depends on the text alone, so
/// the answer is named [`control_parses`]; nothing more is stated.
#[verifier::external_body]
fn control_parse(text: &str) -> (b: bool)
    ensures
        b == control_parses(text@),
{
    Control::parse(text).to_result().is_ok()
}

/// `Control::binaries` on the control file that `text` holds: whether it
/// has a first binary paragraph. Named [`control_has_binary`]; what decides
/// it is not stated.
#[verifier::external_body]
fn control_binary(text: &str) -> (b: bool)
    ensures
        b == control_has_binary(text@),
{
    match Control::parse(text).to_result() {
        Ok(c) => c.binaries().next().is_some(),
        Err(_) => false,
    }
}

/// `Binary::get` on the first binary paragraph of the control file that
/// `text` holds: the field `key` as written. Named [`binary_field`]; the
/// field syntax is not stated. `Binary::get` cannot panic, unlike
/// `Binary::depends`, which unwraps a strict parse of the relations.
#[verifier::external_body]
fn binary_get(text: &str, key: &str) -> (r: Option<String>)
    ensures
        opt_view(r) == binary_field(text@, key@),
{
    let control = Control::parse(text).to_result().ok()?;
    let binary = control.binaries().next()?;
    binary.get(key)
}

/// `Binary::description` on the first binary paragraph of the control file
/// that `text` holds: the `Description` field joined over its lines. Named
/// [`binary_description_of`]; how the lines are joined is not stated.
#[verifier::external_body]
fn binary_description(text: &str) -> (r: Option<String>)
    ensures
        opt_view(r) == binary_description_of(text@),
{
    let control = Control::parse(text).to_result().ok()?;
    let binary = control.binaries().next()?;
    binary.description()
}

/// What the metadata of an APT package takes from its control file.
#[derive(Debug, PartialEq, Eq)]
pub struct ControlInfo {
    pub name: String,
    pub description: String,
    /// The `Depends` field's text.
    pub depends: Option<String>,
    /// The `Recommends` field's text.
    pub recommended: Option<String>,
}

pub open spec fn opt_view(o: Option<String>) -> Option<Seq<char>> {
    match o {
        Some(s) => Some(s@),
        None => None,
    }
}

/// The text an optional field gives, empty when it is missing.
pub open spec fn seq_or_empty(o: Option<Seq<char>>) -> Seq<char> {
    match o {
        Some(s) => s,
        None => Seq::empty(),
    }
}

/// What the fields of a binary paragraph give (see
/// [`RawApt::control_info`]): its architecture (none counts as an empty
/// name) must run on `installed`, else the error names `name`, the package
/// asked for; then it must have a name; a missing description is empty;
/// the relation texts are kept as they are.
pub open spec fn info_from(
    name: Seq<char>,
    package: Option<Seq<char>>,
    description: Option<Seq<char>>,
    architecture: Option<Seq<char>>,
    depends: Option<Seq<char>>,
    recommended: Option<Seq<char>>,
    installed: Arch,
    r: Result<ControlInfo, AptError>,
) -> bool {
    match compatible(arch_of(seq_or_empty(architecture)), installed) {
        None => r matches Err(AptError::Unrecognized(n)) && n@ == name,
        Some(false) => r matches Err(AptError::IncompatiblePackage),
        Some(true) => match package {
            None => r matches Err(AptError::Unnamed),
            Some(p) => r matches Ok(info) && info.name@ == p && info.description@ == seq_or_empty(
                description,
            ) && opt_view(info.depends) == depends && opt_view(info.recommended) == recommended,
        },
    }
}

impl RawApt {
    /// Reads a control file's first binary package, checking that its
    /// architecture runs on a machine of architecture `installed`; `name`
    /// is the package asked for. It fails with `NotControl` when the text
    /// does not parse as a control file and with `MissingBinary` when it
    /// has no binary paragraph; otherwise the paragraph's `Package`,
    /// `Description`, `Architecture`, `Depends` and `Recommends` fields
    /// give the result (see [`info_from`]).
    pub fn read_control(text: &str, name: &str, installed: &Arch) -> (r: Result<ControlInfo, AptError>)
        ensures
            (r matches Err(AptError::NotControl)) <==> !control_parses(text@),
            control_parses(text@) && !control_has_binary(text@) ==> r matches Err(
                AptError::MissingBinary,
            ),
            control_parses(text@) && control_has_binary(text@) ==> info_from(
                name@,
                binary_field(text@, "Package"@),
                binary_description_of(text@),
                binary_field(text@, "Architecture"@),
                binary_field(text@, "Depends"@),
                binary_field(text@, "Recommends"@),
                *installed,
                r,
            ),
    {
        if !control_parse(text) {
            return Err(AptError::NotControl);
        }
        if !control_binary(text) {
            return Err(AptError::MissingBinary);
        }
        let arch = binary_get(text, "Architecture");
        let package = binary_get(text, "Package");
        let description = binary_description(text);
        let depends = binary_get(text, "Depends");
        let recommended = binary_get(text, "Recommends");
        RawApt::control_info(name, package, description, arch, depends, recommended, installed)
    }

    /// What a binary paragraph's fields give (see [`info_from`]).
    pub fn control_info(
        name: &str,
        package: Option<String>,
        description: Option<String>,
        architecture: Option<String>,
        depends: Option<String>,
        recommended: Option<String>,
        installed: &Arch,
    ) -> (r: Result<ControlInfo, AptError>)
        ensures
            info_from(
                name@,
                opt_view(package),
                opt_view(description),
                opt_view(architecture),
                opt_view(depends),
                opt_view(recommended),
                *installed,
                r,
            ),
    {
        let arch_text = match architecture {
            Some(a) => a,
            None => String::new(),
        };
        let arch = RawApt::get_arch(arch_text.as_str());
        match arch.is_compatible(name, installed) {
            Err(_) => return Err(AptError::Unrecognized(name.to_owned())),
            Ok(false) => return Err(AptError::IncompatiblePackage),
            Ok(true) => {},
        }
        let package = match package {
            Some(p) => p,
            None => return Err(AptError::Unnamed),
        };
        let description = match description {
            Some(d) => d,
            None => String::new(),
        };
        Ok(ControlInfo { name: package, description, depends, recommended })
    }
}

/// Whether `x` is among `v`.
fn contains_kind(v: &Vec<DependKind>, x: &DependKind) -> (b: bool)
    ensures
        b == depend_kind_views(v@).contains(x@),
{
    let mut i: usize = 0;
    while i < v.len()
        invariant
            i <= v.len(),
            forall|j: int| 0 <= j < i ==> v@[j]@ != x@,
        decreases v.len() - i,
    {
        if v[i].same(x) {
            assert(depend_kind_views(v@)[i as int] == x@);
            return true;
        }
        i += 1;
    }
    proof {
        if depend_kind_views(v@).contains(x@) {
            let k = choose|k: int| 0 <= k < depend_kind_views(v@).len() && depend_kind_views(v@)[k] == x@;
            assert(v@[k]@ == x@);
        }
    }
    false
}

/// `v` without repeated entries, in order of first appearance.
fn dedup_kinds(v: Vec<DependKind>) -> (r: Vec<DependKind>)
    ensures
        depend_kind_views(r@) == add_all(Seq::<DependKindView>::empty(), depend_kind_views(v@)),
{
    let ghost vv = depend_kind_views(v@);
    let mut out: Vec<DependKind> = Vec::new();
    let mut i: usize = 0;
    assert(vv.subrange(0, 0) =~= Seq::<DependKindView>::empty());
    assert(depend_kind_views(out@) =~= Seq::<DependKindView>::empty());
    while i < v.len()
        invariant
            i <= v.len(),
            vv == depend_kind_views(v@),
            depend_kind_views(out@) == add_all(Seq::<DependKindView>::empty(), vv.subrange(0, i as int)),
        decreases v.len() - i,
    {
        assert(vv.subrange(0, i + 1).drop_last() =~= vv.subrange(0, i as int));
        assert(vv[i as int] == v@[i as int]@);
        let ghost before = depend_kind_views(out@);
        if !contains_kind(&out, &v[i]) {
            out.push(v[i].clone());
            assert(depend_kind_views(out@) =~= before.push(vv[i as int]));
        }
        i += 1;
    }
    assert(vv.subrange(0, v.len() as int) =~= vv);
    out
}

/// The metadata of an APT binary package: named and described by its
/// control file, at `version`, from `source`, pre-built, with no build
/// dependencies and the chosen dependencies, each once, collapsed.
pub open spec fn apt_metadata(
    info_name: Seq<char>,
    info_description: Seq<char>,
    runtime: Seq<DependKindView>,
    version: Seq<char>,
    source: OriginKindView,
    dependent: bool,
) -> ProcessedMetaDataView {
    ProcessedMetaDataView {
        name: info_name,
        kind: MetaDataKind::Apt,
        description: info_description,
        version,
        origin: source,
        dependent,
        build_dependencies: Seq::empty(),
        runtime_dependencies: runtime,
        install_kind: ProcessedInstallKindView::PreBuilt(
            PreBuiltView { critical: Seq::empty(), configs: Seq::empty() },
        ),
        hash: Seq::empty(),
    }
}

impl RawApt {
    /// The metadata of an APT package (see [`apt_metadata`]); `chosen` are
    /// the alternatives chosen from its `Depends` and then its `Recommends`
    /// groups. Fails when they do not collapse (see [`collapse_spec`]).
    pub fn to_processed(
        info: ControlInfo,
        chosen: Vec<DependKind>,
        version: &str,
        source: &OriginKind,
        dependent: bool,
    ) -> (r: Result<ProcessedMetaData, AptError>)
        ensures
            match collapse_spec(add_all(Seq::<DependKindView>::empty(), depend_kind_views(chosen@))) {
                None => r matches Err(AptError::DependencyConflict),
                Some(c) => r matches Ok(m) && m@ == apt_metadata(
                    info.name@,
                    info.description@,
                    c,
                    version@,
                    source@,
                    dependent,
                ),
            },
    {
        let deps = dedup_kinds(chosen);
        let collapsed = match DependKind::collapse(deps) {
            Some(c) => c,
            None => return Err(AptError::DependencyConflict),
        };
        let build = DependKindVec(Vec::new());
        assert(build@ =~= Seq::<DependKindView>::empty());
        let prebuilt = PreBuilt { critical: Vec::new(), configs: Vec::new() };
        assert(prebuilt@.critical =~= Seq::<Seq<char>>::empty());
        assert(prebuilt@.configs =~= Seq::<Seq<char>>::empty());
        let hash = String::new();
        Ok(
            ProcessedMetaData {
                name: info.name,
                kind: MetaDataKind::Apt,
                description: info.description,
                version: version.to_owned(),
                origin: source.clone(),
                dependent,
                build_dependencies: build,
                runtime_dependencies: DependKindVec(collapsed),
                install_kind: ProcessedInstallKind::PreBuilt(prebuilt),
                hash,
            },
        )
    }
}

// ---------------------------------------------------------------------------
// The versions an APT index offers
// ---------------------------------------------------------------------------

/// What a `name_version` file name and an architecture give, for the
/// package `name`: the full name (`name_version_arch`), the version and the
/// architecture; `None` when the file is of another package or the version
/// does not parse.
pub open spec fn version_entry_spec(name_v: Seq<char>, arch: Seq<char>, name: Seq<char>) -> Option<
    (Seq<char>, VersionView, Arch),
> {
    match split_once_char(name_v, '_') {
        None => None,
        Some((just_name, version)) => if just_name != name {
            None
        } else {
            match version_parse_spec(version) {
                Err(_) => None,
                Ok(v) => Some((name_v + seq!['_'] + arch, v, arch_of(arch))),
            }
        },
    }
}

impl RawApt {
    /// Reads one `.deb` file name found in an index (see
    /// [`version_entry_spec`]).
    pub fn version_entry(name_v: &str, arch: &str, name: &str) -> (r: Option<(String, Version, Arch)>)
        ensures
            match r {
                Some((f, v, a)) => version_entry_spec(name_v@, arch@, name@) == Some((f@, v@, a)),
                None => version_entry_spec(name_v@, arch@, name@) is None,
            },
    {
        let c = chars_of(name_v);
        let (just_name, version) = match split_once_char_exec(&c, '_') {
            None => return None,
            Some(p) => p,
        };
        let jn = string_of_all(&just_name);
        let nm = name.to_owned();
        if jn != nm {
            return None;
        }
        let vs = string_of_all(&version);
        let v = match Version::parse(vs.as_str()) {
            Ok(v) => v,
            Err(_) => return None,
        };
        let mut full = name_v.to_owned();
        crate::text::push_char(&mut full, '_');
        crate::text::append_str(&mut full, arch);
        Some((full, v, RawApt::get_arch(arch)))
    }

    /// Picks among the offered versions: the one whose printed form is
    /// `wanted`, or, when no version is asked for, a newest one.
    pub fn pick_version(entries: &Vec<(String, Version, Arch)>, wanted: Option<&str>) -> (r: Option<usize>)
        ensures
            wanted is Some ==> match r {
                Some(i) => i < entries@.len() && crate::version::version_text(entries@[i as int].1@)
                    == wanted->0@,
                None => forall|i: int|
                    0 <= i < entries@.len() ==> crate::version::version_text(
                        #[trigger] entries@[i].1@,
                    ) != wanted->0@,
            },
            wanted is None ==> match r {
                Some(i) => i < entries@.len() && forall|j: int|
                    0 <= j < entries@.len() ==> crate::version::version_le(
                        #[trigger] entries@[j].1@,
                        entries@[i as int].1@,
                    ),
                None => entries@.len() == 0,
            },
    {
        match wanted {
            Some(w) => {
                let ws = w.to_owned();
                let mut i: usize = 0;
                while i < entries.len()
                    invariant
                        i <= entries.len(),
                        wanted == Some(w),
                        ws@ == w@,
                        forall|j: int|
                            0 <= j < i ==> crate::version::version_text(#[trigger] entries@[j].1@)
                                != w@,
                    decreases entries.len() - i,
                {
                    let t = entries[i].1.to_string();
                    assert(t@ == crate::version::version_text(entries@[i as int].1@));
                    if t == ws {
                        assert(t@ == ws@);
                        assert(crate::version::version_text(entries@[i as int].1@) == w@);
                        return Some(i);
                    }
                    i += 1;
                }
                None
            },
            None => {
                if entries.len() == 0 {
                    return None;
                }
                let mut best: usize = 0;
                let mut i: usize = 1;
                while i < entries.len()
                    invariant
                        1 <= i <= entries.len(),
                        wanted is None,
                        best < i,
                        forall|j: int|
                            0 <= j < i ==> crate::version::version_le(
                                #[trigger] entries@[j].1@,
                                entries@[best as int].1@,
                            ),
                    decreases entries.len() - i,
                {
                    if entries[best].1.le(&entries[i].1) {
                        proof {
                            assert forall|j: int| 0 <= j < i + 1 implies crate::version::version_le(
                                #[trigger] entries@[j].1@,
                                entries@[i as int].1@,
                            ) by {
                                crate::version::lemma_version_le(
                                    entries@[j].1@,
                                    entries@[best as int].1@,
                                    entries@[i as int].1@,
                                );
                            }
                        }
                        best = i;
                    } else {
                        proof {
                            crate::version::lemma_version_le(
                                entries@[i as int].1@,
                                entries@[best as int].1@,
                                entries@[i as int].1@,
                            );
                        }
                    }
                    i += 1;
                }
                Some(best)
            },
        }
    }

    /// The `tar` option that unpacks a member with the extension `ext`
    /// (see [`archive_flag_spec`]).
    pub fn archive_flag(ext: &str) -> (r: Option<&'static str>)
        ensures
            r == archive_flag_spec(ext@),
    {
        let e = chars_of(ext);
        let gz = ['g', 'z'];
        let xz = ['x', 'z'];
        let bz2 = ['b', 'z', '2'];
        let zst = ['z', 's', 't'];
        assert(gz@ == seq!['g', 'z']);
        assert(xz@ == seq!['x', 'z']);
        assert(bz2@ == seq!['b', 'z', '2']);
        assert(zst@ == seq!['z', 's', 't']);
        if chars_are(&e, &gz) {
            Some("-xzf")
        } else if chars_are(&e, &xz) {
            Some("-xJf")
        } else if chars_are(&e, &bz2) {
            Some("-xjf")
        } else if chars_are(&e, &zst) {
            Some("-xf")
        } else {
            None
        }
    }
}

/// The `tar` option for a member's extension: `gz`, `xz`, `bz2` and `zst`
/// archives; other members are not unpacked.
pub open spec fn archive_flag_spec(ext: Seq<char>) -> Option<&'static str> {
    if ext == seq!['g', 'z'] {
        Some("-xzf")
    } else if ext == seq!['x', 'z'] {
        Some("-xJf")
    } else if ext == seq!['b', 'z', '2'] {
        Some("-xjf")
    } else if ext == seq!['z', 's', 't'] {
        Some("-xf")
    } else {
        None
    }
}

} // verus!
