//! Package sources: APT repositories, GitHub repositories and plz servers,
//! with their compact byte encoding and metadata endpoints.
use vstd::prelude::*;
use vstd::utf8::{decode_utf8, encode_utf8, valid_utf8};
use crate::errors::{ParseError, ParseErrorView};
use crate::text::{append_str, chars_of};

verus! {

broadcast use vstd::utf8::group_utf8_lib;

/// A component (section) of an APT repository.
#[derive(Debug, PartialEq, Eq, Hash, PartialOrd, Ord)]
pub enum AptComponent {
    Custom(String),
    Main,
    Multiverse,
    Restricted,
    Universe,
}

pub enum AptComponentView {
    Custom(Seq<char>),
    Main,
    Multiverse,
    Restricted,
    Universe,
}

impl View for AptComponent {
    type V = AptComponentView;

    open spec fn view(&self) -> AptComponentView {
        match self {
            AptComponent::Custom(c) => AptComponentView::Custom(c@),
            AptComponent::Main => AptComponentView::Main,
            AptComponent::Multiverse => AptComponentView::Multiverse,
            AptComponent::Restricted => AptComponentView::Restricted,
            AptComponent::Universe => AptComponentView::Universe,
        }
    }
}

impl Clone for AptComponent {
    fn clone(&self) -> (r: Self)
        ensures
            r@ == self@,
    {
        match self {
            AptComponent::Custom(c) => AptComponent::Custom(c.clone()),
            AptComponent::Main => AptComponent::Main,
            AptComponent::Multiverse => AptComponent::Multiverse,
            AptComponent::Restricted => AptComponent::Restricted,
            AptComponent::Universe => AptComponent::Universe,
        }
    }
}

/// Where packages come from.
#[derive(Debug, PartialEq, Eq, Hash)]
pub enum OriginKind {
    /// An APT repository; `signature_path` holds the path's bytes.
    Apt { uri: String, suite: String, component: AptComponent, signature_path: Vec<u8> },
    /// A GitHub repository.
    Github { user: String, repo: String },
    /// A plz package server.
    Plz { source: String },
}

pub enum OriginKindView {
    Apt {
        uri: Seq<char>,
        suite: Seq<char>,
        component: AptComponentView,
        signature_path: Seq<u8>,
    },
    Github { user: Seq<char>, repo: Seq<char> },
    Plz { source: Seq<char> },
}

impl View for OriginKind {
    type V = OriginKindView;

    open spec fn view(&self) -> OriginKindView {
        match self {
            OriginKind::Apt { uri, suite, component, signature_path } => OriginKindView::Apt {
                uri: uri@,
                suite: suite@,
                component: component@,
                signature_path: signature_path@,
            },
            OriginKind::Github { user, repo } => OriginKindView::Github {
                user: user@,
                repo: repo@,
            },
            OriginKind::Plz { source } => OriginKindView::Plz { source: source@ },
        }
    }
}

impl Clone for OriginKind {
    fn clone(&self) -> (r: Self)
        ensures
            r@ == self@,
    {
        match self {
            OriginKind::Apt { uri, suite, component, signature_path } => OriginKind::Apt {
                uri: uri.clone(),
                suite: suite.clone(),
                component: component.clone(),
                signature_path: copy_bytes(signature_path),
            },
            OriginKind::Github { user, repo } => OriginKind::Github {
                user: user.clone(),
                repo: repo.clone(),
            },
            OriginKind::Plz { source } => OriginKind::Plz { source: source.clone() },
        }
    }
}

/// All configured sources.
#[derive(Debug, Default, PartialEq)]
pub struct OriginKindVec(pub Vec<OriginKind>);

/// A copy of a byte vector.
pub fn copy_bytes(b: &Vec<u8>) -> (r: Vec<u8>)
    ensures
        r@ == b@,
{
    let mut r: Vec<u8> = Vec::new();
    let mut i: usize = 0;
    while i < b.len()
        invariant
            i <= b.len(),
            r@ == b@.subrange(0, i as int),
        decreases b.len() - i,
    {
        r.push(b[i]);
        assert(r@ =~= b@.subrange(0, i + 1));
        i += 1;
    }
    assert(b@.subrange(0, b.len() as int) =~= b@);
    r
}

/// What `String::from_utf8_lossy` makes of a byte sequence that is not
/// valid UTF-8.
pub uninterp spec fn utf8_lossy(b: Seq<u8>) -> Seq<char>;

/// The text `String::from_utf8_lossy` gives: valid UTF-8 decodes exactly,
/// as std documents; for other input the result is named, the rules for
/// replacing invalid sequences by U+FFFD being left unstated.
pub open spec fn lossy_text(b: Seq<u8>) -> Seq<char> {
    if valid_utf8(b) {
        decode_utf8(b)
    } else {
        utf8_lossy(b)
    }
}

/// `String::from_utf8_lossy`, owned (see [`lossy_text`]).
#[verifier::external_body]
fn from_utf8_lossy(b: &[u8]) -> (s: String)
    ensures
        valid_utf8(b@) ==> s@ == decode_utf8(b@),
        !valid_utf8(b@) ==> s@ == utf8_lossy(b@),
{
    String::from_utf8_lossy(b).into_owned()
}

/// The name of a component.
pub open spec fn component_text(c: AptComponentView) -> Seq<char> {
    match c {
        AptComponentView::Custom(s) => s,
        AptComponentView::Main => "main"@,
        AptComponentView::Multiverse => "multiverse"@,
        AptComponentView::Restricted => "restricted"@,
        AptComponentView::Universe => "universe"@,
    }
}

/// The component a name stands for; unknown names are custom components.
pub open spec fn component_from_text(t: Seq<char>) -> AptComponentView {
    if t == "main"@ {
        AptComponentView::Main
    } else if t == "multiverse"@ {
        AptComponentView::Multiverse
    } else if t == "restricted"@ {
        AptComponentView::Restricted
    } else if t == "universe"@ {
        AptComponentView::Universe
    } else {
        AptComponentView::Custom(t)
    }
}

/// A component's name stands for the component again, unless a custom
/// component carries one of the standard names.
pub proof fn lemma_component_roundtrip(c: AptComponentView)
    requires
        c matches AptComponentView::Custom(s) ==> s != "main"@ && s != "multiverse"@ && s
            != "restricted"@ && s != "universe"@,
    ensures
        component_from_text(component_text(c)) == c,
{
    reveal_strlit("main");
    reveal_strlit("multiverse");
    reveal_strlit("restricted");
    reveal_strlit("universe");
    assert("main"@.len() == 4);
    assert("universe"@.len() == 8);
    assert("multiverse"@.len() == 10);
    assert("restricted"@.len() == 10);
    assert("multiverse"@[0] != "restricted"@[0]);
    match c {
        AptComponentView::Multiverse => {
            assert("multiverse"@ != "main"@);
        },
        AptComponentView::Restricted => {
            assert("restricted"@ != "main"@);
            assert("restricted"@ != "multiverse"@);
        },
        AptComponentView::Universe => {
            assert("universe"@ != "main"@);
            assert("universe"@ != "multiverse"@);
            assert("universe"@ != "restricted"@);
        },
        _ => {},
    }
}

fn text_eq(a: &String, b: &str) -> (r: bool)
    ensures
        r == (a@ == b@),
{
    let x = chars_of(a.as_str());
    let y = chars_of(b);
    if x.len() != y.len() {
        assert(x@.len() != y@.len());
        return false;
    }
    let mut i: usize = 0;
    while i < x.len()
        invariant
            i <= x.len(),
            x.len() == y.len(),
            x@ == a@,
            y@ == b@,
            forall|j: int| 0 <= j < i ==> x@[j] == y@[j],
        decreases x.len() - i,
    {
        if x[i] != y[i] {
            assert(x@[i as int] != y@[i as int]);
            return false;
        }
        i += 1;
    }
    assert(x@ =~= y@);
    true
}

/// Whether two byte sequences are equal.
pub fn bytes_eq(a: &Vec<u8>, b: &Vec<u8>) -> (r: bool)
    ensures
        r == (a@ == b@),
{
    if a.len() != b.len() {
        return false;
    }
    let mut i: usize = 0;
    while i < a.len()
        invariant
            i <= a.len(),
            a.len() == b.len(),
            forall|j: int| 0 <= j < i ==> a@[j] == b@[j],
        decreases a.len() - i,
    {
        if a[i] != b[i] {
            return false;
        }
        i += 1;
    }
    assert(a@ =~= b@);
    true
}

impl AptComponent {
    /// Whether two components are equal.
    pub fn same(&self, other: &AptComponent) -> (r: bool)
        ensures
            r == (self@ == other@),
    {
        match (self, other) {
            (AptComponent::Custom(a), AptComponent::Custom(b)) => *a == *b,
            (AptComponent::Main, AptComponent::Main) => true,
            (AptComponent::Multiverse, AptComponent::Multiverse) => true,
            (AptComponent::Restricted, AptComponent::Restricted) => true,
            (AptComponent::Universe, AptComponent::Universe) => true,
            _ => false,
        }
    }

    /// The component's name.
    pub fn to_string(&self) -> (s: String)
        ensures
            s@ == component_text(self@),
    {
        match self {
            AptComponent::Custom(c) => c.clone(),
            AptComponent::Main => "main".to_owned(),
            AptComponent::Multiverse => "multiverse".to_owned(),
            AptComponent::Restricted => "restricted".to_owned(),
            AptComponent::Universe => "universe".to_owned(),
        }
    }

    /// The component a name stands for (see [`component_from_text`]).
    pub fn from_text(t: String) -> (c: AptComponent)
        ensures
            c@ == component_from_text(t@),
    {
        if text_eq(&t, "main") {
            AptComponent::Main
        } else if text_eq(&t, "multiverse") {
            AptComponent::Multiverse
        } else if text_eq(&t, "restricted") {
            AptComponent::Restricted
        } else if text_eq(&t, "universe") {
            AptComponent::Universe
        } else {
            AptComponent::Custom(t)
        }
    }

    /// The component named by bytes read as (lossy) UTF-8.
    pub fn from_bytes(bytes: &[u8]) -> (c: AptComponent)
        ensures
            c@ == component_from_text(lossy_text(bytes@)),
    {
        AptComponent::from_text(from_utf8_lossy(bytes))
    }
}

/// The byte encoding of a source: a tag byte (0 APT, 1 GitHub, 2 plz), then
/// for APT the URI, a newline, the suite's byte length (mod 256), the suite,
/// the component name's byte length (mod 256), the name and the signature
/// path; for GitHub the user, a newline and the repository; for plz the
/// source.
pub open spec fn origin_bytes(o: OriginKindView) -> Seq<u8> {
    match o {
        OriginKindView::Apt { uri, suite, component, signature_path } => seq![0u8] + encode_utf8(
            uri,
        ) + seq![10u8] + seq![(encode_utf8(suite).len() % 256) as u8] + encode_utf8(suite) + seq![
            (encode_utf8(component_text(component)).len() % 256) as u8,
        ] + encode_utf8(component_text(component)) + signature_path,
        OriginKindView::Github { user, repo } => seq![1u8] + encode_utf8(user) + seq![10u8]
            + encode_utf8(repo),
        OriginKindView::Plz { source } => seq![2u8] + encode_utf8(source),
    }
}

/// Index of the first newline byte, or -1.
pub open spec fn find_newline(b: Seq<u8>) -> int
    decreases b.len(),
{
    if b.len() == 0 {
        -1
    } else if b[0] == 10 {
        0
    } else {
        let r = find_newline(b.drop_first());
        if r < 0 {
            -1
        } else {
            r + 1
        }
    }
}

proof fn lemma_find_newline(b: Seq<u8>)
    ensures
        -1 <= find_newline(b) < b.len(),
        find_newline(b) >= 0 ==> b[find_newline(b)] == 10,
        find_newline(b) >= 0 ==> forall|j: int| 0 <= j < find_newline(b) ==> b[j] != 10,
        find_newline(b) < 0 ==> forall|j: int| 0 <= j < b.len() ==> b[j] != 10,
    decreases b.len(),
{
    if b.len() > 0 && b[0] != 10 {
        lemma_find_newline(b.drop_first());
        assert forall|j: int| 1 <= j < b.len() implies b[j] == b.drop_first()[j - 1] by {}
    }
}

/// How `OriginKind::from_bytes` reads an encoding. The text fields go
/// through `from_utf8_lossy`. The first field ends before the first newline
/// and the next field starts *at* that newline: for APT the newline byte is
/// then read as the suite's length, for GitHub it starts the repository.
pub open spec fn origin_from_bytes_spec(b: Seq<u8>) -> Result<OriginKindView, ParseErrorView> {
    if b.len() == 0 {
        Err(ParseErrorView::MissingEnumIdentifier)
    } else {
        let ident = b[0];
        let rem = b.drop_first();
        if ident == 0 {
            let i = find_newline(rem);
            if i < 0 {
                Err(ParseErrorView::MissingNewline)
            } else {
                let uri = rem.subrange(0, i);
                let r2 = rem.subrange(i, rem.len() as int);
                if r2.len() == 0 {
                    Err(ParseErrorView::MissingSuiteLength)
                } else {
                    let len = r2[0] as int;
                    let r3 = r2.drop_first();
                    if len > r3.len() {
                        Err(ParseErrorView::MissingSuiteData)
                    } else {
                        let suite = r3.subrange(0, len);
                        let r4 = r3.subrange(len, r3.len() as int);
                        if r4.len() == 0 {
                            Err(ParseErrorView::MissingComponentLength)
                        } else {
                            let len2 = r4[0] as int;
                            let r5 = r4.drop_first();
                            if len2 > r5.len() {
                                Err(ParseErrorView::MissingComponentData)
                            } else {
                                Ok(
                                    OriginKindView::Apt {
                                        uri: lossy_text(uri),
                                        suite: lossy_text(suite),
                                        component: component_from_text(
                                            lossy_text(r5.subrange(0, len2)),
                                        ),
                                        signature_path: r5.subrange(len2, r5.len() as int),
                                    },
                                )
                            }
                        }
                    }
                }
            }
        } else if ident == 1 {
            let i = find_newline(rem);
            if i < 0 {
                Err(ParseErrorView::MissingNewline)
            } else {
                Ok(
                    OriginKindView::Github {
                        user: lossy_text(rem.subrange(0, i)),
                        repo: lossy_text(rem.subrange(i, rem.len() as int)),
                    },
                )
            }
        } else if ident == 2 {
            Ok(OriginKindView::Plz { source: lossy_text(rem) })
        } else {
            Err(ParseErrorView::UnknownIdentifier(ident))
        }
    }
}

/// A plz source survives encoding and decoding.
pub proof fn lemma_plz_bytes_roundtrip(source: Seq<char>)
    ensures
        origin_from_bytes_spec(origin_bytes(OriginKindView::Plz { source })) matches Ok(o)
            && o == (OriginKindView::Plz { source }),
{
    let b = origin_bytes(OriginKindView::Plz { source });
    assert(b.drop_first() =~= encode_utf8(source));
}

/// Appends the UTF-8 bytes of `s`.
fn push_str_bytes(out: &mut Vec<u8>, s: &str)
    ensures
        final(out)@ == old(out)@ + encode_utf8(s@),
{
    let b = s.as_bytes();
    let mut i: usize = 0;
    while i < b.len()
        invariant
            i <= b@.len(),
            b@ == encode_utf8(s@),
            out@ == old(out)@ + b@.subrange(0, i as int),
        decreases b.len() - i,
    {
        out.push(b[i]);
        assert(out@ =~= old(out)@ + b@.subrange(0, i + 1));
        i += 1;
    }
    assert(b@.subrange(0, b@.len() as int) =~= b@);
}

/// Byte length of a string's UTF-8 encoding, modulo 256.
fn len_byte(s: &str) -> (b: u8)
    ensures
        b == (encode_utf8(s@).len() % 256) as u8,
{
    let b = s.as_bytes();
    (b.len() % 256) as u8
}

/// The bytes `b[lo..hi]`.
fn byte_range(b: &[u8], lo: usize, hi: usize) -> (r: Vec<u8>)
    requires
        lo <= hi <= b@.len(),
    ensures
        r@ == b@.subrange(lo as int, hi as int),
{
    let mut r: Vec<u8> = Vec::new();
    let mut i = lo;
    while i < hi
        invariant
            lo <= i <= hi <= b@.len(),
            r@ == b@.subrange(lo as int, i as int),
        decreases hi - i,
    {
        r.push(b[i]);
        assert(r@ =~= b@.subrange(lo as int, i + 1));
        i += 1;
    }
    r
}

fn newline_from(b: &[u8], start: usize) -> (r: Option<usize>)
    requires
        start <= b@.len(),
    ensures
        match r {
            Some(i) => start + find_newline(b@.subrange(start as int, b@.len() as int)) == i
                && start <= i < b@.len() && b@[i as int] == 10,
            None => find_newline(b@.subrange(start as int, b@.len() as int)) < 0,
        },
{
    let ghost s = b@.subrange(start as int, b@.len() as int);
    proof {
        lemma_find_newline(s);
    }
    let mut i = start;
    while i < b.len()
        invariant
            start <= i <= b@.len(),
            s == b@.subrange(start as int, b@.len() as int),
            forall|j: int| start <= j < i ==> b@[j] != 10,
        decreases b.len() - i,
    {
        if b[i] == 10 {
            proof {
                lemma_find_newline(s);
                let f = find_newline(s);
                assert(s[i - start] == b@[i as int]);
                if f >= 0 {
                    assert(s[f] == b@[start + f]);
                }
                if f < 0 {
                    assert(false);
                } else if f < i - start {
                    assert(false);
                } else if f > i - start {
                    assert(false);
                }
            }
            return Some(i);
        }
        i += 1;
    }
    proof {
        let f = find_newline(s);
        if f >= 0 {
            assert(s[f] == b@[start + f]);
        }
    }
    None
}

impl OriginKind {
    /// The byte encoding (see [`origin_bytes`]).
    pub fn as_bytes(&self) -> (b: Vec<u8>)
        ensures
            b@ == origin_bytes(self@),
    {
        let mut bytes: Vec<u8> = Vec::new();
        match self {
            OriginKind::Apt { uri, suite, component, signature_path } => {
                bytes.push(0);
                push_str_bytes(&mut bytes, uri.as_str());
                bytes.push(10);
                bytes.push(len_byte(suite.as_str()));
                push_str_bytes(&mut bytes, suite.as_str());
                let component = component.to_string();
                bytes.push(len_byte(component.as_str()));
                push_str_bytes(&mut bytes, component.as_str());
                let mut i: usize = 0;
                let ghost head = bytes@;
                while i < signature_path.len()
                    invariant
                        i <= signature_path.len(),
                        bytes@ == head + signature_path@.subrange(0, i as int),
                    decreases signature_path.len() - i,
                {
                    bytes.push(signature_path[i]);
                    assert(bytes@ =~= head + signature_path@.subrange(0, i + 1));
                    i += 1;
                }
                assert(signature_path@.subrange(0, signature_path.len() as int)
                    =~= signature_path@);
                assert(bytes@ =~= origin_bytes(self@));
            },
            OriginKind::Github { user, repo } => {
                bytes.push(1);
                push_str_bytes(&mut bytes, user.as_str());
                bytes.push(10);
                push_str_bytes(&mut bytes, repo.as_str());
                assert(bytes@ =~= origin_bytes(self@));
            },
            OriginKind::Plz { source } => {
                bytes.push(2);
                push_str_bytes(&mut bytes, source.as_str());
                assert(bytes@ =~= origin_bytes(self@));
            },
        }
        bytes
    }

    /// Decodes a source (see [`origin_from_bytes_spec`]).
    pub fn from_bytes(bytes: &[u8]) -> (r: Result<OriginKind, ParseError>)
        ensures
            match r {
                Ok(o) => origin_from_bytes_spec(bytes@) == Ok::<OriginKindView, ParseErrorView>(
                    o@,
                ),
                Err(e) => origin_from_bytes_spec(bytes@) == Err::<OriginKindView, ParseErrorView>(
                    e@,
                ),
            },
    {
        if bytes.len() == 0 {
            return Err(ParseError::MissingEnumIdentifier);
        }
        let ghost rem = bytes@.drop_first();
        assert(rem =~= bytes@.subrange(1, bytes@.len() as int));
        let ident = bytes[0];
        if ident == 0 {
            let nl = match newline_from(bytes, 1) {
                None => return Err(ParseError::MissingNewline),
                Some(i) => i,
            };
            // uri = bytes[1..nl]; the newline itself is read as the suite length
            let uri = byte_range(bytes, 1, nl);
            assert(uri@ =~= rem.subrange(0, nl - 1));
            let len = bytes[nl] as usize;
            let s_start = nl + 1;
            if len > bytes.len() - s_start {
                assert(rem.subrange(nl - 1, rem.len() as int).drop_first() =~= bytes@.subrange(
                    s_start as int,
                    bytes@.len() as int,
                ));
                return Err(ParseError::MissingSuiteData);
            }
            let suite = byte_range(bytes, s_start, s_start + len);
            let c_len_at = s_start + len;
            proof {
                let r2 = rem.subrange(nl - 1, rem.len() as int);
                let r3 = r2.drop_first();
                assert(r3 =~= bytes@.subrange(s_start as int, bytes@.len() as int));
                assert(suite@ =~= r3.subrange(0, len as int));
                assert(r3.subrange(len as int, r3.len() as int) =~= bytes@.subrange(
                    c_len_at as int,
                    bytes@.len() as int,
                ));
            }
            if c_len_at >= bytes.len() {
                return Err(ParseError::MissingComponentLength);
            }
            let len2 = bytes[c_len_at] as usize;
            let c_start = c_len_at + 1;
            if len2 > bytes.len() - c_start {
                proof {
                    let r4 = bytes@.subrange(c_len_at as int, bytes@.len() as int);
                    assert(r4.drop_first() =~= bytes@.subrange(c_start as int, bytes@.len() as int));
                }
                return Err(ParseError::MissingComponentData);
            }
            let component = byte_range(bytes, c_start, c_start + len2);
            let sig = byte_range(bytes, c_start + len2, bytes.len());
            proof {
                let r4 = bytes@.subrange(c_len_at as int, bytes@.len() as int);
                let r5 = r4.drop_first();
                assert(r5 =~= bytes@.subrange(c_start as int, bytes@.len() as int));
                assert(component@ =~= r5.subrange(0, len2 as int));
                assert(sig@ =~= r5.subrange(len2 as int, r5.len() as int));
            }
            Ok(
                OriginKind::Apt {
                    uri: from_utf8_lossy(uri.as_slice()),
                    suite: from_utf8_lossy(suite.as_slice()),
                    component: AptComponent::from_bytes(component.as_slice()),
                    signature_path: sig,
                },
            )
        } else if ident == 1 {
            let nl = match newline_from(bytes, 1) {
                None => return Err(ParseError::MissingNewline),
                Some(i) => i,
            };
            let user = byte_range(bytes, 1, nl);
            let repo = byte_range(bytes, nl, bytes.len());
            assert(user@ =~= rem.subrange(0, nl - 1));
            assert(repo@ =~= rem.subrange(nl - 1, rem.len() as int));
            Ok(
                OriginKind::Github {
                    user: from_utf8_lossy(user.as_slice()),
                    repo: from_utf8_lossy(repo.as_slice()),
                },
            )
        } else if ident == 2 {
            let source = byte_range(bytes, 1, bytes.len());
            assert(source@ =~= rem);
            Ok(OriginKind::Plz { source: from_utf8_lossy(source.as_slice()) })
        } else {
            Err(ParseError::UnknownIdentifier(ident))
        }
    }
}

/// Why no metadata endpoint exists for a source.
#[derive(Debug, PartialEq, Eq, Clone, Copy)]
pub enum EndpointError {
    /// APT endpoints are not available in this version.
    AptUnsupported,
    /// GitHub endpoints are not available in this version.
    GithubUnsupported,
}

/// The metadata endpoint of a package on a plz server:
/// `{source}/packages/metadata/{name}`, with `?v={version}` when a version
/// is asked for.
pub open spec fn plz_endpoint(source: Seq<char>, name: Seq<char>, version: Option<Seq<char>>) -> Seq<
    char,
> {
    source + "/packages/metadata/"@ + name + match version {
        Some(v) => "?v="@ + v,
        None => Seq::empty(),
    }
}

impl OriginKind {
    /// Whether two sources are equal.
    pub fn same(&self, other: &OriginKind) -> (r: bool)
        ensures
            r == (self@ == other@),
    {
        match (self, other) {
            (
                OriginKind::Apt { uri: u1, suite: s1, component: c1, signature_path: p1 },
                OriginKind::Apt { uri: u2, suite: s2, component: c2, signature_path: p2 },
            ) => *u1 == *u2 && *s1 == *s2 && c1.same(c2) && bytes_eq(p1, p2),
            (OriginKind::Github { user: u1, repo: r1 }, OriginKind::Github { user: u2, repo: r2 }) =>
                *u1 == *u2 && *r1 == *r2,
            (OriginKind::Plz { source: a }, OriginKind::Plz { source: b }) => *a == *b,
            _ => false,
        }
    }

    /// The URL of a package's metadata at this source; only plz servers
    /// have one.
    pub fn to_endpoint(&self, name: &str, version: Option<&str>) -> (r: Result<
        String,
        EndpointError,
    >)
        ensures
            match self@ {
                OriginKindView::Plz { source } => r matches Ok(s) && s@ == plz_endpoint(
                    source,
                    name@,
                    match version {
                        Some(v) => Some(v@),
                        None => None,
                    },
                ),
                OriginKindView::Apt { .. } => r == Err::<String, EndpointError>(
                    EndpointError::AptUnsupported,
                ),
                OriginKindView::Github { .. } => r == Err::<String, EndpointError>(
                    EndpointError::GithubUnsupported,
                ),
            },
    {
        match self {
            OriginKind::Apt { .. } => Err(EndpointError::AptUnsupported),
            OriginKind::Github { .. } => Err(EndpointError::GithubUnsupported),
            OriginKind::Plz { source } => {
                let mut s = source.clone();
                append_str(&mut s, "/packages/metadata/");
                append_str(&mut s, name);
                match version {
                    Some(v) => {
                        append_str(&mut s, "?v=");
                        append_str(&mut s, v);
                    },
                    None => {},
                }
                proof {
                    match version {
                        Some(v) => {
                            assert(s@ =~= plz_endpoint(source@, name@, Some(v@)));
                        },
                        None => {
                            assert(s@ =~= plz_endpoint(source@, name@, None));
                        },
                    }
                }
                Ok(s)
            },
        }
    }
}

/// The sources a list of server addresses gives, one per line of the text
/// with its surrounding whitespace trimmed: each a plz server.
pub open spec fn sources_spec(text: Seq<char>) -> Seq<OriginKindView> {
    crate::text::split_char(crate::settings::trim(text), '\n').map_values(
        |l: Seq<char>| OriginKindView::Plz { source: l },
    )
}

pub open spec fn origin_views(s: Seq<OriginKind>) -> Seq<OriginKindView> {
    s.map_values(|o: OriginKind| o@)
}

impl OriginKindVec {
    /// The default sources from the text a server lists them in (see
    /// [`sources_spec`]).
    pub fn from_source_list(text: &str) -> (r: OriginKindVec)
        ensures
            origin_views(r.0@) == sources_spec(text@),
    {
        let t = crate::settings::trim_exec(&chars_of(text));
        let lines = crate::text::split_char_exec(&t, '\n');
        let ghost lv = crate::text::split_char(t@, '\n');
        let mut out: Vec<OriginKind> = Vec::new();
        let mut i: usize = 0;
        while i < lines.len()
            invariant
                i <= lines.len(),
                lines@.len() == lv.len(),
                forall|k: int| 0 <= k < lines@.len() ==> #[trigger] lines@[k]@ == lv[k],
                origin_views(out@) =~= lv.subrange(0, i as int).map_values(
                    |l: Seq<char>| OriginKindView::Plz { source: l },
                ),
            decreases lines.len() - i,
        {
            let ghost before = origin_views(out@);
            out.push(OriginKind::Plz { source: crate::text::string_of_all(&lines[i]) });
            assert(origin_views(out@) =~= before.push(OriginKindView::Plz { source: lv[i as int] }));
            i += 1;
        }
        assert(lv.subrange(0, lines.len() as int) =~= lv);
        OriginKindVec(out)
    }
}

} // verus!
