//! Package versions: `major.minor.patch[-pre][+build]`, their order, parser
//! and printed form.
use vstd::prelude::*;
use crate::errors::{ParseError, ParseErrorView};
use crate::text::{
    append_chars, append_str, chars_of, decimal, decimal_exec, find_pat, lemma_decimal,
    lemma_find_char_at, lemma_find_char_concat, lemma_find_char_none, lemma_find_pat,
    lemma_parse_decimal, lemma_split_char_concat_text, parse_usize, parse_usize_spec, push_char, split_char, split_char_exec,
    split_once_char, split_once_char_exec, string_of_all,
};

verus! {

/// A package version.
#[derive(Debug, Default, PartialEq, Eq, Hash)]
pub struct Version {
    pub major: usize,
    pub minor: usize,
    pub patch: usize,
    pub pre: String,
    pub build: Option<String>,
}

/// The abstract value of a [`Version`].
pub struct VersionView {
    pub major: usize,
    pub minor: usize,
    pub patch: usize,
    pub pre: Seq<char>,
    pub build: Option<Seq<char>>,
}

pub open spec fn opt_view(o: Option<String>) -> Option<Seq<char>> {
    match o {
        Some(s) => Some(s@),
        None => None,
    }
}

impl View for Version {
    type V = VersionView;

    open spec fn view(&self) -> VersionView {
        VersionView {
            major: self.major,
            minor: self.minor,
            patch: self.patch,
            pre: self.pre@,
            build: opt_view(self.build),
        }
    }
}

/// Copies an optional string.
pub fn clone_opt_string(o: &Option<String>) -> (r: Option<String>)
    ensures
        opt_view(r) == opt_view(*o),
{
    match o {
        Some(s) => Some(s.clone()),
        None => None,
    }
}

impl Clone for Version {
    fn clone(&self) -> (r: Self)
        ensures
            r@ == self@,
    {
        Version {
            major: self.major,
            minor: self.minor,
            patch: self.patch,
            pre: self.pre.clone(),
            build: clone_opt_string(&self.build),
        }
    }
}

// ---------------------------------------------------------------------------
// Order
// ---------------------------------------------------------------------------

/// Lexicographic order of character sequences by code point; for strings
/// this is the byte order of their UTF-8 encodings, which `String` uses.
pub open spec fn chars_lt(a: Seq<char>, b: Seq<char>) -> bool
    decreases a.len(),
{
    if a.len() == 0 {
        b.len() > 0
    } else if b.len() == 0 {
        false
    } else if a[0] < b[0] {
        true
    } else if a[0] == b[0] {
        chars_lt(a.drop_first(), b.drop_first())
    } else {
        false
    }
}

/// `Option<String>` order: absent before present, present ones by content.
pub open spec fn build_lt(a: Option<Seq<char>>, b: Option<Seq<char>>) -> bool {
    match (a, b) {
        (None, Some(_)) => true,
        (Some(x), Some(y)) => chars_lt(x, y),
        _ => false,
    }
}

/// Version order: by major, minor, patch, then pre-release text, then build
/// text, each compared only when all before it are equal.
pub open spec fn version_lt(a: VersionView, b: VersionView) -> bool {
    if a.major != b.major {
        a.major < b.major
    } else if a.minor != b.minor {
        a.minor < b.minor
    } else if a.patch != b.patch {
        a.patch < b.patch
    } else if a.pre != b.pre {
        chars_lt(a.pre, b.pre)
    } else {
        build_lt(a.build, b.build)
    }
}

pub open spec fn version_le(a: VersionView, b: VersionView) -> bool {
    a == b || version_lt(a, b)
}

pub proof fn lemma_chars_lt_irrefl(a: Seq<char>)
    ensures
        !chars_lt(a, a),
    decreases a.len(),
{
    if a.len() > 0 {
        lemma_chars_lt_irrefl(a.drop_first());
    }
}

pub proof fn lemma_chars_lt_asym(a: Seq<char>, b: Seq<char>)
    ensures
        !(chars_lt(a, b) && chars_lt(b, a)),
    decreases a.len(),
{
    if a.len() > 0 && b.len() > 0 && a[0] == b[0] {
        lemma_chars_lt_asym(a.drop_first(), b.drop_first());
    }
}

pub proof fn lemma_chars_lt_trans(a: Seq<char>, b: Seq<char>, c: Seq<char>)
    requires
        chars_lt(a, b),
        chars_lt(b, c),
    ensures
        chars_lt(a, c),
    decreases a.len(),
{
    if a.len() > 0 && b.len() > 0 && c.len() > 0 && a[0] == b[0] && b[0] == c[0] {
        lemma_chars_lt_trans(a.drop_first(), b.drop_first(), c.drop_first());
    }
}

pub proof fn lemma_chars_lt_total(a: Seq<char>, b: Seq<char>)
    ensures
        a == b || chars_lt(a, b) || chars_lt(b, a),
    decreases a.len(),
{
    if a.len() > 0 && b.len() > 0 {
        if a[0] == b[0] {
            lemma_chars_lt_total(a.drop_first(), b.drop_first());
            if a.drop_first() == b.drop_first() {
                assert(a =~= seq![a[0]] + a.drop_first());
                assert(b =~= seq![b[0]] + b.drop_first());
            }
        }
    } else if a.len() == 0 && b.len() == 0 {
        assert(a =~= b);
    }
}

/// The version order is a strict total order.
pub proof fn lemma_version_order(a: VersionView, b: VersionView, c: VersionView)
    ensures
        !version_lt(a, a),
        !(version_lt(a, b) && version_lt(b, a)),
        version_lt(a, b) && version_lt(b, c) ==> version_lt(a, c),
        a == b || version_lt(a, b) || version_lt(b, a),
{
    lemma_chars_lt_irrefl(a.pre);
    lemma_chars_lt_asym(a.pre, b.pre);
    lemma_chars_lt_total(a.pre, b.pre);
    if a.build is Some {
        lemma_chars_lt_irrefl(a.build->0);
    }
    if a.build is Some && b.build is Some {
        lemma_chars_lt_asym(a.build->0, b.build->0);
        lemma_chars_lt_total(a.build->0, b.build->0);
    }
    if version_lt(a, b) && version_lt(b, c) {
        if a.major == b.major && b.major == c.major && a.minor == b.minor && b.minor == c.minor
            && a.patch == b.patch && b.patch == c.patch {
            if a.pre != b.pre && b.pre != c.pre {
                lemma_chars_lt_trans(a.pre, b.pre, c.pre);
                if a.pre == c.pre {
                    lemma_chars_lt_asym(a.pre, b.pre);
                }
            } else if a.pre == b.pre && b.pre == c.pre {
                if a.build is Some && b.build is Some && c.build is Some {
                    lemma_chars_lt_trans(a.build->0, b.build->0, c.build->0);
                }
            }
        }
    }
}

/// Versions are ordered by their numbers first, each ascending: a smaller
/// major number comes first; with equal majors a smaller minor number; with
/// equal majors and minors a smaller patch number.
pub proof fn lemma_version_numbers_ascend(a: VersionView, b: VersionView)
    ensures
        a.major < b.major ==> version_lt(a, b),
        a.major == b.major && a.minor < b.minor ==> version_lt(a, b),
        a.major == b.major && a.minor == b.minor && a.patch < b.patch ==> version_lt(a, b),
        a.major > b.major ==> !version_lt(a, b),
        a.major == b.major && a.minor > b.minor ==> !version_lt(a, b),
        a.major == b.major && a.minor == b.minor && a.patch > b.patch ==> !version_lt(a, b),
{
}

/// `<=` on versions is transitive and total, and antisymmetric.
pub proof fn lemma_version_le(a: VersionView, b: VersionView, c: VersionView)
    ensures
        version_le(a, b) && version_le(b, c) ==> version_le(a, c),
        version_le(a, b) || version_le(b, a),
        version_le(a, b) && version_le(b, a) ==> a == b,
        version_le(a, b) <==> !version_lt(b, a),
{
    lemma_version_order(a, b, c);
    lemma_version_order(b, a, c);
    lemma_version_order(a, c, b);
}

fn chars_lt_exec(a: &Vec<char>, b: &Vec<char>) -> (r: bool)
    ensures
        r == chars_lt(a@, b@),
{
    let mut i: usize = 0;
    assert(a@.subrange(0, a@.len() as int) =~= a@);
    assert(b@.subrange(0, b@.len() as int) =~= b@);
    while i < a.len() && i < b.len()
        invariant
            i <= a.len(),
            i <= b.len(),
            chars_lt(a@, b@) == chars_lt(a@.subrange(i as int, a@.len() as int), b@.subrange(
                i as int,
                b@.len() as int,
            )),
        decreases a.len() - i,
    {
        let x = a[i];
        let y = b[i];
        proof {
            let sa = a@.subrange(i as int, a@.len() as int);
            let sb = b@.subrange(i as int, b@.len() as int);
            assert(sa[0] == x);
            assert(sb[0] == y);
            assert(sa.drop_first() =~= a@.subrange(i + 1, a@.len() as int));
            assert(sb.drop_first() =~= b@.subrange(i + 1, b@.len() as int));
        }
        if x < y {
            return true;
        }
        if x != y {
            return false;
        }
        i += 1;
    }
    i >= a.len() && i < b.len()
}

fn build_lt_exec(a: &Option<String>, b: &Option<String>) -> (r: bool)
    ensures
        r == build_lt(opt_view(*a), opt_view(*b)),
{
    match (a, b) {
        (None, Some(_)) => true,
        (Some(x), Some(y)) => {
            let xs = chars_of(x.as_str());
            let ys = chars_of(y.as_str());
            chars_lt_exec(&xs, &ys)
        },
        _ => false,
    }
}

impl Version {
    /// Whether `self` and `other` are the same version (all fields equal).
    pub fn same(&self, other: &Version) -> (r: bool)
        ensures
            r == (self@ == other@),
    {
        let b = match (&self.build, &other.build) {
            (None, None) => true,
            (Some(x), Some(y)) => *x == *y,
            _ => false,
        };
        self.major == other.major && self.minor == other.minor && self.patch == other.patch
            && self.pre == other.pre && b
    }

    /// Whether `self` comes strictly before `other`.
    pub fn lt(&self, other: &Version) -> (r: bool)
        ensures
            r == version_lt(self@, other@),
    {
        if self.major != other.major {
            self.major < other.major
        } else if self.minor != other.minor {
            self.minor < other.minor
        } else if self.patch != other.patch {
            self.patch < other.patch
        } else if !(self.pre == other.pre) {
            let a = chars_of(self.pre.as_str());
            let b = chars_of(other.pre.as_str());
            chars_lt_exec(&a, &b)
        } else {
            build_lt_exec(&self.build, &other.build)
        }
    }

    /// Whether `self` comes before or is `other`.
    pub fn le(&self, other: &Version) -> (r: bool)
        ensures
            r == version_le(self@, other@),
    {
        self.same(other) || self.lt(other)
    }

    /// Three-way comparison in the version order.
    pub fn compare(&self, other: &Version) -> (r: std::cmp::Ordering)
        ensures
            (r == std::cmp::Ordering::Less) == version_lt(self@, other@),
            (r == std::cmp::Ordering::Equal) == (self@ == other@),
            (r == std::cmp::Ordering::Greater) == version_lt(other@, self@),
    {
        proof {
            lemma_version_order(self@, other@, self@);
        }
        if self.lt(other) {
            std::cmp::Ordering::Less
        } else if self.same(other) {
            std::cmp::Ordering::Equal
        } else {
            std::cmp::Ordering::Greater
        }
    }
}

// ---------------------------------------------------------------------------
// Text form
// ---------------------------------------------------------------------------

/// The printed form: `major.minor.patch`, then `-pre` when `pre` is not
/// empty, then `+build` when there is a build.
pub open spec fn version_text(v: VersionView) -> Seq<char> {
    decimal(v.major as nat) + seq!['.'] + decimal(v.minor as nat) + seq!['.'] + decimal(
        v.patch as nat,
    ) + (if v.pre.len() == 0 {
        Seq::empty()
    } else {
        seq!['-'] + v.pre
    }) + match v.build {
        Some(b) => seq!['+'] + b,
        None => Seq::empty(),
    }
}

/// How `Version::parse` reads a string: the build is what follows the first
/// `+`, the pre-release what follows the first `-` before it, and the rest
/// is one to three `.`-separated numbers, missing ones being 0.
pub open spec fn version_parse_spec(src: Seq<char>) -> Result<VersionView, ParseErrorView> {
    let (s1, build) = match split_once_char(src, '+') {
        Some((a, b)) => (a, Some(b)),
        None => (src, None),
    };
    let (s2, pre) = match split_once_char(s1, '-') {
        Some((a, b)) => (a, b),
        None => (s1, Seq::empty()),
    };
    let parts = split_char(s2, '.');
    match parse_usize_spec(parts[0]) {
        None => Err(ParseErrorView::MajorNotNumber(parts[0])),
        Some(major) => if parts.len() < 2 {
            Ok(VersionView { major, minor: 0, patch: 0, pre, build })
        } else {
            match parse_usize_spec(parts[1]) {
                None => Err(ParseErrorView::MinorNotNumber(parts[1])),
                Some(minor) => if parts.len() < 3 {
                    Ok(VersionView { major, minor, patch: 0, pre, build })
                } else {
                    match parse_usize_spec(parts[2]) {
                        None => Err(ParseErrorView::PatchNotNumber(parts[1])),
                        Some(patch) => if parts.len() > 3 {
                            Err(ParseErrorView::TooManySegments)
                        } else {
                            Ok(VersionView { major, minor, patch, pre, build })
                        },
                    }
                },
            }
        },
    }
}

pub proof fn lemma_split_nonempty(s: Seq<char>, c: char)
    ensures
        split_char(s, c).len() >= 1,
{
    let p = seq![c];
    if find_pat(s, p) >= 0 {
        lemma_find_pat(s, p);
    }
}

/// A sequence without the separator splits into itself.
pub proof fn lemma_split_char_single(a: Seq<char>, c: char)
    requires
        !a.contains(c),
    ensures
        split_char(a, c) == seq![a],
{
    lemma_find_char_none(a, c);
}

/// `split_once` at a first separator.
pub proof fn lemma_split_once_char_concat(a: Seq<char>, c: char, rest: Seq<char>)
    requires
        !a.contains(c),
    ensures
        split_once_char(a + seq![c] + rest, c) == Some((a, rest)),
{
    let s = a + seq![c] + rest;
    lemma_find_char_concat(a, seq![c] + rest, c);
    assert((seq![c] + rest)[0] == c);
    lemma_find_char_at(seq![c] + rest, c, 0);
    assert(a + (seq![c] + rest) =~= s);
    assert(s.subrange(0, a.len() as int) =~= a);
    assert(s.subrange(a.len() as int + 1, s.len() as int) =~= rest);
}

/// Printing a version and parsing it back gives the version, provided its
/// pre-release text holds no `+` (the parser splits the build off at the
/// first `+`).
pub proof fn lemma_version_roundtrip(v: VersionView)
    requires
        !v.pre.contains('+'),
    ensures
        version_parse_spec(version_text(v)) == Ok::<VersionView, ParseErrorView>(v),
{
    let d1 = decimal(v.major as nat);
    let d2 = decimal(v.minor as nat);
    let d3 = decimal(v.patch as nat);
    lemma_decimal(v.major as nat);
    lemma_decimal(v.minor as nat);
    lemma_decimal(v.patch as nat);
    lemma_parse_decimal(v.major);
    lemma_parse_decimal(v.minor);
    lemma_parse_decimal(v.patch);
    let nums = d1 + seq!['.'] + d2 + seq!['.'] + d3;
    let pre_part = if v.pre.len() == 0 {
        Seq::<char>::empty()
    } else {
        seq!['-'] + v.pre
    };
    let head = nums + pre_part;
    assert(version_text(v) == head + match v.build {
        Some(b) => seq!['+'] + b,
        None => Seq::<char>::empty(),
    });
    assert(!nums.contains('+') && !nums.contains('-')) by {
        assert forall|i: int| 0 <= i < nums.len() implies nums[i] != '+' && nums[i] != '-' by {
            if i < d1.len() {
                assert(nums[i] == d1[i]);
                assert(d1.contains(d1[i]));
            } else if i == d1.len() {
            } else if i < d1.len() + 1 + d2.len() {
                assert(nums[i] == d2[i - d1.len() - 1]);
                assert(d2.contains(d2[i - d1.len() - 1]));
            } else if i == d1.len() + 1 + d2.len() {
            } else {
                assert(nums[i] == d3[i - d1.len() - 2 - d2.len()]);
                assert(d3.contains(d3[i - d1.len() - 2 - d2.len()]));
            }
        }
    }
    assert(!head.contains('+')) by {
        assert forall|i: int| 0 <= i < head.len() implies head[i] != '+' by {
            if i < nums.len() {
                assert(head[i] == nums[i]);
                assert(nums.contains(nums[i]) ==> nums[i] != '+');
            } else if v.pre.len() > 0 {
                if i == nums.len() {
                } else {
                    assert(head[i] == v.pre[i - nums.len() - 1]);
                    assert(v.pre.contains(v.pre[i - nums.len() - 1]));
                }
            }
        }
    }
    // the build comes off at the first `+`
    match v.build {
        Some(b) => {
            assert(version_text(v) =~= head + seq!['+'] + b);
            lemma_split_once_char_concat(head, '+', b);
        },
        None => {
            assert(version_text(v) =~= head);
            lemma_find_char_none(head, '+');
        },
    }
    let (s1, build) = match split_once_char(version_text(v), '+') {
        Some((a, b)) => (a, Some(b)),
        None => (version_text(v), None),
    };
    assert(s1 == head && build == v.build);
    // the pre-release comes off at the first `-`
    if v.pre.len() > 0 {
        assert(head =~= nums + seq!['-'] + v.pre);
        lemma_split_once_char_concat(nums, '-', v.pre);
    } else {
        assert(head =~= nums);
        lemma_find_char_none(nums, '-');
    }
    let (s2, pre) = match split_once_char(s1, '-') {
        Some((a, b)) => (a, b),
        None => (s1, Seq::empty()),
    };
    assert(s2 == nums && pre == v.pre);
    // the numbers
    assert(!d1.contains('.') && !d2.contains('.') && !d3.contains('.'));
    assert(nums =~= d1 + seq!['.'] + (d2 + seq!['.'] + d3));
    lemma_split_char_concat_text(d1, '.', d2 + seq!['.'] + d3);
    lemma_split_char_concat_text(d2, '.', d3);
    lemma_split_char_single(d3, '.');
    let parts = split_char(nums, '.');
    assert(parts =~= seq![d1, d2, d3]);
    assert(parse_usize_spec(parts[0]) == Some(v.major));
    assert(parse_usize_spec(parts[1]) == Some(v.minor));
    assert(parse_usize_spec(parts[2]) == Some(v.patch));
}

impl Version {
    /// Reads a version from its text form (see [`version_parse_spec`]).
    pub fn parse(src: &str) -> (r: Result<Version, ParseError>)
        ensures
            match r {
                Ok(v) => version_parse_spec(src@) == Ok::<VersionView, ParseErrorView>(v@),
                Err(e) => version_parse_spec(src@) == Err::<VersionView, ParseErrorView>(e@),
            },
    {
        let all = chars_of(src);
        let (s1, build) = match split_once_char_exec(&all, '+') {
            Some((a, b)) => (a, Some(string_of_all(&b))),
            None => (all, None),
        };
        let (s2, pre) = match split_once_char_exec(&s1, '-') {
            Some((a, b)) => (a, string_of_all(&b)),
            None => (s1, String::new()),
        };
        let parts = split_char_exec(&s2, '.');
        proof {
            lemma_split_nonempty(s2@, '.');
        }
        let major = match parse_usize(&parts[0]) {
            None => {
                return Err(ParseError::MajorNotNumber(string_of_all(&parts[0])));
            },
            Some(m) => m,
        };
        if parts.len() < 2 {
            return Ok(Version { major, minor: 0, patch: 0, pre, build });
        }
        let minor = match parse_usize(&parts[1]) {
            None => {
                return Err(ParseError::MinorNotNumber(string_of_all(&parts[1])));
            },
            Some(m) => m,
        };
        if parts.len() < 3 {
            return Ok(Version { major, minor, patch: 0, pre, build });
        }
        let patch = match parse_usize(&parts[2]) {
            None => {
                return Err(ParseError::PatchNotNumber(string_of_all(&parts[1])));
            },
            Some(m) => m,
        };
        if parts.len() > 3 {
            return Err(ParseError::TooManySegments);
        }
        Ok(Version { major, minor, patch, pre, build })
    }

    /// The printed form (see [`version_text`]).
    pub fn to_string(&self) -> (s: String)
        ensures
            s@ == version_text(self@),
    {
        let mut s = String::new();
        append_chars(&mut s, &decimal_exec(self.major));
        push_char(&mut s, '.');
        append_chars(&mut s, &decimal_exec(self.minor));
        push_char(&mut s, '.');
        append_chars(&mut s, &decimal_exec(self.patch));
        let ghost nums = s@;
        if !self.pre.as_str().is_empty() {
            push_char(&mut s, '-');
            append_str(&mut s, self.pre.as_str());
        }
        let ghost with_pre = s@;
        match &self.build {
            Some(b) => {
                push_char(&mut s, '+');
                append_str(&mut s, b.as_str());
            },
            None => {},
        }
        proof {
            if self.pre@.len() == 0 {
                assert(with_pre =~= nums + Seq::<char>::empty());
            } else {
                assert(with_pre =~= nums + (seq!['-'] + self.pre@));
            }
            match &self.build {
                Some(b) => {
                    assert(s@ =~= with_pre + (seq!['+'] + b@));
                },
                None => {
                    assert(s@ =~= with_pre + Seq::<char>::empty());
                },
            }
        }
        s
    }
}

} // verus!
