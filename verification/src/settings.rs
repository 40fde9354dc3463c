//! Settings: the machine's architecture and shell, and the decisions made
//! from what the system reports about them.
use vstd::prelude::*;
use crate::origin::OriginKindVec;
use crate::text::chars_of;

verus! {

/// CPU architectures packages are built for.
#[derive(Debug, PartialEq, Eq, Structural, Hash, Clone, Copy)]
pub enum Arch {
    Any,
    X86_64,
    X86_64v2,
    X86_64v3,
    X86_64v4,
    Aarch64,
    Armv7l,
    Armv8l,
    NoArch,
}

/// The shell that runs package scripts.
#[derive(Debug, PartialEq)]
pub enum ShellType {
    Fish,
    Zsh,
    Bash,
    Ash,
    Sh,
    Custom(String),
}

/// The settings file.
#[derive(Debug, PartialEq)]
pub struct SettingsJson {
    pub locked: bool,
    pub shell: ShellType,
    pub version: String,
    pub arch: Arch,
    pub executor: Option<String>,
    pub sources: OriginKindVec,
}

/// Why an architecture check failed.
#[derive(Debug, PartialEq, Eq)]
pub enum ArchError {
    /// The package names an architecture that is not recognised; holds the
    /// package's name.
    Unrecognized(String),
}

/// Whether a package built for `a` runs on a machine of architecture
/// `installed`: `Any` runs everywhere, plain x86-64 on every x86-64 level,
/// every other known architecture only on itself; `NoArch` is an error.
pub open spec fn compatible(a: Arch, installed: Arch) -> Option<bool> {
    match a {
        Arch::Any => Some(true),
        Arch::X86_64 => Some(
            installed == Arch::X86_64 || installed == Arch::X86_64v2 || installed == Arch::X86_64v3
                || installed == Arch::X86_64v4,
        ),
        Arch::NoArch => None,
        _ => Some(installed == a),
    }
}

impl Arch {
    /// Checks a package's architecture against the machine's (see
    /// [`compatible`]); `name` is the package's, for the error.
    pub fn is_compatible(&self, name: &str, installed: &Arch) -> (r: Result<bool, ArchError>)
        ensures
            match compatible(*self, *installed) {
                Some(b) => r == Ok::<bool, ArchError>(b),
                None => r matches Err(ArchError::Unrecognized(n)) && n@ == name@,
            },
    {
        match self {
            Arch::Any => Ok(true),
            Arch::X86_64 => Ok(
                *installed == Arch::X86_64 || *installed == Arch::X86_64v2 || *installed
                    == Arch::X86_64v3 || *installed == Arch::X86_64v4,
            ),
            Arch::NoArch => Err(ArchError::Unrecognized(name.to_owned())),
            _ => Ok(*installed == *self),
        }
    }
}

// ---------------------------------------------------------------------------
// Whitespace-separated words
// ---------------------------------------------------------------------------

/// `char::is_whitespace`: the Unicode `White_Space` characters.
pub open spec fn is_ws(c: char) -> bool {
    ('\u{9}' <= c && c <= '\u{d}') || c == ' ' || c == '\u{85}' || c == '\u{a0}' || c
        == '\u{1680}' || ('\u{2000}' <= c && c <= '\u{200a}') || c == '\u{2028}' || c
        == '\u{2029}' || c == '\u{202f}' || c == '\u{205f}' || c == '\u{3000}'
}

pub fn is_ws_exec(c: char) -> (b: bool)
    ensures
        b == is_ws(c),
{
    ('\u{9}' <= c && c <= '\u{d}') || c == ' ' || c == '\u{85}' || c == '\u{a0}' || c
        == '\u{1680}' || ('\u{2000}' <= c && c <= '\u{200a}') || c == '\u{2028}' || c
        == '\u{2029}' || c == '\u{202f}' || c == '\u{205f}' || c == '\u{3000}'
}

/// `w` occurs in `t` at position `i`, with whitespace (or an end of `t`)
/// on both sides.
pub open spec fn word_at(t: Seq<char>, w: Seq<char>, i: int) -> bool {
    &&& 0 <= i
    &&& i + w.len() <= t.len()
    &&& t.subrange(i, i + w.len()) == w
    &&& (i == 0 || is_ws(t[i - 1]))
    &&& (i + w.len() == t.len() || is_ws(t[i + w.len()]))
}

/// `w` occurs in `t` as one of its whitespace-separated words.
pub open spec fn has_word(t: Seq<char>, w: Seq<char>) -> bool {
    exists|i: int| #[trigger] word_at(t, w, i)
}

/// `str::trim`: without leading and trailing whitespace.
pub open spec fn trim(t: Seq<char>) -> Seq<char> {
    let s = trim_start(t);
    let e = trim_end(t);
    t.subrange(s, if e < s { s } else { e })
}

/// Index of the first non-whitespace character (the length if none).
pub open spec fn trim_start(t: Seq<char>) -> int
    decreases t.len(),
{
    if t.len() == 0 {
        0
    } else if is_ws(t[0]) {
        1 + trim_start(t.drop_first())
    } else {
        0
    }
}

/// One past the last non-whitespace character (0 if none).
pub open spec fn trim_end(t: Seq<char>) -> int
    decreases t.len(),
{
    if t.len() == 0 {
        0
    } else if is_ws(t.last()) {
        trim_end(t.drop_last())
    } else {
        t.len() as int
    }
}

proof fn lemma_trim_start(t: Seq<char>)
    ensures
        0 <= trim_start(t) <= t.len(),
        forall|j: int| 0 <= j < trim_start(t) ==> is_ws(t[j]),
        trim_start(t) < t.len() ==> !is_ws(t[trim_start(t)]),
    decreases t.len(),
{
    if t.len() > 0 && is_ws(t[0]) {
        lemma_trim_start(t.drop_first());
        assert forall|j: int| 1 <= j < t.len() implies t[j] == t.drop_first()[j - 1] by {}
    }
}

proof fn lemma_trim_end(t: Seq<char>)
    ensures
        0 <= trim_end(t) <= t.len(),
        forall|j: int| trim_end(t) <= j < t.len() ==> is_ws(t[j]),
        trim_end(t) > 0 ==> !is_ws(t[trim_end(t) - 1]),
    decreases t.len(),
{
    if t.len() > 0 && is_ws(t.last()) {
        let d = t.drop_last();
        lemma_trim_end(d);
        assert forall|j: int| 0 <= j < d.len() implies t[j] == d[j] by {}
        assert forall|j: int| trim_end(t) <= j < t.len() implies is_ws(t[j]) by {
            if j < d.len() {
                assert(t[j] == d[j]);
            }
        }
    }
}

/// The characters of `t` without leading and trailing whitespace.
pub fn trim_exec(t: &Vec<char>) -> (r: Vec<char>)
    ensures
        r@ == trim(t@),
{
    proof {
        lemma_trim_start(t@);
        lemma_trim_end(t@);
    }
    let mut a: usize = 0;
    while a < t.len() && is_ws_exec(t[a])
        invariant
            a <= t.len(),
            a <= trim_start(t@),
            forall|j: int| 0 <= j < trim_start(t@) ==> is_ws(t@[j]),
            trim_start(t@) < t@.len() ==> !is_ws(t@[trim_start(t@)]),
            trim_start(t@) <= t@.len(),
        decreases t.len() - a,
    {
        a += 1;
    }
    assert(a == trim_start(t@));
    let mut b: usize = t.len();
    while b > a && is_ws_exec(t[b - 1])
        invariant
            a <= b <= t.len(),
            b >= trim_end(t@),
            forall|j: int| trim_end(t@) <= j < t@.len() ==> is_ws(t@[j]),
            trim_end(t@) > 0 ==> !is_ws(t@[trim_end(t@) - 1]),
            trim_end(t@) >= 0,
        decreases b,
    {
        b -= 1;
    }
    assert(b == if trim_end(t@) < a { a as int } else { trim_end(t@) });
    crate::text::slice_chars(t, a, b)
}

/// Whether `w` stands at position `i` of `t` as a whole word.
fn word_at_exec(t: &Vec<char>, w: &Vec<char>, i: usize) -> (b: bool)
    requires
        i <= t.len(),
    ensures
        b == word_at(t@, w@, i as int),
{
    if crate::text::matches_at_exec(t, w, i) {
        let before_ok = i == 0 || is_ws_exec(t[i - 1]);
        let after_ok = i + w.len() == t.len() || is_ws_exec(t[i + w.len()]);
        before_ok && after_ok
    } else {
        false
    }
}

/// Whether `w` is one of the whitespace-separated words of `t` (for a
/// non-empty `w` without whitespace).
pub fn has_word_exec(t: &Vec<char>, w: &Vec<char>) -> (b: bool)
    ensures
        b == has_word(t@, w@),
{
    let mut i: usize = 0;
    while i < t.len()
        invariant
            i <= t.len(),
            forall|j: int| 0 <= j < i ==> !#[trigger] word_at(t@, w@, j),
        decreases t.len() - i,
    {
        if word_at_exec(t, w, i) {
            return true;
        }
        i += 1;
    }
    if word_at_exec(t, w, i) {
        return true;
    }
    proof {
        if has_word(t@, w@) {
            let j = choose|j: int| word_at(t@, w@, j);
            assert(j <= t@.len());
        }
    }
    false
}

/// Whether all of `words` are among the words of `t`.
fn has_all_words(t: &Vec<char>, words: &[&str]) -> (b: bool)
    ensures
        b == forall|k: int| 0 <= k < words@.len() ==> has_word(t@, #[trigger] words@[k]@),
{
    let mut k: usize = 0;
    while k < words.len()
        invariant
            k <= words@.len(),
            forall|j: int| 0 <= j < k ==> has_word(t@, #[trigger] words@[j]@),
        decreases words.len() - k,
    {
        let w = chars_of(words[k]);
        if !has_word_exec(t, &w) {
            return false;
        }
        k += 1;
    }
    true
}

pub open spec fn has_all(t: Seq<char>, words: Seq<Seq<char>>) -> bool {
    forall|k: int| 0 <= k < words.len() ==> has_word(t, #[trigger] words[k])
}

pub open spec fn level4_flags() -> Seq<Seq<char>> {
    seq!["avx512f"@, "avx512bw"@, "avx512cd"@, "avx512dq"@, "avx512vl"@]
}

pub open spec fn level3_flags() -> Seq<Seq<char>> {
    seq![
        "avx"@,
        "avx2"@,
        "bmi1"@,
        "bmi2"@,
        "f16c"@,
        "fma"@,
        "abm"@,
        "movbe"@,
        "xsave"@,
    ]
}

pub open spec fn level2_flags() -> Seq<Seq<char>> {
    seq!["cx16"@, "lahf"@, "popcnt"@, "sse4_1"@, "sse4_2"@, "ssse3"@]
}

/// The x86-64 level that CPU flags (the words of `/proc/cpuinfo`) reach.
pub open spec fn x86_level(cpuinfo: Seq<char>) -> Arch {
    if has_all(cpuinfo, level4_flags()) {
        Arch::X86_64v4
    } else if has_all(cpuinfo, level3_flags()) {
        Arch::X86_64v3
    } else if has_all(cpuinfo, level2_flags()) {
        Arch::X86_64v2
    } else {
        Arch::X86_64
    }
}

/// The architecture a trimmed `uname -m` answer names (x86-64 is refined by
/// the CPU flags separately).
pub open spec fn machine_arch(m: Seq<char>) -> Arch {
    if m == "aarch64"@ {
        Arch::Aarch64
    } else if m == "armv7l"@ {
        Arch::Armv7l
    } else if m == "armv8l"@ {
        Arch::Armv8l
    } else {
        Arch::NoArch
    }
}

/// Why settings could not be made.
#[derive(Debug, PartialEq, Eq)]
pub enum SettingsError {
    /// None of the supported shells is installed.
    NoShell,
    /// `/proc/cpuinfo` could not be read on an x86-64 machine.
    CpuInfoUnreadable,
}

/// The `i`-th shell in order of preference: fish, bash, zsh, ash, sh.
pub open spec fn shell_of(i: int) -> ShellType {
    if i == 0 {
        ShellType::Fish
    } else if i == 1 {
        ShellType::Bash
    } else if i == 2 {
        ShellType::Zsh
    } else if i == 3 {
        ShellType::Ash
    } else {
        ShellType::Sh
    }
}

fn words_eq(a: &Vec<char>, b: &str) -> (r: bool)
    ensures
        r == (a@ == b@),
{
    let y = chars_of(b);
    if a.len() != y.len() {
        assert(a@.len() != y@.len());
        return false;
    }
    let mut i: usize = 0;
    while i < a.len()
        invariant
            i <= a.len(),
            a.len() == y.len(),
            y@ == b@,
            forall|j: int| 0 <= j < i ==> a@[j] == y@[j],
        decreases a.len() - i,
    {
        if a[i] != y[i] {
            assert(a@[i as int] != y@[i as int]);
            return false;
        }
        i += 1;
    }
    assert(a@ =~= y@);
    true
}

impl ShellType {
    /// The shell's command name.
    pub fn to_string(&self) -> (s: String)
        ensures
            s@ == shell_text(*self),
    {
        match self {
            ShellType::Fish => "fish".to_owned(),
            ShellType::Zsh => "zsh".to_owned(),
            ShellType::Bash => "bash".to_owned(),
            ShellType::Ash => "ash".to_owned(),
            ShellType::Sh => "sh".to_owned(),
            ShellType::Custom(c) => c.clone(),
        }
    }
}

/// The command name of a shell.
pub open spec fn shell_text(s: ShellType) -> Seq<char> {
    match s {
        ShellType::Fish => "fish"@,
        ShellType::Zsh => "zsh"@,
        ShellType::Bash => "bash"@,
        ShellType::Ash => "ash"@,
        ShellType::Sh => "sh"@,
        ShellType::Custom(c) => c@,
    }
}

impl SettingsJson {
    /// The preferred shell among those found on the system (`found[i]` says
    /// whether `which` finds the `i`-th of fish, bash, zsh, ash, sh).
    pub fn pick_shell(found: &[bool; 5]) -> (r: Option<ShellType>)
        ensures
            match r {
                Some(s) => exists|i: int|
                    0 <= i < 5 && found@[i] && (forall|j: int| 0 <= j < i ==> !found@[j]) && s
                        == #[trigger] shell_of(i),
                None => forall|i: int| 0 <= i < 5 ==> !found@[i],
            },
    {
        if found[0] {
            assert(shell_of(0) == ShellType::Fish);
            Some(ShellType::Fish)
        } else if found[1] {
            assert(shell_of(1) == ShellType::Bash);
            Some(ShellType::Bash)
        } else if found[2] {
            assert(shell_of(2) == ShellType::Zsh);
            Some(ShellType::Zsh)
        } else if found[3] {
            assert(shell_of(3) == ShellType::Ash);
            Some(ShellType::Ash)
        } else if found[4] {
            assert(shell_of(4) == ShellType::Sh);
            Some(ShellType::Sh)
        } else {
            None
        }
    }

    /// The machine's architecture from the answer of `uname -m` (`None` when
    /// it could not run) and, for x86-64, the contents of `/proc/cpuinfo`
    /// (`None` when they could not be read, an error).
    pub fn detect_arch(machine: Option<&str>, cpuinfo: Option<&str>) -> (r: Result<
        Arch,
        SettingsError,
    >)
        ensures
            match machine {
                None => r == Ok::<Arch, SettingsError>(Arch::NoArch),
                Some(m) => if trim(m@) == "x86_64"@ {
                    match cpuinfo {
                        None => r == Err::<Arch, SettingsError>(SettingsError::CpuInfoUnreadable),
                        Some(c) => r == Ok::<Arch, SettingsError>(x86_level(c@)),
                    }
                } else {
                    r == Ok::<Arch, SettingsError>(machine_arch(trim(m@)))
                },
            },
    {
        let m = match machine {
            None => return Ok(Arch::NoArch),
            Some(m) => m,
        };
        let t = trim_exec(&chars_of(m));
        if words_eq(&t, "x86_64") {
            let info = match cpuinfo {
                None => return Err(SettingsError::CpuInfoUnreadable),
                Some(c) => chars_of(c),
            };
            let l4: [&str; 5] = ["avx512f", "avx512bw", "avx512cd", "avx512dq", "avx512vl"];
            let l3: [&str; 9] = [
                "avx",
                "avx2",
                "bmi1",
                "bmi2",
                "f16c",
                "fma",
                "abm",
                "movbe",
                "xsave",
            ];
            let l2: [&str; 6] = ["cx16", "lahf", "popcnt", "sse4_1", "sse4_2", "ssse3"];
            proof {
                assert(l4@.map_values(|w: &str| w@) =~= level4_flags());
                assert(l3@.map_values(|w: &str| w@) =~= level3_flags());
                assert(l2@.map_values(|w: &str| w@) =~= level2_flags());
            }
            let r = if has_all_words(&info, l4.as_slice()) {
                Arch::X86_64v4
            } else if has_all_words(&info, l3.as_slice()) {
                Arch::X86_64v3
            } else if has_all_words(&info, l2.as_slice()) {
                Arch::X86_64v2
            } else {
                Arch::X86_64
            };
            proof {
                assert(has_all(info@, level4_flags()) == (forall|k: int|
                    0 <= k < l4@.len() ==> has_word(info@, #[trigger] l4@[k]@)));
                assert(has_all(info@, level3_flags()) == (forall|k: int|
                    0 <= k < l3@.len() ==> has_word(info@, #[trigger] l3@[k]@)));
                assert(has_all(info@, level2_flags()) == (forall|k: int|
                    0 <= k < l2@.len() ==> has_word(info@, #[trigger] l2@[k]@)));
            }
            Ok(r)
        } else if words_eq(&t, "aarch64") {
            Ok(Arch::Aarch64)
        } else if words_eq(&t, "armv7l") {
            Ok(Arch::Armv7l)
        } else if words_eq(&t, "armv8l") {
            Ok(Arch::Armv8l)
        } else {
            Ok(Arch::NoArch)
        }
    }

    /// Fresh settings: unlocked, the preferred installed shell, the given
    /// settings-format version and architecture, no `exec` and no sources.
    pub fn new(found_shells: &[bool; 5], version: String, arch: Arch) -> (r: Result<
        SettingsJson,
        SettingsError,
    >)
        ensures
            match r {
                Ok(s) => {
                    &&& !s.locked
                    &&& s.version@ == version@
                    &&& s.arch == arch
                    &&& s.executor is None
                    &&& s.sources.0@.len() == 0
                    &&& exists|i: int|
                        0 <= i < 5 && found_shells@[i] && (forall|j: int|
                            0 <= j < i ==> !found_shells@[j]) && s.shell == shell_of(i)
                },
                Err(e) => e == SettingsError::NoShell && forall|i: int|
                    0 <= i < 5 ==> !found_shells@[i],
            },
    {
        let shell = match SettingsJson::pick_shell(found_shells) {
            None => return Err(SettingsError::NoShell),
            Some(s) => s,
        };
        Ok(
            SettingsJson {
                locked: false,
                shell,
                version,
                arch,
                executor: None,
                sources: OriginKindVec(Vec::new()),
            },
        )
    }
}

/// The next step of taking the settings lock.
#[derive(Debug, PartialEq, Eq, Structural, Clone, Copy)]
pub enum LockStep {
    /// Not running as root: rerun elevated.
    Elevate,
    /// Another process holds the lock: wait and read the settings again.
    Wait,
    /// Take the lock (set `locked` and write the settings).
    Acquire,
}

impl SettingsJson {
    /// What to do about the lock, as root or not, with the settings read.
    pub fn lock_step(&self, is_root: bool) -> (s: LockStep)
        ensures
            s == (if !is_root {
                LockStep::Elevate
            } else if self.locked {
                LockStep::Wait
            } else {
                LockStep::Acquire
            }),
    {
        if !is_root {
            LockStep::Elevate
        } else if self.locked {
            LockStep::Wait
        } else {
            LockStep::Acquire
        }
    }
}

} // verus!
