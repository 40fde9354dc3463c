//! The commands of the program and how their arguments are read.
use vstd::prelude::*;
use crate::flags::Flag;
use crate::apt::chars_are;
use crate::text::string_views;

pub mod configure;
pub mod dew_init;
pub mod install;
pub mod plz_init;
pub mod remove;
pub mod unbind;
pub mod update;
pub mod upgrade;

verus! {

/// What running a command does.
#[derive(Debug, PartialEq, Eq, Structural, Clone, Copy)]
pub enum CommandFunc {
    GetHelp,
    Install,
    Remove,
    Purge,
    Init,
    Unbind,
    Update,
    Upgrade,
}

/// The subcommands a command can have, each built under its parent.
#[derive(Debug, PartialEq, Eq, Structural, Clone, Copy)]
pub enum Builder {
    Configure,
    Unbind,
    Install,
    PlzInit,
    Purge,
    Remove,
    Update,
    Upgrade,
}

/// A command: its name and aliases, its help text, its flags, its
/// subcommands, what it runs, and the names of the commands above it.
#[derive(Debug)]
pub struct Command {
    pub name: String,
    pub aliases: Vec<String>,
    pub about: String,
    pub flags: Vec<Flag>,
    pub subcommands: Option<Vec<Builder>>,
    pub run_func: CommandFunc,
    pub hierarchy: Vec<String>,
}

/// A copy of a list of texts.
pub fn copy_strings(v: &[String]) -> (r: Vec<String>)
    ensures
        string_views(r@) == string_views(v@),
{
    let mut out: Vec<String> = Vec::new();
    let mut i: usize = 0;
    while i < v.len()
        invariant
            i <= v.len(),
            string_views(out@) =~= string_views(v@).subrange(0, i as int),
        decreases v.len() - i,
    {
        let ghost before = string_views(out@);
        out.push(v[i].clone());
        assert(string_views(out@) =~= before.push(v@[i as int]@));
        i += 1;
    }
    out
}

impl Command {
    pub fn new(
        name: &str,
        aliases: Vec<String>,
        about: &str,
        flags: Vec<Flag>,
        subcommands: Option<Vec<Builder>>,
        run_func: CommandFunc,
        hierarchy: &[String],
    ) -> (c: Command)
        ensures
            c.name@ == name@,
            c.aliases == aliases,
            c.about@ == about@,
            c.flags == flags,
            c.subcommands == subcommands,
            c.run_func == run_func,
            string_views(c.hierarchy@) == string_views(hierarchy@),
    {
        Command {
            name: name.to_owned(),
            aliases,
            about: about.to_owned(),
            flags,
            subcommands,
            run_func,
            hierarchy: copy_strings(hierarchy),
        }
    }
}

impl Builder {
    /// Builds the subcommand under the commands `hierarchy`.
    pub fn build(&self, hierarchy: &[String]) -> (c: Command)
        ensures
            string_views(c.hierarchy@) == string_views(hierarchy@),
            c.run_func == match *self {
                Builder::Configure => CommandFunc::GetHelp,
                Builder::Unbind => CommandFunc::Unbind,
                Builder::Install => CommandFunc::Install,
                Builder::PlzInit => CommandFunc::Init,
                Builder::Purge => CommandFunc::Purge,
                Builder::Remove => CommandFunc::Remove,
                Builder::Update => CommandFunc::Update,
                Builder::Upgrade => CommandFunc::Upgrade,
            },
    {
        match self {
            Builder::Configure => configure::build(hierarchy),
            Builder::Unbind => unbind::build(hierarchy),
            Builder::Install => install::build(hierarchy),
            Builder::PlzInit => plz_init::build(hierarchy),
            Builder::Purge => remove::build_purge(hierarchy),
            Builder::Remove => remove::build_remove(hierarchy),
            Builder::Update => update::build(hierarchy),
            Builder::Upgrade => upgrade::build(hierarchy),
        }
    }
}

/// The packages named by a command's arguments: with `specific`, each name
/// followed by its version (a name left without one is dropped); otherwise
/// every argument is a name.
pub open spec fn paired(args: Seq<Seq<char>>, specific: bool) -> Seq<(Seq<char>, Option<Seq<char>>)> {
    if specific {
        Seq::new(args.len() / 2, |i: int| (args[2 * i], Some(args[2 * i + 1])))
    } else {
        Seq::new(args.len(), |i: int| (args[i], None))
    }
}

pub open spec fn pair_views(s: Seq<(String, Option<String>)>) -> Seq<(Seq<char>, Option<Seq<char>>)> {
    s.map_values(|p: (String, Option<String>)| (p.0@, match p.1 {
        Some(v) => Some(v@),
        None => None,
    }))
}

/// Reads a command's arguments as packages (see [`paired`]).
pub fn pair_args(args: &Vec<String>, specific: bool) -> (r: Vec<(String, Option<String>)>)
    ensures
        pair_views(r@) == paired(string_views(args@), specific),
{
    let ghost av = string_views(args@);
    let mut out: Vec<(String, Option<String>)> = Vec::new();
    if specific {
        let mut i: usize = 0;
        while i < args.len() / 2
            invariant
                i <= args.len() / 2,
                av == string_views(args@),
                pair_views(out@) =~= paired(av, true).subrange(0, i as int),
            decreases args.len() / 2 - i,
        {
            let ghost before = pair_views(out@);
            out.push((args[2 * i].clone(), Some(args[2 * i + 1].clone())));
            assert(pair_views(out@) =~= before.push((av[2 * i], Some(av[2 * i + 1]))));
            i += 1;
        }
    } else {
        let mut i: usize = 0;
        while i < args.len()
            invariant
                i <= args.len(),
                av == string_views(args@),
                pair_views(out@) =~= paired(av, false).subrange(0, i as int),
            decreases args.len() - i,
        {
            let ghost before = pair_views(out@);
            out.push((args[i].clone(), None));
            assert(pair_views(out@) =~= before.push((av[i as int], None)));
            i += 1;
        }
    }
    out
}

/// The names joined as the listings print them: each after a space, with
/// the surrounding whitespace trimmed.
pub open spec fn spaced(names: Seq<Seq<char>>) -> Seq<char>
    decreases names.len(),
{
    if names.len() == 0 {
        Seq::empty()
    } else {
        spaced(names.drop_last()) + seq![' '] + names.last()
    }
}

/// The listing of package names (see [`spaced`]).
pub fn name_list(names: &Vec<String>) -> (s: String)
    ensures
        s@ == crate::settings::trim(spaced(string_views(names@))),
{
    let ghost nv = string_views(names@);
    let mut acc: String = String::new();
    let mut i: usize = 0;
    assert(nv.subrange(0, 0) =~= Seq::<Seq<char>>::empty());
    while i < names.len()
        invariant
            i <= names.len(),
            nv == string_views(names@),
            acc@ == spaced(nv.subrange(0, i as int)),
        decreases names.len() - i,
    {
        assert(nv.subrange(0, i + 1).drop_last() =~= nv.subrange(0, i as int));
        crate::text::push_char(&mut acc, ' ');
        crate::text::append_str(&mut acc, names[i].as_str());
        assert(acc@ =~= spaced(nv.subrange(0, i + 1)));
        i += 1;
    }
    assert(nv.subrange(0, names.len() as int) =~= nv);
    let chars = crate::text::chars_of(acc.as_str());
    let t = crate::settings::trim_exec(&chars);
    crate::text::string_of_all(&t)
}

/// What `str::to_lowercase` gives for a text.
pub uninterp spec fn lowercase(s: Seq<char>) -> Seq<char>;

/// Every character of `s` is ASCII.
pub open spec fn is_ascii_text(s: Seq<char>) -> bool {
    forall|i: int| 0 <= i < s.len() ==> (s[i] as int) < 128
}

/// `c` lowercased the ASCII way: `A` to `Z` become `a` to `z`, every other
/// character stays.
pub open spec fn ascii_lower_char(c: char) -> char {
    if 'A' <= c && c <= 'Z' {
        ((c as int) + 32) as char
    } else {
        c
    }
}

/// Each character of `s` lowercased the ASCII way.
pub open spec fn ascii_lower(s: Seq<char>) -> Seq<char> {
    s.map_values(|c: char| ascii_lower_char(c))
}

/// `str::to_lowercase`: the text lowercased by the Unicode `Lowercase`
/// property. The result is named [`lowercase`], a function of the text
/// alone; of an ASCII text it is stated that `A` to `Z` become `a` to `z`
/// and every other character stays, as the Unicode mapping does for ASCII.
/// What it gives for other characters is not stated.
#[verifier::external_body]
fn to_lowercase(s: &str) -> (r: String)
    ensures
        r@ == lowercase(s@),
        is_ascii_text(s@) ==> r@ == ascii_lower(s@),
{
    s.to_lowercase()
}

/// The answer to a yes/no question from the lowercased, trimmed reply `t`:
/// when the default is yes, anything but `no`, `n`, `false`, `f`; when it
/// is no, only `yes`, `y`, `true`, `t`.
pub open spec fn answer(t: Seq<char>, default_yes: bool) -> bool {
    if default_yes {
        !(t == seq!['n', 'o'] || t == seq!['n'] || t == seq!['f', 'a', 'l', 's', 'e'] || t == seq![
            'f',
        ])
    } else {
        t == seq!['y', 'e', 's'] || t == seq!['y'] || t == seq!['t', 'r', 'u', 'e'] || t == seq![
            't',
        ]
    }
}

/// The answer a reply gives (see [`answer`]), once lowercased and trimmed;
/// an ASCII reply is lowercased letter by letter.
pub fn choice_answer(input: &str, default_yes: bool) -> (b: bool)
    ensures
        b == answer(crate::settings::trim(lowercase(input@)), default_yes),
        is_ascii_text(input@) ==> b == answer(crate::settings::trim(ascii_lower(input@)), default_yes),
{
    let lowered = to_lowercase(input);
    let t = crate::settings::trim_exec(&crate::text::chars_of(lowered.as_str()));
    let no = ['n', 'o'];
    let n = ['n'];
    let fa = ['f', 'a', 'l', 's', 'e'];
    let f = ['f'];
    let yes = ['y', 'e', 's'];
    let y = ['y'];
    let tr = ['t', 'r', 'u', 'e'];
    let tt = ['t'];
    assert(no@ == seq!['n', 'o']);
    assert(n@ == seq!['n']);
    assert(fa@ == seq!['f', 'a', 'l', 's', 'e']);
    assert(f@ == seq!['f']);
    assert(yes@ == seq!['y', 'e', 's']);
    assert(y@ == seq!['y']);
    assert(tr@ == seq!['t', 'r', 'u', 'e']);
    assert(tt@ == seq!['t']);
    if default_yes {
        !(chars_are(&t, &no) || chars_are(&t, &n) || chars_are(&t, &fa) || chars_are(&t, &f))
    } else {
        chars_are(&t, &yes) || chars_are(&t, &y) || chars_are(&t, &tr) || chars_are(&t, &tt)
    }
}

/// The program's own command, named `name`: the package manager's help,
/// with every command below it.
pub fn root_command(name: &str) -> (c: Command)
    ensures
        c.name@ == name@,
        c.aliases@.len() == 0,
        c.about@ == "The PLZ package manager."@,
        c.flags@.len() == 0,
        c.subcommands matches Some(s) && s@ == seq![
            Builder::Configure,
            Builder::Unbind,
            Builder::Install,
            Builder::PlzInit,
            Builder::Purge,
            Builder::Remove,
            Builder::Update,
            Builder::Upgrade,
        ],
        c.run_func == CommandFunc::GetHelp,
        c.hierarchy@.len() == 0,
{
    let subs = vec![
        Builder::Configure,
        Builder::Unbind,
        Builder::Install,
        Builder::PlzInit,
        Builder::Purge,
        Builder::Remove,
        Builder::Update,
        Builder::Upgrade,
    ];
    assert(subs@ =~= seq![
        Builder::Configure,
        Builder::Unbind,
        Builder::Install,
        Builder::PlzInit,
        Builder::Purge,
        Builder::Remove,
        Builder::Update,
        Builder::Upgrade,
    ]);
    let none: Vec<String> = Vec::new();
    let c = Command::new(
        name,
        Vec::new(),
        "The PLZ package manager.",
        Vec::new(),
        Some(subs),
        CommandFunc::GetHelp,
        none.as_slice(),
    );
    assert(string_views(c.hierarchy@).len() == c.hierarchy@.len());
    c
}

} // verus!
