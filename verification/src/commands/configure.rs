//! `configure`: changes settings.
use vstd::prelude::*;
use crate::commands::{Command, CommandFunc};
use crate::flags::{Flag, FlagFunc, yes_flag};
use crate::text::string_views;

verus! {

/// The `configure` command (alias `c`): the consuming, breaking `--set`
/// flag (`-s`) and the `yes` flag; run alone it shows its help.
pub fn build(hierarchy: &[String]) -> (c: Command)
    ensures
        c.name@ == "configure"@,
        string_views(c.aliases@) == seq!["c"@],
        c.about@ == "Configures internal PLZ settings."@,
        c.flags@.len() == 2,
        c.flags@[0].short == Some('s'),
        c.flags@[0].long@ == "set"@,
        c.flags@[0].about@ == "Command to set options in the SettingsJSON file."@,
        c.flags@[0].consumer,
        c.flags@[0].breakpoint,
        c.flags@[0].flag_func == FlagFunc::SetHandle,
        crate::flags::is_yes_flag(c.flags@[1]),
        c.subcommands is None,
        c.run_func == CommandFunc::GetHelp,
        string_views(c.hierarchy@) == string_views(hierarchy@),
{
    let setting = Flag::new(
        Some('s'),
        "set",
        "Command to set options in the SettingsJSON file.",
        true,
        true,
        FlagFunc::SetHandle,
    );
    let aliases = vec!["c".to_owned()];
    assert(string_views(aliases@) =~= seq!["c"@]);
    Command::new(
        "configure",
        aliases,
        "Configures internal PLZ settings.",
        vec![setting, yes_flag()],
        None,
        CommandFunc::GetHelp,
        hierarchy,
    )
}

/// Why `--set` could not change a setting.
#[derive(Debug, PartialEq, Eq)]
pub enum SetError {
    /// `--set` was given no argument.
    MissingArgument,
    /// The argument is not `key=value`.
    InvalidSyntax,
    /// The key (held) is not a setting.
    UnrecognizedKey(String),
}

/// The new value of the `exec` setting that `--set "exec=value"` asks for:
/// none for an empty value. `exec` is the only key.
pub fn set_value(arg: Option<&str>) -> (r: Result<Option<String>, SetError>)
    ensures
        match arg {
            None => r == Err::<Option<String>, SetError>(SetError::MissingArgument),
            Some(a) => match crate::text::split_once_char(a@, '=') {
                None => r == Err::<Option<String>, SetError>(SetError::InvalidSyntax),
                Some((key, value)) => if key == seq!['e', 'x', 'e', 'c'] {
                    r matches Ok(o) && match o {
                        None => value.len() == 0,
                        Some(v) => value.len() > 0 && v@ == value,
                    }
                } else {
                    r matches Err(SetError::UnrecognizedKey(k)) && k@ == key
                },
            },
        },
{
    let a = match arg {
        None => return Err(SetError::MissingArgument),
        Some(a) => a,
    };
    let c = crate::text::chars_of(a);
    let (key, value) = match crate::text::split_once_char_exec(&c, '=') {
        None => return Err(SetError::InvalidSyntax),
        Some(p) => p,
    };
    let exec_key = ['e', 'x', 'e', 'c'];
    assert(exec_key@ == seq!['e', 'x', 'e', 'c']);
    if crate::apt::chars_are(&key, &exec_key) {
        if value.len() == 0 {
            Ok(None)
        } else {
            Ok(Some(crate::text::string_of_all(&value)))
        }
    } else {
        Err(SetError::UnrecognizedKey(crate::text::string_of_all(&key)))
    }
}

} // verus!
