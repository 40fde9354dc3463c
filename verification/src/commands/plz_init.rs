//! `plz-init`: pulls the default package sources.
use vstd::prelude::*;
use crate::commands::{Command, CommandFunc};
use crate::flags::{Flag, FlagFunc};
use crate::text::string_views;

verus! {

/// The `plz-init` command, without aliases, with the `--force` flag
/// that it needs before it pulls the default sources.
pub fn build(hierarchy: &[String]) -> (c: Command)
    ensures
        c.name@ == "plz-init"@,
        c.aliases@.len() == 0,
        c.about@ == "Initializes the endpoints for plz"@,
        c.flags@.len() == 1,
        c.flags@[0].short is None,
        c.flags@[0].long@ == "force"@,
        c.flags@[0].about@ == "bypasses the warning before running the command"@,
        !c.flags@[0].consumer,
        !c.flags@[0].breakpoint,
        c.flags@[0].flag_func == FlagFunc::ShoveForce,
        c.subcommands is None,
        c.run_func == CommandFunc::Init,
        string_views(c.hierarchy@) == string_views(hierarchy@),
{
    let force = Flag::new(
        None,
        "force",
        "bypasses the warning before running the command",
        false,
        false,
        FlagFunc::ShoveForce,
    );
    Command::new(
        "plz-init",
        Vec::new(),
        "Initializes the endpoints for plz",
        vec![force],
        None,
        CommandFunc::Init,
        hierarchy,
    )
}

} // verus!
