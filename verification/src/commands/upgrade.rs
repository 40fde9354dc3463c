//! `upgrade`: upgrades packages from their upgrade metadata.
use vstd::prelude::*;
use crate::commands::{Command, CommandFunc};
use crate::flags::yes_flag;
use crate::text::string_views;

verus! {

/// The `upgrade` command (alias `g`), with the `yes` flag.
pub fn build(hierarchy: &[String]) -> (c: Command)
    ensures
        c.name@ == "upgrade"@,
        string_views(c.aliases@) == seq!["g"@],
        c.about@ == "Upgrades a non-phased package from its upgrade metadata."@,
        c.flags@.len() == 1,
        crate::flags::is_yes_flag(c.flags@[0]),
        c.subcommands is None,
        c.run_func == CommandFunc::Upgrade,
        string_views(c.hierarchy@) == string_views(hierarchy@),
{
    let aliases = vec!["g".to_owned()];
    assert(string_views(aliases@) =~= seq!["g"@]);
    Command::new(
        "upgrade",
        aliases,
        "Upgrades a non-phased package from its upgrade metadata.",
        vec![yes_flag()],
        None,
        CommandFunc::Upgrade,
        hierarchy,
    )
}

} // verus!
