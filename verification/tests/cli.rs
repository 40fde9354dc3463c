use plz::commands::configure::{set_value, SetError};
use plz::commands::{choice_answer, name_list, pair_args, root_command, Builder, CommandFunc};
use plz::flags::{specific_flag, yes_flag, Flag, FlagFunc};
use plz::settings::{Arch, ArchError, LockStep, SettingsError, SettingsJson, ShellType};

fn strings(v: &[&str]) -> Vec<String> {
    v.iter().map(|x| x.to_string()).collect()
}

#[test]
fn flag_help_lines() {
    assert_eq!(yes_flag().help(), "-y, --yes\tBypasses applicable confirmation dialogs.");
    let force = Flag::new(None, "force", "bypasses the warning", false, false, FlagFunc::ShoveForce);
    assert_eq!(force.help(), "    --force\tbypasses the warning");
    assert_eq!(specific_flag().short, Some('s'));
    assert_eq!(specific_flag().flag_func, FlagFunc::ShoveSpecific);
    assert_eq!(FlagFunc::ShoveYes.state_key(), Some("yes"));
    assert_eq!(FlagFunc::SetHandle.state_key(), None);
}

#[test]
fn commands_are_built() {
    let h = strings(&["plz"]);
    let install = plz::commands::install::build(&h);
    assert_eq!(install.name, "install");
    assert_eq!(install.aliases, strings(&["i"]));
    assert_eq!(install.run_func, CommandFunc::Install);
    assert_eq!(install.hierarchy, h);
    assert_eq!(install.flags.len(), 2);
    let purge = plz::commands::remove::build_purge(&h);
    assert_eq!(purge.aliases, strings(&["p"]));
    assert_eq!(purge.run_func, CommandFunc::Purge);
    let remove = plz::commands::remove::build_remove(&h);
    assert_eq!(remove.run_func, CommandFunc::Remove);
    let configure = plz::commands::configure::build(&h);
    assert_eq!(configure.run_func, CommandFunc::GetHelp);
    assert_eq!(configure.flags[0].long, "set");
    assert!(configure.flags[0].consumer);
    let init = plz::commands::plz_init::build(&h);
    assert_eq!(init.name, "plz-init");
    assert!(init.aliases.is_empty());
    assert_eq!(plz::commands::dew_init::build(&h).name, "pax-init");
    assert_eq!(plz::commands::unbind::build(&h).aliases, strings(&["e"]));
    assert_eq!(plz::commands::update::build(&h).flags.len(), 0);
    assert_eq!(plz::commands::upgrade::build(&h).run_func, CommandFunc::Upgrade);
    let root = root_command("plz");
    assert_eq!(root.subcommands.as_ref().map(|s| s.len()), Some(8));
    assert_eq!(Builder::Install.build(&h).name, "install");
}

#[test]
fn argument_pairs() {
    let args = strings(&["a", "1.0", "b", "2.0", "c"]);
    assert_eq!(
        pair_args(&args, true),
        vec![("a".to_string(), Some("1.0".to_string())), ("b".to_string(), Some("2.0".to_string()))]
    );
    assert_eq!(
        pair_args(&strings(&["a", "b"]), false),
        vec![("a".to_string(), None), ("b".to_string(), None)]
    );
}

#[test]
fn name_listing() {
    assert_eq!(name_list(&strings(&["a", "b", "c"])), "a b c");
    assert_eq!(name_list(&Vec::new()), "");
}

#[test]
fn yes_no_answers() {
    assert!(choice_answer("\n", true));
    assert!(!choice_answer("No\n", true));
    assert!(!choice_answer("  F ", true));
    assert!(choice_answer("maybe", true));
    assert!(choice_answer("YES\n", false));
    assert!(choice_answer("t", false));
    assert!(!choice_answer("\n", false));
}

#[test]
fn set_values() {
    assert_eq!(set_value(Some("exec=/bin/doas")), Ok(Some("/bin/doas".to_string())));
    assert_eq!(set_value(Some("exec=")), Ok(None));
    assert_eq!(set_value(Some("exec")), Err(SetError::InvalidSyntax));
    assert_eq!(set_value(Some("shell=fish")), Err(SetError::UnrecognizedKey("shell".to_string())));
    assert_eq!(set_value(None), Err(SetError::MissingArgument));
}

#[test]
fn architecture_compatibility() {
    assert_eq!(Arch::Any.is_compatible("p", &Arch::Aarch64), Ok(true));
    assert_eq!(Arch::X86_64.is_compatible("p", &Arch::X86_64v4), Ok(true));
    assert_eq!(Arch::X86_64v3.is_compatible("p", &Arch::X86_64v4), Ok(false));
    assert_eq!(Arch::Aarch64.is_compatible("p", &Arch::Aarch64), Ok(true));
    assert_eq!(Arch::NoArch.is_compatible("p", &Arch::Any), Err(ArchError::Unrecognized("p".to_string())));
}

#[test]
fn architecture_detection() {
    assert_eq!(SettingsJson::detect_arch(Some("aarch64\n"), None), Ok(Arch::Aarch64));
    assert_eq!(SettingsJson::detect_arch(Some("armv7l"), None), Ok(Arch::Armv7l));
    assert_eq!(SettingsJson::detect_arch(Some("riscv64"), None), Ok(Arch::NoArch));
    assert_eq!(SettingsJson::detect_arch(None, None), Ok(Arch::NoArch));
    assert_eq!(SettingsJson::detect_arch(Some("x86_64"), None), Err(SettingsError::CpuInfoUnreadable));
    let v2 = "flags : cx16 lahf popcnt sse4_1 sse4_2 ssse3";
    assert_eq!(SettingsJson::detect_arch(Some("x86_64"), Some(v2)), Ok(Arch::X86_64v2));
    let v4 = "avx512f avx512bw avx512cd avx512dq avx512vl";
    assert_eq!(SettingsJson::detect_arch(Some("x86_64"), Some(v4)), Ok(Arch::X86_64v4));
    // flags must be whole words
    assert_eq!(SettingsJson::detect_arch(Some("x86_64"), Some("xcx16 lahf")), Ok(Arch::X86_64));
}

#[test]
fn fresh_settings() {
    let s = SettingsJson::new(&[false, true, true, false, true], "1".to_string(), Arch::Any).unwrap();
    assert_eq!(s.shell, ShellType::Bash);
    assert!(!s.locked);
    assert_eq!(s.executor, None);
    assert!(s.sources.0.is_empty());
    assert_eq!(SettingsJson::new(&[false; 5], "1".to_string(), Arch::Any), Err(SettingsError::NoShell));
    assert_eq!(ShellType::Custom("nu".to_string()).to_string(), "nu");
    assert_eq!(ShellType::Fish.to_string(), "fish");
}

#[test]
fn lock_steps() {
    let mut s = SettingsJson::new(&[true; 5], "1".to_string(), Arch::Any).unwrap();
    assert_eq!(s.lock_step(false), LockStep::Elevate);
    assert_eq!(s.lock_step(true), LockStep::Acquire);
    s.locked = true;
    assert_eq!(s.lock_step(true), LockStep::Wait);
}

#[test]
fn ascii_replies_are_lowercased() {
    assert!(choice_answer("Y", false));
    assert!(!choice_answer("N", true));
    assert!(!choice_answer("FALSE", true));
}
