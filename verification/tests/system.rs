use ohmyzsh_gui::system::{
    absolute_path, checkout_check, clean_check, command_output, join, syntax_verdict, write_check, Environment,
    WriteStage,
};

#[test]
fn default_layout_under_home() {
    let e = Environment::at("/home/u".into(), "linux".into(), None).unwrap();
    assert_eq!(e.config, "/home/u/.zshrc");
    assert_eq!(e.data, "/home/u/.ohmyzsh-gui");
    assert_eq!(e.zsh, "/home/u/.oh-my-zsh");
    assert_eq!(e.custom, "/home/u/.oh-my-zsh/custom");
    assert_eq!(e.plugin_path("git").unwrap(), "/home/u/.oh-my-zsh/custom/plugins/git");
    assert_eq!(e.theme_path("..").unwrap_err(), "Invalid plugin directory name");
    assert_eq!(
        e.quarantine_path("git", "7"),
        "/home/u/.ohmyzsh-gui/quarantine/git-7"
    );
    assert_eq!(e.backup_file("9"), "/home/u/.ohmyzsh-gui/backups/9.zshrc");
}

#[test]
fn layout_follows_literal_paths_in_zshrc() {
    let e = Environment::at(
        "/home/u".into(),
        "linux".into(),
        Some("export ZSH=\"$HOME/omz\"\nZSH_CUSTOM=~/extra\n".into()),
    )
    .unwrap();
    assert_eq!(e.zsh, "/home/u/omz");
    assert_eq!(e.custom, "/home/u/extra");
    let e = Environment::at(
        "/home/u".into(),
        "linux".into(),
        Some("ZSH=/opt/omz\n".into()),
    )
    .unwrap();
    assert_eq!(e.custom, "/opt/omz/custom");
    assert_eq!(
        Environment::at("/home/u".into(), "l".into(), Some("ZSH=$(pwd)\n".into())).unwrap_err(),
        "Dynamic ZSH/ZSH_CUSTOM path needs manual configuration; no shell evaluation is performed"
    );
    assert_eq!(
        Environment::at("/home/u".into(), "l".into(), Some("ZSH=omz\n".into())).unwrap_err(),
        "ZSH paths must be absolute"
    );
}

#[test]
fn paths_join_like_path_join() {
    assert_eq!(join("/a", "b"), "/a/b");
    assert_eq!(join("/a/", "b"), "/a/b");
    assert_eq!(join("/a", "/b"), "/b");
    assert_eq!(join("", "b"), "b");
}

#[test]
fn wsl_paths_are_rewritten_for_the_shell() {
    let mut e = Environment::at("/home/u".into(), "linux".into(), None).unwrap();
    assert_eq!(e.shell_path("/x/y").unwrap(), "/x/y");
    e.wsl = Some("Ubuntu".into());
    assert_eq!(
        e.shell_path("\\\\wsl.localhost\\Ubuntu\\home\\u\\.zshrc").unwrap(),
        "/home/u/.zshrc"
    );
    assert_eq!(
        e.shell_path("C:\\x").unwrap_err(),
        "Path is outside the selected WSL distribution"
    );
    let (p, a) = e.program("git", false);
    assert_eq!(p, "wsl.exe");
    assert_eq!(a, vec!["--distribution", "Ubuntu", "--exec", "git"]);
}

#[test]
fn git_runs_without_hooks_or_credentials() {
    let e = Environment::at("/home/u".into(), "linux".into(), None).unwrap();
    let a = e
        .git_args("/h", Some("/p".into()), &vec!["status".into()])
        .unwrap();
    assert_eq!(a[1], "core.hooksPath=/h");
    assert_eq!(a[a.len() - 3], "-C");
    assert_eq!(a[a.len() - 2], "/p");
    assert_eq!(a[a.len() - 1], "status");
    assert!(a.contains(&"protocol.file.allow=never".to_string()));
    let (p, rest) = e.program("zsh", true);
    assert_eq!(p, "/bin/zsh");
    assert!(rest.is_empty());
    assert_eq!(e.program("zsh", false).0, "zsh");
}

#[test]
fn command_results_and_checks() {
    assert_eq!(command_output(true, " out \n", "").unwrap(), "out");
    assert_eq!(command_output(false, "", " bad \n").unwrap_err(), "bad");
    let long = "e".repeat(2000);
    assert_eq!(command_output(false, "", &long).unwrap_err().len(), 1500);
    assert_eq!(
        syntax_verdict(true, false, " parse error\n").unwrap_err(),
        "zsh syntax check: parse error"
    );
    assert_eq!(
        syntax_verdict(false, false, "").unwrap_err(),
        "zsh is unavailable; configuration was not changed"
    );
    assert!(syntax_verdict(true, true, "").is_ok());
    assert_eq!(
        write_check(WriteStage::Before, "a", "b", true).unwrap_err(),
        ".zshrc changed since preview. Reload and preview again."
    );
    assert_eq!(
        write_check(WriteStage::Replace, "a", "a", false).unwrap_err(),
        "Config changed during Apply; original retained"
    );
    assert_eq!(
        write_check(WriteStage::Readback, "a", "b", true).unwrap_err(),
        "Write readback mismatch"
    );
    assert!(write_check(WriteStage::Before, "a", "a", false).is_ok());
    assert_eq!(
        checkout_check(true, true).unwrap_err(),
        "Only normal Git checkouts can be managed"
    );
    assert!(checkout_check(true, false).is_ok());
    assert_eq!(
        clean_check(" M x", false).unwrap_err(),
        "Checkout has local changes; commit or move them before applying"
    );
    assert_eq!(
        clean_check("", true).unwrap_err(),
        "Checkout uses custom Git filters; manual review required"
    );
    assert!(clean_check("", false).is_ok());
}

#[test]
fn only_whole_home_and_zsh_references_are_expanded() {
    let e = Environment::at("/home/u".into(), "linux".into(), None).unwrap();
    let dynamic =
        "Dynamic ZSH/ZSH_CUSTOM path needs manual configuration; no shell evaluation is performed";
    assert_eq!(e.expand("$HOMEBREW_PREFIX/share/oh-my-zsh").unwrap_err(), dynamic);
    assert_eq!(e.expand("$ZSH_CUSTOM/x").unwrap_err(), dynamic);
    assert_eq!(e.expand("$HOME/.omz").unwrap(), "/home/u/.omz");
    assert_eq!(e.expand("${HOME}x").unwrap(), "/home/ux");
    assert_eq!(e.expand("$ZSH/custom").unwrap(), "/home/u/.oh-my-zsh/custom");
    assert_eq!(e.expand("$HOME").unwrap(), "/home/u");
}

#[test]
fn absolute_paths_follow_the_platform() {
    assert!(absolute_path("/opt/omz", false));
    assert!(!absolute_path("opt/omz", false));
    assert!(!absolute_path("C:\\omz", false));
    assert!(absolute_path("C:\\omz", true));
    assert!(absolute_path("c:/omz", true));
    assert!(!absolute_path("C:omz", true));
    assert!(!absolute_path("/opt/omz", true));
    assert!(!absolute_path("\\omz", true));
    assert!(absolute_path("\\\\wsl.localhost\\Ubuntu\\home\\u", true));
    assert!(absolute_path("//server/share", true));
    assert!(!absolute_path("\\\\server", true));
    assert!(!absolute_path("\\\\server\\", true));
    assert!(absolute_path("\\\\?\\C:\\omz", true));
    assert!(absolute_path("\\\\.\\COM1", true));
}

#[test]
fn windows_layout_takes_unc_homes() {
    let home = "\\\\wsl.localhost\\Ubuntu\\home\\u";
    let e = Environment::at(
        home.into(),
        "windows".into(),
        Some("export ZSH=\"$HOME/.oh-my-zsh\"\n".into()),
    )
    .unwrap();
    assert_eq!(e.zsh, "\\\\wsl.localhost\\Ubuntu\\home\\u/.oh-my-zsh");
    assert_eq!(
        Environment::at(home.into(), "windows".into(), Some("ZSH=/opt/omz\n".into())).unwrap_err(),
        "ZSH paths must be absolute"
    );
    assert_eq!(
        Environment::at("/home/u".into(), "linux".into(), Some("ZSH=C:\\omz\n".into())).unwrap_err(),
        "ZSH paths must be absolute"
    );
}
