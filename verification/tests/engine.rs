use ohmyzsh_gui::engine::{
    apply_kind, catalog, check_commit, component_names, install_config, install_detail,
    install_undo_check, installed_names, is_under, undo_install_present, undo_remove_free, origin_repo, plan_texts, plugin_op,
    preview_repo, remove_detail, remove_proposal, safe_github_url, sorted_unique, target_source,
    theme_literal_from, theme_names, token_status, update_candidates, update_detail,
    update_needed, update_view, usable_readme, Applied, ApplyKind, CatalogItem, CommitCheck,
    History, InstalledPlugin, Manager, Outcome, Plan, PluginOp, Request, Step, TargetSource,
    ThemeEntry, UndoStep,
};
use ohmyzsh_gui::engine::{plain_checkout_status, respond, CheckoutFacts};
use ohmyzsh_gui::github::Repo;
use ohmyzsh_gui::readme::{clean_markdown, collapse_markdown, readme_summary};
use ohmyzsh_gui::system::Environment;

const SHA: &str = "0123456789012345678901234567890123456789";
const OTHER: &str = "fedcba9876543210fedcba9876543210fedcba98";

fn env() -> Environment {
    Environment::at("/home/u".into(), "linux".into(), None).unwrap()
}

fn manager(journal: Vec<History>) -> Manager {
    Manager::open(env(), journal, "/home/u/.ohmyzsh-gui/history.json".into())
}

fn entry(id: &str, op: &str, files: Vec<&str>) -> History {
    History {
        id: id.into(),
        at: 1,
        operation: op.into(),
        status: "applied".into(),
        files: files.into_iter().map(String::from).collect(),
        backup: None,
        undo_available: true,
        repo: None,
        commit: None,
        previous_commit: None,
        error: None,
    }
}

fn repo(owner: &str, name: &str) -> Repo {
    Repo {
        owner: owner.into(),
        name: name.into(),
    }
}

fn config_plan() -> Plan {
    Plan {
        operation: "configuration".into(),
        expected_source: Some("a".into()),
        proposed_source: Some("b".into()),
        repo: None,
        target: None,
    }
}

#[test]
fn github_links_are_limited_to_safe_https_paths() {
    assert!(
        safe_github_url("https://github.com/ohmyzsh/ohmyzsh/tree/master/plugins/git").is_ok()
    );
    assert!(safe_github_url("https://evil.example/ohmyzsh/ohmyzsh").is_err());
    assert!(safe_github_url("https://github.com/ohmyzsh/ohmyzsh/../../etc/passwd").is_err());
    assert!(safe_github_url("https://github.com/ohmyzsh/ohmyzsh?q=1").is_err());
}

#[test]
fn github_link_errors_and_trimming() {
    assert_eq!(
        safe_github_url("  https://github.com/a/b \n").unwrap(),
        "https://github.com/a/b"
    );
    assert_eq!(
        safe_github_url("http://github.com/a/b").unwrap_err(),
        "Only GitHub https links can be opened"
    );
    assert_eq!(
        safe_github_url("https://github.com/a").unwrap_err(),
        "Unsupported GitHub link"
    );
    assert_eq!(
        safe_github_url("https://github.com/a/b/c/d/e/f/g/h/i").unwrap_err(),
        "Unsupported GitHub link"
    );
    assert!(safe_github_url("https://github.com/a/b/c/d/e/f/g/h").is_ok());
    assert_eq!(
        safe_github_url("https://github.com/a/b#x").unwrap_err(),
        "Unsupported GitHub link"
    );
}

#[test]
fn previews_are_held_until_taken_or_cancelled() {
    let mut m = manager(vec![]);
    let r = m.plan(
        "p1".into(),
        config_plan(),
        "t".into(),
        "d".into(),
        "diff".into(),
        None,
        vec!["f".into()],
        true,
    );
    let v = r.preview.unwrap();
    assert_eq!(v.id, "p1");
    assert_eq!(v.expected_source, "a");
    assert_eq!(v.proposed_source, "b");
    assert!(m.plans.contains("p1"));
    let c = m.cancel("p1");
    assert_eq!(c.message.as_deref(), Some("Cancelled"));
    assert!(!m.plans.contains("p1"));
    assert_eq!(
        m.take_plan("p1").unwrap_err(),
        "Preview expired or was cancelled; preview again"
    );
}

#[test]
fn refused_apply_puts_the_plan_back() {
    let mut m = manager(vec![]);
    m.plan(
        "p1".into(),
        config_plan(),
        "t".into(),
        "d".into(),
        "x".into(),
        None,
        vec![],
        true,
    );
    let p = m.take_plan("p1").unwrap();
    assert!(!m.plans.contains("p1"));
    let r = m.finish_apply("p1".into(), p, Err("zsh syntax check: bad".into()));
    assert_eq!(r.unwrap_err(), "zsh syntax check: bad");
    assert!(m.plans.contains("p1"));
    let p = m.take_plan("p1").unwrap();
    let a = Applied {
        id: "p1".into(),
        status: "applied".into(),
        backup: None,
        commit: None,
        undo_available: true,
    };
    let r = m.finish_apply("p1".into(), p, Ok(a)).unwrap();
    assert_eq!(r.applied.unwrap().status, "applied");
    assert!(!m.plans.contains("p1"));
}

#[test]
fn plan_kinds_and_texts() {
    assert!(matches!(apply_kind(&config_plan()), Ok(ApplyKind::Configuration)));
    let mut p = config_plan();
    p.operation = "frobnicate".into();
    assert_eq!(apply_kind(&p).err().unwrap(), "Unsupported operation");
    assert_eq!(plan_texts(&config_plan()).unwrap(), ("a".into(), "b".into()));
    p.expected_source = None;
    assert_eq!(plan_texts(&p).unwrap_err(), "Missing snapshot");
    let mut q = config_plan();
    q.proposed_source = None;
    assert_eq!(plan_texts(&q).unwrap_err(), "Missing proposal");
}

#[test]
fn configuration_preview_refuses_unloadable_plugins() {
    let mut m = manager(vec![]);
    let current = "ZSH_THEME=\"a\"\nplugins=(git)\n".to_string();
    let e = m
        .config_preview(
            "p".into(),
            current.clone(),
            "a".into(),
            vec!["git".into(), "nope".into()],
            None,
            &vec![false, false],
        )
        .err()
        .unwrap();
    assert_eq!(
        e,
        "nope is not a loadable Oh My Zsh plugin. Install a regular plugin, or keep it out of plugins=()."
    );
    assert!(!m.plans.contains("p"));
    let r = m
        .config_preview(
            "p".into(),
            current,
            "b".into(),
            vec!["git".into(), "sudo".into()],
            None,
            &vec![false, true],
        )
        .unwrap();
    let v = r.preview.unwrap();
    assert_eq!(v.proposed_source, "ZSH_THEME=\"b\"\nplugins=(git sudo)\n");
    assert_eq!(v.files, vec!["/home/u/.zshrc"]);
    assert_eq!(v.title, "Review .zshrc changes");
    assert!(m.plans.contains("p"));
}

#[test]
fn configuration_preview_uses_expected_text() {
    let mut m = manager(vec![]);
    let r = m
        .config_preview(
            "p".into(),
            "ZSH_THEME=\"x\"\nplugins=()\n".into(),
            "a".into(),
            vec![],
            Some("ZSH_THEME=\"a\"\nplugins=()\n".into()),
            &vec![],
        )
        .unwrap();
    let v = r.preview.unwrap();
    assert_eq!(v.expected_source, "ZSH_THEME=\"a\"\nplugins=()\n");
    assert_eq!(v.diff, "No changes");
}

#[test]
fn undo_consumes_its_history_entry() {
    let mut h = entry("apply-1", "configuration", vec!["/home/u/.zshrc"]);
    h.backup = Some("/home/u/.ohmyzsh-gui/backups/1.zshrc".into());
    let mut m = manager(vec![h]);
    let (i, step) = m.undo_begin("apply-1").unwrap();
    assert_eq!(i, 0);
    assert!(matches!(step, UndoStep::Configuration { ref backup } if backup.ends_with("1.zshrc")));
    let a = m.undo_finish(
        0,
        "undo-1".into(),
        None,
        Some("/home/u/.ohmyzsh-gui/backups/2.zshrc".into()),
        None,
    );
    assert_eq!(a.status, "restored");
    assert!(!a.undo_available);
    assert!(!m.journal[0].undo_available);
    assert_eq!(m.journal[1].operation, "undo");
    assert_eq!(
        m.undo_begin("apply-1").err().unwrap(),
        "This operation cannot be restored automatically"
    );
    assert_eq!(m.undo_begin("missing").err().unwrap(), "History entry not found");
}

#[test]
fn undo_needs_the_metadata_it_restores_from() {
    let m = manager(vec![
        entry("c", "configuration", vec![]),
        entry("i", "install", vec![]),
        entry("r", "remove", vec!["/only"]),
        entry("u", "update", vec![]),
        entry("x", "backup_restore", vec![]),
    ]);
    assert_eq!(m.undo_begin("c").err().unwrap(), "Configuration backup missing");
    assert_eq!(m.undo_begin("i").err().unwrap(), "Plugin repository metadata missing");
    assert_eq!(m.undo_begin("r").err().unwrap(), "Plugin quarantine path missing");
    assert_eq!(m.undo_begin("u").err().unwrap(), "Plugin repository metadata missing");
    assert_eq!(
        m.undo_begin("x").err().unwrap(),
        "This operation does not support automatic restore"
    );
    let mut u = entry("u2", "update", vec!["/p"]);
    u.repo = Some(repo("o", "n"));
    u.previous_commit = Some(OTHER.into());
    u.commit = Some(SHA.into());
    let mut m = manager(vec![u]);
    match m.undo_begin("u2").unwrap() {
        (0, UndoStep::Update { previous, target, .. }) => {
            assert_eq!(previous, OTHER);
            assert_eq!(target, SHA);
        }
        _ => panic!("update step expected"),
    }
    let a = m.undo_finish(0, "op".into(), None, None, Some((OTHER.into(), SHA.into())));
    assert_eq!(a.commit.as_deref(), Some(OTHER));
    assert_eq!(m.journal[1].previous_commit.as_deref(), Some(SHA));
}

#[test]
fn undo_install_refused_while_enabled() {
    let e = install_undo_check("ZSH_THEME=\"old\"\nplugins=(example)\n".into(), "example")
        .unwrap_err();
    assert!(e.contains("Disable this plugin"));
    assert!(install_undo_check("plugins=(git)\n".into(), "example").is_ok());
}

#[test]
fn commits_are_checked_against_what_was_expected() {
    assert!(check_commit(SHA, SHA, CommitCheck::Install).is_ok());
    assert_eq!(
        check_commit(SHA, OTHER, CommitCheck::Install).unwrap_err(),
        "Checkout did not reach requested commit"
    );
    assert_eq!(
        check_commit(SHA, OTHER, CommitCheck::Update).unwrap_err(),
        "Update did not reach requested commit"
    );
    assert_eq!(
        check_commit(SHA, OTHER, CommitCheck::UndoStart).unwrap_err(),
        "Checkout changed since the update; refusing automatic restore"
    );
    assert_eq!(
        check_commit(SHA, OTHER, CommitCheck::UndoEnd).unwrap_err(),
        "Restore did not reach the previous commit"
    );
}

#[test]
fn backups_are_scoped_to_the_managed_directory() {
    let root = Some("/home/u/.ohmyzsh-gui/backups".to_string());
    assert_eq!(
        Manager::checked_backup(root.clone(), Some("/home/u/.ohmyzsh-gui/backups/one.zshrc".into()))
            .unwrap(),
        "/home/u/.ohmyzsh-gui/backups/one.zshrc"
    );
    assert_eq!(
        Manager::checked_backup(root.clone(), Some("/home/u/outside.zshrc".into())).unwrap_err(),
        "Backup path is outside the managed backup directory"
    );
    assert!(
        Manager::checked_backup(root.clone(), Some("/home/u/.ohmyzsh-gui/backupsx/a.zshrc".into()))
            .is_err()
    );
    assert!(
        Manager::checked_backup(root.clone(), Some("/home/u/.ohmyzsh-gui/backups/.zshrc".into()))
            .is_err()
    );
    assert_eq!(
        Manager::checked_backup(None, None).unwrap_err(),
        "Backup directory is unavailable"
    );
    assert_eq!(
        Manager::checked_backup(root, None).unwrap_err(),
        "Backup file is unavailable"
    );
    assert!(is_under("/", "/a"));
    assert!(!is_under("/a/b", "/a/bc"));
}

#[test]
fn deleting_a_backup_ends_undo_for_entries_that_used_it() {
    let mut a = entry("a", "configuration", vec![]);
    a.backup = Some("/b/1.zshrc".into());
    let mut b = entry("b", "configuration", vec![]);
    b.backup = Some("/real/1.zshrc".into());
    let c = entry("c", "install", vec![]);
    let mut m = manager(vec![a, b, c]);
    m.forget_backup("/b/1.zshrc", "/real/1.zshrc");
    assert!(!m.journal[0].undo_available);
    assert!(!m.journal[1].undo_available);
    assert!(m.journal[2].undo_available);
}

#[test]
fn records_are_appended_to_the_journal() {
    let mut m = manager(vec![]);
    let a = m.applied_config("op", "/b/1.zshrc".into());
    assert!(a.undo_available);
    assert_eq!(m.journal.len(), 1);
    assert_eq!(m.journal[0].files, vec!["/home/u/.zshrc"]);
    let a = m.applied_update("up", "/p".into(), repo("o", "n"), SHA.into(), OTHER.into());
    assert_eq!(a.status, "updated from fedcba98");
    assert!(!a.undo_available);
    let a = m.applied_remove(
        "rm",
        "/p".into(),
        "/q".into(),
        "/b/2.zshrc".into(),
        repo("o", "n"),
        None,
    );
    assert_eq!(a.status, "removed (quarantined; manual restore is required)");
    assert_eq!(m.journal[2].commit.as_deref(), Some(""));
    let a = m.applied_restore("rs", "/b/3.zshrc".into());
    assert_eq!(a.status, "backup restored");
    assert_eq!(m.journal[3].operation, "backup_restore");
}

#[test]
fn installing_enables_plugins_and_themes() {
    let src = "ZSH_THEME=\"a\"\nplugins=(git)\n".to_string();
    let (status, p) = install_config(src.clone(), "zsh-z", true, None).unwrap();
    assert_eq!(status, "installed and enabled");
    assert_eq!(p.unwrap(), "ZSH_THEME=\"a\"\nplugins=(git zsh-z)\n");
    let (status, p) =
        install_config(src.clone(), "p10k", false, Some("p10k/p10k".into())).unwrap();
    assert_eq!(status, "installed theme");
    assert_eq!(p.unwrap(), "ZSH_THEME=\"p10k/p10k\"\nplugins=(git)\n");
    let (_, p) = install_config(src, "git", true, None).unwrap();
    assert!(p.is_none());
}

#[test]
fn checkout_kind_from_theme_files() {
    assert_eq!(
        theme_literal_from(
            "spaceship-prompt",
            false,
            false,
            Some(vec!["README.md".into(), "spaceship.zsh-theme".into()])
        )
        .as_deref(),
        Some("spaceship-prompt/spaceship")
    );
    assert_eq!(
        theme_literal_from("hyperzsh", true, false, None).as_deref(),
        Some("hyperzsh/hyperzsh")
    );
    assert_eq!(
        theme_literal_from("x", false, false, Some(vec!["a.zsh-theme".into(), "b.zsh-theme".into()])),
        None
    );
    assert_eq!(theme_literal_from("x", false, false, None), None);
}

#[test]
fn install_and_checkout_paths() {
    let m = manager(vec![]);
    assert_eq!(
        m.install_path("p10k", false, true).unwrap(),
        "/home/u/.oh-my-zsh/custom/themes/p10k"
    );
    assert_eq!(
        m.install_path("zsh-z", true, true).unwrap(),
        "/home/u/.oh-my-zsh/custom/plugins/zsh-z"
    );
    assert_eq!(m.checkout_dir("x", false, false).unwrap_err(), "x is not installed");
    assert_eq!(
        m.checkout_dir("x", false, true).unwrap(),
        "/home/u/.oh-my-zsh/custom/themes/x"
    );
    assert_eq!(
        m.checkout_dir("..", true, true).unwrap_err(),
        "Invalid plugin directory name"
    );
    let (a, b) = m.plugin_files("git").unwrap();
    assert_eq!(a, "/home/u/.oh-my-zsh/plugins/git/git.plugin.zsh");
    assert_eq!(b, "/home/u/.oh-my-zsh/custom/plugins/git/git.plugin.zsh");
    assert!(m.plugin_files("a/b").is_none());
}

#[test]
fn plugin_previews_are_described() {
    let r = preview_repo("ohmyzsh", "ohmyzsh").unwrap();
    assert_eq!(r.slug(), "ohmyzsh/ohmyzsh");
    assert!(preview_repo("a/b", "c").is_err());
    assert!(matches!(target_source("install", Some(SHA.into())), Ok(TargetSource::Given(_))));
    assert!(matches!(target_source("remove", None), Ok(TargetSource::Checkout)));
    assert!(matches!(target_source("update", None), Ok(TargetSource::Upstream)));
    assert_eq!(
        target_source("install", Some("abc".into())).err().unwrap(),
        "Commit must be a 40-character SHA"
    );
    assert!(matches!(plugin_op("update"), Ok(PluginOp::Update)));
    assert_eq!(plugin_op("zap").err().unwrap(), "Unknown plugin operation");
    let r = repo("o", "n");
    assert_eq!(install_detail(&r, SHA, true).unwrap_err(), "Plugin already installed");
    assert!(install_detail(&r, SHA, false)
        .unwrap()
        .starts_with("Install o/n at commit 01234567. Regular"));
    assert_eq!(
        update_detail(&r, SHA, OTHER, Err("x".into())),
        "Update o/n from 01234567 to fedcba98.\nCommit summary unavailable"
    );
    assert_eq!(
        remove_detail(&r, SHA),
        "Remove o/n at 01234567 after disabling it in .zshrc. Checkout is quarantined and recorded for manual restore."
    );
}

#[test]
fn removal_disables_the_plugin_first() {
    let (p, d) = remove_proposal(Some("ZSH_THEME=\"a\"\nplugins=(git zsh-z)\n".into()), "zsh-z")
        .unwrap();
    assert_eq!(p, "ZSH_THEME=\"a\"\nplugins=(git )\n");
    assert!(d.contains("-plugins=(git zsh-z)"));
    assert_eq!(remove_proposal(None, "x").unwrap_err(), "Cannot read .zshrc");
    let mut m = manager(vec![]);
    let r = m.plugin_preview_finish(
        "id".into(),
        "remove".into(),
        Some("s".into()),
        Some((p, d)),
        repo("o", "zsh-z"),
        SHA.into(),
        "detail".into(),
        Some("/p".into()),
    );
    let v = r.preview.unwrap();
    assert_eq!(v.expected_source, "s");
    assert_eq!(v.proposed_source, "ZSH_THEME=\"a\"\nplugins=(git )\n");
    assert_eq!(v.files, vec!["o/zsh-z", "/p"]);
    assert_eq!(v.target_sha.as_deref(), Some(SHA));
    assert!(m.plans.contains("id"));
}

#[test]
fn updates_are_listed_for_known_checkouts() {
    let infos = vec![
        InstalledPlugin {
            name: "a".into(),
            repo: Some(repo("o", "a")),
            current_sha: Some(SHA.into()),
            loadable: true,
        },
        InstalledPlugin {
            name: "b".into(),
            repo: None,
            current_sha: Some(SHA.into()),
            loadable: true,
        },
    ];
    let c = update_candidates(&infos);
    assert_eq!(c.len(), 1);
    assert_eq!(c[0].0, "a");
    assert!(update_needed(SHA, OTHER));
    assert!(!update_needed(SHA, SHA));
    let v = update_view("a".into(), repo("o", "a"), SHA.into(), OTHER.into(), Err("e".into()));
    assert_eq!(v.summary, "Commit summary unavailable");
    assert_eq!(token_status(Ok(true)), "configured");
    assert_eq!(token_status(Ok(false)), "not_configured");
    assert_eq!(token_status(Err("locked".into())), "unavailable: locked");
}

#[test]
fn installed_checkouts_merge_plugins_and_themes() {
    let names = component_names(vec!["git".into(), ".hidden".into(), "zsh-z".into()]);
    assert_eq!(names, vec!["git", "zsh-z"]);
    let all = installed_names(names, &vec!["zsh-z".into(), "p10k".into()]);
    assert_eq!(all, vec!["git", "zsh-z", "p10k"]);
    assert_eq!(
        origin_repo(Ok("https://github.com/o/n.git".into())).unwrap().slug(),
        "o/n"
    );
    assert!(origin_repo(Err("no remote".into())).is_none());
    let mut h = entry("i", "install", vec!["/p"]);
    h.repo = Some(repo("o", "n"));
    let m = manager(vec![h, entry("j", "install", vec!["/p"])]);
    assert_eq!(m.journal_repo("/p").unwrap().slug(), "o/n");
    assert!(m.journal_repo("/q").is_none());
}

#[test]
fn custom_themes_are_listed_once_in_order() {
    let entries = vec![
        ThemeEntry {
            name: "zeta.zsh-theme".into(),
            is_file: true,
            is_dir: false,
            nested_theme: false,
        },
        ThemeEntry {
            name: "powerlevel10k".into(),
            is_file: false,
            is_dir: true,
            nested_theme: true,
        },
        ThemeEntry {
            name: "other".into(),
            is_file: false,
            is_dir: true,
            nested_theme: false,
        },
        ThemeEntry {
            name: "alpha.zsh-theme".into(),
            is_file: true,
            is_dir: false,
            nested_theme: false,
        },
    ];
    assert_eq!(
        theme_names(&entries),
        vec!["alpha", "powerlevel10k/powerlevel10k", "zeta"]
    );
    assert_eq!(
        sorted_unique(&vec!["b".into(), "a".into(), "b".into()]),
        vec!["a", "b"]
    );
}

#[test]
fn catalog_is_sorted_by_name() {
    let items = vec![
        CatalogItem {
            name: "zsh-z".into(),
            summary: "z".into(),
        },
        CatalogItem {
            name: "git".into(),
            summary: "g".into(),
        },
        CatalogItem {
            name: ".x".into(),
            summary: "x".into(),
        },
    ];
    let c = catalog(items);
    assert_eq!(c.len(), 2);
    assert_eq!(c[0].name, "git");
    assert_eq!(c[1].name, "zsh-z");
}

#[test]
fn readme_summaries() {
    assert_eq!(
        readme_summary("# git\nGit aliases and completions\n"),
        "Git aliases and completions"
    );
    assert_eq!(readme_summary("# Title only\n"), "Title only");
    assert_eq!(
        readme_summary("<p>x</p>\n\nSee [the docs](https://x.y) and `code` at https://a.b/c now\n"),
        "See the docs and code at now"
    );
    assert_eq!(clean_markdown("Heading {#id} text"), "Heading text");
    assert_eq!(collapse_markdown("  a `b`\t c "), "a b c");
    assert_eq!(readme_summary(&"w ".repeat(100)).chars().count(), 140);
    assert!(usable_readme("  \n".into()).is_none());
    assert_eq!(usable_readme("x".into()).as_deref(), Some("x"));
}

#[test]
fn capability_reports_the_layout() {
    let m = manager(vec![]);
    let c = m.capability(true, false);
    assert!(c.zsh);
    assert!(!c.git);
    assert_eq!(c.path, "/home/u/.zshrc");
    assert_eq!(c.platform, "linux");
    let s = m.snapshot(
        "ZSH_THEME=\"a\"\nplugins=(git)\n".into(),
        true,
        vec!["zsh-z".into()],
        vec![CheckoutFacts {
            repo: Some(repo("o", "zsh-z")),
            current_sha: None,
            loadable: true,
        }],
        vec![],
        vec![],
    );
    assert_eq!(s.values.plugins, vec!["git"]);
    assert_eq!(s.installed_custom_info[0].name, "zsh-z");
    assert!(s.installed_custom_info[0].loadable);
    assert_eq!(s.plugin_root, "/home/u/.oh-my-zsh/custom/plugins");
}

#[test]
fn undo_needs_the_checkout_and_a_free_destination() {
    assert!(undo_install_present(true).is_ok());
    assert_eq!(undo_install_present(false).unwrap_err(), "Installed checkout is missing");
    assert!(undo_remove_free(false).is_ok());
    assert_eq!(
        undo_remove_free(true).unwrap_err(),
        "Plugin destination is no longer empty"
    );
}

#[test]
fn requests_answered_at_once_or_passed_on() {
    let mut m = manager(vec![entry("a", "install", vec!["/p"])]);
    m.plan("p".into(), config_plan(), "t".into(), "d".into(), "x".into(), None, vec![], true);
    match m.request(Request::Cancel { plan_id: "p".into() }) {
        Step::Done(Ok(r)) => assert_eq!(r.message.as_deref(), Some("Cancelled")),
        _ => panic!("cancel is answered at once"),
    }
    assert!(!m.plans.contains("p"));
    match m.request(Request::History) {
        Step::Done(Ok(r)) => assert_eq!(r.history.unwrap()[0].id, "a"),
        _ => panic!("the journal is answered at once"),
    }
    match m.request(Request::OpenUrl { url: " https://github.com/a/b ".into() }) {
        Step::Perform(Request::OpenUrl { url }) => assert_eq!(url, "https://github.com/a/b"),
        _ => panic!("a safe link is opened"),
    }
    match m.request(Request::OpenUrl { url: "https://evil.example/a/b".into() }) {
        Step::Done(Err(e)) => assert_eq!(e, "Only GitHub https links can be opened"),
        _ => panic!("an unsafe link is refused"),
    }
    match m.request(Request::Readme { owner: "..".into(), repository: "x".into() }) {
        Step::Done(Err(e)) => {
            assert_eq!(e, "Use a GitHub owner/repository or HTTPS repository URL")
        }
        _ => panic!("an invalid repository is refused"),
    }
    assert!(matches!(m.request(Request::Updates), Step::Perform(Request::Updates)));
}

#[test]
fn outcomes_are_answered() {
    assert_eq!(respond(Outcome::Opened).message.as_deref(), Some("opened"));
    assert_eq!(
        respond(Outcome::OpenedTerminal).message.as_deref(),
        Some("opened-terminal")
    );
    assert_eq!(respond(Outcome::BackupDeleted).message.as_deref(), Some("Backup deleted"));
    assert_eq!(
        respond(Outcome::TokenSaved).message.as_deref(),
        Some("Token saved in OS credential store")
    );
    assert_eq!(
        respond(Outcome::Token(Ok(false))).message.as_deref(),
        Some("not_configured")
    );
    assert!(respond(Outcome::Updates(vec![])).updates.unwrap().is_empty());
    assert_eq!(
        plain_checkout_status(),
        "installed checkout; not enabled because it is not an Oh My Zsh plugin"
    );
}

#[test]
fn linked_checkouts_are_read_only() {
    let m = manager(vec![]);
    assert_eq!(
        m.install_checkout("p10k", false, true, true).unwrap_err(),
        "Linked plugin checkout is read-only"
    );
    assert_eq!(
        m.install_checkout("p10k", false, true, false).unwrap(),
        "/home/u/.oh-my-zsh/custom/themes/p10k"
    );
    assert_eq!(
        m.env.managed_checkout("plugins", "git", true).unwrap_err(),
        "Linked plugin checkout is read-only"
    );
    assert_eq!(
        m.env.managed_checkout("plugins", "..", false).unwrap_err(),
        "Invalid plugin directory name"
    );
}
