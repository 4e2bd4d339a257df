use ohmyzsh_gui::config::{component, diff, digest, literal_path, theme_literal, Document, Values};

#[test]
fn parent_directory_is_never_a_repository_name() {
    for s in [".", "..", "../evil", "x/y", "-x"] {
        assert!(!component(s))
    }
}

#[test]
fn comments_are_not_enabled_plugins() {
    assert_eq!(
        Document::parse("plugins=(git # keep git enabled\n brew)\n".into())
            .values
            .plugins,
        vec!["git", "brew"]
    )
}

#[test]
fn changing_theme_preserves_other_variables() {
    let d = Document::parse(
        "ZSH_THEME=\"old\" # hello\r\nZSH_THEME_RANDOM_CANDIDATES=(one two)\r\nplugins=(git)"
            .into(),
    );
    let s = d
        .edit(&Values {
            theme: "new".into(),
            plugins: vec!["git".into()],
        })
        .unwrap();
    assert_eq!(
        s,
        "ZSH_THEME=\"new\" # hello\r\nZSH_THEME_RANDOM_CANDIDATES=(one two)\r\nplugins=(git)"
    );
}

#[test]
fn noop_and_comments_roundtrip() {
    let s = "ZSH_THEME=\"a\"\r\nplugins=(\r\n git # preserve\r\n brew\r\n)";
    let d = Document::parse(s.into());
    assert_eq!(d.edit(&d.values).unwrap(), s);
    let n = d
        .edit(&Values {
            theme: "a".into(),
            plugins: vec!["git".into(), "sudo".into()],
        })
        .unwrap();
    assert!(n.contains("# preserve\r\n"));
    assert!(n.contains("sudo)"));
}

#[test]
fn dynamic_and_duplicate_fail() {
    for s in [
        "plugins=($(echo git))",
        "plugins=(git)\nplugins+=(brew)",
        "if true; then plugins=(git); fi",
        "plugins=(git)\nplugins=(brew)",
    ] {
        let d = Document::parse(s.into());
        assert!(d.edit(&d.values).is_err(), "{s}");
    }
}

#[test]
fn injected_value_rejected() {
    let d = Document::parse("ZSH_THEME=\"a\"\nplugins=(git)".into());
    assert!(d
        .edit(&Values {
            theme: "$(touch /tmp/no)".into(),
            plugins: vec![]
        })
        .is_err());
}

#[test]
fn plain_names_are_components() {
    assert!(component("git"));
    assert!(component("zsh-autosuggestions"));
    assert!(component("a.b_c"));
    assert!(!component(""));
    assert!(!component(&"a".repeat(101)));
    assert!(component(&"a".repeat(100)));
    assert!(!component("a b"));
}

#[test]
fn theme_literals_are_empty_or_slash_separated_components() {
    assert!(theme_literal(""));
    assert!(theme_literal("robbyrussell"));
    assert!(theme_literal("powerlevel10k/powerlevel10k"));
    assert!(!theme_literal("a//b"));
    assert!(!theme_literal("../x"));
    assert!(!theme_literal("$(x)"));
}

#[test]
fn literal_paths_are_read_and_dynamic_ones_refused() {
    assert_eq!(
        literal_path("export ZSH=\"$HOME/.oh-my-zsh\"\n", "ZSH").unwrap(),
        Some("$HOME/.oh-my-zsh".to_string())
    );
    assert_eq!(literal_path("ZSH_THEME=x\n", "ZSH").unwrap(), None);
    assert_eq!(
        literal_path("ZSH=/a\nZSH=/b\n", "ZSH").unwrap_err(),
        "ZSH has multiple or incremental assignments"
    );
    assert_eq!(
        literal_path("ZSH=\"/a\nb\"\n", "ZSH").unwrap_err(),
        "ZSH: dynamic value"
    );
    assert_eq!(
        literal_path("ZSH=\"/a\n", "ZSH").unwrap_err(),
        "ZSH: unclosed quote"
    );
    assert_eq!(
        literal_path("ZSH=/a; echo hi\n", "ZSH").unwrap_err(),
        "ZSH: trailing shell expression"
    );
}

#[test]
fn parse_reports_theme_and_plugins() {
    let d = Document::parse("ZSH_THEME=\"agnoster\"\nplugins=(git docker)\n".into());
    assert_eq!(d.values.theme, "agnoster");
    assert_eq!(d.values.plugins, vec!["git", "docker"]);
    assert!(d.warnings.is_empty());
}

#[test]
fn edit_adds_and_removes_plugins() {
    let d = Document::parse("ZSH_THEME=\"a\"\nplugins=(git docker)\n".into());
    let s = d
        .edit(&Values {
            theme: "b".into(),
            plugins: vec!["docker".into(), "sudo".into()],
        })
        .unwrap();
    assert_eq!(s, "ZSH_THEME=\"b\"\nplugins=( docker sudo)\n");
}

#[test]
fn edit_refuses_duplicate_names_and_missing_theme() {
    let d = Document::parse("plugins=(git)\n".into());
    assert_eq!(
        d.edit(&Values {
            theme: "".into(),
            plugins: vec!["git".into(), "git".into()],
        })
        .unwrap_err(),
        "Duplicate plugin name"
    );
    assert_eq!(
        d.edit(&Values {
            theme: "x".into(),
            plugins: vec!["git".into()],
        })
        .unwrap_err(),
        "ZSH_THEME is missing. Add it before sourcing Oh My Zsh in the source editor."
    );
    let e = Document::parse("ZSH_THEME=\"a\"\n".into());
    assert_eq!(
        e.edit(&Values {
            theme: "a".into(),
            plugins: vec!["git".into()],
        })
        .unwrap_err(),
        "plugins must have one top-level literal array assignment"
    );
}

#[test]
fn diff_shows_every_line_once_removed_and_once_added() {
    assert_eq!(diff("a\n", "a\n"), "No changes");
    assert_eq!(
        diff("a\n", "b"),
        "--- .zshrc (current)\n+++ .zshrc (proposed)\n@@ -1,1 +1,1 @@\n-a\n+b\n\\ No newline at end of file\n"
    );
}

#[test]
fn digest_is_the_sha256_of_the_text() {
    assert_eq!(
        digest("abc"),
        "ba7816bf8f01cfea414140de5dae2223b00361a396177a9cb410ff61f20015ad"
    );
    assert_eq!(digest("").len(), 64);
}

#[test]
fn similarly_named_variables_are_not_assignments() {
    let d = Document::parse("ZSH_THEME=\"a\"\nmyplugins=(x)\nplugins=(git)\n".into());
    assert!(d.warnings.is_empty(), "{:?}", d.warnings);
    let d = Document::parse("ZSH_THEME=\"a\"\nplugins=(git)\n{ plugins=(x) }\n".into());
    assert_eq!(d.warnings, vec!["plugins has non-top-level assignments"]);
}

#[test]
fn text_after_the_first_hash_is_not_counted() {
    let d = Document::parse("ZSH_THEME=\"a\"\nplugins=(git)\necho '#'; plugins=(x)\n".into());
    assert!(d.warnings.is_empty());
    let d = Document::parse("ZSH_THEME=\"a\"\nplugins=(git)\n  # plugins=(x)\n".into());
    assert!(d.warnings.is_empty());
    let d = Document::parse("ZSH_THEME=\"a\"\nplugins=(git)\necho x; plugins=(y) # z\n".into());
    assert_eq!(d.warnings, vec!["plugins has non-top-level assignments"]);
}

#[test]
fn a_trailing_comment_with_an_assignment_is_not_counted() {
    let src = "ZSH_THEME=\"agnoster\" # ZSH_THEME=\"robbyrussell\"\nplugins=(git)\n";
    let d = Document::parse(src.into());
    assert!(d.warnings.is_empty());
    assert_eq!(d.values.theme, "agnoster");
    let v = Values { theme: "ys".into(), plugins: vec!["git".into()] };
    let out = d.edit(&v).unwrap();
    assert_eq!(out, "ZSH_THEME=\"ys\" # ZSH_THEME=\"robbyrussell\"\nplugins=(git)\n");
}
