use ohmyzsh_gui::github::{
    candidate, commit_summary, full_sha, head_sha, official_names, response_error, search_page,
    search_query, token_action, CommitFields, EntryFields, Repo, RepoFields, TokenAction,
};

fn fields(name: Option<&str>) -> RepoFields {
    RepoFields {
        full_name: name.map(String::from),
        description: None,
        stargazers_count: Some(7),
        license_spdx_id: Some("MIT".into()),
        updated_at: None,
    }
}

#[test]
fn repositories_are_owner_and_name() {
    let r = Repo::parse("ohmyzsh/ohmyzsh").unwrap();
    assert_eq!(r.owner, "ohmyzsh");
    assert_eq!(r.name, "ohmyzsh");
    let r = Repo::parse(" https://github.com/zsh-users/zsh-autosuggestions.git/ ").unwrap();
    assert_eq!(r.slug(), "zsh-users/zsh-autosuggestions");
    assert_eq!(r.url(), "https://github.com/zsh-users/zsh-autosuggestions.git");
    assert_eq!(Repo::parse("git@github.com:a/b").unwrap().slug(), "a/b");
    for bad in ["a", "a/b/c", "../x", "a/.b", "https://gitlab.com/a/b"] {
        assert_eq!(
            Repo::parse(bad).unwrap_err(),
            "Use a GitHub owner/repository or HTTPS repository URL"
        );
    }
}

#[test]
fn search_answers_become_candidates() {
    assert_eq!(search_query("  git "), "git topic:zsh-plugin");
    let c = candidate(&fields(Some("o/n"))).unwrap();
    assert_eq!(c.summary, "No description");
    assert_eq!(c.stars, 7);
    assert_eq!(c.license, "MIT");
    assert_eq!(c.updated, "");
    assert_eq!(
        candidate(&fields(None)).unwrap_err(),
        "Missing repository name"
    );
    let page = search_page(
        &vec![fields(Some("o/n")), fields(Some("bad")), fields(None), fields(Some("p/q"))],
        Some("59".into()),
        None,
        12,
    );
    assert_eq!(page.items.len(), 2);
    assert_eq!(page.items[1].repo.slug(), "p/q");
    assert_eq!(page.remaining.as_deref(), Some("59"));
    assert_eq!(page.checked, 12);
    assert!(!page.cached);
}

#[test]
fn commit_heads_must_be_full_shas() {
    let sha = "0123456789abcdef0123456789ABCDEF01234567";
    assert!(full_sha(sha));
    assert!(!full_sha("0123"));
    assert!(!full_sha("g123456789abcdef0123456789abcdef01234567"));
    assert_eq!(head_sha(Some(sha.into())).unwrap(), sha);
    assert_eq!(head_sha(None).unwrap_err(), "Missing SHA");
    assert_eq!(head_sha(Some("x".into())).unwrap_err(), "Invalid upstream SHA");
}

#[test]
fn compare_answers_are_summarized() {
    let commits = vec![
        CommitFields {
            sha: Some("0123456789abcdef".into()),
            message: Some("Fix prompt\r\n\nDetails".into()),
        },
        CommitFields {
            sha: None,
            message: None,
        },
    ];
    assert_eq!(commit_summary(&commits), "01234567 Fix prompt\n ");
    let many: Vec<CommitFields> = (0..40)
        .map(|i| CommitFields {
            sha: Some(format!("{i:08}")),
            message: Some("m".into()),
        })
        .collect();
    assert_eq!(commit_summary(&many).lines().count(), 30);
}

#[test]
fn official_listing_keeps_plugin_directories() {
    let es = vec![
        EntryFields {
            kind: Some("dir".into()),
            name: Some("git".into()),
        },
        EntryFields {
            kind: Some("file".into()),
            name: Some("README.md".into()),
        },
        EntryFields {
            kind: Some("dir".into()),
            name: Some(".github".into()),
        },
    ];
    assert_eq!(official_names(&es), vec!["git"]);
}

#[test]
fn http_statuses_become_errors() {
    assert_eq!(response_error(200, &None, &None), None);
    assert_eq!(
        response_error(401, &None, &None).unwrap(),
        "GitHub token rejected (401). Replace it in Settings or use anonymous access."
    );
    assert_eq!(
        response_error(403, &Some("0".into()), &None).unwrap(),
        "GitHub limit or permission error (403). Remaining: 0. Reset (Unix seconds): unknown. Optional token in Settings."
    );
    assert_eq!(response_error(500, &None, &None).unwrap(), "GitHub returned 500");
}

#[test]
fn tokens_are_stored_removed_or_refused() {
    assert!(matches!(token_action(""), TokenAction::Remove));
    assert!(matches!(token_action("ghp_x"), TokenAction::Store));
    match token_action("a b") {
        TokenAction::Reject(e) => assert_eq!(e, "Token must not contain spaces"),
        _ => panic!("a token with a space is refused"),
    }
}

#[test]
fn repositories_read_back_from_slug_and_url() {
    for (o, n) in [("ohmyzsh", "ohmyzsh"), ("a", "b"), ("zsh-users", "x.gi")] {
        let r = Repo { owner: o.into(), name: n.into() };
        let s = Repo::parse(&r.slug()).unwrap();
        let u = Repo::parse(&r.url()).unwrap();
        assert_eq!((s.owner.as_str(), s.name.as_str()), (o, n));
        assert_eq!((u.owner.as_str(), u.name.as_str()), (o, n));
    }
}
