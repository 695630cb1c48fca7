use gws::config::parse;
use gws::config::ConfigError;
use gws::config::MaybeNamedRemote;
use gws::config::Project;
use gws::config::Remote;
use gws::config::Workspace;

fn remote(name: &str, url: &str) -> Remote {
    Remote {
        name: name.to_string(),
        url: url.to_string(),
    }
}

#[test]
fn remotes_returns_main_remote_and_then_extras() {
    assert_eq!(
        Project {
            path: "foo".to_string(),
            main_remote: remote("origin", "git@github.com:foo/boo.git"),
            extra_remotes: vec![remote("myone", "http://coool"), remote("upstream", "testurl")],
        }
        .remotes(),
        vec![
            remote("origin", "git@github.com:foo/boo.git"),
            remote("myone", "http://coool"),
            remote("upstream", "testurl"),
        ]
        .iter()
        .collect::<Vec<&Remote>>()
    );
}

#[test]
fn legacy_project_must_have_path() {
    assert!(Project::from_str(" ").is_err());
}

#[test]
fn legacy_project_must_have_one_remote() {
    assert!(Project::from_str("foo").is_err());
}

#[test]
fn legacy_remote_must_have_url() {
    assert!(Project::from_str("foo |").is_err());
}

#[test]
fn legacy_minimal_line() {
    assert_eq!(
        Project::from_str("foo | git@github.com:foo/foo.git"),
        Ok(Project {
            path: String::from("foo"),
            main_remote: Remote {
                url: String::from("git@github.com:foo/foo.git"),
                name: String::from("origin"),
            },
            extra_remotes: vec![],
        })
    );
}

#[test]
fn legacy_one_named_remote() {
    assert_eq!(
        Project::from_str("foo | git@github.com:foo/foo.git github"),
        Ok(Project {
            path: String::from("foo"),
            main_remote: Remote {
                url: String::from("git@github.com:foo/foo.git"),
                name: String::from("github"),
            },
            extra_remotes: vec![],
        })
    );
}

#[test]
fn legacy_line_comment_is_ignored() {
    assert_eq!(
        Project::from_str("foo | git@github.com:foo/foo.git # | https:/github.com/foo/foo.git ignored"),
        Ok(Project {
            path: String::from("foo"),
            main_remote: Remote {
                url: String::from("git@github.com:foo/foo.git"),
                name: String::from("origin"),
            },
            extra_remotes: vec![],
        })
    );
}

#[test]
fn legacy_two_unnamed_remotes() {
    assert_eq!(
        Project::from_str("foo | git@github.com:foo/foo.git | git@github.com:bar/foo.git"),
        Ok(Project {
            path: String::from("foo"),
            main_remote: Remote {
                url: String::from("git@github.com:foo/foo.git"),
                name: String::from("origin"),
            },
            extra_remotes: vec![Remote {
                url: String::from("git@github.com:bar/foo.git"),
                name: String::from("upstream"),
            }],
        })
    );
}

#[test]
fn legacy_second_remote_must_have_url() {
    assert!(Project::from_str("foo | git@github.com:foo/foo.git |").is_err());
}

#[test]
fn legacy_two_named_remotes() {
    assert_eq!(
        Project::from_str(
            "foo | git@github.com:foo/foo.git github-foo | git@github.com:bar/foo.git github-bar"
        ),
        Ok(Project {
            path: String::from("foo"),
            main_remote: Remote {
                url: String::from("git@github.com:foo/foo.git"),
                name: String::from("github-foo"),
            },
            extra_remotes: vec![Remote {
                url: String::from("git@github.com:bar/foo.git"),
                name: String::from("github-bar"),
            }],
        })
    );
}

#[test]
fn legacy_two_named_remotes_one_unnamed() {
    assert_eq!(
        Project::from_str("foo | git@github.com:foo/foo.git github-foo | git@github.com:bar/foo.git github-bar | git@github.com:boo/foo.git github-boo"),
        Ok(Project {
            path: String::from("foo"),
            main_remote: Remote {
                url: String::from("git@github.com:foo/foo.git"),
                name: String::from("github-foo"),
            },
            extra_remotes: vec![
                Remote {
                    url: String::from("git@github.com:bar/foo.git"),
                    name: String::from("github-bar"),
                },
                Remote {
                    url: String::from("git@github.com:boo/foo.git"),
                    name: String::from("github-boo"),
                },
            ],
        })
    );
}

#[test]
fn legacy_third_remote_must_have_url() {
    let line = "foo | git@github.com:foo/foo.git | git@github.com:bar/foo.git |";
    assert!(
        Project::from_str(line).is_err(),
        "This line should result in an error: {}",
        line
    );
}

#[test]
fn legacy_third_remote_must_have_name() {
    let line =
        "foo | git@github.com:foo/foo.git | git@github.com:bar/foo.git | git@github.com:boo/foo.git";
    assert!(
        Project::from_str(line).is_err(),
        "This line should result in an error: {}",
        line
    );
}

#[test]
fn legacy_example_config_is_parsed_correctly() {
    let config = "
            foo/bar | https://github.com/foo/bar.git
            boo | git@github.com:foo/boo.git | http://coool myone | testurl upstream

            # Just a comment

            moo | git@github.com:foo/moo.git # | http://coool myone | testurl upstream
        ";

    let workspace: Result<Workspace, ConfigError> = Workspace::from_str(config);

    assert_eq!(
        workspace,
        Ok(Workspace::from(vec![
            Project {
                path: "foo/bar".to_string(),
                main_remote: remote("origin", "https://github.com/foo/bar.git"),
                extra_remotes: vec![],
            },
            Project {
                path: "boo".to_string(),
                main_remote: remote("origin", "git@github.com:foo/boo.git"),
                extra_remotes: vec![remote("myone", "http://coool"), remote("upstream", "testurl")],
            },
            Project {
                path: "moo".to_string(),
                main_remote: remote("origin", "git@github.com:foo/moo.git"),
                extra_remotes: vec![],
            },
        ]))
    );
}

#[test]
fn errors_name_the_broken_rule() {
    assert_eq!(
        Project::from_str("foo | git@github.com:foo/foo.git |"),
        Err(ConfigError::SyntaxError("All remotes must specify a URL.".to_string()))
    );
    assert_eq!(
        Project::from_str("foo"),
        Err(ConfigError::InvalidConfig("At least one remote is required".to_string()))
    );
    assert_eq!(
        Project::from_str("foo | a | b | c"),
        Err(ConfigError::SyntaxError(
            "Remotes past the 2nd must be given an explicit name.".to_string()
        ))
    );
}

#[test]
fn workspace_is_ordered_by_path_and_keeps_first_of_a_path() {
    let ws = parse("zeta | u1\nalpha | u2\n\nzeta | u3 other\n").unwrap();
    let paths: Vec<&str> = ws.projects.iter().map(|p| p.path.as_str()).collect();
    assert_eq!(paths, vec!["alpha", "zeta"]);
    assert_eq!(ws.projects[1].main_remote, remote("origin", "u1"));
}

#[test]
fn workspace_reports_first_bad_line() {
    assert_eq!(
        parse("ok | u\nbad\nworse | a | b | c\n"),
        Err(ConfigError::InvalidConfig("At least one remote is required".to_string()))
    );
}

#[test]
fn empty_manifest_is_an_empty_workspace() {
    assert_eq!(parse("  \n# nothing\n"), Ok(Workspace { projects: vec![] }));
}

#[test]
fn remote_words_are_split_on_spaces_and_tabs() {
    let m = MaybeNamedRemote::from_str("  url\tname extra ").unwrap();
    assert_eq!(m.url, "url");
    assert_eq!(m.name, Some("name".to_string()));
    assert!(MaybeNamedRemote::from_str(" \t ").is_err());
}

#[test]
fn into_named_needs_a_name() {
    let unnamed = MaybeNamedRemote {
        url: "u".to_string(),
        name: None,
    };
    assert!(unnamed.into_named().is_err());
    let named = MaybeNamedRemote {
        url: "u".to_string(),
        name: Some("n".to_string()),
    };
    assert_eq!(named.into_named(), Ok(remote("n", "u")));
    let fallback = MaybeNamedRemote {
        url: "u".to_string(),
        name: None,
    };
    assert_eq!(fallback.into_named_or("origin"), remote("origin", "u"));
}

#[test]
fn unicode_whitespace_is_trimmed() {
    assert_eq!(
        Project::from_str("\u{a0}foo\u{3000}| url\r"),
        Ok(Project {
            path: "foo".to_string(),
            main_remote: remote("origin", "url"),
            extra_remotes: vec![],
        })
    );
}
