use clarity::bootstrap::{
    build_id, current_build_id, daemon_disposition, discover_repository, git, git_head,
    git_optional, identity_of_directory, local_repository_identity, origin_arguments,
    read_selection, repository_identity, repository_named, toplevel_arguments, workspace_from_issue, write_selection,
    BootstrapError, DaemonDisposition, DaemonIdentity, DaemonProbe, DaemonRecord, GitOutput,
    RepositoryContext, ACTIVE_WORKSPACE_FILE, DAEMON_PROTOCOL_VERSION, DAEMON_RECORD_FILE,
};
use clarity::paths::PathStyle;

fn said(text: &str) -> GitOutput {
    GitOutput {
        success: true,
        code: Some(0),
        stdout: format!("{text}\n").into_bytes(),
        stderr: Vec::new(),
    }
}

fn failed(code: i32, text: &str) -> GitOutput {
    GitOutput {
        success: false,
        code: Some(code),
        stdout: Vec::new(),
        stderr: format!("{text}\n").into_bytes(),
    }
}

#[test]
fn discovers_repository_from_nested_directory() {
    let revision = "0123456789abcdef0123456789abcdef01234567";
    let repository = discover_repository(
        &said("/work/checkout"),
        &said(revision),
        &said("git@github.com:antidmg/clarity.git"),
        PathStyle::Slash,
    )
    .unwrap();

    assert_eq!(repository.root, "/work/checkout");
    assert_eq!(repository.identity, "antidmg/clarity");
    assert_eq!(repository.revision.unwrap().len(), 40);
}

#[test]
fn discovers_repository_before_its_first_commit() {
    let repository = discover_repository(
        &said("/work/checkout"),
        &failed(1, ""),
        &said("git@github.com:antidmg/clarity.git"),
        PathStyle::Slash,
    )
    .unwrap();

    assert_eq!(repository.identity, "antidmg/clarity");
    assert_eq!(repository.revision, None);
}

#[test]
fn discovers_local_repository_without_an_origin() {
    let repository = discover_repository(
        &said("/work/prototype"),
        &failed(1, ""),
        &failed(2, "error: No such remote 'origin'"),
        PathStyle::Slash,
    )
    .unwrap();

    assert_eq!(repository.identity, "local/prototype");
    assert_eq!(repository.revision, None);
}

#[test]
fn selection_round_trips() {
    let contents = write_selection("linear:TG-183");
    assert_eq!(contents, "linear:TG-183\n");
    assert_eq!(read_selection(Some(contents)).unwrap(), "linear:TG-183");
}

#[test]
fn maps_linear_issue_to_canonical_workspace() {
    let repository = RepositoryContext {
        root: "/tmp/clarity".into(),
        identity: "antidmg/clarity".into(),
        revision: Some("abc123".into()),
    };
    let workspace = workspace_from_issue(
        "TG-183".into(),
        "One-command entry".into(),
        "https://linear.app/issue/TG-183".into(),
        Some("Create or reconnect the workspace".into()),
        None,
        &repository,
    );

    assert_eq!(workspace.scope, "linear:TG-183");
    assert_eq!(workspace.objective, "Create or reconnect the workspace");
    assert_eq!(workspace.repository.unwrap().repository, "antidmg/clarity");
}

#[test]
fn daemon_state_distinguishes_ownership_and_compatibility() {
    let record = DaemonRecord {
        endpoint: "http://127.0.0.1:7331".into(),
        pid: 42,
        owner_token: Some("ours".into()),
        repository: Some("antidmg/clarity".into()),
        protocol_version: Some(DAEMON_PROTOCOL_VERSION),
        build_id: Some("current".into()),
    };
    let identity = DaemonIdentity {
        owner_token: "ours".into(),
        repository: "antidmg/clarity".into(),
        protocol_version: DAEMON_PROTOCOL_VERSION,
        build_id: "current".into(),
    };
    let compatible = DaemonProbe::Identified(identity.clone());
    let stale = DaemonProbe::Identified(DaemonIdentity { build_id: "old".into(), ..identity });
    let legacy_record = DaemonRecord {
        endpoint: record.endpoint.clone(),
        pid: 41,
        owner_token: None,
        repository: None,
        protocol_version: None,
        build_id: None,
    };

    assert_eq!(
        daemon_disposition(
            &record.endpoint,
            "antidmg/clarity",
            "current",
            Some(&record),
            &compatible,
        ),
        DaemonDisposition::OwnedCompatible
    );
    assert_eq!(
        daemon_disposition(
            &record.endpoint,
            "antidmg/clarity",
            "current",
            Some(&record),
            &stale,
        ),
        DaemonDisposition::OwnedStale
    );
    assert_eq!(
        daemon_disposition(
            &record.endpoint,
            "antidmg/clarity",
            "current",
            Some(&legacy_record),
            &DaemonProbe::ForeignResponse,
        ),
        DaemonDisposition::OwnedStale
    );
    assert_eq!(
        daemon_disposition(
            &record.endpoint,
            "antidmg/clarity",
            "current",
            Some(&legacy_record),
            &compatible,
        ),
        DaemonDisposition::OwnedStale
    );
    assert_eq!(
        daemon_disposition(
            &record.endpoint,
            "antidmg/clarity",
            "current",
            None,
            &compatible,
        ),
        DaemonDisposition::Foreign
    );
    assert_eq!(
        daemon_disposition(
            &record.endpoint,
            "antidmg/clarity",
            "current",
            None,
            &DaemonProbe::Absent,
        ),
        DaemonDisposition::Absent
    );
    assert_eq!(
        daemon_disposition(
            &record.endpoint,
            "antidmg/clarity",
            "current",
            Some(&record),
            &DaemonProbe::Absent,
        ),
        DaemonDisposition::OwnedStale
    );
}

#[test]
fn daemons_of_others_are_foreign() {
    let record = DaemonRecord {
        endpoint: "http://127.0.0.1:7331".into(),
        pid: 42,
        owner_token: Some("ours".into()),
        repository: Some("antidmg/clarity".into()),
        protocol_version: Some(DAEMON_PROTOCOL_VERSION),
        build_id: Some("current".into()),
    };
    let other = DaemonProbe::Identified(DaemonIdentity {
        owner_token: "theirs".into(),
        repository: "antidmg/clarity".into(),
        protocol_version: DAEMON_PROTOCOL_VERSION,
        build_id: "current".into(),
    });
    let endpoint = "http://127.0.0.1:7331";
    assert_eq!(
        daemon_disposition(endpoint, "antidmg/clarity", "current", Some(&record), &other),
        DaemonDisposition::Foreign
    );
    assert_eq!(
        daemon_disposition(
            endpoint,
            "antidmg/clarity",
            "current",
            Some(&record),
            &DaemonProbe::ForeignResponse
        ),
        DaemonDisposition::Foreign
    );
    let same = DaemonProbe::Identified(DaemonIdentity {
        owner_token: "ours".into(),
        repository: "antidmg/clarity".into(),
        protocol_version: DAEMON_PROTOCOL_VERSION + 1,
        build_id: "current".into(),
    });
    assert_eq!(
        daemon_disposition(endpoint, "antidmg/clarity", "current", Some(&record), &same),
        DaemonDisposition::OwnedStale
    );
    assert_eq!(
        daemon_disposition(endpoint, "antidmg/other", "current", Some(&record), &same),
        DaemonDisposition::Foreign
    );
    assert_eq!(
        daemon_disposition(
            "http://127.0.0.1:1",
            "antidmg/clarity",
            "current",
            Some(&record),
            &same
        ),
        DaemonDisposition::Foreign
    );
}

#[test]
fn git_failures_are_told_apart() {
    let not_a_repository = failed(128, "fatal: not a git repository");
    assert_eq!(
        discover_repository(&not_a_repository, &failed(1, ""), &failed(2, ""), PathStyle::Slash),
        Err(BootstrapError::Git("fatal: not a git repository".into()))
    );
    assert_eq!(
        discover_repository(&said("/work/a"), &failed(128, " fatal: bad "), &failed(2, ""), PathStyle::Slash),
        Err(BootstrapError::Git("fatal: bad".into()))
    );
    assert_eq!(
        discover_repository(&said("/"), &failed(1, ""), &failed(2, ""), PathStyle::Slash),
        Err(BootstrapError::Git("repository root has no usable directory name".into()))
    );
    assert_eq!(
        discover_repository(&said("/work/a"), &failed(1, ""), &said("lonely"), PathStyle::Slash),
        Err(BootstrapError::InvalidOrigin("lonely".into()))
    );
    assert_eq!(git_head(&said("abc")), Ok(Some("abc".into())));
    let killed = GitOutput {
        success: false,
        code: None,
        stdout: Vec::new(),
        stderr: b"killed".to_vec(),
    };
    assert_eq!(git_head(&killed), Err(BootstrapError::Git("killed".into())));
    assert_eq!(git_optional(&origin_arguments(), &killed), Ok(None));
    assert_eq!(
        git_optional(&toplevel_arguments(), &killed),
        Err(BootstrapError::Git("killed".into()))
    );
    assert_eq!(
        git(&origin_arguments(), &killed),
        Err(BootstrapError::Git("git remote get-url origin returned no output".into()))
    );
    assert_eq!(git(&toplevel_arguments(), &said(" /root ")), Ok("/root".into()));
}

#[test]
fn output_that_is_not_utf8_is_read_with_replacements() {
    let output = GitOutput {
        success: true,
        code: Some(0),
        stdout: vec![b'a', 0xff, b'b', b'\n'],
        stderr: Vec::new(),
    };
    assert_eq!(git_head(&output), Ok(Some("a\u{fffd}b".into())));
}

#[test]
fn origins_identify_repositories() {
    let cases = [
        ("git@github.com:antidmg/clarity.git", Some("antidmg/clarity")),
        ("https://github.com/antidmg/clarity.git", Some("antidmg/clarity")),
        ("https://github.com/antidmg/clarity/", Some("antidmg/clarity")),
        (" ssh://git@host/a/b/c ", Some("a/b/c")),
        ("antidmg/clarity", Some("antidmg/clarity")),
        ("antidmg/clarity.git.git", Some("antidmg/clarity")),
        ("https://github.com", None),
        ("https://github.com/clarity", None),
        ("clarity", None),
        ("host:clarity", None),
        ("", None),
    ];
    for (origin, expected) in cases {
        match expected {
            Some(identity) => assert_eq!(repository_identity(origin), Ok(identity.into())),
            None => assert_eq!(
                repository_identity(origin),
                Err(BootstrapError::InvalidOrigin(origin.into()))
            ),
        }
    }
}

#[test]
fn origins_are_written_in_many_ways() {
    for host in ["github.com", "h"] {
        for (owner, repository) in [("antidmg", "clarity"), ("a", "git"), ("o.git", "r.gi")] {
            for ending in ["", ".git", ".git/"] {
                let identity = format!("{owner}/{repository}");
                for origin in [
                    format!("git@{host}:{identity}{ending}"),
                    format!("https://{host}/{identity}{ending}"),
                    format!("ssh://git@{host}/{identity}{ending}"),
                ] {
                    assert_eq!(repository_identity(&origin), Ok(identity.clone()), "{origin}");
                }
                for origin in [
                    format!("git@{host}:{repository}{ending}"),
                    format!("https://{host}/{repository}{ending}"),
                    format!("ssh://git@{host}/{repository}{ending}"),
                ] {
                    assert_eq!(
                        repository_identity(&origin),
                        Err(BootstrapError::InvalidOrigin(origin.clone()))
                    );
                }
            }
        }
    }
}

#[test]
fn drives_and_backslashes_are_read_where_paths_have_them() {
    let cases = [
        ("C:/Users/me/prototype", Some("prototype")),
        ("C:\\Users\\me\\prototype\\", Some("prototype")),
        ("C:prototype", Some("prototype")),
        ("prototype", Some("prototype")),
        ("C:/", None),
        ("C:", None),
        ("C:\\..", None),
        ("\\", None),
        ("", None),
    ];
    for (root, name) in cases {
        let expected = match name {
            Some(name) => Ok(format!("local/{name}")),
            None => Err(BootstrapError::Git(
                "repository root has no usable directory name".into(),
            )),
        };
        assert_eq!(local_repository_identity(root, PathStyle::Backslash), expected, "{root}");
    }
    assert_eq!(
        local_repository_identity("C:\\prototype", PathStyle::Slash),
        Ok("local/C:\\prototype".into())
    );
    assert_eq!(
        local_repository_identity("//server/share/prototype", PathStyle::Backslash),
        Ok("local/prototype".into())
    );
    assert_eq!(identity_of_directory(Some("prototype".into())), Ok("local/prototype".into()));
    assert!(identity_of_directory(Some(String::new())).is_err());
    assert!(identity_of_directory(None).is_err());
    let repository = repository_named(
        &said("//server/share"),
        &failed(1, ""),
        &failed(2, ""),
        Some("share".into()),
    )
    .unwrap();
    assert_eq!(repository.root, "//server/share");
    assert_eq!(repository.identity, "local/share");
}

#[test]
fn this_machine_reads_paths_as_the_standard_library_does() {
    let style = PathStyle::of_this_machine();
    assert_eq!(style, PathStyle::by_backslash(std::path::is_separator('\\')));
    assert_eq!(PathStyle::by_backslash(true), PathStyle::Backslash);
    assert_eq!(PathStyle::by_backslash(false), PathStyle::Slash);
    for root in ["/work/prototype", "/work/prototype/..", "a\\b", "C:/a", "C:", ""] {
        let expected = std::path::Path::new(root)
            .file_name()
            .and_then(|name| name.to_str())
            .map(|name| format!("local/{name}"));
        assert_eq!(local_repository_identity(root, style).ok(), expected, "{root}");
    }
}

#[test]
fn local_identities_follow_the_file_name_of_a_path() {
    let roots = [
        "/work/prototype",
        "/work/prototype/",
        "/work/prototype/.",
        "/work/./prototype//",
        "prototype",
        "./prototype",
        "/work/..",
        "..",
        ".",
        "./.",
        "/",
        "",
        "/work/..name",
        "/a/../b",
    ];
    for root in roots {
        let expected = std::path::Path::new(root)
            .file_name()
            .and_then(|name| name.to_str())
            .map(|name| format!("local/{name}"));
        assert_eq!(local_repository_identity(root, PathStyle::Slash).ok(), expected, "{root}");
    }
}

#[test]
fn blank_descriptions_give_way_to_the_title() {
    let repository = RepositoryContext {
        root: "/tmp/clarity".into(),
        identity: "antidmg/clarity".into(),
        revision: None,
    };
    for description in [None, Some(" \n".to_owned())] {
        let workspace = workspace_from_issue(
            "TG-1".into(),
            "The title".into(),
            "https://linear.app/issue/TG-1".into(),
            description,
            None,
            &repository,
        );
        assert_eq!(workspace.objective, "The title");
        assert_eq!(workspace.title, "The title");
        assert_eq!(workspace.linear_issue.url.as_deref(), Some("https://linear.app/issue/TG-1"));
        assert_eq!(workspace.repository.unwrap().revision, None);
    }
}

#[test]
fn missing_and_blank_selections_are_missing() {
    assert_eq!(read_selection(None), Err(BootstrapError::MissingSelection));
    assert_eq!(read_selection(Some(" \n".into())), Err(BootstrapError::MissingSelection));
    assert_eq!(read_selection(Some("  a b \n\n".into())), Ok("a b".into()));
}

#[test]
fn build_identities_are_sixteen_digits() {
    assert_eq!(build_id(0), "0000000000000000");
    assert_eq!(build_id(0x00ab_cdef_0123_4567), "00abcdef01234567");
    assert_eq!(build_id(u64::MAX), "ffffffffffffffff");
    let one = current_build_id(&vec![1, 2, 3]);
    assert_eq!(one.len(), 16);
    assert_eq!(one, current_build_id(&vec![1, 2, 3]));
    assert_ne!(one, current_build_id(&vec![1, 2, 4]));
    let mut hasher = std::collections::hash_map::DefaultHasher::new();
    std::hash::Hash::hash(&vec![1u8, 2, 3], &mut hasher);
    assert_eq!(one, format!("{:016x}", std::hash::Hasher::finish(&hasher)));
}

#[test]
fn bootstrap_errors_say_what_happened() {
    assert_eq!(BootstrapError::Io("gone".into()).message(), "I/O failed: gone");
    assert_eq!(BootstrapError::Git("bad".into()).message(), "Git command failed: bad");
    assert_eq!(
        BootstrapError::InvalidOrigin("x".into()).message(),
        "repository origin is not a recognizable Git URL: x"
    );
    assert_eq!(
        BootstrapError::MissingSelection.message(),
        "no active Clarity workstream in this checkout; run `clarity up TG-*` first"
    );
    assert_eq!(
        BootstrapError::InvalidDaemonRecord("eof".into()).message(),
        "invalid daemon record: eof"
    );
    assert_eq!(ACTIVE_WORKSPACE_FILE, ".clarity/active-workspace");
    assert_eq!(DAEMON_RECORD_FILE, ".clarity/daemon.json");
}
