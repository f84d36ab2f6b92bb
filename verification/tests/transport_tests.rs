use ngit::transport::{
    get_read_protocols_to_try, get_remote_name_by_url, get_short_git_server_name,
    switch_clone_url_between_ssh_and_https, CloneUrl, NostrUrlDecoded, ServerProtocol,
};

fn url(u: &str) -> CloneUrl {
    CloneUrl { url: u.to_string() }
}

fn unpinned() -> NostrUrlDecoded {
    NostrUrlDecoded { protocol: None }
}

#[test]
fn transport_order_for_http_is_unauth_ssh_auth() {
    assert_eq!(
        get_read_protocols_to_try(&url("http://host/repo.git"), &unpinned()),
        vec![
            ServerProtocol::UnauthHttp,
            ServerProtocol::Ssh,
            ServerProtocol::Http
        ]
    );
}

#[test]
fn transport_order_for_file_is_filesystem_alone() {
    assert_eq!(
        get_read_protocols_to_try(&url("file:///home/user/repo"), &unpinned()),
        vec![ServerProtocol::Filesystem]
    );
}

#[test]
fn transport_order_for_ftp_and_default() {
    assert_eq!(
        get_read_protocols_to_try(&url("ftp://host/repo"), &unpinned()),
        vec![ServerProtocol::Ftp, ServerProtocol::Ssh]
    );
    assert_eq!(
        get_read_protocols_to_try(&url("https://host/repo"), &unpinned()),
        vec![
            ServerProtocol::UnauthHttps,
            ServerProtocol::Ssh,
            ServerProtocol::Https
        ]
    );
}

#[test]
fn pinned_protocol_is_tried_alone() {
    let pinned = NostrUrlDecoded {
        protocol: Some(ServerProtocol::Ssh),
    };
    assert_eq!(
        get_read_protocols_to_try(&url("https://host/repo"), &pinned),
        vec![ServerProtocol::Ssh]
    );
}

#[test]
fn switch_round_trips_https_urls() {
    let u = "https://github.com/user/repo.git";
    let once = switch_clone_url_between_ssh_and_https(u).unwrap();
    assert_eq!(once, "git@github.com:user/repo.git");
    let twice = switch_clone_url_between_ssh_and_https(&once).unwrap();
    assert_eq!(twice, u);
}

#[test]
fn switch_converts_ssh_scheme_to_git_at() {
    assert_eq!(
        switch_clone_url_between_ssh_and_https("ssh://github.com/user/repo.git").unwrap(),
        "git@github.com:user/repo.git"
    );
}

#[test]
fn switch_rejects_malformed_urls() {
    assert_eq!(
        switch_clone_url_between_ssh_and_https("https://no-path").unwrap_err(),
        "Invalid HTTPS URL format: https://no-path"
    );
    assert_eq!(
        switch_clone_url_between_ssh_and_https("ssh://no-path").unwrap_err(),
        "Invalid SSH URL format: ssh://no-path"
    );
    assert_eq!(
        switch_clone_url_between_ssh_and_https("git@host").unwrap_err(),
        "Invalid git@ URL format: git@host"
    );
    assert_eq!(
        switch_clone_url_between_ssh_and_https("git@host:a:b").unwrap_err(),
        "Invalid git@ URL format: git@host:a:b"
    );
    assert_eq!(
        switch_clone_url_between_ssh_and_https("ftp://host/x").unwrap_err(),
        "Unsupported URL protocol: ftp://host/x"
    );
}

#[test]
fn remote_name_is_found_by_url() {
    let remotes = vec![
        (Some("origin".to_string()), Some("https://a/b".to_string())),
        (None, Some("https://c/d".to_string())),
        (Some("fork".to_string()), Some("https://e/f".to_string())),
    ];
    assert_eq!(
        get_remote_name_by_url(&remotes, "https://e/f").unwrap(),
        "fork"
    );
    assert_eq!(
        get_remote_name_by_url(&remotes, "https://c/d").unwrap_err(),
        "could not find remote with matching url"
    );
}

#[test]
fn short_server_name_prefers_remote_then_domain() {
    let remotes = vec![(Some("origin".to_string()), Some("https://a/b".to_string()))];
    assert_eq!(get_short_git_server_name(&remotes, "https://a/b"), "origin");
    assert_eq!(
        get_short_git_server_name(&remotes, "https://github.com/x/y"),
        "github.com"
    );
    assert_eq!(
        get_short_git_server_name(&remotes, "not a url at all"),
        "not a url at all"
    );
}
