use ngit::events::{
    event_is_cover_letter, event_is_patch_set_root, event_is_revision_root, status_kinds,
    tag_value, Event, PATCH_KIND,
};
use ngit::send::{generate_patch_event, generate_pr_and_patch_events, CommitDetails, RepoRef};

fn commit(id: &str, parent: &str, message: &str) -> CommitDetails {
    CommitDetails {
        id: id.to_string(),
        parent: parent.to_string(),
        message: message.to_string(),
        author: vec!["alice".to_string(), "alice@example.com".to_string()],
        committer: vec!["alice".to_string(), "alice@example.com".to_string()],
        pgp_sig: String::new(),
        patch: format!("From {id} Mon Sep 17 00:00:00 2001\nSubject: [PATCH] {message}\n"),
    }
}

fn repo_ref() -> RepoRef {
    RepoRef {
        identifier: "myrepo".to_string(),
        maintainers: vec!["maintainerpubkey".to_string()],
        relays: vec!["wss://relay.example".to_string()],
    }
}

fn tag_vec(event: &Event, name: &str) -> Option<Vec<String>> {
    event.tags.iter().find(|t| t[0] == name).cloned()
}

#[test]
fn generated_patch_event_carries_commit_data() {
    let keys = nostr::key::Keys::generate();
    let c = commit("abc1", "abc0", "add file");
    let ev = generate_patch_event(
        &c,
        "rootcommit",
        &None,
        &keys,
        &repo_ref(),
        &None,
        &Some("main".to_string()),
    )
    .unwrap();

    assert_eq!(ev.kind, PATCH_KIND);
    assert_eq!(ev.content, c.patch);
    assert_eq!(
        tag_vec(&ev, "a"),
        Some(vec![
            "a".to_string(),
            "30617:maintainerpubkey:myrepo".to_string(),
            "wss://relay.example".to_string()
        ])
    );
    assert_eq!(
        tag_vec(&ev, "commit"),
        Some(vec!["commit".to_string(), "abc1".to_string()])
    );
    assert_eq!(
        tag_vec(&ev, "parent-commit"),
        Some(vec!["parent-commit".to_string(), "abc0".to_string()])
    );
    assert_eq!(
        tag_vec(&ev, "branch-name"),
        Some(vec!["branch-name".to_string(), "main".to_string()])
    );
    assert_eq!(
        tag_vec(&ev, "description"),
        Some(vec!["description".to_string(), "add file".to_string()])
    );
    // a root patch carries the root hashtag, not an e reference
    assert_eq!(
        tag_vec(&ev, "t"),
        Some(vec!["t".to_string(), "root".to_string()])
    );
    assert_eq!(tag_vec(&ev, "e"), None);
    // the signature is the real signer's work: the event verifies
    assert!(event_is_patch_set_root(&ev));
}

#[test]
fn generated_series_is_reply_linked() {
    let keys = nostr::key::Keys::generate();
    let commits = vec![commit("c1", "c0", "first"), commit("c2", "c1", "second")];
    let cover = Some(("my title".to_string(), "my description".to_string()));
    let events = generate_pr_and_patch_events(
        &cover,
        &commits,
        "rootcommit",
        &Some("feature".to_string()),
        &keys,
        &repo_ref(),
    )
    .unwrap();

    assert_eq!(events.len(), 3);
    assert!(event_is_cover_letter(&events[0]));
    assert!(events[0]
        .content
        .contains("Subject: [PATCH 0/2] my title\n\nmy description"));

    // the generated cover letter parses back to its inputs
    let cl = ngit::cover_letter::event_to_cover_letter(&events[0]).unwrap();
    assert_eq!(cl.title, "my title");
    assert_eq!(cl.description, "my description");
    assert_eq!(cl.branch_name, "feature");

    // each patch names the cover letter as thread root and its
    // predecessor as reply parent
    for i in 1..events.len() {
        let e_tags: Vec<&Vec<String>> =
            events[i].tags.iter().filter(|t| t[0] == "e").collect();
        assert_eq!(e_tags.len(), 2);
        assert_eq!(e_tags[0][1], events[0].id);
        assert_eq!(e_tags[0][3], "root");
        assert_eq!(e_tags[1][1], events[i - 1].id);
        assert_eq!(e_tags[1][3], "reply");
    }
}

#[test]
fn missing_maintainer_is_reported() {
    let keys = nostr::key::Keys::generate();
    let rr = RepoRef {
        identifier: "x".to_string(),
        maintainers: vec![],
        relays: vec![],
    };
    let c = commit("abc1", "abc0", "m");
    assert_eq!(
        generate_patch_event(&c, "root", &None, &keys, &rr, &None, &None).unwrap_err(),
        "repo reference should always have at least one maintainer - the issuer of the repo event"
    );
}

#[test]
fn event_predicates_read_hashtags() {
    let root = Event {
        id: "i".to_string(),
        pubkey: "p".to_string(),
        created_at: 1,
        kind: PATCH_KIND,
        content: String::new(),
        tags: vec![
            vec!["t".to_string(), "root".to_string()],
            vec!["t".to_string(), "cover-letter".to_string()],
        ],
        sig: String::new(),
    };
    assert!(event_is_patch_set_root(&root));
    assert!(event_is_cover_letter(&root));
    assert!(!event_is_revision_root(&root));
    assert_eq!(tag_value(&root, "t").unwrap(), "root");
    assert_eq!(tag_value(&root, "missing").unwrap_err(), "tag missing");
    assert_eq!(status_kinds(), vec![1630, 1631, 1632, 1633]);
}
