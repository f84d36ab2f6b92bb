use ngit::chain::get_most_recent_patch_with_ancestors;
use ngit::events::{Event, PATCH_KIND, STATUS_KIND_APPLIED, STATUS_KIND_CLOSED, STATUS_KIND_OPEN};
use ngit::proposals::{
    dominant_status_kind, find_proposal_and_patches_by_branch_name, get_all_proposals,
    get_open_proposals,
};

fn event(id: &str, created_at: u64, kind: u64, tags: &[&[&str]]) -> Event {
    Event {
        id: id.to_string(),
        pubkey: "author1".to_string(),
        created_at,
        kind,
        content: String::new(),
        tags: tags
            .iter()
            .map(|t| t.iter().map(|s| s.to_string()).collect())
            .collect(),
        sig: String::new(),
    }
}

fn root_patch(id: &str, created_at: u64, title: &str) -> Event {
    let mut e = event(id, created_at, PATCH_KIND, &[&["t", "root"]]);
    e.content = format!(
        "From aa11 Mon Sep 17 00:00:00 2001\nSubject: [PATCH 1/2] {title}\n\nbody"
    );
    e
}

fn reply_patch(id: &str, created_at: u64, root: &str, parent: &str) -> Event {
    event(
        id,
        created_at,
        PATCH_KIND,
        &[&["e", root, "", "root"], &["e", parent, "", "reply"]],
    )
}

#[test]
fn chain_is_linked_root_to_tip() {
    let events = vec![
        reply_patch("p3", 120, "r1", "p2"),
        root_patch("r1", 100, "one"),
        reply_patch("p2", 110, "r1", "r1"),
    ];
    let chain = get_most_recent_patch_with_ancestors(&events).unwrap();
    let ids: Vec<&str> = chain.iter().map(|e| e.id.as_str()).collect();
    assert_eq!(ids, vec!["r1", "p2", "p3"]);
}

#[test]
fn chain_prefers_newest_competing_child() {
    let events = vec![
        root_patch("r1", 100, "one"),
        reply_patch("old", 110, "r1", "r1"),
        reply_patch("new", 120, "r1", "r1"),
    ];
    let chain = get_most_recent_patch_with_ancestors(&events).unwrap();
    let ids: Vec<&str> = chain.iter().map(|e| e.id.as_str()).collect();
    assert_eq!(ids, vec!["r1", "new"]);
}

#[test]
fn chain_fails_without_a_root() {
    let events = vec![reply_patch("p2", 110, "r1", "r1")];
    assert_eq!(
        get_most_recent_patch_with_ancestors(&events).unwrap_err(),
        "no patch chain found"
    );
}

#[test]
fn dominant_status_is_newest_with_id_tiebreak() {
    let statuses = vec![
        event("s1", 100, STATUS_KIND_OPEN, &[&["e", "r1"]]),
        event("s2", 200, STATUS_KIND_CLOSED, &[&["e", "r1"]]),
        event("s3", 150, STATUS_KIND_APPLIED, &[&["e", "r1"]]),
    ];
    assert_eq!(dominant_status_kind("r1", &statuses), STATUS_KIND_CLOSED);
    // same created_at: the lexicographically greater id wins
    let tied = vec![
        event("a", 100, STATUS_KIND_CLOSED, &[&["e", "r1"]]),
        event("b", 100, STATUS_KIND_APPLIED, &[&["e", "r1"]]),
    ];
    assert_eq!(dominant_status_kind("r1", &tied), STATUS_KIND_APPLIED);
    // no status at all: open
    assert_eq!(dominant_status_kind("r2", &statuses), STATUS_KIND_OPEN);
}

#[test]
fn open_set_drops_closed_and_revision_roots() {
    let open_root = root_patch("r1", 100, "open one");
    let closed_root = root_patch("r2", 100, "closed one");
    let mut revision_root = root_patch("r3", 100, "revision");
    revision_root
        .tags
        .push(vec!["t".to_string(), "revision-root".to_string()]);
    let proposals = vec![open_root.clone(), closed_root.clone(), revision_root];
    let statuses = vec![event("s1", 200, STATUS_KIND_CLOSED, &[&["e", "r2"]])];
    let patches = proposals.clone();

    let open = get_open_proposals(&proposals, &statuses, &patches);
    assert_eq!(open.len(), 1);
    assert_eq!(open[0].root.id, "r1");
    assert_eq!(open[0].chain.len(), 1);

    let all = get_all_proposals(&proposals, &patches);
    assert_eq!(all.len(), 2);
    assert_eq!(all[0].root.id, "r1");
    assert_eq!(all[1].root.id, "r2");
}

#[test]
fn proposal_without_resolvable_chain_is_omitted() {
    // the proposal root is known but none of its patch events can be
    // found, so no chain resolves: the proposal is dropped silently and
    // the call still succeeds
    let proposals = vec![root_patch("r1", 100, "one")];
    let patches: Vec<Event> = vec![];
    let open = get_open_proposals(&proposals, &vec![], &patches);
    assert_eq!(open.len(), 0);
    let all = get_all_proposals(&proposals, &patches);
    assert_eq!(all.len(), 0);
}

#[test]
fn open_entries_reappear_in_all() {
    let open_root = root_patch("r1", 100, "open one");
    let closed_root = root_patch("r2", 100, "closed one");
    let proposals = vec![open_root, closed_root];
    let statuses = vec![event("s1", 200, STATUS_KIND_CLOSED, &[&["e", "r2"]])];
    let patches = proposals.clone();

    let open = get_open_proposals(&proposals, &statuses, &patches);
    let all = get_all_proposals(&proposals, &patches);
    for entry in &open {
        assert!(all.iter().any(|a| a.root.id == entry.root.id));
    }
    assert_eq!(open.len(), 1);
    assert_eq!(all.len(), 2);
}

#[test]
fn proposal_label_comes_from_first_commit_subject() {
    // a proposal without a cover letter is labelled by its first
    // commit's subject line
    let root = root_patch("r1", 100, "add d3.md");
    let cl = ngit::cover_letter::event_to_cover_letter(&root).unwrap();
    assert_eq!(cl.title, "add d3.md");
}

#[test]
fn branch_matcher_uses_slugified_title_for_other_authors() {
    let proposals = vec![root_patch("r1", 100, "add d3.md")];
    let statuses = vec![];
    let patches = proposals.clone();
    let open = get_open_proposals(&proposals, &statuses, &patches);
    assert_eq!(open.len(), 1);

    let user = Some("someone-else".to_string());
    assert_eq!(
        find_proposal_and_patches_by_branch_name("refs/heads/add-d3-md", &open, &user),
        Some(0)
    );
    assert_eq!(
        find_proposal_and_patches_by_branch_name("add-d3-md", &open, &user),
        Some(0)
    );
    assert_eq!(
        find_proposal_and_patches_by_branch_name("refs/heads/add d3.md", &open, &user),
        None
    );
}

#[test]
fn branch_matcher_uses_literal_branch_name_for_author() {
    let mut root = root_patch("r1", 100, "add d3.md");
    root.tags
        .push(vec!["branch-name".to_string(), "wip/d3".to_string()]);
    let proposals = vec![root];
    let open = get_open_proposals(&proposals, &vec![], &proposals);
    assert_eq!(open.len(), 1);

    // the proposal's author matches the literal branch name
    let author = Some("author1".to_string());
    assert_eq!(
        find_proposal_and_patches_by_branch_name("refs/heads/wip/d3", &open, &author),
        Some(0)
    );
    // everyone else matches the slugified title
    let other = Some("other".to_string());
    assert_eq!(
        find_proposal_and_patches_by_branch_name("refs/heads/add-d3-md", &open, &other),
        Some(0)
    );
    assert_eq!(
        find_proposal_and_patches_by_branch_name("refs/heads/wip/d3", &open, &other),
        None
    );
}

#[test]
fn newest_revision_chain_is_selected() {
    let root = root_patch("r1", 100, "one");
    let first_patch = reply_patch("p2", 110, "r1", "r1");
    // a newer revision supersedes the original series
    let mut revision = root_patch("rr", 200, "one v2");
    revision
        .tags
        .push(vec!["t".to_string(), "revision-root".to_string()]);
    revision
        .tags
        .push(vec!["e".to_string(), "r1".to_string(), "".to_string(), "reply".to_string()]);
    let rev_patch = reply_patch("p9", 210, "rr", "rr");

    let proposals = vec![root.clone()];
    let patches = vec![root, first_patch, revision, rev_patch];
    let open = get_open_proposals(&proposals, &vec![], &patches);
    assert_eq!(open.len(), 1);
    let ids: Vec<&str> = open[0].chain.iter().map(|e| e.id.as_str()).collect();
    assert_eq!(ids, vec!["rr", "p9"]);
}
