use ngit::events::{Event, PATCH_KIND};
use ngit::list::{
    checked_out_message, finding_proposals_message, no_proposals_message, proposal_labels,
};
use ngit::proposals::get_open_proposals;

fn series_root(id: &str, title: &str, with_cover: bool) -> Event {
    let mut tags = vec![vec!["t".to_string(), "root".to_string()]];
    let content = if with_cover {
        tags.push(vec!["t".to_string(), "cover-letter".to_string()]);
        format!(
            "From bb22 Mon Sep 17 00:00:00 2001\nSubject: [PATCH 0/1] {title}\n\nlonger text"
        )
    } else {
        format!("From bb22 Mon Sep 17 00:00:00 2001\nSubject: [PATCH 1/1] {title}\n\nbody")
    };
    Event {
        id: id.to_string(),
        pubkey: "author1".to_string(),
        created_at: 100,
        kind: PATCH_KIND,
        content,
        tags,
        sig: String::new(),
    }
}

#[test]
fn empty_listing_prints_the_expected_lines() {
    assert_eq!(finding_proposals_message(), "finding proposals...");
    assert_eq!(
        no_proposals_message(),
        "no proposals found... create one? try `ngit send`"
    );
}

#[test]
fn checkout_reports_pulled_commits() {
    assert_eq!(
        checked_out_message(2),
        "checked out proposal branch. pulled 2 new commits"
    );
}

#[test]
fn picker_labels_come_from_titles() {
    // three proposals with cover letters and one whose label falls back
    // to the first commit's subject line
    let proposals = vec![
        series_root("r1", "proposal a", true),
        series_root("r2", "proposal b", true),
        series_root("r3", "proposal c", true),
        series_root("r4", "add d3.md", false),
    ];
    let open = get_open_proposals(&proposals, &vec![], &proposals);
    assert_eq!(open.len(), 4);
    let labels = proposal_labels(&open);
    assert_eq!(
        labels,
        vec![
            "proposal a".to_string(),
            "proposal b".to_string(),
            "proposal c".to_string(),
            "add d3.md".to_string()
        ]
    );
}
