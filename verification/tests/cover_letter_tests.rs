use ngit::cover_letter::{cover_letter_content, event_to_cover_letter, slugify};
use ngit::events::{Event, PATCH_KIND};

fn generate_cover_letter(title: &str, description: &str) -> Event {
    Event {
        id: "c0ffee".to_string(),
        pubkey: "author".to_string(),
        created_at: 100,
        kind: PATCH_KIND,
        content: format!(
            "From ea897e987ea9a7a98e7a987e97987ea98e7a3334 Mon Sep 17 00:00:00 2001\nSubject: [PATCH 0/2] {title}\n\n{description}"
        ),
        tags: vec![
            vec!["t".to_string(), "cover-letter".to_string()],
            vec!["t".to_string(), "root".to_string()],
        ],
        sig: String::new(),
    }
}

#[test]
fn basic_title() {
    assert_eq!(
        event_to_cover_letter(&generate_cover_letter("the title", "description here"))
            .unwrap()
            .title,
        "the title",
    );
}

#[test]
fn basic_description() {
    assert_eq!(
        event_to_cover_letter(&generate_cover_letter("the title", "description here"))
            .unwrap()
            .description,
        "description here",
    );
}

#[test]
fn description_trimmed() {
    assert_eq!(
        event_to_cover_letter(&generate_cover_letter(
            "the title",
            " \n \ndescription here\n\n "
        ))
        .unwrap()
        .description,
        "description here",
    );
}

#[test]
fn multi_line_description() {
    assert_eq!(
        event_to_cover_letter(&generate_cover_letter(
            "the title",
            "description here\n\nmore here\nmore"
        ))
        .unwrap()
        .description,
        "description here\n\nmore here\nmore",
    );
}

#[test]
fn new_lines_in_title_forms_part_of_description() {
    assert_eq!(
        event_to_cover_letter(&generate_cover_letter(
            "the title\nwith new line",
            "description here\n\nmore here\nmore"
        ))
        .unwrap()
        .title,
        "the title",
    );
    assert_eq!(
        event_to_cover_letter(&generate_cover_letter(
            "the title\nwith new line",
            "description here\n\nmore here\nmore"
        ))
        .unwrap()
        .description,
        "with new line\n\ndescription here\n\nmore here\nmore",
    );
}

#[test]
fn title_correct() {
    assert_eq!(
        event_to_cover_letter(&generate_cover_letter("the title", ""))
            .unwrap()
            .title,
        "the title",
    );
}

#[test]
fn description_is_empty_string() {
    assert_eq!(
        event_to_cover_letter(&generate_cover_letter("the title", ""))
            .unwrap()
            .description,
        "",
    );
}

#[test]
fn cover_letter_round_trips_through_content_builder() {
    let content = cover_letter_content("abc123", 3, "add feature", "  longer text\nhere  ");
    assert_eq!(
        content,
        "From abc123 Mon Sep 17 00:00:00 2001\nSubject: [PATCH 0/3] add feature\n\n  longer text\nhere  "
    );
    let ev = Event {
        id: "i".to_string(),
        pubkey: "p".to_string(),
        created_at: 1,
        kind: PATCH_KIND,
        content,
        tags: vec![vec!["t".to_string(), "root".to_string()]],
        sig: String::new(),
    };
    let cl = event_to_cover_letter(&ev).unwrap();
    assert_eq!(cl.title, "add feature");
    assert_eq!(cl.description, "longer text\nhere");
    assert_eq!(cl.branch_name, "add-feature");
}

#[test]
fn non_root_event_is_rejected() {
    let ev = Event {
        id: "i".to_string(),
        pubkey: "p".to_string(),
        created_at: 1,
        kind: PATCH_KIND,
        content: "Subject: [PATCH 1/2] x\n\ny".to_string(),
        tags: vec![vec!["t".to_string(), "reply".to_string()]],
        sig: String::new(),
    };
    assert_eq!(
        event_to_cover_letter(&ev).unwrap_err(),
        "event is not a patch set root event (root patch or cover letter)"
    );
}

#[test]
fn unformatted_content_is_rejected() {
    let ev = Event {
        id: "i".to_string(),
        pubkey: "p".to_string(),
        created_at: 1,
        kind: PATCH_KIND,
        content: "no subject marker here".to_string(),
        tags: vec![vec!["t".to_string(), "root".to_string()]],
        sig: String::new(),
    };
    assert_eq!(
        event_to_cover_letter(&ev).unwrap_err(),
        "event is not formatted as a patch or cover letter"
    );
}

#[test]
fn slugify_keeps_alphanumerics_and_slashes() {
    assert_eq!(slugify("Add d3.md file"), "Add-d3-md-file");
    assert_eq!(slugify("feature/topic"), "feature/topic");
    assert_eq!(slugify("a  b"), "a--b");
}

#[test]
fn branch_name_tag_overrides_slug() {
    let mut ev = generate_cover_letter("the title", "d");
    ev.tags
        .push(vec!["branch-name".to_string(), "my-branch".to_string()]);
    assert_eq!(event_to_cover_letter(&ev).unwrap().branch_name, "my-branch");
}
