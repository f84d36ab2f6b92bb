use ngit::fanout::{publish_outcome, relay_details, unique_and_duplicate_all};

fn relays(items: &[&str]) -> Vec<String> {
    items.iter().map(|s| s.to_string()).collect()
}

#[test]
fn correct_number_of_unique_and_duplicate_items() {
    let v1 = relays(&["t1", "t2", "t3", "t4", "t5"]);
    let v2 = relays(&["t3", "t4", "t5", "t6"]);

    let (v1_u, v2_u, d, a) = unique_and_duplicate_all(&v1, &v2);

    assert_eq!(v1_u.len(), 2);
    assert_eq!(v2_u.len(), 1);
    assert_eq!(d.len(), 3);
    assert_eq!(a.len(), 6);
}

#[test]
fn all_begins_with_duplicates() {
    let v1 = relays(&["t1", "t2", "t3", "t4", "t5"]);
    let v2 = relays(&["t3", "t4", "t5", "t6"]);

    let (_, _, d, a) = unique_and_duplicate_all(&v1, &v2);

    assert_eq!(a[0], d[0]);
}

#[test]
fn fanout_targets_are_deduplicated_and_stable() {
    let v1 = relays(&["wss://a", "wss://b"]);
    let v2 = relays(&["wss://b", "wss://c"]);

    let (_, _, _, first) = unique_and_duplicate_all(&v1, &v2);
    let (_, _, _, second) = unique_and_duplicate_all(&v1, &v2);

    // publishing the same lists twice addresses the same relays in the
    // same order, and no relay appears twice
    assert_eq!(first, second);
    assert_eq!(first, relays(&["wss://b", "wss://a", "wss://c"]));
    for (i, x) in first.iter().enumerate() {
        for (j, y) in first.iter().enumerate() {
            if i != j {
                assert_ne!(x, y);
            }
        }
    }
}

#[test]
fn relay_details_marks_list_membership() {
    let mine = relays(&["wss://a", "wss://b"]);
    let repo = relays(&["wss://b"]);
    assert_eq!(relay_details("wss://a", &mine, &repo), " [my-relay] wss://a");
    assert_eq!(
        relay_details("wss://b", &mine, &repo),
        " [my-relay] [repo-relay] wss://b"
    );
    assert_eq!(relay_details("wss://c", &mine, &repo), " wss://c");
}

#[test]
fn publish_outcome_stops_at_first_failure() {
    assert_eq!(publish_outcome(&vec![true, true, true]), (3, false));
    assert_eq!(publish_outcome(&vec![true, false, true]), (1, true));
    assert_eq!(publish_outcome(&vec![]), (0, false));
    assert_eq!(publish_outcome(&vec![false]), (0, true));
}
