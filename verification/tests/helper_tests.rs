use ngit::helper::{batch_get, get_oids_from_fetch_batch, join_with_and, line_tokens};

fn strings(items: &[&str]) -> Vec<String> {
    items.iter().map(|s| s.to_string()).collect()
}

#[test]
fn test_empty() {
    let items: Vec<String> = vec![];
    assert_eq!(join_with_and(&items), "");
}

#[test]
fn test_single_item() {
    let items = strings(&["apple"]);
    assert_eq!(join_with_and(&items), "apple");
}

#[test]
fn test_two_items() {
    let items = strings(&["apple", "banana"]);
    assert_eq!(join_with_and(&items), "apple and banana");
}

#[test]
fn test_three_items() {
    let items = strings(&["apple", "banana", "cherry"]);
    assert_eq!(join_with_and(&items), "apple, banana and cherry");
}

#[test]
fn test_four_items() {
    let items = strings(&["apple", "banana", "cherry", "date"]);
    assert_eq!(join_with_and(&items), "apple, banana, cherry and date");
}

#[test]
fn test_multiple_items() {
    let items = strings(&["one", "two", "three", "four", "five"]);
    assert_eq!(join_with_and(&items), "one, two, three, four and five");
}

#[test]
fn line_tokens_splits_and_drops_empties() {
    let toks = line_tokens("  fetch  abc   refs/heads/main ");
    assert_eq!(toks, strings(&["fetch", "abc", "refs/heads/main"]));
    let empty = line_tokens("   ");
    assert_eq!(empty, Vec::<String>::new());
}

#[test]
fn fetch_batch_collects_both_refs() {
    let lines = strings(&["fetch oidB refs/heads/vnext", ""]);
    let batch = get_oids_from_fetch_batch(&lines, "oidA", "refs/heads/main").unwrap();
    assert_eq!(
        batch_get(&batch, "refs/heads/main"),
        Some("oidA".to_string())
    );
    assert_eq!(
        batch_get(&batch, "refs/heads/vnext"),
        Some("oidB".to_string())
    );
    assert_eq!(batch_get(&batch, "refs/heads/other"), None);
}

#[test]
fn fetch_batch_stops_at_empty_line() {
    let lines = strings(&["", "not a fetch line"]);
    let batch = get_oids_from_fetch_batch(&lines, "oidA", "refs/heads/main").unwrap();
    assert_eq!(batch.len(), 1);
    assert_eq!(
        batch_get(&batch, "refs/heads/main"),
        Some("oidA".to_string())
    );
}

#[test]
fn fetch_batch_rejects_other_commands() {
    let lines = strings(&["push refs/heads/main:refs/heads/main"]);
    let err = get_oids_from_fetch_batch(&lines, "oidA", "refs/heads/main").unwrap_err();
    assert_eq!(
        err,
        "after a `fetch` command we are only expecting another fetch or an empty line"
    );
}
