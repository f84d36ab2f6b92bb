use ngit::send::{
    divergence_prompt, identify_ahead_behind, no_commits_message, plan_cover_letter,
    posting_message, proceed_after_divergence, AheadBehindEntry, RepoSnapshot,
};

fn snapshot_with_main() -> RepoSnapshot {
    RepoSnapshot {
        branches: vec![("main".to_string(), "tip_main".to_string())],
        head: Some("tip_main".to_string()),
        checked_out_branch: Some("main".to_string()),
        root_commit: "root".to_string(),
        ahead_behind: vec![],
    }
}

#[test]
fn when_from_branch_doesnt_exist_return_error() {
    let repo = snapshot_with_main();
    let branch_name = "doesnt_exist";
    assert_eq!(
        identify_ahead_behind(&repo, &Some(branch_name.to_string()), &None).unwrap_err(),
        format!("cannot find from_branch '{}'", &branch_name),
    );
}

#[test]
fn when_to_branch_doesnt_exist_return_error() {
    let repo = snapshot_with_main();
    let branch_name = "doesnt_exist";
    assert_eq!(
        identify_ahead_behind(&repo, &None, &Some(branch_name.to_string())).unwrap_err(),
        format!("cannot find to_branch '{}'", &branch_name),
    );
}

#[test]
fn when_to_branch_is_none_and_no_main_or_master_branch_return_error() {
    let repo = RepoSnapshot {
        branches: vec![("notmain".to_string(), "tip_notmain".to_string())],
        head: Some("tip_notmain".to_string()),
        checked_out_branch: Some("notmain".to_string()),
        root_commit: "root".to_string(),
        ahead_behind: vec![],
    };
    assert_eq!(
        identify_ahead_behind(&repo, &None, &None).unwrap_err(),
        "a destination branch (to_branch) is not specified and the defaults (main or master) do not exist",
    );
}

#[test]
fn when_from_branch_is_none_return_as_head() {
    // feature is checked out, one commit ahead of and one behind main
    let head_oid = "feature_oid".to_string();
    let main_oid = "main_oid".to_string();
    let repo = RepoSnapshot {
        branches: vec![
            ("main".to_string(), main_oid.clone()),
            ("feature".to_string(), head_oid.clone()),
        ],
        head: Some(head_oid.clone()),
        checked_out_branch: Some("feature".to_string()),
        root_commit: "root".to_string(),
        ahead_behind: vec![AheadBehindEntry {
            to_tip: main_oid.clone(),
            from_tip: head_oid.clone(),
            result: Ok((vec![head_oid.clone()], vec![main_oid.clone()])),
        }],
    };

    let (from_branch, to_branch, ahead, behind) =
        identify_ahead_behind(&repo, &None, &None).unwrap();

    assert_eq!(from_branch, "head");
    assert_eq!(ahead, vec![head_oid]);
    assert_eq!(to_branch, "main");
    assert_eq!(behind, vec![main_oid]);
}

#[test]
fn when_from_branch_is_not_head_return_as_from_branch() {
    let head_oid = "feature_oid".to_string();
    let main_oid = "main_oid".to_string();
    let repo = RepoSnapshot {
        branches: vec![
            ("main".to_string(), main_oid.clone()),
            ("feature".to_string(), head_oid.clone()),
        ],
        head: Some(main_oid.clone()),
        checked_out_branch: Some("main".to_string()),
        root_commit: "root".to_string(),
        ahead_behind: vec![AheadBehindEntry {
            to_tip: main_oid.clone(),
            from_tip: head_oid.clone(),
            result: Ok((vec![head_oid.clone()], vec![main_oid.clone()])),
        }],
    };

    let (from_branch, to_branch, ahead, behind) =
        identify_ahead_behind(&repo, &Some("feature".to_string()), &None).unwrap();

    assert_eq!(from_branch, "feature");
    assert_eq!(ahead, vec![head_oid]);
    assert_eq!(to_branch, "main");
    assert_eq!(behind, vec![main_oid]);
}

#[test]
fn when_to_branch_is_not_main_return_as_to_branch() {
    let dev_oid_first = "dev_oid_first".to_string();
    let dev_oid = "dev_oid".to_string();
    let feature_oid = "feature_oid".to_string();
    let main_oid = "main_oid".to_string();
    let repo = RepoSnapshot {
        branches: vec![
            ("main".to_string(), main_oid.clone()),
            ("dev".to_string(), dev_oid.clone()),
            ("feature".to_string(), feature_oid.clone()),
        ],
        head: Some(dev_oid.clone()),
        checked_out_branch: Some("dev".to_string()),
        root_commit: "root".to_string(),
        ahead_behind: vec![
            AheadBehindEntry {
                to_tip: dev_oid.clone(),
                from_tip: feature_oid.clone(),
                result: Ok((vec![feature_oid.clone()], vec![dev_oid.clone()])),
            },
            AheadBehindEntry {
                to_tip: main_oid.clone(),
                from_tip: feature_oid.clone(),
                result: Ok((vec![feature_oid.clone(), dev_oid_first.clone()], vec![])),
            },
        ],
    };

    let (from_branch, to_branch, ahead, behind) = identify_ahead_behind(
        &repo,
        &Some("feature".to_string()),
        &Some("dev".to_string()),
    )
    .unwrap();

    assert_eq!(from_branch, "feature");
    assert_eq!(ahead, vec![feature_oid.clone()]);
    assert_eq!(to_branch, "dev");
    assert_eq!(behind, vec![dev_oid]);

    let (from_branch, to_branch, ahead, behind) =
        identify_ahead_behind(&repo, &Some("feature".to_string()), &None).unwrap();

    assert_eq!(from_branch, "feature");
    assert_eq!(ahead, vec![feature_oid, dev_oid_first]);
    assert_eq!(to_branch, "main");
    assert_eq!(behind, Vec::<String>::new());
}

#[test]
fn diverged_histories_surface_not_branched_error() {
    let repo = RepoSnapshot {
        branches: vec![
            ("main".to_string(), "m".to_string()),
            ("feature".to_string(), "f".to_string()),
        ],
        head: Some("f".to_string()),
        checked_out_branch: Some("feature".to_string()),
        root_commit: "root".to_string(),
        ahead_behind: vec![AheadBehindEntry {
            to_tip: "m".to_string(),
            from_tip: "f".to_string(),
            result: Err("commit m is not an ancestor of commit f".to_string()),
        }],
    };
    assert_eq!(
        identify_ahead_behind(&repo, &Some("feature".to_string()), &None).unwrap_err(),
        "'feature' is not branched from 'main'"
    );
}

#[test]
fn divergence_prompt_matches_expected_wording() {
    assert_eq!(
        divergence_prompt("feature", "main", 2, 1),
        "'feature' is 1 commits behind 'main' and 2 ahead. Consider rebasing before sending patches. Proceed anyway?"
    );
}

#[test]
fn declining_divergence_prompt_aborts() {
    assert!(proceed_after_divergence(true).is_ok());
    assert_eq!(
        proceed_after_divergence(false).unwrap_err(),
        "aborting so branch can be rebased"
    );
}

#[test]
fn no_commits_message_names_both_branches() {
    assert_eq!(
        no_commits_message("feature", "main"),
        "'feature' is 0 commits ahead of 'main' so no patches were created"
    );
}

#[test]
fn cover_letter_plan_follows_arguments_and_answers() {
    assert_eq!(
        plan_cover_letter(true, &Some("t".to_string()), &None, true, "x", "y"),
        None
    );
    assert_eq!(
        plan_cover_letter(
            false,
            &Some("t".to_string()),
            &Some("d".to_string()),
            false,
            "x",
            "y"
        ),
        Some(("t".to_string(), "d".to_string()))
    );
    assert_eq!(
        plan_cover_letter(false, &None, &None, true, "typed title", "typed desc"),
        Some(("typed title".to_string(), "typed desc".to_string()))
    );
    assert_eq!(plan_cover_letter(false, &None, &None, false, "x", "y"), None);
}

#[test]
fn posting_message_counts_patches() {
    assert_eq!(
        posting_message(3, false),
        "posting 3 patches without a covering letter..."
    );
    assert_eq!(
        posting_message(2, true),
        "posting 2 patches with a covering letter..."
    );
}
