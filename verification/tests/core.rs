use ghtray::config::AppConfig;
use ghtray::github::badge_count;
use ghtray::github::build_query;
use ghtray::github::categorize_all;
use ghtray::github::categorize_authored;
use ghtray::github::diff_states;
use ghtray::github::extract_repo_tree;
use ghtray::github::filter_prs;
use ghtray::models::Bucket;
use ghtray::models::CategorizedPr;
use ghtray::models::CommitConnection;
use ghtray::models::CommitInfo;
use ghtray::models::CommitNode;
use ghtray::models::StatusCheck;
use ghtray::models::GqlData;
use ghtray::models::PullRequest;
use ghtray::models::Repository;
use ghtray::models::SearchResult;
use ghtray::models::Transition;
use ghtray::models::ci_indicator;
use ghtray::models::relative_time;
use ghtray::models::short_repo;
use ghtray::state::AppState;
use ghtray::state::state_file_path;
use ghtray::text::str_eq;
use ghtray::text::str_lt;
use ghtray::text::truncate;
use ghtray::text::u64_to_string;

fn mk_pr(id: &str, number: u32, repo: &str) -> PullRequest {
    PullRequest {
        id: id.to_string(),
        number,
        title: format!("Title {number}"),
        url: format!("https://example.test/{repo}/pull/{number}"),
        is_draft: None,
        created_at: Some(1_700_000_000),
        updated_at: Some(1_700_000_100),
        merged_at: None,
        repository: Repository { name_with_owner: repo.to_string() },
        author: None,
        review_decision: None,
        latest_reviews: None,
        commits: None,
    }
}

fn mk_item(id: &str, number: u32, title: &str, repo: &str, bucket: Bucket) -> CategorizedPr {
    CategorizedPr {
        id: id.to_string(),
        number,
        title: title.to_string(),
        url: format!("https://example.test/{repo}/pull/{number}"),
        repo: repo.to_string(),
        author: String::new(),
        bucket,
        created_at: None,
        updated_at: None,
        last_commit_sha: None,
        last_commit_date: None,
        ci_status: None,
    }
}

fn empty_result() -> SearchResult {
    SearchResult { issue_count: 0, nodes: Vec::new() }
}

fn data_with(needs: Vec<PullRequest>, authored: Vec<PullRequest>) -> GqlData {
    GqlData {
        needs_review: SearchResult { issue_count: needs.len() as u32, nodes: needs },
        authored: SearchResult { issue_count: authored.len() as u32, nodes: authored },
        reviewed_by_me: empty_result(),
        recently_merged: empty_result(),
    }
}

#[test]
fn dedup_prefers_needs_review() {
    let data = data_with(vec![mk_pr("x1", 1, "acme/a")], vec![mk_pr("x1", 1, "acme/a")]);
    let out = categorize_all(&data, "me");
    assert_eq!(out.len(), 1);
    assert_eq!(out[0].id, "x1");
    assert!(out[0].bucket == Bucket::NeedsYourReview);
}

#[test]
fn authored_bucket_rules() {
    let mut pr = mk_pr("a1", 2, "acme/a");
    pr.is_draft = Some(true);
    assert!(categorize_authored(&pr).bucket == Bucket::Drafts);

    let mut pr = mk_pr("a2", 3, "acme/a");
    pr.is_draft = Some(false);
    pr.review_decision = Some("APPROVED".to_string());
    assert!(categorize_authored(&pr).bucket == Bucket::Approved);

    let mut pr = mk_pr("a3", 4, "acme/a");
    pr.is_draft = Some(false);
    pr.review_decision = Some("CHANGES_REQUESTED".to_string());
    assert!(categorize_authored(&pr).bucket == Bucket::ReturnedToYou);

    let mut pr = mk_pr("a4", 5, "acme/a");
    pr.is_draft = Some(false);
    assert!(categorize_authored(&pr).bucket == Bucket::WaitingForReviewers);
}

#[test]
fn draft_wins_over_approval() {
    let mut pr = mk_pr("a5", 6, "acme/a");
    pr.is_draft = Some(true);
    pr.review_decision = Some("APPROVED".to_string());
    assert!(categorize_authored(&pr).bucket == Bucket::Drafts);
}

#[test]
fn merged_items_use_merge_time() {
    let mut pr = mk_pr("m1", 7, "acme/a");
    pr.merged_at = Some(1_700_050_000);
    let data = GqlData {
        needs_review: empty_result(),
        authored: empty_result(),
        reviewed_by_me: empty_result(),
        recently_merged: SearchResult { issue_count: 1, nodes: vec![pr] },
    };
    let out = categorize_all(&data, "me");
    assert_eq!(out.len(), 1);
    assert!(out[0].bucket == Bucket::RecentlyMerged);
    assert_eq!(out[0].updated_at, Some(1_700_050_000));
    // Merged items carry no commit metadata at all.
    assert_eq!(out[0].last_commit_sha, None);
    assert_eq!(out[0].last_commit_date, None);
    assert_eq!(out[0].ci_status, None);
}

#[test]
fn commit_info_is_extracted() {
    let mut pr = mk_pr("c1", 8, "acme/a");
    pr.commits = Some(CommitConnection {
        nodes: vec![CommitNode {
            commit: CommitInfo {
                oid: "abc123".to_string(),
                committed_date: 1_700_060_000,
                status_check_rollup: Some(StatusCheck { state: "SUCCESS".to_string() }),
            },
        }],
    });
    let data = data_with(vec![pr], Vec::new());
    let out = categorize_all(&data, "me");
    assert_eq!(out[0].last_commit_sha.as_deref(), Some("abc123"));
    assert_eq!(out[0].last_commit_date, Some(1_700_060_000));
    assert_eq!(out[0].ci_status.as_deref(), Some("SUCCESS"));
}

#[test]
fn filter_empty_deny_list_is_identity() {
    let prs = vec![
        mk_item("f1", 1, "one", "acme/a", Bucket::Drafts),
        mk_item("f2", 2, "two", "acme/b", Bucket::Approved),
    ];
    let config = AppConfig::default();
    let out = filter_prs(prs, &config);
    assert_eq!(out.len(), 2);
    assert_eq!(out[0].id, "f1");
    assert_eq!(out[1].id, "f2");
}

#[test]
fn filter_drops_denied_repos() {
    let prs = vec![
        mk_item("f1", 1, "one", "acme/a", Bucket::Drafts),
        mk_item("f2", 2, "two", "acme/b", Bucket::Approved),
        mk_item("f3", 3, "three", "acme/a", Bucket::Approved),
    ];
    let mut config = AppConfig::default();
    config.blocked_repos = vec!["acme/a".to_string()];
    let out = filter_prs(prs, &config);
    assert_eq!(out.len(), 1);
    assert_eq!(out[0].id, "f2");
}

#[test]
fn diff_moved_and_new_before_removed() {
    let old = vec![mk_item("A", 1, "a", "acme/a", Bucket::WaitingForReviewers)];
    let new = vec![
        mk_item("A", 1, "a", "acme/a", Bucket::Approved),
        mk_item("B", 2, "b", "acme/b", Bucket::Drafts),
    ];
    let out = diff_states(&old, &new);
    assert_eq!(out.len(), 2);
    match &out[0] {
        Transition::Moved { pr, from } => {
            assert_eq!(pr.id, "A");
            assert!(*from == Bucket::WaitingForReviewers);
            assert!(pr.bucket == Bucket::Approved);
        },
        other => panic!("expected a move, got {other:?}"),
    }
    match &out[1] {
        Transition::New { pr } => assert_eq!(pr.id, "B"),
        other => panic!("expected a new item, got {other:?}"),
    }
}

#[test]
fn diff_emits_removed_and_skips_steady_state() {
    let old = vec![
        mk_item("A", 1, "a", "acme/a", Bucket::Approved),
        mk_item("B", 2, "b", "acme/b", Bucket::Drafts),
    ];
    let new = vec![mk_item("A", 1, "a", "acme/a", Bucket::Approved)];
    let out = diff_states(&old, &new);
    assert_eq!(out.len(), 1);
    match &out[0] {
        Transition::Removed { pr } => assert_eq!(pr.id, "B"),
        other => panic!("expected a removal, got {other:?}"),
    }
}

#[test]
fn diff_orders_present_items_before_removals() {
    let old = vec![
        mk_item("A", 1, "a", "acme/a", Bucket::WaitingForReviewers),
        mk_item("B", 2, "b", "acme/b", Bucket::Drafts),
    ];
    let new = vec![mk_item("A", 1, "a", "acme/a", Bucket::Approved)];
    let out = diff_states(&old, &new);
    assert_eq!(out.len(), 2);
    assert!(matches!(&out[0], Transition::Moved { pr, .. } if pr.id == "A"));
    assert!(matches!(&out[1], Transition::Removed { pr } if pr.id == "B"));
}

#[test]
fn precedence_runs_through_all_four_lists() {
    let data = GqlData {
        needs_review: SearchResult { issue_count: 1, nodes: vec![mk_pr("p1", 1, "acme/a")] },
        authored: SearchResult {
            issue_count: 2,
            nodes: vec![mk_pr("p1", 1, "acme/a"), mk_pr("p2", 2, "acme/a")],
        },
        reviewed_by_me: SearchResult {
            issue_count: 2,
            nodes: vec![mk_pr("p2", 2, "acme/a"), mk_pr("p3", 3, "acme/a")],
        },
        recently_merged: SearchResult {
            issue_count: 2,
            nodes: vec![mk_pr("p3", 3, "acme/a"), mk_pr("p4", 4, "acme/a")],
        },
    };
    let out = categorize_all(&data, "me");
    assert_eq!(out.len(), 4);
    assert!(out[0].id == "p1" && out[0].bucket == Bucket::NeedsYourReview);
    assert!(out[1].id == "p2" && out[1].bucket == Bucket::WaitingForReviewers);
    assert!(out[2].id == "p3" && out[2].bucket == Bucket::WaitingForAuthor);
    assert!(out[3].id == "p4" && out[3].bucket == Bucket::RecentlyMerged);
}

#[test]
fn notification_texts_follow_the_table() {
    let item = mk_item("n1", 42, "Fix the build", "acme/web-app", Bucket::NeedsYourReview);
    let t = Transition::New { pr: item };
    let (title, body) = t.notification_text().expect("new needs-review must notify");
    assert_eq!(title, "Review Requested");
    assert_eq!(body, "#42 Fix the build (web-app)");

    let item = mk_item("n2", 7, "Retry logic", "acme/backend", Bucket::WaitingForReviewers);
    let t = Transition::Moved { pr: item, from: Bucket::Drafts };
    assert!(t.notification_text().is_none());

    let item = mk_item("n3", 9, "Merged one", "acme/backend", Bucket::RecentlyMerged);
    let t = Transition::Moved { pr: item, from: Bucket::Approved };
    let (title, _) = t.notification_text().expect("a move into merged must notify");
    assert_eq!(title, "PR Merged");

    let item = mk_item("n4", 10, "Gone", "acme/backend", Bucket::Approved);
    let t = Transition::Removed { pr: item };
    assert!(t.notification_text().is_none());

    let item = mk_item("n5", 11, "Changes", "acme/backend", Bucket::ReturnedToYou);
    let t = Transition::New { pr: item };
    let (title, _) = t.notification_text().expect("changes requested must notify");
    assert_eq!(title, "Changes Requested");
}

#[test]
fn bucket_ids_round_trip() {
    for b in Bucket::display_order() {
        assert!(Bucket::from_id(b.id()) == Some(b));
    }
    assert!(Bucket::from_id("no_such_bucket").is_none());
    assert_eq!(Bucket::NeedsYourReview.label(), "Needs Your Review");
    assert_eq!(Bucket::RecentlyMerged.id(), "recently_merged");
}

#[test]
fn display_order_is_canonical() {
    let order = Bucket::display_order();
    assert_eq!(order.len(), 7);
    assert!(order[0] == Bucket::NeedsYourReview);
    assert!(order[6] == Bucket::WaitingForAuthor);
}

#[test]
fn config_defaults_and_clamps() {
    let config = AppConfig::default();
    assert_eq!(config.poll_interval_secs, 120);
    assert_eq!(config.merged_window_days, 7);
    assert!(config.notifications_enabled);
    let mut config = AppConfig::default();
    config.poll_interval_secs = 5;
    assert_eq!(config.poll_interval_secs_clamped(), 30);
    config.poll_interval_secs = 300;
    assert_eq!(config.poll_interval_secs_clamped(), 300);
    config.merged_window_days = 0;
    assert_eq!(config.merged_window_days_clamped(), 1);
    config.merged_window_days = 14;
    assert_eq!(config.merged_window_days_clamped(), 14);
}

#[test]
fn config_membership_rules() {
    let mut config = AppConfig::default();
    config.blocked_repos = vec!["acme/a".to_string()];
    config.hidden_buckets = vec!["drafts".to_string()];
    assert!(!config.is_repo_allowed("acme/a"));
    assert!(config.is_repo_allowed("acme/b"));
    assert!(!config.is_bucket_visible("drafts"));
    assert!(config.is_bucket_visible("approved"));
    assert!(config.counts_for_badge("needs_your_review"));
    assert!(config.counts_for_badge("returned_to_you"));
    assert!(!config.counts_for_badge("drafts"));
}

#[test]
fn ordered_buckets_respects_custom_order() {
    let mut config = AppConfig::default();
    config.bucket_order = vec![
        "approved".to_string(),
        "bogus".to_string(),
        "drafts".to_string(),
    ];
    let order = config.ordered_buckets();
    assert_eq!(order.len(), 7);
    assert!(order[0] == Bucket::Approved);
    assert!(order[1] == Bucket::Drafts);
    // The omitted buckets follow in canonical order.
    assert!(order[2] == Bucket::NeedsYourReview);
    assert!(order[3] == Bucket::WaitingForReviewers);
    assert!(order[4] == Bucket::ReturnedToYou);
    assert!(order[5] == Bucket::RecentlyMerged);
    assert!(order[6] == Bucket::WaitingForAuthor);
}

#[test]
fn badge_count_counts_configured_buckets() {
    let config = AppConfig::default();
    let prs = vec![
        mk_item("b1", 1, "a", "acme/a", Bucket::NeedsYourReview),
        mk_item("b2", 2, "b", "acme/a", Bucket::ReturnedToYou),
        mk_item("b3", 3, "c", "acme/a", Bucket::Drafts),
    ];
    assert_eq!(badge_count(&prs, &config), 2);
}

#[test]
fn repo_tree_groups_and_sorts() {
    let prs = vec![
        mk_item("r1", 1, "a", "zeta/tool", Bucket::Drafts),
        mk_item("r2", 2, "b", "acme/web", Bucket::Drafts),
        mk_item("r3", 3, "c", "acme/api", Bucket::Approved),
        mk_item("r4", 4, "d", "acme/web", Bucket::Approved),
        mk_item("r5", 5, "e", "noslash", Bucket::Approved),
    ];
    let tree = extract_repo_tree(&prs);
    assert_eq!(tree.len(), 2);
    assert_eq!(tree[0].0, "acme");
    assert_eq!(tree[1].0, "zeta");
    assert_eq!(tree[0].1.len(), 2);
    assert_eq!(tree[0].1[0], ("acme/api".to_string(), 1));
    assert_eq!(tree[0].1[1], ("acme/web".to_string(), 2));
    assert_eq!(tree[1].1, vec![("zeta/tool".to_string(), 1)]);
}

#[test]
fn short_repo_takes_the_last_segment() {
    assert_eq!(short_repo("acme/web-app"), "web-app");
    assert_eq!(short_repo("plain"), "plain");
    assert_eq!(short_repo("a/b/c"), "c");
    assert_eq!(short_repo("trailing/"), "");
}

#[test]
fn relative_time_buckets() {
    let now = 1_700_000_000;
    assert_eq!(relative_time(now, now - 30), "now");
    assert_eq!(relative_time(now, now + 500), "now");
    assert_eq!(relative_time(now, now - 120), "2m");
    assert_eq!(relative_time(now, now - 4 * 3600), "4h");
    assert_eq!(relative_time(now, now - 3 * 86400), "3d");
    assert_eq!(relative_time(now, now - 70 * 86400), "2mo");
    assert_eq!(relative_time(now, now - 400 * 86400), "1y");
}

#[test]
fn ci_indicator_glyphs() {
    assert_eq!(ci_indicator(Some("SUCCESS")), " \u{2713}");
    assert_eq!(ci_indicator(Some("FAILURE")), " \u{2717}");
    assert_eq!(ci_indicator(Some("ERROR")), " \u{2717}");
    assert_eq!(ci_indicator(Some("PENDING")), " \u{25d0}");
    assert_eq!(ci_indicator(Some("EXPECTED")), " \u{25d0}");
    assert_eq!(ci_indicator(Some("odd")), "");
    assert_eq!(ci_indicator(None), "");
}

#[test]
fn truncate_keeps_short_strings() {
    assert_eq!(truncate("short", 10), "short");
    assert_eq!(truncate("a rather long title here", 10), "a rathe...");
    assert_eq!(truncate("abcd", 2), "...");
}

#[test]
fn text_comparisons() {
    assert!(str_eq("same", "same"));
    assert!(!str_eq("same", "Same"));
    assert!(str_lt("abc", "abd"));
    assert!(str_lt("ab", "abc"));
    assert!(!str_lt("abc", "abc"));
    assert_eq!(u64_to_string(0), "0");
    assert_eq!(u64_to_string(105), "105");
}

#[test]
fn state_defaults_and_cycle() {
    let s = AppState::default();
    assert!(s.last_fetch.is_none());
    assert!(s.prs.is_empty());
    let s = AppState::after_cycle(vec![mk_item("s1", 1, "a", "acme/a", Bucket::Drafts)], 123);
    assert_eq!(s.last_fetch, Some(123));
    assert_eq!(s.prs.len(), 1);
    assert_eq!(state_file_path(), "ghtray-state.json");
    assert_eq!(AppConfig::config_path(), "ghtray-config.json");
}

#[test]
fn query_includes_the_cutoff_date() {
    let q = build_query("2026-01-01");
    assert!(q.contains("merged:>2026-01-01"));
    assert!(q.contains("needsReview:"));
    assert!(q.contains("recentlyMerged:"));
}
