//! The classification engine, the repository filter and the cross-poll diff
//! engine: pure rules over the records the data source returns. Talking to
//! the data source itself is the embedding application's business.

use vstd::prelude::*;
use crate::config::AppConfig;
use crate::models::Bucket;
use crate::models::CategorizedPr;
use crate::models::CategorizedPrV;
use crate::models::GqlData;
use crate::models::PullRequest;
use crate::models::PullRequestV;
use crate::models::Timestamp;
use crate::models::Transition;
use crate::models::TransitionV;
use crate::text::lex_lt;
use crate::text::str_eq;
use crate::text::str_lt;

verus! {

// ── Status of the external data-source tool ─────────────────────────────────

/// Whether the external data-source tool is usable: present and
/// authenticated. The embedding application fills this in; the core only
/// carries it.
#[derive(Debug, Clone)]
pub enum GhStatus {
    /// Installed and authenticated.
    Connected,
    NotInstalled,
    NotAuthenticated(String),
}

// ── Query text ──────────────────────────────────────────────────────────────

/// The query text up to the merge-window cutoff date.
pub open spec fn query_prefix() -> Seq<char> {
    r#"{
  needsReview: search(query: "is:pr is:open review-requested:@me", type: ISSUE, first: 50) {
    issueCount
    nodes { ... on PullRequest {
        id number title url isDraft createdAt updatedAt
        repository { nameWithOwner }
        author { login }
        reviewDecision
        latestReviews(first: 10) {
          nodes { author { login } state submittedAt }
        }
        commits(last: 1) {
          nodes { commit { oid committedDate statusCheckRollup { state } } }
        } } }
  }
  authored: search(query: "is:pr is:open author:@me", type: ISSUE, first: 50) {
    issueCount
    nodes { ... on PullRequest {
        id number title url isDraft createdAt updatedAt
        repository { nameWithOwner }
        author { login }
        reviewDecision
        latestReviews(first: 10) {
          nodes { author { login } state submittedAt }
        }
        commits(last: 1) {
          nodes { commit { oid committedDate statusCheckRollup { state } } }
        } } }
  }
  reviewedByMe: search(query: "is:pr is:open reviewed-by:@me -author:@me -review-requested:@me", type: ISSUE, first: 50) {
    issueCount
    nodes { ... on PullRequest {
        id number title url isDraft createdAt updatedAt
        repository { nameWithOwner }
        author { login }
        reviewDecision
        latestReviews(first: 10) {
          nodes { author { login } state submittedAt }
        }
        commits(last: 1) {
          nodes { commit { oid committedDate statusCheckRollup { state } } }
        } } }
  }
  recentlyMerged: search(query: "is:pr is:merged author:@me merged:>"#@
}

/// The query text after the cutoff date.
pub open spec fn query_suffix() -> Seq<char> {
    r#"", type: ISSUE, first: 20) {
    issueCount
    nodes { ... on PullRequest {
      id number title url createdAt mergedAt
      repository { nameWithOwner }
      author { login }
    } }
  }
}"#@
}

/// Build the data-source query for one poll: the four searches, with the
/// merge-window cutoff date spliced into the recently-merged search.
pub fn build_query(merged_since: &str) -> (r: String)
    ensures
        r@ == query_prefix() + merged_since@ + query_suffix(),
{
    let mut q = r#"{
  needsReview: search(query: "is:pr is:open review-requested:@me", type: ISSUE, first: 50) {
    issueCount
    nodes { ... on PullRequest {
        id number title url isDraft createdAt updatedAt
        repository { nameWithOwner }
        author { login }
        reviewDecision
        latestReviews(first: 10) {
          nodes { author { login } state submittedAt }
        }
        commits(last: 1) {
          nodes { commit { oid committedDate statusCheckRollup { state } } }
        } } }
  }
  authored: search(query: "is:pr is:open author:@me", type: ISSUE, first: 50) {
    issueCount
    nodes { ... on PullRequest {
        id number title url isDraft createdAt updatedAt
        repository { nameWithOwner }
        author { login }
        reviewDecision
        latestReviews(first: 10) {
          nodes { author { login } state submittedAt }
        }
        commits(last: 1) {
          nodes { commit { oid committedDate statusCheckRollup { state } } }
        } } }
  }
  reviewedByMe: search(query: "is:pr is:open reviewed-by:@me -author:@me -review-requested:@me", type: ISSUE, first: 50) {
    issueCount
    nodes { ... on PullRequest {
        id number title url isDraft createdAt updatedAt
        repository { nameWithOwner }
        author { login }
        reviewDecision
        latestReviews(first: 10) {
          nodes { author { login } state submittedAt }
        }
        commits(last: 1) {
          nodes { commit { oid committedDate statusCheckRollup { state } } }
        } } }
  }
  recentlyMerged: search(query: "is:pr is:merged author:@me merged:>"#.to_owned();
    q.append(merged_since);
    q.append(
        r#"", type: ISSUE, first: 20) {
    issueCount
    nodes { ... on PullRequest {
      id number title url createdAt mergedAt
      repository { nameWithOwner }
      author { login }
    } }
  }
}"#,
    );
    q
}

// ── Classification ──────────────────────────────────────────────────────────

/// Whether some item of `s` carries the id `id`.
pub open spec fn contains_id(s: Seq<CategorizedPrV>, id: Seq<char>) -> bool {
    exists|i: int| 0 <= i < s.len() && s[i].id == id
}

/// No two items of `s` share an id.
pub open spec fn unique_ids(s: Seq<CategorizedPrV>) -> bool {
    forall|i: int, j: int| 0 <= i < j < s.len() ==> s[i].id != s[j].id
}

/// Append the items of `items` to `acc` in order, dropping every item whose
/// id is already present. First seen wins.
pub open spec fn push_dedup(
    acc: Seq<CategorizedPrV>,
    items: Seq<CategorizedPrV>,
) -> Seq<CategorizedPrV>
    decreases items.len(),
{
    if items.len() == 0 {
        acc
    } else {
        push_dedup(
            if contains_id(acc, items[0].id) {
                acc
            } else {
                acc.push(items[0])
            },
            items.drop_first(),
        )
    }
}

/// Sha of the most recent commit, when the record carries one.
pub open spec fn commit_sha_spec(pr: PullRequestV) -> Option<Seq<char>> {
    match pr.commits {
        Some(ns) => if ns.len() > 0 {
            Some(ns[0].oid)
        } else {
            None
        },
        None => None,
    }
}

/// Committed date of the most recent commit, when the record carries one.
pub open spec fn commit_date_spec(pr: PullRequestV) -> Option<Timestamp> {
    match pr.commits {
        Some(ns) => if ns.len() > 0 {
            Some(ns[0].committed_date)
        } else {
            None
        },
        None => None,
    }
}

/// CI rollup state of the most recent commit, when present.
pub open spec fn commit_ci_spec(pr: PullRequestV) -> Option<Seq<char>> {
    match pr.commits {
        Some(ns) => if ns.len() > 0 {
            ns[0].ci_state
        } else {
            None
        },
        None => None,
    }
}

/// The classified item a record maps to, for a given bucket: fields copied
/// over, unknown author becoming the empty string, commit metadata extracted
/// when present.
pub open spec fn make_pr_spec(pr: PullRequestV, bucket: Bucket) -> CategorizedPrV {
    CategorizedPrV {
        id: pr.id,
        number: pr.number,
        title: pr.title,
        url: pr.url,
        repo: pr.repo,
        author: match pr.author {
            Some(l) => l,
            None => Seq::empty(),
        },
        bucket,
        created_at: pr.created_at,
        updated_at: pr.updated_at,
        last_commit_sha: commit_sha_spec(pr),
        last_commit_date: commit_date_spec(pr),
        ci_status: commit_ci_spec(pr),
    }
}

/// The bucket an authored record falls into: drafts first, then the review
/// decision, else still waiting on review.
pub open spec fn authored_bucket_spec(pr: PullRequestV) -> Bucket {
    if pr.is_draft == Some(true) {
        Bucket::Drafts
    } else if pr.review_decision == Some("APPROVED"@) {
        Bucket::Approved
    } else if pr.review_decision == Some("CHANGES_REQUESTED"@) {
        Bucket::ReturnedToYou
    } else {
        Bucket::WaitingForReviewers
    }
}

/// The classified item a recently-merged record maps to: the merge timestamp
/// stands in for the update timestamp, and no commit metadata is carried.
pub open spec fn merged_item_spec(pr: PullRequestV) -> CategorizedPrV {
    CategorizedPrV {
        id: pr.id,
        number: pr.number,
        title: pr.title,
        url: pr.url,
        repo: pr.repo,
        author: match pr.author {
            Some(l) => l,
            None => Seq::empty(),
        },
        bucket: Bucket::RecentlyMerged,
        created_at: pr.created_at,
        updated_at: pr.merged_at,
        last_commit_sha: None,
        last_commit_date: None,
        ci_status: None,
    }
}

/// What classifying one poll yields: the four lists in precedence order —
/// needs-review, authored, reviewed-by-me, recently-merged — each mapped to
/// its bucket rule, deduplicated by id with first-seen winning.
pub open spec fn classify_spec(data: GqlData) -> Seq<CategorizedPrV> {
    let s1 = push_dedup(
        Seq::empty(),
        data.needs_review.nodes.deep_view().map_values(
            |p: PullRequestV| make_pr_spec(p, Bucket::NeedsYourReview),
        ),
    );
    let s2 = push_dedup(
        s1,
        data.authored.nodes.deep_view().map_values(
            |p: PullRequestV| make_pr_spec(p, authored_bucket_spec(p)),
        ),
    );
    let s3 = push_dedup(
        s2,
        data.reviewed_by_me.nodes.deep_view().map_values(
            |p: PullRequestV| make_pr_spec(p, Bucket::WaitingForAuthor),
        ),
    );
    push_dedup(
        s3,
        data.recently_merged.nodes.deep_view().map_values(|p: PullRequestV| merged_item_spec(p)),
    )
}

fn review_decision_is(pr: &PullRequest, s: &str) -> (r: bool)
    ensures
        r == (pr@.review_decision == Some(s@)),
{
    match &pr.review_decision {
        Some(d) => str_eq(d.as_str(), s),
        None => false,
    }
}

/// Pull the most recent commit's sha, date and CI rollup state out of a
/// record, when it carries them.
pub fn extract_commit_info(pr: &PullRequest) -> (r: (
    Option<String>,
    Option<Timestamp>,
    Option<String>,
))
    ensures
        crate::models::opt_string_view(r.0) == commit_sha_spec(pr@),
        r.1 == commit_date_spec(pr@),
        crate::models::opt_string_view(r.2) == commit_ci_spec(pr@),
{
    match &pr.commits {
        Some(c) => {
            if c.nodes.len() > 0 {
                let node = &c.nodes[0];
                proof {
                    assert(pr@.commits->Some_0[0] == c.nodes@[0].commit@);
                }
                (
                    Some(node.commit.oid.clone()),
                    Some(node.commit.committed_date),
                    match &node.commit.status_check_rollup {
                        Some(s) => Some(s.state.clone()),
                        None => None,
                    },
                )
            } else {
                (None, None, None)
            }
        },
        None => (None, None, None),
    }
}

/// Build the classified item for a record and a bucket.
pub fn make_pr(pr: &PullRequest, bucket: Bucket) -> (r: CategorizedPr)
    ensures
        r@ == make_pr_spec(pr@, bucket),
{
    let (sha, date, ci) = extract_commit_info(pr);
    let out = CategorizedPr {
        id: pr.id.clone(),
        number: pr.number,
        title: pr.title.clone(),
        url: pr.url.clone(),
        repo: pr.repository.name_with_owner.clone(),
        author: match &pr.author {
            Some(a) => a.login.clone(),
            None => String::new(),
        },
        bucket,
        created_at: pr.created_at,
        updated_at: pr.updated_at,
        last_commit_sha: sha,
        last_commit_date: date,
        ci_status: ci,
    };
    proof {
        assert(out@ =~= make_pr_spec(pr@, bucket));
    }
    out
}

/// Classify a record the viewer authored.
pub fn categorize_authored(pr: &PullRequest) -> (r: CategorizedPr)
    ensures
        r@ == make_pr_spec(pr@, authored_bucket_spec(pr@)),
{
    let draft = match pr.is_draft {
        Some(b) => b,
        None => false,
    };
    let bucket = if draft {
        Bucket::Drafts
    } else if review_decision_is(pr, "APPROVED") {
        Bucket::Approved
    } else if review_decision_is(pr, "CHANGES_REQUESTED") {
        Bucket::ReturnedToYou
    } else {
        Bucket::WaitingForReviewers
    };
    make_pr(pr, bucket)
}

/// Classify a record the viewer reviewed but neither authored nor was asked
/// to review: it waits for its author.
pub fn categorize_reviewed_by_me(pr: &PullRequest, _viewer: &str) -> (r: CategorizedPr)
    ensures
        r@ == make_pr_spec(pr@, Bucket::WaitingForAuthor),
{
    make_pr(pr, Bucket::WaitingForAuthor)
}

/// Build the classified item for a recently-merged record.
fn make_merged_pr(pr: &PullRequest) -> (r: CategorizedPr)
    ensures
        r@ == merged_item_spec(pr@),
{
    let out = CategorizedPr {
        id: pr.id.clone(),
        number: pr.number,
        title: pr.title.clone(),
        url: pr.url.clone(),
        repo: pr.repository.name_with_owner.clone(),
        author: match &pr.author {
            Some(a) => a.login.clone(),
            None => String::new(),
        },
        bucket: Bucket::RecentlyMerged,
        created_at: pr.created_at,
        updated_at: pr.merged_at,
        last_commit_sha: None,
        last_commit_date: None,
        ci_status: None,
    };
    proof {
        assert(out@ =~= merged_item_spec(pr@));
    }
    out
}

/// Whether some item of `prs` carries the id `id`.
fn contains_id_exec(prs: &Vec<CategorizedPr>, id: &str) -> (r: bool)
    ensures
        r == contains_id(prs.deep_view(), id@),
{
    let mut i: usize = 0;
    while i < prs.len()
        invariant
            i <= prs@.len(),
            forall|j: int| 0 <= j < i ==> prs.deep_view()[j].id != id@,
        decreases prs@.len() - i,
    {
        if str_eq(prs[i].id.as_str(), id) {
            proof {
                assert(prs.deep_view()[i as int].id == id@);
            }
            return true;
        }
        i += 1;
    }
    false
}

/// Append `items` to `start` in order, dropping items whose id is already
/// present.
#[verifier::loop_isolation(false)]
fn append_dedup(start: Vec<CategorizedPr>, items: &Vec<CategorizedPr>) -> (r: Vec<CategorizedPr>)
    ensures
        r.deep_view() == push_dedup(start.deep_view(), items.deep_view()),
{
    let ghost target = push_dedup(start.deep_view(), items.deep_view());
    let mut results = start;
    proof {
        assert(items.deep_view().skip(0) =~= items.deep_view());
    }
    let mut i: usize = 0;
    while i < items.len()
        invariant
            i <= items@.len(),
            push_dedup(results.deep_view(), items.deep_view().skip(i as int)) == target,
        decreases items@.len() - i,
    {
        proof {
            assert(items.deep_view().skip(i as int).drop_first() =~= items.deep_view().skip(
                i + 1,
            ));
            assert(items.deep_view().skip(i as int)[0] == items.deep_view()[i as int]);
        }
        if !contains_id_exec(&results, items[i].id.as_str()) {
            let ghost before = results.deep_view();
            results.push(items[i].duplicate());
            proof {
                assert(results.deep_view() =~= before.push(items.deep_view()[i as int]));
            }
        }
        i += 1;
    }
    proof {
        assert(items.deep_view().skip(items@.len() as int) =~= Seq::<CategorizedPrV>::empty());
    }
    results
}

/// Map each record of `nodes` to its classified item for a fixed bucket.
#[verifier::loop_isolation(false)]
fn map_with_bucket(nodes: &Vec<PullRequest>, bucket: Bucket) -> (r: Vec<CategorizedPr>)
    ensures
        r.deep_view() == nodes.deep_view().map_values(
            |p: PullRequestV| make_pr_spec(p, bucket),
        ),
{
    let ghost f = |p: PullRequestV| make_pr_spec(p, bucket);
    let mut out: Vec<CategorizedPr> = Vec::new();
    let mut i: usize = 0;
    while i < nodes.len()
        invariant
            i <= nodes@.len(),
            out.deep_view() =~= nodes.deep_view().take(i as int).map_values(f),
        decreases nodes@.len() - i,
    {
        let ghost before = out.deep_view();
        out.push(make_pr(&nodes[i], bucket));
        proof {
            assert(out.deep_view() =~= before.push(make_pr_spec(nodes.deep_view()[i as int], bucket)));
            assert(out.deep_view() =~~= nodes.deep_view().take(i + 1).map_values(f));
        }
        i += 1;
    }
    proof {
        assert(nodes.deep_view().take(nodes@.len() as int) =~= nodes.deep_view());
    }
    out
}

/// Map each authored record to its classified item.
#[verifier::loop_isolation(false)]
fn map_authored(nodes: &Vec<PullRequest>) -> (r: Vec<CategorizedPr>)
    ensures
        r.deep_view() == nodes.deep_view().map_values(
            |p: PullRequestV| make_pr_spec(p, authored_bucket_spec(p)),
        ),
{
    let ghost f = |p: PullRequestV| make_pr_spec(p, authored_bucket_spec(p));
    let mut out: Vec<CategorizedPr> = Vec::new();
    let mut i: usize = 0;
    while i < nodes.len()
        invariant
            i <= nodes@.len(),
            out.deep_view() =~= nodes.deep_view().take(i as int).map_values(f),
        decreases nodes@.len() - i,
    {
        let ghost before = out.deep_view();
        out.push(categorize_authored(&nodes[i]));
        proof {
            let p = nodes.deep_view()[i as int];
            assert(out.deep_view() =~= before.push(make_pr_spec(p, authored_bucket_spec(p))));
            assert(out.deep_view() =~~= nodes.deep_view().take(i + 1).map_values(f));
        }
        i += 1;
    }
    proof {
        assert(nodes.deep_view().take(nodes@.len() as int) =~= nodes.deep_view());
    }
    out
}

/// Map each recently-merged record to its classified item.
#[verifier::loop_isolation(false)]
fn map_merged(nodes: &Vec<PullRequest>) -> (r: Vec<CategorizedPr>)
    ensures
        r.deep_view() == nodes.deep_view().map_values(|p: PullRequestV| merged_item_spec(p)),
{
    let ghost f = |p: PullRequestV| merged_item_spec(p);
    let mut out: Vec<CategorizedPr> = Vec::new();
    let mut i: usize = 0;
    while i < nodes.len()
        invariant
            i <= nodes@.len(),
            out.deep_view() =~= nodes.deep_view().take(i as int).map_values(f),
        decreases nodes@.len() - i,
    {
        let ghost before = out.deep_view();
        out.push(make_merged_pr(&nodes[i]));
        proof {
            assert(out.deep_view() =~= before.push(merged_item_spec(nodes.deep_view()[i as int])));
            assert(out.deep_view() =~~= nodes.deep_view().take(i + 1).map_values(f));
        }
        i += 1;
    }
    proof {
        assert(nodes.deep_view().take(nodes@.len() as int) =~= nodes.deep_view());
    }
    out
}

// ── Filtering ───────────────────────────────────────────────────────────────

/// The items whose repository is not on the deny-list, in order.
pub open spec fn filter_allowed(
    s: Seq<CategorizedPrV>,
    blocked: Seq<Seq<char>>,
) -> Seq<CategorizedPrV>
    decreases s.len(),
{
    if s.len() == 0 {
        Seq::empty()
    } else {
        let rest = filter_allowed(s.drop_last(), blocked);
        if !blocked.contains(s.last().repo) {
            rest.push(s.last())
        } else {
            rest
        }
    }
}

/// An empty deny-list filters nothing: the input comes back unchanged,
/// including its order.
pub proof fn lemma_filter_empty_deny(s: Seq<CategorizedPrV>)
    ensures
        filter_allowed(s, Seq::empty()) == s,
    decreases s.len(),
{
    if s.len() == 0 {
        assert(filter_allowed(s, Seq::empty()) =~= s);
    } else {
        lemma_filter_empty_deny(s.drop_last());
        assert(filter_allowed(s, Seq::empty()) =~= s);
    }
}

/// Retain only items whose repository is allowed by the configuration; an
/// empty deny-list passes the list through unchanged.
#[verifier::loop_isolation(false)]
pub fn filter_prs(prs: Vec<CategorizedPr>, config: &AppConfig) -> (r: Vec<CategorizedPr>)
    ensures
        r.deep_view() == filter_allowed(prs.deep_view(), config.blocked_repos.deep_view()),
        config.blocked_repos@.len() == 0 ==> r.deep_view() == prs.deep_view(),
{
    let ghost blocked = config.blocked_repos.deep_view();
    if config.blocked_repos.len() == 0 {
        proof {
            assert(blocked =~= Seq::<Seq<char>>::empty());
            lemma_filter_empty_deny(prs.deep_view());
        }
        return prs;
    }
    let mut out: Vec<CategorizedPr> = Vec::new();
    let mut i: usize = 0;
    while i < prs.len()
        invariant
            i <= prs@.len(),
            out.deep_view() == filter_allowed(prs.deep_view().take(i as int), blocked),
        decreases prs@.len() - i,
    {
        proof {
            assert(prs.deep_view().take(i + 1).drop_last() =~= prs.deep_view().take(i as int));
            assert(prs.deep_view().take(i + 1).last() == prs.deep_view()[i as int]);
        }
        if config.is_repo_allowed(prs[i].repo.as_str()) {
            let ghost before = out.deep_view();
            out.push(prs[i].duplicate());
            proof {
                assert(out.deep_view() =~= before.push(prs.deep_view()[i as int]));
            }
        }
        i += 1;
    }
    proof {
        assert(prs.deep_view().take(prs@.len() as int) =~= prs.deep_view());
    }
    out
}

// ── Repository tree for settings display ────────────────────────────────────

/// The owner part of a full repository name: everything before the first `/`.
pub open spec fn owner_of(s: Seq<char>) -> Seq<char>
    decreases s.len(),
{
    if s.len() == 0 {
        Seq::empty()
    } else if s[0] == '/' {
        Seq::empty()
    } else {
        seq![s[0]] + owner_of(s.drop_first())
    }
}

/// Whether a repository name has the `owner/name` shape at all.
pub open spec fn has_owner(s: Seq<char>) -> bool {
    exists|i: int| 0 <= i < s.len() && s[i] == '/'
}

/// How many items of `prs` live in repository `repo`.
pub open spec fn count_repo(prs: Seq<CategorizedPrV>, repo: Seq<char>) -> int
    decreases prs.len(),
{
    if prs.len() == 0 {
        0
    } else {
        count_repo(prs.drop_last(), repo) + if prs.last().repo == repo {
            1int
        } else {
            0int
        }
    }
}

proof fn lemma_count_repo_pos(prs: Seq<CategorizedPrV>, repo: Seq<char>, w: int)
    requires
        0 <= w < prs.len(),
        prs[w].repo == repo,
    ensures
        count_repo(prs, repo) >= 1,
    decreases prs.len(),
{
    if w == prs.len() - 1 {
        assert(count_repo(prs.drop_last(), repo) >= 0) by {
            lemma_count_repo_nonneg(prs.drop_last(), repo);
        }
    } else {
        lemma_count_repo_pos(prs.drop_last(), repo, w);
    }
}

proof fn lemma_count_repo_nonneg(prs: Seq<CategorizedPrV>, repo: Seq<char>)
    ensures
        count_repo(prs, repo) >= 0,
    decreases prs.len(),
{
    if prs.len() > 0 {
        lemma_count_repo_nonneg(prs.drop_last(), repo);
    }
}

proof fn lemma_owner_of_prefix(s: Seq<char>, k: int)
    requires
        0 <= k <= s.len(),
        forall|j: int| 0 <= j < k ==> s[j] != '/',
        k < s.len() ==> s[k] == '/',
    ensures
        owner_of(s) == s.take(k),
    decreases k,
{
    if s.len() == 0 {
        assert(owner_of(s) =~= s.take(0));
    } else if k == 0 {
        if s[0] == '/' {
            assert(owner_of(s) =~= s.take(0));
        } else {
            assert(k < s.len());
        }
    } else {
        assert(s[0] != '/');
        let t = s.drop_first();
        assert(forall|j: int| 0 <= j < k - 1 ==> t[j] == s[j + 1] && t[j] != '/');
        assert(k - 1 < t.len() ==> t[k - 1] == s[k]);
        lemma_owner_of_prefix(t, k - 1);
        assert(owner_of(s) == seq![s[0]] + t.take(k - 1));
        assert(seq![s[0]] + t.take(k - 1) =~= s.take(k));
    }
}

/// The owner part of a repository name, or `None` when the name has no `/`.
fn split_owner(repo: &str) -> (r: Option<String>)
    ensures
        (r is Some) == has_owner(repo@),
        r is Some ==> r.unwrap()@ == owner_of(repo@),
{
    let n = repo.unicode_len();
    let mut k: usize = 0;
    while k < n
        invariant
            k <= n,
            n == repo@.len(),
            forall|j: int| 0 <= j < k ==> repo@[j] != '/',
        decreases n - k,
    {
        if repo.get_char(k) == '/' {
            proof {
                lemma_owner_of_prefix(repo@, k as int);
                assert(repo@.subrange(0, k as int) =~= repo@.take(k as int));
            }
            return Some(repo.substring_char(0, k).to_owned());
        }
        k += 1;
    }
    proof {
        assert(!has_owner(repo@));
    }
    None
}

/// Count the items of `prs` whose repository is `repo`.
#[verifier::loop_isolation(false)]
fn count_repo_exec(prs: &Vec<CategorizedPr>, repo: &str) -> (c: usize)
    ensures
        c == count_repo(prs.deep_view(), repo@),
{
    let mut count: usize = 0;
    let mut i: usize = 0;
    while i < prs.len()
        invariant
            i <= prs@.len(),
            count <= i,
            count == count_repo(prs.deep_view().take(i as int), repo@),
        decreases prs@.len() - i,
    {
        proof {
            assert(prs.deep_view().take(i + 1).drop_last() =~= prs.deep_view().take(i as int));
            assert(prs.deep_view().take(i + 1).last() == prs.deep_view()[i as int]);
        }
        if str_eq(prs[i].repo.as_str(), repo) {
            count += 1;
        }
        i += 1;
    }
    proof {
        assert(prs.deep_view().take(prs@.len() as int) =~= prs.deep_view());
    }
    count
}

/// Sort strings with pairwise-distinct contents into strictly increasing
/// lexicographic order, keeping exactly the same contents.
#[verifier::loop_isolation(false)]
fn sort_strings(v: &Vec<String>) -> (r: Vec<String>)
    requires
        forall|i: int, j: int|
            0 <= i < j < v.deep_view().len() ==> v.deep_view()[i] != v.deep_view()[j],
    ensures
        r@.len() == v@.len(),
        forall|i: int, j: int|
            0 <= i < j < r.deep_view().len() ==> lex_lt(r.deep_view()[i], r.deep_view()[j]),
        forall|s: Seq<char>| #[trigger] r.deep_view().contains(s) == v.deep_view().contains(s),
{
    let ghost dv = v.deep_view();
    let mut out: Vec<String> = Vec::new();
    let mut i: usize = 0;
    while i < v.len()
        invariant
            i <= v@.len(),
            out@.len() == i,
            forall|a: int, b: int|
                0 <= a < b < out.deep_view().len() ==> lex_lt(
                    out.deep_view()[a],
                    out.deep_view()[b],
                ),
            forall|s: Seq<char>| #[trigger]
                out.deep_view().contains(s) == dv.take(i as int).contains(s),
        decreases v@.len() - i,
    {
        let x = v[i].clone();
        proof {
            assert(!out.deep_view().contains(x@)) by {
                if dv.take(i as int).contains(x@) {
                    let j = choose|j: int| 0 <= j < i && dv.take(i as int)[j] == x@;
                    assert(dv[j] == dv[i as int]);
                }
            }
        }
        let mut p: usize = 0;
        while p < out.len() && str_lt(out[p].as_str(), x.as_str())
            invariant
                p <= out@.len(),
                forall|q: int| 0 <= q < p ==> lex_lt(out.deep_view()[q], x@),
            decreases out@.len() - p,
        {
            p += 1;
        }
        proof {
            assert forall|q: int| p <= q < out.deep_view().len() implies lex_lt(
                x@,
                out.deep_view()[q],
            ) by {
                assert(!lex_lt(out.deep_view()[p as int], x@));
                assert(out.deep_view()[p as int] != x@);
                crate::text::lemma_lex_lt_total(out.deep_view()[p as int], x@);
                assert(lex_lt(x@, out.deep_view()[p as int]));
                if q > p {
                    crate::text::lemma_lex_lt_trans(
                        x@,
                        out.deep_view()[p as int],
                        out.deep_view()[q],
                    );
                }
            }
        }
        let ghost before = out.deep_view();
        let ghost pi = p as int;
        out.insert(p, x);
        proof {
            before.insert_ensures(pi, x@);
            assert(out.deep_view() =~= before.insert(pi, x@)) by {
                assert(out@ =~= out@);
                assert forall|k: int| 0 <= k < out.deep_view().len() implies out.deep_view()[k]
                    == before.insert(pi, x@)[k] by {
                    if k < pi {
                    } else if k == pi {
                    } else {
                        assert(out@[k] == out@[k]);
                    }
                }
            }
            assert forall|a: int, b: int|
                0 <= a < b < out.deep_view().len() implies lex_lt(
                out.deep_view()[a],
                out.deep_view()[b],
            ) by {
                let n = out.deep_view();
                if b < pi {
                } else if a == pi && b > pi {
                    assert(n[b] == before[b - 1]);
                } else if b == pi && a < pi {
                } else if a < pi && b > pi {
                    assert(n[a] == before[a] && n[b] == before[b - 1]);
                } else if a > pi {
                    assert(n[a] == before[a - 1] && n[b] == before[b - 1]);
                }
            }
            assert(dv.take(i + 1).drop_last() =~= dv.take(i as int));
            assert forall|s: Seq<char>| #[trigger] out.deep_view().contains(s) == dv.take(
                i + 1,
            ).contains(s) by {
                let n = out.deep_view();
                if n.contains(s) {
                    let k = choose|k: int| 0 <= k < n.len() && n[k] == s;
                    if k == pi {
                        assert(dv.take(i + 1)[i as int] == s);
                    } else {
                        let kk = if k < pi {
                            k
                        } else {
                            k - 1
                        };
                        assert(before[kk] == s);
                        assert(before.contains(s));
                        let j = choose|j: int| 0 <= j < i && dv.take(i as int)[j] == s;
                        assert(dv.take(i + 1)[j] == s);
                    }
                    assert(dv.take(i + 1).contains(s));
                }
                if dv.take(i + 1).contains(s) {
                    let j = choose|j: int| 0 <= j <= i && #[trigger] dv.take(i + 1)[j] == s;
                    if j == i {
                        assert(n[pi] == s);
                    } else {
                        assert(dv.take(i as int)[j] == s);
                        assert(dv.take(i as int).contains(s));
                        assert(before.contains(s));
                        let k = choose|k: int| 0 <= k < before.len() && before[k] == s;
                        if k < pi {
                            assert(n[k] == s);
                        } else {
                            assert(n[k + 1] == s);
                        }
                    }
                    assert(n.contains(s));
                }
            }
        }
        i += 1;
    }
    proof {
        assert(dv.take(dv.len() as int) =~= dv);
    }
    out
}

/// Group the items' repositories by owner for display: owners in strictly
/// increasing lexicographic order, each with its repositories (full
/// `owner/name` names) in strictly increasing order and the number of items
/// in each. Items whose repository name has no `/` are left out.
#[verifier::loop_isolation(false)]
pub fn extract_repo_tree(prs: &Vec<CategorizedPr>) -> (r: Vec<(String, Vec<(String, usize)>)>)
    ensures
        forall|i: int, j: int| 0 <= i < j < r@.len() ==> lex_lt(r@[i].0@, r@[j].0@),
        forall|i: int, a: int, b: int|
            0 <= i < r@.len() && 0 <= a < b < r@[i].1@.len() ==> lex_lt(
                r@[i].1@[a].0@,
                r@[i].1@[b].0@,
            ),
        forall|i: int, a: int|
            #![trigger r@[i].1@[a]]
            0 <= i < r@.len() && 0 <= a < r@[i].1@.len() ==> owner_of(r@[i].1@[a].0@) == r@[i].0@
                && has_owner(r@[i].1@[a].0@) && r@[i].1@[a].1 == count_repo(
                prs.deep_view(),
                r@[i].1@[a].0@,
            ) && r@[i].1@[a].1 >= 1,
        forall|i: int| 0 <= i < r@.len() ==> #[trigger] r@[i].1@.len() >= 1,
        forall|p: int|
            0 <= p < prs@.len() && has_owner(#[trigger] prs.deep_view()[p].repo) ==> exists|
                i: int,
                a: int,
            |
                0 <= i < r@.len() && 0 <= a < r@[i].1@.len() && r@[i].1@[a].0@
                    == prs.deep_view()[p].repo,
{
    let ghost dvp = prs.deep_view();
    // Distinct repository names that have the owner/name shape.
    let mut repos: Vec<String> = Vec::new();
    let mut p: usize = 0;
    while p < prs.len()
        invariant
            p <= prs@.len(),
            forall|a: int, b: int|
                0 <= a < b < repos.deep_view().len() ==> repos.deep_view()[a]
                    != repos.deep_view()[b],
            forall|a: int|
                0 <= a < repos.deep_view().len() ==> has_owner(#[trigger] repos.deep_view()[a])
                    && exists|q: int| 0 <= q < p && dvp[q].repo == repos.deep_view()[a],
            forall|q: int|
                0 <= q < p && has_owner(#[trigger] dvp[q].repo) ==> repos.deep_view().contains(
                    dvp[q].repo,
                ),
        decreases prs@.len() - p,
    {
        let with_owner = match split_owner(prs[p].repo.as_str()) {
            Some(_) => true,
            None => false,
        };
        let ghost before = repos.deep_view();
        if with_owner && !crate::config::contains_str(&repos, prs[p].repo.as_str()) {
            repos.push(prs[p].repo.clone());
            proof {
                assert(repos.deep_view() =~= before.push(dvp[p as int].repo));
            }
        }
        proof {
            assert forall|q: int|
                0 <= q < p + 1 && has_owner(#[trigger] dvp[q].repo) implies repos.deep_view()
                .contains(dvp[q].repo) by {
                if q < p {
                    let j = choose|j: int| 0 <= j < before.len() && before[j] == dvp[q].repo;
                    assert(repos.deep_view()[j] == dvp[q].repo);
                } else {
                    if before.contains(dvp[p as int].repo) {
                        let j = choose|j: int|
                            0 <= j < before.len() && before[j] == dvp[p as int].repo;
                        assert(repos.deep_view()[j] == dvp[q].repo);
                    } else {
                        assert(repos.deep_view()[before.len() as int] == dvp[q].repo);
                    }
                }
            }
        }
        p += 1;
    }
    let ghost rdv = repos.deep_view();
    // Distinct owners of those repositories.
    let mut owners: Vec<String> = Vec::new();
    let mut t: usize = 0;
    while t < repos.len()
        invariant
            t <= repos@.len(),
            rdv == repos.deep_view(),
            forall|a: int, b: int|
                0 <= a < b < owners.deep_view().len() ==> owners.deep_view()[a]
                    != owners.deep_view()[b],
            forall|b: int|
                0 <= b < t ==> owners.deep_view().contains(owner_of(#[trigger] rdv[b])),
            forall|a: int|
                0 <= a < owners.deep_view().len() ==> exists|b: int|
                    0 <= b < t && owner_of(rdv[b]) == #[trigger] owners.deep_view()[a],
        decreases repos@.len() - t,
    {
        proof {
            assert(has_owner(repos.deep_view()[t as int]));
        }
        let ow = match split_owner(repos[t].as_str()) {
            Some(o) => o,
            None => {
                proof {
                    assert(false);
                }
                String::new()
            },
        };
        let ghost before = owners.deep_view();
        if !crate::config::contains_str(&owners, ow.as_str()) {
            owners.push(ow);
            proof {
                assert(owners.deep_view() =~= before.push(owner_of(rdv[t as int])));
            }
        }
        proof {
            assert forall|b: int| 0 <= b < t + 1 implies owners.deep_view().contains(
                owner_of(#[trigger] rdv[b]),
            ) by {
                if b < t {
                    let j = choose|j: int| 0 <= j < before.len() && before[j] == owner_of(rdv[b]);
                    assert(owners.deep_view()[j] == owner_of(rdv[b]));
                } else {
                    if before.contains(owner_of(rdv[t as int])) {
                        let j = choose|j: int|
                            0 <= j < before.len() && before[j] == owner_of(rdv[t as int]);
                        assert(owners.deep_view()[j] == owner_of(rdv[b]));
                    } else {
                        assert(owners.deep_view()[before.len() as int] == owner_of(rdv[b]));
                    }
                }
            }
            assert forall|a: int| 0 <= a < owners.deep_view().len() implies exists|b: int|
                0 <= b < t + 1 && owner_of(rdv[b]) == #[trigger] owners.deep_view()[a] by {
                if a < before.len() {
                    assert(owners.deep_view()[a] == before[a]);
                    let b = choose|b: int| 0 <= b < t && owner_of(rdv[b]) == before[a];
                    assert(owner_of(rdv[b]) == owners.deep_view()[a]);
                } else {
                    assert(owners.deep_view()[a] == owner_of(rdv[t as int]));
                }
            }
        }
        t += 1;
    }
    let ghost uodv = owners.deep_view();
    let owners = sort_strings(&owners);
    let ghost odv = owners.deep_view();
    // One entry per owner, repositories sorted, with exact counts.
    let mut out: Vec<(String, Vec<(String, usize)>)> = Vec::new();
    let mut oi: usize = 0;
    while oi < owners.len()
        invariant
            oi <= owners@.len(),
            odv == owners.deep_view(),
            rdv == repos.deep_view(),
            out@.len() == oi,
            forall|i: int| 0 <= i < oi ==> out@[i].0@ == odv[i],
            forall|i: int, a: int, b: int|
                0 <= i < out@.len() && 0 <= a < b < out@[i].1@.len() ==> lex_lt(
                    out@[i].1@[a].0@,
                    out@[i].1@[b].0@,
                ),
            forall|i: int, a: int|
                #![trigger out@[i].1@[a]]
                0 <= i < out@.len() && 0 <= a < out@[i].1@.len() ==> owner_of(out@[i].1@[a].0@)
                    == out@[i].0@ && has_owner(out@[i].1@[a].0@) && out@[i].1@[a].1 == count_repo(
                    dvp,
                    out@[i].1@[a].0@,
                ) && out@[i].1@[a].1 >= 1,
            forall|i: int| 0 <= i < oi ==> #[trigger] out@[i].1@.len() >= 1,
            forall|b: int|
                #![trigger rdv[b]]
                0 <= b < rdv.len() && (exists|k: int| 0 <= k < oi && odv[k] == owner_of(rdv[b]))
                    ==> exists|i: int, a: int|
                    0 <= i < out@.len() && 0 <= a < out@[i].1@.len() && out@[i].1@[a].0@ == rdv[b],
        decreases owners@.len() - oi,
    {
        // The repositories of this owner.
        let mut names: Vec<String> = Vec::new();
        let mut u: usize = 0;
        while u < repos.len()
            invariant
                u <= repos@.len(),
                oi < owners@.len(),
                odv == owners.deep_view(),
                rdv == repos.deep_view(),
                forall|a: int, b: int|
                    0 <= a < b < names.deep_view().len() ==> names.deep_view()[a]
                        != names.deep_view()[b],
                forall|a: int|
                    0 <= a < names.deep_view().len() ==> rdv.contains(
                        #[trigger] names.deep_view()[a],
                    ) && owner_of(names.deep_view()[a]) == odv[oi as int],
                forall|b: int|
                    0 <= b < u && owner_of(#[trigger] rdv[b]) == odv[oi as int]
                        ==> names.deep_view().contains(rdv[b]),
            decreases repos@.len() - u,
        {
            proof {
                assert(has_owner(repos.deep_view()[u as int]));
            }
            let ro = match split_owner(repos[u].as_str()) {
                Some(o) => o,
                None => {
                    proof {
                        assert(false);
                    }
                    String::new()
                },
            };
            let ghost before = names.deep_view();
            let same_owner = str_eq(ro.as_str(), owners[oi].as_str());
            if same_owner && !crate::config::contains_str(&names, repos[u].as_str()) {
                names.push(repos[u].clone());
                proof {
                    assert(names.deep_view() =~= before.push(rdv[u as int]));
                }
            }
            proof {
                assert forall|b: int|
                    0 <= b < u + 1 && owner_of(#[trigger] rdv[b]) == odv[oi as int]
                        implies names.deep_view().contains(rdv[b]) by {
                    if b < u {
                        let j = choose|j: int| 0 <= j < before.len() && before[j] == rdv[b];
                        assert(names.deep_view()[j] == rdv[b]);
                    } else {
                        assert(same_owner);
                        if before.contains(rdv[u as int]) {
                            let j = choose|j: int|
                                0 <= j < before.len() && before[j] == rdv[u as int];
                            assert(names.deep_view()[j] == rdv[b]);
                        } else {
                            assert(names.deep_view()[before.len() as int] == rdv[b]);
                        }
                    }
                }
            }
            u += 1;
        }
        let ghost undv = names.deep_view();
        let names = sort_strings(&names);
        let ghost ndv = names.deep_view();
        proof {
            assert forall|a: int| 0 <= a < ndv.len() implies rdv.contains(#[trigger] ndv[a])
                && owner_of(ndv[a]) == odv[oi as int] by {
                assert(ndv.contains(ndv[a]));
                assert(undv.contains(ndv[a]));
                let g = choose|g: int| 0 <= g < undv.len() && undv[g] == ndv[a];
                assert(rdv.contains(undv[g]) && owner_of(undv[g]) == odv[oi as int]);
            }
            // Every owner is the owner of some collected repository, so its
            // name list is nonempty.
            assert(ndv.len() >= 1) by {
                assert(odv.contains(odv[oi as int]));
                assert(uodv.contains(odv[oi as int]));
                let a = choose|a: int| 0 <= a < uodv.len() && uodv[a] == odv[oi as int];
                let b = choose|b: int| 0 <= b < rdv.len() && owner_of(rdv[b]) == uodv[a];
                assert(undv.contains(rdv[b]));
            }
        }
        // Pair each repository with its item count.
        let mut entries: Vec<(String, usize)> = Vec::new();
        let mut e: usize = 0;
        while e < names.len()
            invariant
                e <= names@.len(),
                ndv == names.deep_view(),
                rdv == repos.deep_view(),
                entries@.len() == e,
                forall|a: int| #![trigger entries@[a]]
                    0 <= a < e ==> entries@[a].0@ == ndv[a] && entries@[a].1 == count_repo(
                        dvp,
                        ndv[a],
                    ) && entries@[a].1 >= 1,
            decreases names@.len() - e,
        {
            let c = count_repo_exec(prs, names[e].as_str());
            proof {
                assert(rdv.contains(ndv[e as int]));
                let b = choose|b: int| 0 <= b < rdv.len() && rdv[b] == ndv[e as int];
                let q = choose|q: int| 0 <= q < dvp.len() && dvp[q].repo == rdv[b];
                lemma_count_repo_pos(dvp, ndv[e as int], q);
            }
            entries.push((names[e].clone(), c));
            e += 1;
        }
        let ghost out_before = out@;
        out.push((owners[oi].clone(), entries));
        proof {
            assert(out@[oi as int].1@.len() == ndv.len());
            assert forall|b: int|
                #![trigger rdv[b]]
                0 <= b < rdv.len() && (exists|k: int|
                    0 <= k < oi + 1 && odv[k] == owner_of(rdv[b])) implies exists|i: int, a: int|
                0 <= i < out@.len() && 0 <= a < out@[i].1@.len() && out@[i].1@[a].0@ == rdv[b] by {
                let k = choose|k: int| 0 <= k < oi + 1 && odv[k] == owner_of(rdv[b]);
                if k < oi {
                    let (i, a) = choose|i: int, a: int|
                        0 <= i < out_before.len() && 0 <= a < out_before[i].1@.len()
                            && out_before[i].1@[a].0@ == rdv[b];
                    assert(out@[i] == out_before[i]);
                    assert(out@[i].1@[a].0@ == rdv[b]);
                } else {
                    assert(owner_of(rdv[b]) == odv[oi as int]);
                    assert(undv.contains(rdv[b]));
                    assert(ndv.contains(rdv[b]));
                    let a = choose|a: int| 0 <= a < ndv.len() && ndv[a] == rdv[b];
                    assert(out@[oi as int].1@[a].0@ == rdv[b]);
                }
            }
        }
        oi += 1;
    }
    proof {
        assert forall|p2: int|
            0 <= p2 < prs@.len() && has_owner(#[trigger] prs.deep_view()[p2].repo) implies exists|
            i: int,
            a: int,
        |
            0 <= i < out@.len() && 0 <= a < out@[i].1@.len() && out@[i].1@[a].0@
                == prs.deep_view()[p2].repo by {
            assert(rdv.contains(dvp[p2].repo));
            let b = choose|b: int| 0 <= b < rdv.len() && rdv[b] == dvp[p2].repo;
            assert(odv.contains(owner_of(rdv[b])));
        }
        assert forall|i: int, j: int| 0 <= i < j < out@.len() implies lex_lt(
            out@[i].0@,
            out@[j].0@,
        ) by {
            assert(out@[i].0@ == odv[i] && out@[j].0@ == odv[j]);
            assert(lex_lt(odv[i], odv[j]));
        }
    }
    out
}

// ── Badge count ─────────────────────────────────────────────────────────────

/// How many of `prs` sit in a badge-counted bucket.
pub open spec fn badge_count_spec(s: Seq<CategorizedPrV>, badge: Seq<Seq<char>>) -> int
    decreases s.len(),
{
    if s.len() == 0 {
        0
    } else {
        badge_count_spec(s.drop_last(), badge) + if badge.contains(
            crate::models::bucket_id_spec(s.last().bucket),
        ) {
            1int
        } else {
            0int
        }
    }
}

/// Count the items whose bucket counts towards the badge number.
#[verifier::loop_isolation(false)]
pub fn badge_count(prs: &Vec<CategorizedPr>, config: &AppConfig) -> (r: usize)
    ensures
        r == badge_count_spec(prs.deep_view(), config.badge_buckets.deep_view()),
{
    let ghost badge = config.badge_buckets.deep_view();
    let mut count: usize = 0;
    let mut i: usize = 0;
    while i < prs.len()
        invariant
            i <= prs@.len(),
            count <= i,
            count == badge_count_spec(prs.deep_view().take(i as int), badge),
        decreases prs@.len() - i,
    {
        proof {
            assert(prs.deep_view().take(i + 1).drop_last() =~= prs.deep_view().take(i as int));
            assert(prs.deep_view().take(i + 1).last() == prs.deep_view()[i as int]);
        }
        if config.counts_for_badge(prs[i].bucket.id()) {
            count += 1;
        }
        i += 1;
    }
    proof {
        assert(prs.deep_view().take(prs@.len() as int) =~= prs.deep_view());
    }
    count
}

// ── State diffing ───────────────────────────────────────────────────────────

/// The first item of `s` carrying `id`, if any.
pub open spec fn lookup_id(s: Seq<CategorizedPrV>, id: Seq<char>) -> Option<CategorizedPrV>
    decreases s.len(),
{
    if s.len() == 0 {
        None
    } else if s[0].id == id {
        Some(s[0])
    } else {
        lookup_id(s.drop_first(), id)
    }
}

/// The transitions for items present in the current poll, in the current
/// list's order: `New` for an id the snapshot lacks, `Moved` when the bucket
/// changed, nothing in the steady state.
pub open spec fn present_transitions(
    old_prs: Seq<CategorizedPrV>,
    new_prs: Seq<CategorizedPrV>,
) -> Seq<TransitionV>
    decreases new_prs.len(),
{
    if new_prs.len() == 0 {
        Seq::empty()
    } else {
        let rest = present_transitions(old_prs, new_prs.drop_last());
        let pr = new_prs.last();
        match lookup_id(old_prs, pr.id) {
            None => rest.push(TransitionV::New { pr }),
            Some(o) => if o.bucket != pr.bucket {
                rest.push(TransitionV::Moved { pr, from: o.bucket })
            } else {
                rest
            },
        }
    }
}

/// The `Removed` transitions: one for each snapshot item whose id the
/// current poll no longer holds, in snapshot order.
pub open spec fn removed_transitions(
    old_prs: Seq<CategorizedPrV>,
    new_prs: Seq<CategorizedPrV>,
) -> Seq<TransitionV>
    decreases old_prs.len(),
{
    if old_prs.len() == 0 {
        Seq::empty()
    } else {
        let rest = removed_transitions(old_prs.drop_last(), new_prs);
        let o = old_prs.last();
        if contains_id(new_prs, o.id) {
            rest
        } else {
            rest.push(TransitionV::Removed { pr: o })
        }
    }
}

/// All transitions between a snapshot and the current poll: the transitions
/// of present items first, then the removals.
pub open spec fn diff_spec(
    old_prs: Seq<CategorizedPrV>,
    new_prs: Seq<CategorizedPrV>,
) -> Seq<TransitionV> {
    present_transitions(old_prs, new_prs) + removed_transitions(old_prs, new_prs)
}

/// The index of the first item of `prs` carrying `id`, if any.
fn lookup_index(prs: &Vec<CategorizedPr>, id: &str) -> (r: Option<usize>)
    ensures
        match r {
            Some(idx) => idx < prs@.len() && lookup_id(prs.deep_view(), id@) == Some(
                prs.deep_view()[idx as int],
            ),
            None => lookup_id(prs.deep_view(), id@) is None,
        },
{
    let ghost dv = prs.deep_view();
    proof {
        assert(dv.skip(0) =~= dv);
    }
    let mut i: usize = 0;
    while i < prs.len()
        invariant
            i <= prs@.len(),
            dv == prs.deep_view(),
            lookup_id(dv.skip(i as int), id@) == lookup_id(dv, id@),
            forall|j: int| 0 <= j < i ==> dv[j].id != id@,
        decreases prs@.len() - i,
    {
        proof {
            assert(dv.skip(i as int)[0] == dv[i as int]);
            assert(dv.skip(i as int).drop_first() =~= dv.skip(i + 1));
        }
        if str_eq(prs[i].id.as_str(), id) {
            return Some(i);
        }
        i += 1;
    }
    proof {
        assert(dv.skip(dv.len() as int) =~= Seq::<CategorizedPrV>::empty());
    }
    None
}

/// Compare the previous snapshot against the current filtered list: `New`
/// and `Moved` transitions for present items first, in current-list order,
/// then `Removed` for ids that disappeared, in snapshot order. Nothing is
/// emitted for an id whose bucket is unchanged.
#[verifier::loop_isolation(false)]
pub fn diff_states(old_prs: &Vec<CategorizedPr>, new_prs: &Vec<CategorizedPr>) -> (r: Vec<
    Transition,
>)
    ensures
        r.deep_view() == diff_spec(old_prs.deep_view(), new_prs.deep_view()),
{
    let ghost oldv = old_prs.deep_view();
    let ghost newv = new_prs.deep_view();
    let mut out: Vec<Transition> = Vec::new();
    proof {
        assert(out.deep_view() =~= Seq::<TransitionV>::empty());
        assert(newv.take(0) =~= Seq::<CategorizedPrV>::empty());
    }
    let mut i: usize = 0;
    while i < new_prs.len()
        invariant
            i <= new_prs@.len(),
            out.deep_view() == present_transitions(oldv, newv.take(i as int)),
        decreases new_prs@.len() - i,
    {
        proof {
            assert(newv.take(i + 1).drop_last() =~= newv.take(i as int));
            assert(newv.take(i + 1).last() == newv[i as int]);
        }
        let ghost before = out.deep_view();
        match lookup_index(old_prs, new_prs[i].id.as_str()) {
            None => {
                out.push(Transition::New { pr: new_prs[i].duplicate() });
                proof {
                    assert(out.deep_view() =~= before.push(
                        TransitionV::New { pr: newv[i as int] },
                    ));
                }
            },
            Some(idx) => {
                if old_prs[idx].bucket != new_prs[i].bucket {
                    out.push(
                        Transition::Moved {
                            pr: new_prs[i].duplicate(),
                            from: old_prs[idx].bucket,
                        },
                    );
                    proof {
                        assert(out.deep_view() =~= before.push(
                            TransitionV::Moved {
                                pr: newv[i as int],
                                from: oldv[idx as int].bucket,
                            },
                        ));
                    }
                }
            },
        }
        i += 1;
    }
    proof {
        assert(newv.take(newv.len() as int) =~= newv);
    }
    let ghost present = present_transitions(oldv, newv);
    proof {
        assert(oldv.take(0) =~= Seq::<CategorizedPrV>::empty());
        assert(out.deep_view() =~= present + removed_transitions(oldv.take(0), newv));
    }
    let mut j: usize = 0;
    while j < old_prs.len()
        invariant
            j <= old_prs@.len(),
            out.deep_view() == present + removed_transitions(oldv.take(j as int), newv),
        decreases old_prs@.len() - j,
    {
        proof {
            assert(oldv.take(j + 1).drop_last() =~= oldv.take(j as int));
            assert(oldv.take(j + 1).last() == oldv[j as int]);
        }
        let ghost before = out.deep_view();
        if !contains_id_exec(new_prs, old_prs[j].id.as_str()) {
            out.push(Transition::Removed { pr: old_prs[j].duplicate() });
            proof {
                assert(out.deep_view() =~= before.push(
                    TransitionV::Removed { pr: oldv[j as int] },
                ));
                assert(out.deep_view() =~= present + removed_transitions(oldv.take(j + 1), newv));
            }
        } else {
            proof {
                assert(out.deep_view() =~= present + removed_transitions(oldv.take(j + 1), newv));
            }
        }
        j += 1;
    }
    proof {
        assert(oldv.take(oldv.len() as int) =~= oldv);
        assert(out.deep_view() =~= diff_spec(oldv, newv));
    }
    out
}

proof fn lemma_push_dedup_unique(acc: Seq<CategorizedPrV>, items: Seq<CategorizedPrV>)
    requires
        unique_ids(acc),
    ensures
        unique_ids(push_dedup(acc, items)),
    decreases items.len(),
{
    if items.len() == 0 {
    } else {
        let acc2 = if contains_id(acc, items[0].id) {
            acc
        } else {
            acc.push(items[0])
        };
        assert(unique_ids(acc2));
        lemma_push_dedup_unique(acc2, items.drop_first());
    }
}

proof fn lemma_push_dedup_prefix(acc: Seq<CategorizedPrV>, items: Seq<CategorizedPrV>)
    ensures
        push_dedup(acc, items).len() >= acc.len(),
        forall|k: int| 0 <= k < acc.len() ==> push_dedup(acc, items)[k] == acc[k],
    decreases items.len(),
{
    if items.len() == 0 {
    } else {
        let acc2 = if contains_id(acc, items[0].id) {
            acc
        } else {
            acc.push(items[0])
        };
        lemma_push_dedup_prefix(acc2, items.drop_first());
        assert(push_dedup(acc, items) == push_dedup(acc2, items.drop_first()));
        assert forall|k: int| 0 <= k < acc.len() implies push_dedup(acc, items)[k] == acc[k] by {
            assert(push_dedup(acc2, items.drop_first())[k] == acc2[k]);
            assert(acc2[k] == acc[k]);
        }
    }
}

proof fn lemma_push_dedup_elems(acc: Seq<CategorizedPrV>, items: Seq<CategorizedPrV>)
    ensures
        forall|k: int|
            0 <= k < push_dedup(acc, items).len() ==> acc.contains(
                #[trigger] push_dedup(acc, items)[k],
            ) || items.contains(push_dedup(acc, items)[k]),
    decreases items.len(),
{
    if items.len() == 0 {
    } else {
        let acc2 = if contains_id(acc, items[0].id) {
            acc
        } else {
            acc.push(items[0])
        };
        lemma_push_dedup_elems(acc2, items.drop_first());
        assert forall|k: int| 0 <= k < push_dedup(acc, items).len() implies acc.contains(
            #[trigger] push_dedup(acc, items)[k],
        ) || items.contains(push_dedup(acc, items)[k]) by {
            let x = push_dedup(acc, items)[k];
            assert(push_dedup(acc, items) == push_dedup(acc2, items.drop_first()));
            if acc2.contains(x) {
                let j = choose|j: int| 0 <= j < acc2.len() && acc2[j] == x;
                if j < acc.len() {
                    assert(acc.contains(x));
                } else {
                    assert(x == items[0]);
                    assert(items.contains(x));
                }
            } else {
                let j = choose|j: int|
                    0 <= j < items.drop_first().len() && items.drop_first()[j] == x;
                assert(items[j + 1] == x);
                assert(items.contains(x));
            }
        }
    }
}

proof fn lemma_push_dedup_covers(acc: Seq<CategorizedPrV>, items: Seq<CategorizedPrV>, id: Seq<char>)
    requires
        contains_id(acc, id) || exists|i: int| 0 <= i < items.len() && items[i].id == id,
    ensures
        contains_id(push_dedup(acc, items), id),
    decreases items.len(),
{
    if items.len() == 0 {
    } else {
        let acc2 = if contains_id(acc, items[0].id) {
            acc
        } else {
            acc.push(items[0])
        };
        if contains_id(acc, id) {
            assert(contains_id(acc2, id)) by {
                let j = choose|j: int| 0 <= j < acc.len() && acc[j].id == id;
                assert(acc2[j].id == id);
            }
        } else {
            let i = choose|i: int| 0 <= i < items.len() && items[i].id == id;
            if i == 0 {
                if contains_id(acc, items[0].id) {
                    assert(contains_id(acc2, id));
                } else {
                    assert(acc2[acc.len() as int].id == id);
                }
            } else {
                assert(items.drop_first()[i - 1].id == id);
            }
        }
        lemma_push_dedup_covers(acc2, items.drop_first(), id);
    }
}

/// Dedup/precedence law: an id that the needs-review list carries — in
/// particular one that also appears among the authored records — classifies
/// as `NeedsYourReview`, and no id appears twice in the classification
/// output.
pub proof fn lemma_needs_review_precedence(data: GqlData, id: Seq<char>)
    requires
        exists|i: int|
            0 <= i < data.needs_review.nodes.deep_view().len()
                && data.needs_review.nodes.deep_view()[i].id == id,
    ensures
        exists|k: int|
            0 <= k < classify_spec(data).len() && #[trigger] classify_spec(data)[k].id == id
                && classify_spec(data)[k].bucket == Bucket::NeedsYourReview,
        unique_ids(classify_spec(data)),
{
    let e = Seq::<CategorizedPrV>::empty();
    let dv = data.needs_review.nodes.deep_view();
    let m1 = dv.map_values(|p: PullRequestV| make_pr_spec(p, Bucket::NeedsYourReview));
    let m2 = data.authored.nodes.deep_view().map_values(
        |p: PullRequestV| make_pr_spec(p, authored_bucket_spec(p)),
    );
    let m3 = data.reviewed_by_me.nodes.deep_view().map_values(
        |p: PullRequestV| make_pr_spec(p, Bucket::WaitingForAuthor),
    );
    let m4 = data.recently_merged.nodes.deep_view().map_values(
        |p: PullRequestV| merged_item_spec(p),
    );
    let s1 = push_dedup(e, m1);
    let s2 = push_dedup(s1, m2);
    let s3 = push_dedup(s2, m3);
    let s4 = push_dedup(s3, m4);
    assert(s4 == classify_spec(data));
    // The id reaches the first stage's output.
    let i = choose|i: int| 0 <= i < dv.len() && dv[i].id == id;
    assert(m1[i].id == id);
    lemma_push_dedup_covers(e, m1, id);
    let k = choose|k: int| 0 <= k < s1.len() && s1[k].id == id;
    // Every item of the first stage came from the needs-review list, so its
    // bucket is NeedsYourReview.
    lemma_push_dedup_elems(e, m1);
    assert(m1.contains(s1[k]));
    let j = choose|j: int| 0 <= j < m1.len() && m1[j] == s1[k];
    assert(s1[k] == make_pr_spec(dv[j], Bucket::NeedsYourReview));
    assert(s1[k].bucket == Bucket::NeedsYourReview);
    // Later stages only append, so the item stays where it is.
    lemma_push_dedup_prefix(s1, m2);
    assert(s2[k] == s1[k]);
    lemma_push_dedup_prefix(s2, m3);
    assert(s3[k] == s2[k]);
    lemma_push_dedup_prefix(s3, m4);
    assert(s4[k] == s3[k]);
    assert(s4[k].id == id && s4[k].bucket == Bucket::NeedsYourReview);
    // No id appears twice anywhere in the output.
    lemma_push_dedup_unique(e, m1);
    lemma_push_dedup_unique(s1, m2);
    lemma_push_dedup_unique(s2, m3);
    lemma_push_dedup_unique(s3, m4);
}

/// Classify one poll's four record lists into at most one item per id, in
/// precedence order: needs-review, authored, reviewed-by-me,
/// recently-merged. The first list an id appears in decides its bucket.
#[allow(unused_variables)]
pub fn categorize_all(data: &GqlData, viewer: &str) -> (r: Vec<CategorizedPr>)
    ensures
        r.deep_view() == classify_spec(*data),
        unique_ids(r.deep_view()),
{
    let results: Vec<CategorizedPr> = Vec::new();
    proof {
        assert(results.deep_view() =~= Seq::<CategorizedPrV>::empty());
    }
    let needs = map_with_bucket(&data.needs_review.nodes, Bucket::NeedsYourReview);
    let results = append_dedup(results, &needs);
    let authored = map_authored(&data.authored.nodes);
    let results = append_dedup(results, &authored);
    let reviewed = map_with_bucket(&data.reviewed_by_me.nodes, Bucket::WaitingForAuthor);
    let results = append_dedup(results, &reviewed);
    let merged = map_merged(&data.recently_merged.nodes);
    let results = append_dedup(results, &merged);
    proof {
        let e = Seq::<CategorizedPrV>::empty();
        assert(unique_ids(e));
        let m1 = data.needs_review.nodes.deep_view().map_values(
            |p: PullRequestV| make_pr_spec(p, Bucket::NeedsYourReview),
        );
        let m2 = data.authored.nodes.deep_view().map_values(
            |p: PullRequestV| make_pr_spec(p, authored_bucket_spec(p)),
        );
        let m3 = data.reviewed_by_me.nodes.deep_view().map_values(
            |p: PullRequestV| make_pr_spec(p, Bucket::WaitingForAuthor),
        );
        let m4 = data.recently_merged.nodes.deep_view().map_values(
            |p: PullRequestV| merged_item_spec(p),
        );
        let s1 = push_dedup(e, m1);
        lemma_push_dedup_unique(e, m1);
        let s2 = push_dedup(s1, m2);
        lemma_push_dedup_unique(s1, m2);
        let s3 = push_dedup(s2, m3);
        lemma_push_dedup_unique(s2, m3);
        lemma_push_dedup_unique(s3, m4);
    }
    results
}

} // verus!
