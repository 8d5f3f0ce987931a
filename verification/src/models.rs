//! Data model: raw pull-request records as the data source reports them,
//! the closed set of workflow buckets, classified items, and the transition
//! events produced by comparing two polls.

use vstd::prelude::*;
use vstd::string::StrSliceExecFns;
use vstd::string::StringExecFns;
use crate::text::str_eq;
use crate::text::dec_digits;
use crate::text::u64_to_string;

verus! {

/// A point in time, in seconds since the Unix epoch. The embedding
/// application converts its calendar timestamps to and from this form.
pub type Timestamp = i64;

/// The closed set of workflow buckets a pull request is classified into.
#[derive(Debug, Clone, Copy, PartialEq, Eq, Structural)]
pub enum Bucket {
    NeedsYourReview,
    WaitingForReviewers,
    ReturnedToYou,
    Approved,
    Drafts,
    RecentlyMerged,
    WaitingForAuthor,
}

/// The display label of each bucket.
pub open spec fn bucket_label_spec(b: Bucket) -> Seq<char> {
    match b {
        Bucket::NeedsYourReview => "Needs Your Review"@,
        Bucket::WaitingForReviewers => "Waiting for Review"@,
        Bucket::ReturnedToYou => "Returned to You"@,
        Bucket::Approved => "Approved"@,
        Bucket::Drafts => "Drafts"@,
        Bucket::RecentlyMerged => "Recently Merged"@,
        Bucket::WaitingForAuthor => "Waiting for Author"@,
    }
}

/// The stable string id of each bucket, used in persisted configuration.
pub open spec fn bucket_id_spec(b: Bucket) -> Seq<char> {
    match b {
        Bucket::NeedsYourReview => "needs_your_review"@,
        Bucket::WaitingForReviewers => "waiting_for_reviewers"@,
        Bucket::ReturnedToYou => "returned_to_you"@,
        Bucket::Approved => "approved"@,
        Bucket::Drafts => "drafts"@,
        Bucket::RecentlyMerged => "recently_merged"@,
        Bucket::WaitingForAuthor => "waiting_for_author"@,
    }
}

/// The bucket a stable id names, if any.
pub open spec fn bucket_from_id_spec(id: Seq<char>) -> Option<Bucket> {
    if id == "needs_your_review"@ {
        Some(Bucket::NeedsYourReview)
    } else if id == "waiting_for_reviewers"@ {
        Some(Bucket::WaitingForReviewers)
    } else if id == "returned_to_you"@ {
        Some(Bucket::ReturnedToYou)
    } else if id == "approved"@ {
        Some(Bucket::Approved)
    } else if id == "drafts"@ {
        Some(Bucket::Drafts)
    } else if id == "recently_merged"@ {
        Some(Bucket::RecentlyMerged)
    } else if id == "waiting_for_author"@ {
        Some(Bucket::WaitingForAuthor)
    } else {
        None
    }
}

/// The canonical display order of the buckets.
pub open spec fn canonical_order() -> Seq<Bucket> {
    seq![
        Bucket::NeedsYourReview,
        Bucket::WaitingForReviewers,
        Bucket::ReturnedToYou,
        Bucket::Approved,
        Bucket::Drafts,
        Bucket::RecentlyMerged,
        Bucket::WaitingForAuthor,
    ]
}

impl Bucket {
    /// Human-readable label shown in menus.
    pub fn label(&self) -> (r: &'static str)
        ensures
            r@ == bucket_label_spec(*self),
    {
        match self {
            Bucket::NeedsYourReview => "Needs Your Review",
            Bucket::WaitingForReviewers => "Waiting for Review",
            Bucket::ReturnedToYou => "Returned to You",
            Bucket::Approved => "Approved",
            Bucket::Drafts => "Drafts",
            Bucket::RecentlyMerged => "Recently Merged",
            Bucket::WaitingForAuthor => "Waiting for Author",
        }
    }

    /// Stable id used for persistence and configuration.
    pub fn id(&self) -> (r: &'static str)
        ensures
            r@ == bucket_id_spec(*self),
    {
        match self {
            Bucket::NeedsYourReview => "needs_your_review",
            Bucket::WaitingForReviewers => "waiting_for_reviewers",
            Bucket::ReturnedToYou => "returned_to_you",
            Bucket::Approved => "approved",
            Bucket::Drafts => "drafts",
            Bucket::RecentlyMerged => "recently_merged",
            Bucket::WaitingForAuthor => "waiting_for_author",
        }
    }

    /// The canonical display order.
    pub fn display_order() -> (r: Vec<Bucket>)
        ensures
            r@ == canonical_order(),
    {
        let mut v: Vec<Bucket> = Vec::new();
        v.push(Bucket::NeedsYourReview);
        v.push(Bucket::WaitingForReviewers);
        v.push(Bucket::ReturnedToYou);
        v.push(Bucket::Approved);
        v.push(Bucket::Drafts);
        v.push(Bucket::RecentlyMerged);
        v.push(Bucket::WaitingForAuthor);
        proof {
            assert(v@ =~= canonical_order());
        }
        v
    }

    /// Parse a stable id back into a bucket.
    pub fn from_id(id: &str) -> (r: Option<Bucket>)
        ensures
            r == bucket_from_id_spec(id@),
    {
        if str_eq(id, "needs_your_review") {
            Some(Bucket::NeedsYourReview)
        } else if str_eq(id, "waiting_for_reviewers") {
            Some(Bucket::WaitingForReviewers)
        } else if str_eq(id, "returned_to_you") {
            Some(Bucket::ReturnedToYou)
        } else if str_eq(id, "approved") {
            Some(Bucket::Approved)
        } else if str_eq(id, "drafts") {
            Some(Bucket::Drafts)
        } else if str_eq(id, "recently_merged") {
            Some(Bucket::RecentlyMerged)
        } else if str_eq(id, "waiting_for_author") {
            Some(Bucket::WaitingForAuthor)
        } else {
            None
        }
    }
}

// ── Raw records, as the data source reports them ───────────────────────────

/// Repository coordinates of a pull request.
#[derive(Debug, Clone)]
pub struct Repository {
    /// Full name, `"owner/name"`.
    pub name_with_owner: String,
}

/// A user that authored a pull request or a review.
#[derive(Debug, Clone)]
pub struct Actor {
    pub login: String,
}

/// One review on a pull request.
#[derive(Debug, Clone)]
pub struct Review {
    pub author: Option<Actor>,
    pub state: String,
    pub submitted_at: Option<Timestamp>,
}

/// The most recent reviews of a pull request.
#[derive(Debug, Clone)]
pub struct ReviewConnection {
    pub nodes: Vec<Review>,
}

/// Aggregate state of a commit's checks.
#[derive(Debug, Clone)]
pub struct StatusCheck {
    pub state: String,
}

/// Metadata of one commit.
#[derive(Debug, Clone)]
pub struct CommitInfo {
    pub oid: String,
    pub committed_date: Timestamp,
    pub status_check_rollup: Option<StatusCheck>,
}

/// A commit entry in a pull request's commit list.
#[derive(Debug, Clone)]
pub struct CommitNode {
    pub commit: CommitInfo,
}

/// The most recent commits of a pull request.
#[derive(Debug, Clone)]
pub struct CommitConnection {
    pub nodes: Vec<CommitNode>,
}

/// The wire shape of a pull request; optional fields may be absent.
#[derive(Debug, Clone)]
pub struct PullRequest {
    pub id: String,
    pub number: u32,
    pub title: String,
    pub url: String,
    pub is_draft: Option<bool>,
    pub created_at: Option<Timestamp>,
    pub updated_at: Option<Timestamp>,
    pub merged_at: Option<Timestamp>,
    pub repository: Repository,
    pub author: Option<Actor>,
    pub review_decision: Option<String>,
    pub latest_reviews: Option<ReviewConnection>,
    pub commits: Option<CommitConnection>,
}

/// One of the four query results the data source returns.
#[derive(Debug, Clone)]
pub struct SearchResult {
    pub issue_count: u32,
    pub nodes: Vec<PullRequest>,
}

/// The four named record lists of one poll, in classification precedence
/// order.
#[derive(Debug, Clone)]
pub struct GqlData {
    pub needs_review: SearchResult,
    pub authored: SearchResult,
    pub reviewed_by_me: SearchResult,
    pub recently_merged: SearchResult,
}

/// A whole response from the data source.
#[derive(Debug, Clone)]
pub struct GqlResponse {
    pub data: GqlData,
}

// ── Mathematical views of the records ───────────────────────────────────────

/// View of an optional string.
pub open spec fn opt_string_view(o: Option<String>) -> Option<Seq<char>> {
    match o {
        Some(s) => Some(s@),
        None => None,
    }
}

/// Mathematical view of [`CommitInfo`].
#[verifier::ext_equal]
pub struct CommitInfoV {
    pub oid: Seq<char>,
    pub committed_date: Timestamp,
    pub ci_state: Option<Seq<char>>,
}

/// Mathematical view of [`PullRequest`]: every field the classification
/// logic reads, as a plain value.
#[verifier::ext_equal]
pub struct PullRequestV {
    pub id: Seq<char>,
    pub number: u32,
    pub title: Seq<char>,
    pub url: Seq<char>,
    pub is_draft: Option<bool>,
    pub created_at: Option<Timestamp>,
    pub updated_at: Option<Timestamp>,
    pub merged_at: Option<Timestamp>,
    pub repo: Seq<char>,
    pub author: Option<Seq<char>>,
    pub review_decision: Option<Seq<char>>,
    pub commits: Option<Seq<CommitInfoV>>,
}

impl View for CommitInfo {
    type V = CommitInfoV;

    open spec fn view(&self) -> CommitInfoV {
        CommitInfoV {
            oid: self.oid@,
            committed_date: self.committed_date,
            ci_state: match self.status_check_rollup {
                Some(s) => Some(s.state@),
                None => None,
            },
        }
    }
}

impl DeepView for CommitInfo {
    type V = CommitInfoV;

    open spec fn deep_view(&self) -> CommitInfoV {
        self.view()
    }
}

impl View for PullRequest {
    type V = PullRequestV;

    open spec fn view(&self) -> PullRequestV {
        PullRequestV {
            id: self.id@,
            number: self.number,
            title: self.title@,
            url: self.url@,
            is_draft: self.is_draft,
            created_at: self.created_at,
            updated_at: self.updated_at,
            merged_at: self.merged_at,
            repo: self.repository.name_with_owner@,
            author: match self.author {
                Some(a) => Some(a.login@),
                None => None,
            },
            review_decision: opt_string_view(self.review_decision),
            commits: match self.commits {
                Some(c) => Some(c.nodes@.map_values(|n: CommitNode| n.commit@)),
                None => None,
            },
        }
    }
}

impl DeepView for PullRequest {
    type V = PullRequestV;

    open spec fn deep_view(&self) -> PullRequestV {
        self.view()
    }
}

// ── Classified items ────────────────────────────────────────────────────────

/// A pull request after classification, the shape that is displayed and
/// persisted in the snapshot.
#[derive(Debug, Clone)]
pub struct CategorizedPr {
    pub id: String,
    pub number: u32,
    pub title: String,
    pub url: String,
    /// Full repository name, `"owner/name"`.
    pub repo: String,
    /// Author login; empty when unknown.
    pub author: String,
    pub bucket: Bucket,
    pub created_at: Option<Timestamp>,
    pub updated_at: Option<Timestamp>,
    pub last_commit_sha: Option<String>,
    pub last_commit_date: Option<Timestamp>,
    pub ci_status: Option<String>,
}

fn copy_opt_string(o: &Option<String>) -> (r: Option<String>)
    ensures
        r == *o,
{
    match o {
        Some(s) => Some(s.clone()),
        None => None,
    }
}

impl CategorizedPr {
    /// An equal copy. (The derived `Clone` carries no specification, so
    /// verified callers use this instead.)
    pub fn duplicate(&self) -> (r: CategorizedPr)
        ensures
            r == *self,
    {
        CategorizedPr {
            id: self.id.clone(),
            number: self.number,
            title: self.title.clone(),
            url: self.url.clone(),
            repo: self.repo.clone(),
            author: self.author.clone(),
            bucket: self.bucket,
            created_at: self.created_at,
            updated_at: self.updated_at,
            last_commit_sha: copy_opt_string(&self.last_commit_sha),
            last_commit_date: self.last_commit_date,
            ci_status: copy_opt_string(&self.ci_status),
        }
    }
}

/// Mathematical view of [`CategorizedPr`].
#[verifier::ext_equal]
pub struct CategorizedPrV {
    pub id: Seq<char>,
    pub number: u32,
    pub title: Seq<char>,
    pub url: Seq<char>,
    pub repo: Seq<char>,
    pub author: Seq<char>,
    pub bucket: Bucket,
    pub created_at: Option<Timestamp>,
    pub updated_at: Option<Timestamp>,
    pub last_commit_sha: Option<Seq<char>>,
    pub last_commit_date: Option<Timestamp>,
    pub ci_status: Option<Seq<char>>,
}

impl View for CategorizedPr {
    type V = CategorizedPrV;

    open spec fn view(&self) -> CategorizedPrV {
        CategorizedPrV {
            id: self.id@,
            number: self.number,
            title: self.title@,
            url: self.url@,
            repo: self.repo@,
            author: self.author@,
            bucket: self.bucket,
            created_at: self.created_at,
            updated_at: self.updated_at,
            last_commit_sha: opt_string_view(self.last_commit_sha),
            last_commit_date: self.last_commit_date,
            ci_status: opt_string_view(self.ci_status),
        }
    }
}

impl DeepView for CategorizedPr {
    type V = CategorizedPrV;

    open spec fn deep_view(&self) -> CategorizedPrV {
        self.view()
    }
}

// ── Transition events ───────────────────────────────────────────────────────

/// A detected change between the previous snapshot and the current poll.
#[derive(Debug, Clone)]
pub enum Transition {
    New { pr: CategorizedPr },
    Moved { pr: CategorizedPr, from: Bucket },
    Removed { pr: CategorizedPr },
}

/// Mathematical view of [`Transition`].
#[verifier::ext_equal]
pub enum TransitionV {
    New { pr: CategorizedPrV },
    Moved { pr: CategorizedPrV, from: Bucket },
    Removed { pr: CategorizedPrV },
}

impl View for Transition {
    type V = TransitionV;

    open spec fn view(&self) -> TransitionV {
        match self {
            Transition::New { pr } => TransitionV::New { pr: pr@ },
            Transition::Moved { pr, from } => TransitionV::Moved { pr: pr@, from: *from },
            Transition::Removed { pr } => TransitionV::Removed { pr: pr@ },
        }
    }
}

impl DeepView for Transition {
    type V = TransitionV;

    open spec fn deep_view(&self) -> TransitionV {
        self.view()
    }
}

// ── Repository short names ──────────────────────────────────────────────────

/// The part of a repository name after the last `/`; the whole name when it
/// has no `/`.
pub open spec fn short_repo_spec(s: Seq<char>) -> Seq<char>
    decreases s.len(),
{
    if s.len() == 0 {
        Seq::empty()
    } else if s.last() == '/' {
        Seq::empty()
    } else {
        short_repo_spec(s.drop_last()).push(s.last())
    }
}

/// Short repository name: the substring after the last `/`.
pub fn short_repo(repo: &str) -> (r: &str)
    ensures
        r@ == short_repo_spec(repo@),
{
    let n = repo.unicode_len();
    let mut cut: usize = 0;
    let mut i: usize = 0;
    while i < n
        invariant
            cut <= i <= n,
            n == repo@.len(),
            short_repo_spec(repo@.take(i as int)) =~= repo@.subrange(cut as int, i as int),
        decreases n - i,
    {
        let c = repo.get_char(i);
        proof {
            assert(repo@.take(i + 1).drop_last() =~= repo@.take(i as int));
            assert(repo@.take(i + 1).last() == repo@[i as int]);
        }
        if c == '/' {
            cut = i + 1;
            proof {
                assert(short_repo_spec(repo@.take(i + 1)) =~= repo@.subrange(
                    i + 1,
                    i + 1,
                ));
            }
        } else {
            proof {
                assert(short_repo_spec(repo@.take(i + 1)) =~= repo@.subrange(
                    cut as int,
                    i as int,
                ).push(repo@[i as int]));
                assert(repo@.subrange(cut as int, i as int).push(repo@[i as int]) =~= repo@
                    .subrange(cut as int, i + 1));
            }
        }
        i += 1;
    }
    proof {
        assert(repo@.take(n as int) =~= repo@);
    }
    repo.substring_char(cut, n)
}

// ── Notification text ───────────────────────────────────────────────────────

/// The body line of a notification: `#<number> <title> (<short repo>)`.
pub open spec fn body_text_spec(pr: CategorizedPrV) -> Seq<char> {
    "#"@ + dec_digits(pr.number as int) + " "@ + pr.title + " ("@ + short_repo_spec(pr.repo)
        + ")"@
}

/// The notification a transition produces, if any: arrivals into the three
/// action buckets notify, a move into the merged bucket notifies, and
/// everything else — including every removal — is suppressed.
pub open spec fn notification_text_spec(t: TransitionV) -> Option<(Seq<char>, Seq<char>)> {
    match t {
        TransitionV::New { pr } => match pr.bucket {
            Bucket::NeedsYourReview => Some(("Review Requested"@, body_text_spec(pr))),
            Bucket::ReturnedToYou => Some(("Changes Requested"@, body_text_spec(pr))),
            Bucket::Approved => Some(("PR Approved"@, body_text_spec(pr))),
            _ => None,
        },
        TransitionV::Moved { pr, from } => match pr.bucket {
            Bucket::NeedsYourReview => Some(("Review Requested"@, body_text_spec(pr))),
            Bucket::ReturnedToYou => Some(("Changes Requested"@, body_text_spec(pr))),
            Bucket::Approved => Some(("PR Approved"@, body_text_spec(pr))),
            Bucket::RecentlyMerged => Some(("PR Merged"@, body_text_spec(pr))),
            _ => None,
        },
        TransitionV::Removed { .. } => None,
    }
}

fn body_text(pr: &CategorizedPr) -> (r: String)
    ensures
        r@ == body_text_spec(pr@),
{
    let mut b = "#".to_owned();
    let num = u64_to_string(pr.number as u64);
    b.append(num.as_str());
    b.append(" ");
    b.append(pr.title.as_str());
    b.append(" (");
    b.append(short_repo(pr.repo.as_str()));
    b.append(")");
    b
}

impl Transition {
    /// The `(title, body)` pair to notify with, or `None` when this
    /// transition must not notify.
    pub fn notification_text(&self) -> (r: Option<(&'static str, String)>)
        ensures
            (r is Some) == (notification_text_spec(self@) is Some),
            r is Some ==> r.unwrap().0@ == notification_text_spec(self@).unwrap().0,
            r is Some ==> r.unwrap().1@ == notification_text_spec(self@).unwrap().1,
    {
        match self {
            Transition::New { pr } => match pr.bucket {
                Bucket::NeedsYourReview => Some(("Review Requested", body_text(pr))),
                Bucket::ReturnedToYou => Some(("Changes Requested", body_text(pr))),
                Bucket::Approved => Some(("PR Approved", body_text(pr))),
                _ => None,
            },
            Transition::Moved { pr, from: _ } => match pr.bucket {
                Bucket::NeedsYourReview => Some(("Review Requested", body_text(pr))),
                Bucket::ReturnedToYou => Some(("Changes Requested", body_text(pr))),
                Bucket::Approved => Some(("PR Approved", body_text(pr))),
                Bucket::RecentlyMerged => Some(("PR Merged", body_text(pr))),
                _ => None,
            },
            Transition::Removed { .. } => None,
        }
    }
}

// ── Compact relative time ───────────────────────────────────────────────────

/// The compact relative-time string for a timestamp `dt` seen from `now`:
/// `"now"` under a minute (or in the future), then minutes, hours, days,
/// months (30 days) and years (365 days), each with a one- or two-letter
/// unit.
pub open spec fn relative_time_spec(now: int, dt: int) -> Seq<char> {
    let diff = now - dt;
    if diff < 60 {
        "now"@
    } else if diff < 3600 {
        dec_digits(diff / 60) + "m"@
    } else if diff < 86400 {
        dec_digits(diff / 3600) + "h"@
    } else if diff / 86400 < 30 {
        dec_digits(diff / 86400) + "d"@
    } else if diff / 86400 < 365 {
        dec_digits((diff / 86400) / 30) + "mo"@
    } else {
        dec_digits((diff / 86400) / 365) + "y"@
    }
}

/// Format `dt` as a compact relative time seen from `now` (e.g. `2m`, `4h`,
/// `3d`, `2mo`, `1y`).
pub fn relative_time(now: Timestamp, dt: Timestamp) -> (r: String)
    requires
        now - dt <= i64::MAX,
        dt - now <= i64::MAX,
    ensures
        r@ == relative_time_spec(now as int, dt as int),
{
    if now - dt < 60 {
        return "now".to_owned();
    }
    let diff: u64 = (now - dt) as u64;
    if diff < 3600 {
        let mut s = u64_to_string(diff / 60);
        s.append("m");
        s
    } else if diff < 86400 {
        let mut s = u64_to_string(diff / 3600);
        s.append("h");
        s
    } else if diff / 86400 < 30 {
        let mut s = u64_to_string(diff / 86400);
        s.append("d");
        s
    } else if diff / 86400 < 365 {
        let mut s = u64_to_string((diff / 86400) / 30);
        s.append("mo");
        s
    } else {
        let mut s = u64_to_string((diff / 86400) / 365);
        s.append("y");
        s
    }
}

// ── CI indicator glyphs ─────────────────────────────────────────────────────

/// View of an optional string slice.
pub open spec fn opt_str_view(o: Option<&str>) -> Option<Seq<char>> {
    match o {
        Some(s) => Some(s@),
        None => None,
    }
}

/// The menu glyph for a CI status.
pub open spec fn ci_indicator_spec(status: Option<Seq<char>>) -> Seq<char> {
    match status {
        Some(s) => if s == "SUCCESS"@ {
            " \u{2713}"@
        } else if s == "FAILURE"@ || s == "ERROR"@ {
            " \u{2717}"@
        } else if s == "PENDING"@ || s == "EXPECTED"@ {
            " \u{25d0}"@
        } else {
            ""@
        },
        None => ""@,
    }
}

/// Map a CI status to the glyph shown beside a menu entry.
pub fn ci_indicator(status: Option<&str>) -> (r: &'static str)
    ensures
        r@ == ci_indicator_spec(opt_str_view(status)),
{
    match status {
        Some(s) => {
            if str_eq(s, "SUCCESS") {
                " \u{2713}"
            } else if str_eq(s, "FAILURE") || str_eq(s, "ERROR") {
                " \u{2717}"
            } else if str_eq(s, "PENDING") || str_eq(s, "EXPECTED") {
                " \u{25d0}"
            } else {
                ""
            }
        },
        None => "",
    }
}

} // verus!
