//! User configuration: poll interval, merged-PR window, repository deny-list,
//! bucket visibility, badge buckets and a custom bucket display order. The
//! embedding application persists this type; here live the rules it obeys.

use vstd::prelude::*;
use crate::models::Bucket;
use crate::models::bucket_from_id_spec;
use crate::models::canonical_order;
use crate::text::str_eq;

verus! {

/// User configuration. Sets of repository names and bucket ids are held as
/// lists; only membership in them matters.
#[derive(Debug, Clone)]
pub struct AppConfig {
    /// Poll interval in seconds (effective minimum 30).
    pub poll_interval_secs: u64,
    /// Merged PR window in days (effective minimum 1).
    pub merged_window_days: i64,
    /// Blocked repos (full `"owner/name"`) — empty means show all.
    pub blocked_repos: Vec<String>,
    /// Whether notifications are enabled.
    pub notifications_enabled: bool,
    /// Whether to play sound with notifications.
    pub notification_sound: bool,
    /// Bucket ids hidden from the menu (empty = show all).
    pub hidden_buckets: Vec<String>,
    /// Bucket ids that count towards the badge number.
    pub badge_buckets: Vec<String>,
    /// Custom display order for buckets (list of bucket ids).
    pub bucket_order: Vec<String>,
}

/// Default for boolean settings that start enabled.
pub fn default_true() -> (r: bool)
    ensures
        r,
{
    true
}

/// The default badge buckets: the two that ask the user for action.
pub fn default_badge_buckets() -> (r: Vec<String>)
    ensures
        r.deep_view() =~= seq!["needs_your_review"@, "returned_to_you"@],
{
    let mut v: Vec<String> = Vec::new();
    v.push("needs_your_review".to_owned());
    v.push("returned_to_you".to_owned());
    v
}

/// Whether `v` holds a string whose characters are `s`.
pub(crate) fn contains_str(v: &Vec<String>, s: &str) -> (r: bool)
    ensures
        r == v.deep_view().contains(s@),
{
    let mut i: usize = 0;
    while i < v.len()
        invariant
            i <= v@.len(),
            forall|j: int| 0 <= j < i ==> v.deep_view()[j] != s@,
        decreases v@.len() - i,
    {
        if str_eq(v[i].as_str(), s) {
            proof {
                assert(v.deep_view()[i as int] == s@);
            }
            return true;
        }
        i += 1;
    }
    proof {
        assert(forall|j: int| 0 <= j < v.deep_view().len() ==> v.deep_view()[j] != s@);
    }
    false
}

fn contains_bucket(v: &Vec<Bucket>, b: Bucket) -> (r: bool)
    ensures
        r == v@.contains(b),
{
    let mut i: usize = 0;
    while i < v.len()
        invariant
            i <= v@.len(),
            forall|j: int| 0 <= j < i ==> v@[j] != b,
        decreases v@.len() - i,
    {
        if v[i] == b {
            return true;
        }
        i += 1;
    }
    false
}

/// The buckets a custom order names, in its order, dropping unknown ids.
pub open spec fn parse_order(order: Seq<Seq<char>>) -> Seq<Bucket>
    decreases order.len(),
{
    if order.len() == 0 {
        Seq::empty()
    } else {
        let rest = parse_order(order.drop_last());
        match bucket_from_id_spec(order.last()) {
            Some(b) => rest.push(b),
            None => rest,
        }
    }
}

/// Append, in `canon` order, every bucket of `canon` not already in `acc`.
pub open spec fn append_missing(acc: Seq<Bucket>, canon: Seq<Bucket>) -> Seq<Bucket>
    decreases canon.len(),
{
    if canon.len() == 0 {
        acc
    } else {
        append_missing(
            if acc.contains(canon[0]) {
                acc
            } else {
                acc.push(canon[0])
            },
            canon.drop_first(),
        )
    }
}

/// The effective bucket display order for a custom order `order`: canonical
/// when no custom order is set; otherwise the custom order, with any bucket
/// it omits appended afterwards in canonical order.
pub open spec fn ordered_buckets_spec(order: Seq<Seq<char>>) -> Seq<Bucket> {
    if order.len() == 0 {
        canonical_order()
    } else {
        append_missing(parse_order(order), canonical_order())
    }
}

impl AppConfig {
    /// File name of the persisted configuration, relative to the data
    /// directory the embedding application resolves.
    pub fn config_path() -> (r: String)
        ensures
            r@ == "ghtray-config.json"@,
    {
        "ghtray-config.json".to_owned()
    }

    /// A repository is allowed unless its full name is on the deny-list.
    pub fn is_repo_allowed(&self, repo: &str) -> (r: bool)
        ensures
            r == !self.blocked_repos.deep_view().contains(repo@),
    {
        !contains_str(&self.blocked_repos, repo)
    }

    /// The poll interval, clamped to the minimum of 30 seconds.
    pub fn poll_interval_secs_clamped(&self) -> (r: u64)
        ensures
            r == if self.poll_interval_secs >= 30 {
                self.poll_interval_secs
            } else {
                30u64
            },
    {
        if self.poll_interval_secs >= 30 {
            self.poll_interval_secs
        } else {
            30
        }
    }

    /// The merged-PR window, clamped to the minimum of one day.
    pub fn merged_window_days_clamped(&self) -> (r: i64)
        ensures
            r == if self.merged_window_days >= 1 {
                self.merged_window_days
            } else {
                1i64
            },
    {
        if self.merged_window_days >= 1 {
            self.merged_window_days
        } else {
            1
        }
    }

    /// A bucket is visible unless its id is hidden.
    pub fn is_bucket_visible(&self, bucket_id: &str) -> (r: bool)
        ensures
            r == !self.hidden_buckets.deep_view().contains(bucket_id@),
    {
        !contains_str(&self.hidden_buckets, bucket_id)
    }

    /// Whether a bucket counts towards the badge number.
    pub fn counts_for_badge(&self, bucket_id: &str) -> (r: bool)
        ensures
            r == self.badge_buckets.deep_view().contains(bucket_id@),
    {
        contains_str(&self.badge_buckets, bucket_id)
    }

    /// The bucket display order: the custom order if one is set (unknown ids
    /// dropped, omitted buckets appended in canonical order), else the
    /// canonical order.
    pub fn ordered_buckets(&self) -> (r: Vec<Bucket>)
        ensures
            r@ == ordered_buckets_spec(self.bucket_order.deep_view()),
    {
        let ghost deep = self.bucket_order.deep_view();
        if self.bucket_order.len() == 0 {
            return Bucket::display_order();
        }
        let mut ordered: Vec<Bucket> = Vec::new();
        let mut i: usize = 0;
        while i < self.bucket_order.len()
            invariant
                i <= self.bucket_order@.len(),
                deep == self.bucket_order.deep_view(),
                ordered@ == parse_order(deep.take(i as int)),
            decreases self.bucket_order@.len() - i,
        {
            proof {
                assert(deep.take(i + 1).drop_last() =~= deep.take(i as int));
                assert(deep.take(i + 1).last() == deep[i as int]);
                assert(deep[i as int] == self.bucket_order@[i as int]@);
            }
            match Bucket::from_id(self.bucket_order[i].as_str()) {
                Some(b) => ordered.push(b),
                None => {},
            }
            i += 1;
        }
        proof {
            assert(deep.len() == self.bucket_order@.len());
            assert(deep.take(deep.len() as int) =~= deep);
            assert(ordered@ == parse_order(deep));
        }
        let canon = Bucket::display_order();
        proof {
            assert(canon@.skip(0) =~= canon@);
        }
        let ghost target = append_missing(parse_order(deep), canonical_order());
        let mut j: usize = 0;
        while j < canon.len()
            invariant
                j <= canon@.len(),
                canon@ == canonical_order(),
                append_missing(ordered@, canon@.skip(j as int)) == target,
            decreases canon@.len() - j,
        {
            proof {
                assert(canon@.skip(j as int).drop_first() =~= canon@.skip(j + 1));
                assert(canon@.skip(j as int)[0] == canon@[j as int]);
            }
            if !contains_bucket(&ordered, canon[j]) {
                ordered.push(canon[j]);
            }
            j += 1;
        }
        proof {
            assert(canon@.skip(canon@.len() as int) =~= Seq::<Bucket>::empty());
        }
        ordered
    }
}

impl Default for AppConfig {
    /// The configuration a fresh install starts from.
    fn default() -> (r: Self)
        ensures
            r.poll_interval_secs == 120,
            r.merged_window_days == 7,
            r.blocked_repos@.len() == 0,
            r.notifications_enabled,
            r.notification_sound,
            r.hidden_buckets@.len() == 0,
            r.badge_buckets.deep_view() =~= seq!["needs_your_review"@, "returned_to_you"@],
            r.bucket_order@.len() == 0,
    {
        AppConfig {
            poll_interval_secs: 120,
            merged_window_days: 7,
            blocked_repos: Vec::new(),
            notifications_enabled: true,
            notification_sound: true,
            hidden_buckets: Vec::new(),
            badge_buckets: default_badge_buckets(),
            bucket_order: Vec::new(),
        }
    }
}

} // verus!
