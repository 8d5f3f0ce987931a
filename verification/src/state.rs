//! The persisted snapshot: every classified item of the previous poll plus
//! the time it was fetched. The embedding application reads it at cycle
//! start and overwrites it wholesale at cycle end.

use vstd::prelude::*;
use crate::github::unique_ids;
use crate::models::CategorizedPr;
use crate::models::Timestamp;

verus! {

/// The snapshot the diff engine compares against: the previous poll's items
/// (at most one per id) and when they were fetched. `None` means no poll has
/// completed yet.
#[derive(Debug, Clone)]
pub struct AppState {
    pub last_fetch: Option<Timestamp>,
    pub prs: Vec<CategorizedPr>,
}

impl AppState {
    /// The snapshot invariant: ids are unique.
    pub open spec fn wf(&self) -> bool {
        unique_ids(self.prs.deep_view())
    }

    /// The snapshot a cycle ends with: the current filtered items and the
    /// fetch time.
    pub fn after_cycle(prs: Vec<CategorizedPr>, fetched_at: Timestamp) -> (r: AppState)
        ensures
            r.last_fetch == Some(fetched_at),
            r.prs.deep_view() == prs.deep_view(),
    {
        AppState { last_fetch: Some(fetched_at), prs }
    }
}

impl Default for AppState {
    /// The state before any poll: no fetch time, no items.
    fn default() -> (r: Self)
        ensures
            r.last_fetch is None,
            r.prs@.len() == 0,
            r.wf(),
    {
        let r = AppState { last_fetch: None, prs: Vec::new() };
        proof {
            assert(r.prs.deep_view() =~= Seq::<crate::models::CategorizedPrV>::empty());
        }
        r
    }
}

/// File name of the persisted snapshot, relative to the data directory the
/// embedding application resolves.
pub fn state_file_path() -> (r: String)
    ensures
        r@ == "ghtray-state.json"@,
{
    "ghtray-state.json".to_owned()
}

} // verus!
