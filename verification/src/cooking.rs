//! The decisions of the cooking-simulation job. The job itself runs on a
//! worker thread and sleeps between its two status writes; the caller
//! performs the lookups and transitions through the repository in this
//! order: check out the item and its duration, mark it Preparing, wait the
//! duration out, mark it Completed.
use vstd::prelude::*;
use crate::order::{has_id, item_with_id};
use crate::pool::JobSpec;
use crate::repo::OrderRepo;

verus! {

/// The job's entry check: the item's cooking duration, provided the order
/// and the item still exist and the item was not removed in the meantime.
/// Nothing is touched; on a removed or missing item the job aborts with no
/// side effects.
pub fn job_check(repo: &OrderRepo, job: JobSpec) -> (r: Option<u32>)
    requires
        repo.wf(),
    ensures
        match r {
            Some(minutes) => {
                &&& repo@.contains_key(job.table_id)
                &&& has_id(repo@[job.table_id]@.items, job.meal_item_id)
                &&& !item_with_id(repo@[job.table_id]@.items, job.meal_item_id).removed
                &&& minutes == item_with_id(
                    repo@[job.table_id]@.items,
                    job.meal_item_id,
                ).cooking_time_in_min
            },
            None => !repo@.contains_key(job.table_id) || !has_id(
                repo@[job.table_id]@.items,
                job.meal_item_id,
            ) || item_with_id(repo@[job.table_id]@.items, job.meal_item_id).removed,
        },
{
    match repo.get_order_meal_item(job.table_id, job.meal_item_id) {
        Some(item) => {
            if item.is_removed() {
                None
            } else {
                Some(item.cooking_time_in_min())
            }
        }
        None => None,
    }
}

} // verus!
