//! Response shaping: the read side that turns an order into plain display
//! values — rendered prices, status text, the remaining-cooking-time upper
//! bound, and the item listing with removed items filtered out on request.
use vstd::prelude::*;
use crate::meal::{meal_status_chars, MealItem, MealItemStatus, MealItemView};
use crate::order::{order_status_chars, order_status_of, sum_cooking, views_of, Order};
use crate::price::digits_of;

verus! {

/// A plain error message.
#[derive(Debug)]
pub struct ErrResp {
    pub error_message: String,
}

/// The reply to an order-removal request.
#[derive(Debug)]
pub struct RemoveOrderResp {
    pub table_id: u32,
    pub message: String,
}

/// The reply to an item-removal request: the ids that could not be
/// removed, for the caller to report.
#[derive(Debug)]
pub struct RemoveMealItemsResp {
    pub table_id: u32,
    pub non_removable_meal_item_ids: Vec<u128>,
    pub message: String,
}

/// One meal item as displayed.
#[derive(Debug)]
pub struct MealItemResp {
    pub meal_item_id: u128,
    pub name: String,
    pub price: String,
    pub status: String,
    pub cooking_time_in_min: u32,
    pub is_removed: bool,
}

/// The display values that belong to one meal item.
pub open spec fn presents_item(r: MealItemResp, v: MealItemView) -> bool {
    &&& r.meal_item_id == v.id
    &&& r.name@ == v.menu.name
    &&& r.price@ == digits_of(v.menu.price as int)
    &&& r.status@ == meal_status_chars(v.status)
    &&& r.cooking_time_in_min == v.cooking_time_in_min
    &&& r.is_removed == v.removed
}

impl MealItemResp {
    /// The display form of one meal item.
    pub fn new(item: MealItem) -> (r: Self)
        ensures
            presents_item(r, item@),
    {
        MealItemResp {
            meal_item_id: item.id(),
            name: item.get_name(),
            price: item.price().to_string(),
            status: item.get_status().to_string(),
            cooking_time_in_min: item.cooking_time_in_min(),
            is_removed: item.is_removed(),
        }
    }
}

/// The items an order listing shows: every one, or only those not removed.
pub open spec fn listed_items(s: Seq<MealItemView>, include_removed: bool) -> Seq<MealItemView>
    decreases s.len(),
{
    if s.len() == 0 {
        Seq::empty()
    } else {
        listed_items(s.drop_last(), include_removed) + (if !s.last().removed || include_removed {
            seq![s.last()]
        } else {
            Seq::<MealItemView>::empty()
        })
    }
}

/// What a meal item adds to the remaining-cooking-time upper bound: its
/// duration while it is not removed and not yet completed.
pub open spec fn remaining_contribution(v: MealItemView) -> int {
    if !v.removed && (v.status == MealItemStatus::Received || v.status
        == MealItemStatus::Preparing) {
        v.cooking_time_in_min as int
    } else {
        0
    }
}

/// The remaining-cooking-time upper bound over all items.
pub open spec fn sum_remaining(s: Seq<MealItemView>) -> int
    decreases s.len(),
{
    if s.len() == 0 {
        0
    } else {
        sum_remaining(s.drop_last()) + remaining_contribution(s.last())
    }
}

proof fn lemma_sum_remaining_le_cooking(s: Seq<MealItemView>)
    ensures
        0 <= sum_remaining(s),
        sum_remaining(s) <= sum_cooking(s),
    decreases s.len(),
{
    if s.len() > 0 {
        lemma_sum_remaining_le_cooking(s.drop_last());
    }
}

proof fn lemma_sum_remaining_prefix_le(s: Seq<MealItemView>, i: int)
    requires
        0 <= i <= s.len(),
    ensures
        sum_remaining(s.subrange(0, i)) <= sum_remaining(s),
    decreases s.len() - i,
{
    if i < s.len() {
        lemma_sum_remaining_prefix_le(s, i + 1);
        let q = s.subrange(0, i + 1);
        assert(q.drop_last() =~= s.subrange(0, i));
    } else {
        assert(s.subrange(0, i) =~= s);
    }
}

/// A whole order as displayed.
#[derive(Debug)]
pub struct OrderResp {
    pub remaining_cooking_time_upper_bound_in_min: u32,
    pub total_price: String,
    pub status: String,
    pub meal_items: Vec<MealItemResp>,
}

impl OrderResp {
    /// The display form of a whole order: the rendered total, the derived
    /// status, the remaining-cooking-time upper bound over the non-removed
    /// items still in front of the kitchen, and the item listing.
    pub fn new(order: Order, include_removed_items: bool) -> (r: Self)
        requires
            order.wf(),
        ensures
            r.total_price@ == digits_of(order@.total_price as int),
            r.status@ == order_status_chars(order_status_of(order@.items)),
            r.remaining_cooking_time_upper_bound_in_min == sum_remaining(order@.items),
            r.meal_items@.len() == listed_items(order@.items, include_removed_items).len(),
            forall|i: int|
                0 <= i < r.meal_items@.len() ==> presents_item(
                    #[trigger] r.meal_items@[i],
                    listed_items(order@.items, include_removed_items)[i],
                ),
    {
        let ghost s = order@.items;
        let total_price = order.get_total_price().to_string();
        let status = order.get_order_status().to_string();
        let items = order.get_meal_items();
        let n = items.len();
        let mut remaining: u32 = 0;
        let mut listed: Vec<MealItemResp> = Vec::new();
        let mut i: usize = 0;
        while i < n
            invariant
                i <= n,
                n == items@.len(),
                views_of(items@) == s,
                order.wf(),
                s == order@.items,
                remaining == sum_remaining(s.subrange(0, i as int)),
                listed@.len() == listed_items(s.subrange(0, i as int), include_removed_items).len(),
                forall|k: int|
                    0 <= k < listed@.len() ==> presents_item(
                        #[trigger] listed@[k],
                        listed_items(s.subrange(0, i as int), include_removed_items)[k],
                    ),
            decreases n - i,
        {
            let ghost prefix = s.subrange(0, i as int);
            let ghost prefix1 = s.subrange(0, i + 1 as int);
            proof {
                assert(prefix1.drop_last() =~= prefix);
                assert(prefix1.last() == s[i as int]);
                lemma_sum_remaining_prefix_le(s, i + 1);
                lemma_sum_remaining_le_cooking(s);
            }
            let item = items[i].clone();
            let keep = !item.is_removed() || include_removed_items;
            let pending = match item.get_status() {
                MealItemStatus::Received | MealItemStatus::Preparing => !item.is_removed(),
                MealItemStatus::Completed => false,
            };
            if pending {
                remaining = remaining + item.cooking_time_in_min();
            }
            if keep {
                listed.push(MealItemResp::new(item));
            }
            proof {
                if !(!s[i as int].removed || include_removed_items) {
                    assert(listed_items(prefix1, include_removed_items) =~= listed_items(
                        prefix,
                        include_removed_items,
                    ));
                }
            }
            i = i + 1;
        }
        proof {
            assert(s.subrange(0, n as int) =~= s);
        }
        OrderResp {
            remaining_cooking_time_upper_bound_in_min: remaining,
            total_price,
            status,
            meal_items: listed,
        }
    }
}

} // verus!
