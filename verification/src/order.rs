//! Orders: an aggregate owning meal items keyed by identity, with totals
//! kept incrementally and proved equal to a full recomputation over the
//! non-removed items after every mutation, and a status derived on read.
use vstd::prelude::*;
use crate::meal::{MealItem, MealItemStatus, MealItemView, MAX_COOKING_MINUTES, MIN_COOKING_MINUTES};
use crate::menu::{MenuItem, MenuItemView};
use crate::price::Price;
use crate::sources::{fresh_id, now_millis};

verus! {

/// The derived status of a whole order.
#[derive(Clone, Copy, Debug, PartialEq, Eq, Structural)]
pub enum OrderStatus {
    Received,
    Preparing,
    Completed,
    Canceled,
}

/// The display text of an order status.
pub open spec fn order_status_chars(st: OrderStatus) -> Seq<char> {
    match st {
        OrderStatus::Received => "Received"@,
        OrderStatus::Preparing => "Preparing"@,
        OrderStatus::Completed => "Completed"@,
        OrderStatus::Canceled => "Canceled"@,
    }
}

impl OrderStatus {
    /// The status as display text.
    pub fn to_string(&self) -> (r: String)
        ensures
            r@ == order_status_chars(*self),
    {
        match self {
            OrderStatus::Received => "Received".to_owned(),
            OrderStatus::Preparing => "Preparing".to_owned(),
            OrderStatus::Completed => "Completed".to_owned(),
            OrderStatus::Canceled => "Canceled".to_owned(),
        }
    }
}

/// The views of a sequence of meal items.
pub open spec fn views_of(s: Seq<MealItem>) -> Seq<MealItemView> {
    Seq::new(s.len(), |i: int| s[i]@)
}

/// What a meal item adds to the order's total price: nothing once removed.
pub open spec fn price_contribution(v: MealItemView) -> int {
    if v.removed {
        0
    } else {
        v.menu.price as int
    }
}

/// What a meal item adds to the order's total cooking time: nothing once
/// removed.
pub open spec fn cooking_contribution(v: MealItemView) -> int {
    if v.removed {
        0
    } else {
        v.cooking_time_in_min as int
    }
}

/// The total price recomputed from scratch over the non-removed items.
pub open spec fn sum_price(s: Seq<MealItemView>) -> int
    decreases s.len(),
{
    if s.len() == 0 {
        0
    } else {
        sum_price(s.drop_last()) + price_contribution(s.last())
    }
}

/// The total cooking time recomputed from scratch over the non-removed
/// items.
pub open spec fn sum_cooking(s: Seq<MealItemView>) -> int
    decreases s.len(),
{
    if s.len() == 0 {
        0
    } else {
        sum_cooking(s.drop_last()) + cooking_contribution(s.last())
    }
}

pub open spec fn ids_unique(s: Seq<MealItemView>) -> bool {
    forall|i: int, j: int| 0 <= i < j < s.len() ==> s[i].id != s[j].id
}

pub open spec fn has_id(s: Seq<MealItemView>, id: u128) -> bool {
    exists|i: int| 0 <= i < s.len() && s[i].id == id
}

pub open spec fn index_of_id(s: Seq<MealItemView>, id: u128) -> int {
    choose|i: int| 0 <= i < s.len() && s[i].id == id
}

pub open spec fn item_with_id(s: Seq<MealItemView>, id: u128) -> MealItemView {
    s[index_of_id(s, id)]
}

pub open spec fn all_removed(s: Seq<MealItemView>) -> bool {
    forall|i: int| 0 <= i < s.len() ==> s[i].removed
}

/// Some item is not removed and carries the given status.
pub open spec fn has_live_status(s: Seq<MealItemView>, st: MealItemStatus) -> bool {
    exists|i: int| 0 <= i < s.len() && !s[i].removed && s[i].status == st
}

/// The derived order status: Canceled when every item is removed, else
/// Preparing when any non-removed item is Preparing, else Received when any
/// non-removed item is Received, else Completed.
pub open spec fn order_status_of(s: Seq<MealItemView>) -> OrderStatus {
    if all_removed(s) {
        OrderStatus::Canceled
    } else if has_live_status(s, MealItemStatus::Preparing) {
        OrderStatus::Preparing
    } else if has_live_status(s, MealItemStatus::Received) {
        OrderStatus::Received
    } else {
        OrderStatus::Completed
    }
}

/// Inserting one item by identity: an existing entry under the same id is
/// replaced, otherwise the item is appended.
pub open spec fn upsert_one(s: Seq<MealItemView>, v: MealItemView) -> Seq<MealItemView> {
    if has_id(s, v.id) {
        s.update(index_of_id(s, v.id), v)
    } else {
        s.push(v)
    }
}

/// Inserting the given items in order.
pub open spec fn upsert_all(s: Seq<MealItemView>, vs: Seq<MealItemView>) -> Seq<MealItemView>
    decreases vs.len(),
{
    if vs.len() == 0 {
        s
    } else {
        upsert_one(upsert_all(s, vs.drop_last()), vs.last())
    }
}

/// A removal request for this id is reported as non-removable: no such
/// item, or the item is not removed and has started cooking or is done.
pub open spec fn reportable(s: Seq<MealItemView>, id: u128) -> bool {
    if !has_id(s, id) {
        true
    } else {
        !item_with_id(s, id).removed && item_with_id(s, id).status != MealItemStatus::Received
    }
}

/// The ids a removal call reports back as non-removable, one per requested
/// occurrence.
pub open spec fn report_of(s: Seq<MealItemView>, ids: Seq<u128>) -> Seq<u128>
    decreases ids.len(),
{
    if ids.len() == 0 {
        Seq::empty()
    } else {
        report_of(s, ids.drop_last()) + (if reportable(s, ids.last()) {
            seq![ids.last()]
        } else {
            Seq::<u128>::empty()
        })
    }
}

/// How a removal call changes the items, position by position: an item that
/// was requested, not yet removed and still Received comes out removed with
/// a fresh update time; every other item is untouched.
pub open spec fn removes_pointwise(
    pre: Seq<MealItemView>,
    ids: Seq<u128>,
    post: Seq<MealItemView>,
) -> bool {
    &&& post.len() == pre.len()
    &&& forall|i: int|
        0 <= i < pre.len() ==> (if ids.contains(pre[i].id) && !pre[i].removed && pre[i].status
            == MealItemStatus::Received {
            post[i] == (MealItemView {
                removed: true,
                updated_at: post[i].updated_at,
                ..pre[i]
            })
        } else {
            post[i] == pre[i]
        })
}

/// The sum of the prices on a sequence of menu items.
pub open spec fn sum_menu_prices(s: Seq<MenuItemView>) -> int
    decreases s.len(),
{
    if s.len() == 0 {
        0
    } else {
        sum_menu_prices(s.drop_last()) + s.last().price as int
    }
}

proof fn lemma_sums_nonneg(s: Seq<MealItemView>)
    ensures
        sum_price(s) >= 0,
        sum_cooking(s) >= 0,
    decreases s.len(),
{
    if s.len() > 0 {
        lemma_sums_nonneg(s.drop_last());
    }
}

proof fn lemma_sum_push(s: Seq<MealItemView>, v: MealItemView)
    ensures
        sum_price(s.push(v)) == sum_price(s) + price_contribution(v),
        sum_cooking(s.push(v)) == sum_cooking(s) + cooking_contribution(v),
{
    assert(s.push(v).drop_last() =~= s);
}

proof fn lemma_sum_update(s: Seq<MealItemView>, i: int, v: MealItemView)
    requires
        0 <= i < s.len(),
    ensures
        sum_price(s.update(i, v)) == sum_price(s) - price_contribution(s[i])
            + price_contribution(v),
        sum_cooking(s.update(i, v)) == sum_cooking(s) - cooking_contribution(s[i])
            + cooking_contribution(v),
    decreases s.len(),
{
    let u = s.update(i, v);
    if i == s.len() - 1 {
        assert(u.drop_last() =~= s.drop_last());
        assert(u.last() == v);
    } else {
        assert(u.drop_last() =~= s.drop_last().update(i, v));
        assert(u.last() == s.last());
        lemma_sum_update(s.drop_last(), i, v);
        assert(s.drop_last()[i] == s[i]);
    }
}

proof fn lemma_contribution_le(s: Seq<MealItemView>, i: int)
    requires
        0 <= i < s.len(),
    ensures
        price_contribution(s[i]) <= sum_price(s),
        cooking_contribution(s[i]) <= sum_cooking(s),
    decreases s.len(),
{
    lemma_sums_nonneg(s.drop_last());
    if i == s.len() - 1 {
    } else {
        lemma_contribution_le(s.drop_last(), i);
        assert(s.drop_last()[i] == s[i]);
    }
}

proof fn lemma_sum_prefix_le(s: Seq<MealItemView>, i: int)
    requires
        0 <= i <= s.len(),
    ensures
        sum_price(s.subrange(0, i)) <= sum_price(s),
        sum_cooking(s.subrange(0, i)) <= sum_cooking(s),
    decreases s.len() - i,
{
    if i < s.len() {
        lemma_sum_prefix_le(s, i + 1);
        let q = s.subrange(0, i + 1);
        assert(q.drop_last() =~= s.subrange(0, i));
    } else {
        assert(s.subrange(0, i) =~= s);
    }
}

proof fn lemma_sum_drop_first(s: Seq<MealItemView>)
    requires
        s.len() > 0,
    ensures
        sum_price(s) == price_contribution(s[0]) + sum_price(s.drop_first()),
        sum_cooking(s) == cooking_contribution(s[0]) + sum_cooking(s.drop_first()),
    decreases s.len(),
{
    if s.len() == 1 {
        assert(s.drop_last() =~= Seq::<MealItemView>::empty());
        assert(s.drop_first() =~= Seq::<MealItemView>::empty());
        assert(s.last() == s[0]);
    } else {
        lemma_sum_drop_first(s.drop_last());
        assert(s.drop_last().drop_first() =~= s.drop_first().drop_last());
        assert(s.drop_last()[0] == s[0]);
        assert(s.drop_first().last() == s.last());
    }
}

proof fn lemma_sum_all_removed(s: Seq<MealItemView>)
    requires
        all_removed(s),
    ensures
        sum_price(s) == 0,
        sum_cooking(s) == 0,
    decreases s.len(),
{
    if s.len() > 0 {
        assert(all_removed(s.drop_last()));
        lemma_sum_all_removed(s.drop_last());
    }
}

/// The mathematical content of an order.
pub struct OrderView {
    pub id: u128,
    pub table_id: u32,
    pub items: Seq<MealItemView>,
    pub total_price: u64,
    pub total_cooking_time_in_min: u32,
    pub created_at: i64,
    pub updated_at: i64,
}

/// An order for one table: its meal items keyed by identity and the
/// incrementally maintained aggregate totals.
#[derive(Clone, Debug)]
pub struct Order {
    order_id: u128,
    table_id: u32,
    meal_items: Vec<MealItem>,
    total_cooking_time_in_min: u32,
    total_price: Price,
    creation_time: i64,
    update_time: i64,
}

impl View for Order {
    type V = OrderView;

    closed spec fn view(&self) -> OrderView {
        OrderView {
            id: self.order_id,
            table_id: self.table_id,
            items: views_of(self.meal_items@),
            total_price: self.total_price@,
            total_cooking_time_in_min: self.total_cooking_time_in_min,
            created_at: self.creation_time,
            updated_at: self.update_time,
        }
    }
}

impl Order {
    /// The order's standing invariant: item ids are unique, and both totals
    /// equal a recomputation from scratch over the non-removed items.
    pub open spec fn wf(self) -> bool {
        &&& ids_unique(self@.items)
        &&& self@.total_price == sum_price(self@.items)
        &&& self@.total_cooking_time_in_min == sum_cooking(self@.items)
    }

    /// A new order for the table, holding one freshly created meal item per
    /// given menu item.
    pub fn new(table_id: u32, menu_items: Vec<MenuItem>) -> (r: Order)
        requires
            sum_menu_prices(Seq::new(menu_items@.len(), |i: int| menu_items@[i]@)) <= u64::MAX,
            MAX_COOKING_MINUTES * menu_items@.len() <= u32::MAX,
        ensures
            r.wf(),
            r@.table_id == table_id,
            r@.total_price == sum_price(r@.items),
            exists|made: Seq<MealItemView>|
                {
                    &&& made.len() == menu_items@.len()
                    &&& (forall|i: int|
                        0 <= i < made.len() ==> {
                            &&& (#[trigger] made[i]).menu == menu_items@[i]@
                            &&& made[i].status == MealItemStatus::Received
                            &&& !made[i].removed
                            &&& MIN_COOKING_MINUTES <= made[i].cooking_time_in_min
                                <= MAX_COOKING_MINUTES
                        })
                    &&& r@.items == upsert_all(Seq::empty(), made)
                },
    {
        let now = now_millis();
        let mut order = Order {
            order_id: fresh_id(),
            table_id,
            meal_items: Vec::new(),
            total_cooking_time_in_min: 0,
            total_price: Price::default(),
            creation_time: now,
            update_time: now,
        };
        proof {
            assert(order@.items =~= Seq::<MealItemView>::empty());
        }
        order.add_meal_items_by_menu_items(menu_items);
        order
    }

    /// Create one meal item per menu item and fold each into the order.
    fn add_meal_items_by_menu_items(&mut self, menu_items: Vec<MenuItem>) -> (r: bool)
        requires
            old(self).wf(),
            old(self)@.total_price + sum_menu_prices(
                Seq::new(menu_items@.len(), |i: int| menu_items@[i]@),
            ) <= u64::MAX,
            old(self)@.total_cooking_time_in_min + MAX_COOKING_MINUTES * menu_items@.len()
                <= u32::MAX,
        ensures
            final(self).wf(),
            final(self)@.id == old(self)@.id,
            final(self)@.table_id == old(self)@.table_id,
            final(self)@.created_at == old(self)@.created_at,
            exists|made: Seq<MealItemView>|
                {
                    &&& made.len() == menu_items@.len()
                    &&& (forall|i: int|
                        0 <= i < made.len() ==> {
                            &&& (#[trigger] made[i]).menu == menu_items@[i]@
                            &&& made[i].status == MealItemStatus::Received
                            &&& !made[i].removed
                            &&& MIN_COOKING_MINUTES <= made[i].cooking_time_in_min
                                <= MAX_COOKING_MINUTES
                        })
                    &&& final(self)@.items == upsert_all(old(self)@.items, made)
                },
            r == true,
    {
        let ghost given = Seq::new(menu_items@.len(), |i: int| menu_items@[i]@);
        let ghost pre = self@.items;
        let ghost mut made: Seq<MealItemView> = Seq::empty();
        let mut rest = menu_items;
        let ghost total = given.len() as int;
        proof {
            assert(given.subrange(0, total) =~= given);
        }
        while rest.len() > 0
            invariant
                self.wf(),
                rest@.len() <= total,
                made.len() == total - rest@.len(),
                forall|i: int|
                    0 <= i < made.len() ==> {
                        &&& (#[trigger] made[i]).menu == given[i]
                        &&& made[i].status == MealItemStatus::Received
                        &&& !made[i].removed
                        &&& MIN_COOKING_MINUTES <= made[i].cooking_time_in_min
                            <= MAX_COOKING_MINUTES
                    },
                forall|i: int|
                    0 <= i < rest@.len() ==> #[trigger] rest@[i]@ == given[made.len() + i],
                self@.items == upsert_all(pre, made),
                self@.total_price + sum_menu_prices(given.subrange(made.len() as int, total))
                    <= u64::MAX,
                self@.total_cooking_time_in_min + MAX_COOKING_MINUTES * rest@.len() <= u32::MAX,
                self@.id == old(self)@.id,
                self@.table_id == old(self)@.table_id,
                self@.created_at == old(self)@.created_at,
                total == given.len(),
                pre == old(self)@.items,
            decreases rest@.len(),
        {
            let ghost k = made.len() as int;
            let menu_item = rest.remove(0);
            let item = MealItem::create(menu_item);
            proof {
                lemma_menu_suffix_sum(given, k);
            }
            self.upsert_item(item);
            proof {
                let prev = made;
                made = made.push(item@);
                assert(made.drop_last() =~= prev);
                assert(made.last() == item@);
                assert(upsert_all(pre, made) == upsert_one(upsert_all(pre, prev), item@));
            }
        }
        proof {
            assert(given.subrange(made.len() as int, total) =~= Seq::<MenuItemView>::empty());
        }
        true
    }

    /// Fold one item into the order by identity, keeping the totals equal
    /// to a recomputation: a replaced entry's contribution leaves the
    /// totals, the new item's contribution enters them.
    fn upsert_item(&mut self, item: MealItem)
        requires
            old(self).wf(),
            old(self)@.total_price + price_contribution(item@) <= u64::MAX,
            old(self)@.total_cooking_time_in_min + cooking_contribution(item@) <= u32::MAX,
        ensures
            final(self).wf(),
            final(self)@.items == upsert_one(old(self)@.items, item@),
            final(self)@.total_price <= old(self)@.total_price + price_contribution(item@),
            final(self)@.total_cooking_time_in_min <= old(self)@.total_cooking_time_in_min
                + cooking_contribution(item@),
            final(self)@.id == old(self)@.id,
            final(self)@.table_id == old(self)@.table_id,
            final(self)@.created_at == old(self)@.created_at,
            final(self)@.updated_at == old(self)@.updated_at,
    {
        let ghost pre = self@.items;
        match self.find_index(item.id()) {
            Some(i) => {
                proof {
                    lemma_contribution_le(pre, i as int);
                    assert(index_of_id(pre, item@.id) == i) by {
                        lemma_index_of_id_unique(pre, item@.id, i as int);
                    }
                }
                if !self.meal_items[i].is_removed() {
                    let p = self.meal_items[i].price();
                    let m = self.meal_items[i].cooking_time_in_min();
                    self.total_price.deduct(p);
                    self.total_cooking_time_in_min = self.total_cooking_time_in_min - m;
                }
                if !item.is_removed() {
                    let p = item.price();
                    let m = item.cooking_time_in_min();
                    self.total_price.add(p);
                    self.total_cooking_time_in_min = self.total_cooking_time_in_min + m;
                }
                self.meal_items[i] = item;
                proof {
                    assert(self@.items =~= pre.update(i as int, item@));
                    lemma_sum_update(pre, i as int, item@);
                    lemma_ids_unique_update(pre, i as int, item@);
                }
            }
            None => {
                if !item.is_removed() {
                    let p = item.price();
                    let m = item.cooking_time_in_min();
                    self.total_price.add(p);
                    self.total_cooking_time_in_min = self.total_cooking_time_in_min + m;
                }
                let ghost v = item@;
                self.meal_items.push(item);
                proof {
                    assert(self@.items =~= pre.push(v));
                    lemma_sum_push(pre, v);
                }
            }
        }
    }

    /// Find the position of the item with the given id.
    fn find_index(&self, id: u128) -> (r: Option<usize>)
        ensures
            match r {
                Some(i) => i < self@.items.len() && self@.items[i as int].id == id,
                None => !has_id(self@.items, id),
            },
    {
        let n = self.meal_items.len();
        let mut i: usize = 0;
        while i < n
            invariant
                i <= n,
                n == self@.items.len(),
                forall|k: int| 0 <= k < i ==> self@.items[k].id != id,
            decreases n - i,
        {
            if self.meal_items[i].id() == id {
                return Some(i);
            }
            i = i + 1;
        }
        None
    }

    /// Add the given meal items to the order, by identity, adding each
    /// item's price and cooking time to the totals (and releasing a
    /// replaced entry's share). Always succeeds.
    pub fn add_meal_items(&mut self, meal_items: Vec<MealItem>) -> (r: bool)
        requires
            old(self).wf(),
            old(self)@.total_price + sum_price(views_of(meal_items@)) <= u64::MAX,
            old(self)@.total_cooking_time_in_min + sum_cooking(views_of(meal_items@)) <= u32::MAX,
        ensures
            final(self).wf(),
            final(self)@.items == upsert_all(old(self)@.items, views_of(meal_items@)),
            final(self)@.id == old(self)@.id,
            final(self)@.table_id == old(self)@.table_id,
            final(self)@.created_at == old(self)@.created_at,
            r == true,
    {
        let ghost given = views_of(meal_items@);
        let ghost pre = self@.items;
        let ghost total = given.len() as int;
        let ghost mut done: Seq<MealItemView> = Seq::empty();
        let mut rest = meal_items;
        proof {
            assert(given.subrange(0, total) =~= given);
        }
        while rest.len() > 0
            invariant
                self.wf(),
                rest@.len() <= total,
                done.len() == total - rest@.len(),
                done =~= given.subrange(0, done.len() as int),
                forall|i: int|
                    0 <= i < rest@.len() ==> #[trigger] rest@[i]@ == given[done.len() + i],
                self@.items == upsert_all(pre, done),
                self@.total_price + sum_price(given.subrange(done.len() as int, total))
                    <= u64::MAX,
                self@.total_cooking_time_in_min + sum_cooking(
                    given.subrange(done.len() as int, total),
                ) <= u32::MAX,
                self@.id == old(self)@.id,
                self@.table_id == old(self)@.table_id,
                self@.created_at == old(self)@.created_at,
                total == given.len(),
                pre == old(self)@.items,
            decreases rest@.len(),
        {
            let ghost k = done.len() as int;
            let ghost remaining = given.subrange(k, total);
            let item = rest.remove(0);
            proof {
                lemma_sum_drop_first(remaining);
                assert(remaining[0] == item@);
                assert(remaining.drop_first() =~= given.subrange(k + 1, total));
                lemma_sums_nonneg(given.subrange(k + 1, total));
            }
            self.upsert_item(item);
            proof {
                let prev = done;
                done = done.push(item@);
                assert(done =~= given.subrange(0, k + 1));
                assert(done.drop_last() =~= prev);
                assert(done.last() == item@);
                assert(upsert_all(pre, done) == upsert_one(upsert_all(pre, prev), item@));
            }
        }
        proof {
            assert(given.subrange(0, total) =~= given);
        }
        true
    }

    /// Remove the requested items. An absent item, and one already cooking
    /// or done, is reported back as non-removable; one already removed is
    /// skipped silently; each remaining one leaves the totals exactly once
    /// and is marked removed.
    pub fn remove_meal_items(&mut self, meal_item_ids: Vec<u128>) -> (r: Vec<u128>)
        requires
            old(self).wf(),
        ensures
            final(self).wf(),
            removes_pointwise(old(self)@.items, meal_item_ids@, final(self)@.items),
            r@ == report_of(old(self)@.items, meal_item_ids@),
            final(self)@.id == old(self)@.id,
            final(self)@.table_id == old(self)@.table_id,
            final(self)@.created_at == old(self)@.created_at,
    {
        let ghost pre = self@.items;
        let mut non_removable: Vec<u128> = Vec::new();
        let n = meal_item_ids.len();
        let mut j: usize = 0;
        while j < n
            invariant
                j <= n,
                n == meal_item_ids@.len(),
                self.wf(),
                removes_pointwise(pre, meal_item_ids@.subrange(0, j as int), self@.items),
                non_removable@ == report_of(pre, meal_item_ids@.subrange(0, j as int)),
                self@.id == old(self)@.id,
                self@.table_id == old(self)@.table_id,
                self@.created_at == old(self)@.created_at,
                pre == old(self)@.items,
                ids_unique(pre),
            decreases n - j,
        {
            let id = meal_item_ids[j];
            let ghost done_ids = meal_item_ids@.subrange(0, j as int);
            let ghost cur = self@.items;
            proof {
                assert(meal_item_ids@.subrange(0, j + 1 as int) =~= done_ids.push(id));
                assert(report_of(pre, done_ids.push(id)) == report_of(pre, done_ids) + (
                if reportable(pre, id) {
                    seq![id]
                } else {
                    Seq::<u128>::empty()
                })) by {
                    assert(done_ids.push(id).drop_last() =~= done_ids);
                }
            }
            match self.find_index(id) {
                None => {
                    proof {
                        assert(!has_id(pre, id)) by {
                            lemma_pointwise_preserves_ids(pre, done_ids, cur);
                        }
                        assert(reportable(pre, id));
                    }
                    non_removable.push(id);
                    proof {
                        lemma_pointwise_extend_untouched(pre, done_ids, id, self@.items);
                    }
                }
                Some(i) => {
                    proof {
                        lemma_pointwise_preserves_ids(pre, done_ids, cur);
                        assert(pre[i as int].id == id);
                        lemma_index_of_id_unique(pre, id, i as int);
                    }
                    if self.meal_items[i].is_removed() {
                        proof {
                            assert(!reportable(pre, id)) by {
                                assert(cur[i as int].removed);
                                if !pre[i as int].removed {
                                    assert(done_ids.contains(pre[i as int].id));
                                    assert(pre[i as int].status == MealItemStatus::Received);
                                }
                            }
                            lemma_pointwise_extend_untouched(pre, done_ids, id, self@.items);
                        }
                    } else {
                        let st = self.meal_items[i].get_status();
                        proof {
                            assert(cur[i as int] == pre[i as int]);
                        }
                        match st {
                            MealItemStatus::Preparing | MealItemStatus::Completed => {
                                proof {
                                    assert(reportable(pre, id));
                                }
                                non_removable.push(id);
                                proof {
                                    lemma_pointwise_extend_untouched(pre, done_ids, id, self@.items);
                                }
                            }
                            MealItemStatus::Received => {
                                proof {
                                    lemma_contribution_le(cur, i as int);
                                }
                                let p = self.meal_items[i].price();
                                let m = self.meal_items[i].cooking_time_in_min();
                                self.total_price.deduct(p);
                                self.total_cooking_time_in_min = self.total_cooking_time_in_min
                                    - m;
                                let target = &mut self.meal_items[i];
                                target.remove();
                                proof {
                                    assert(self@.items =~= cur.update(
                                        i as int,
                                        (MealItemView {
                                            removed: true,
                                            updated_at: self@.items[i as int].updated_at,
                                            ..cur[i as int]
                                        }),
                                    ));
                                    lemma_sum_update(cur, i as int, self@.items[i as int]);
                                    lemma_ids_unique_update(cur, i as int, self@.items[i as int]);
                                    assert(!reportable(pre, id));
                                    lemma_pointwise_extend_removed(
                                        pre,
                                        done_ids,
                                        id,
                                        i as int,
                                        self@.items[i as int].updated_at,
                                        cur,
                                        self@.items,
                                    );
                                }
                            }
                        }
                    }
                }
            }
            j = j + 1;
        }
        proof {
            assert(meal_item_ids@.subrange(0, n as int) =~= meal_item_ids@);
        }
        self.update_time = now_millis();
        non_removable
    }

    /// Copies of all meal items, in storage order.
    pub fn get_meal_items(&self) -> (r: Vec<MealItem>)
        ensures
            views_of(r@) == self@.items,
    {
        let n = self.meal_items.len();
        let mut out: Vec<MealItem> = Vec::new();
        let mut i: usize = 0;
        while i < n
            invariant
                i <= n,
                n == self.meal_items@.len(),
                out@.len() == i,
                forall|k: int| 0 <= k < i ==> #[trigger] out@[k]@ == self@.items[k],
            decreases n - i,
        {
            let item = self.meal_items[i].clone();
            out.push(item);
            i = i + 1;
        }
        proof {
            assert(views_of(out@) =~= self@.items);
        }
        out
    }

    /// A copy of the meal item with the given id, if any.
    pub fn get_meal_item(&self, meal_item_id: u128) -> (r: Option<MealItem>)
        requires
            self.wf(),
        ensures
            match r {
                Some(item) => has_id(self@.items, meal_item_id) && item@ == item_with_id(
                    self@.items,
                    meal_item_id,
                ),
                None => !has_id(self@.items, meal_item_id),
            },
    {
        match self.find_index(meal_item_id) {
            Some(i) => {
                proof {
                    lemma_index_of_id_unique(self@.items, meal_item_id, i as int);
                }
                Some(self.meal_items[i].clone())
            }
            None => None,
        }
    }

    /// Set the status of the item with the given id, if present; the totals
    /// and every other item stay as they are.
    pub fn update_meal_item_status(&mut self, meal_item_id: u128, status: MealItemStatus) -> (r:
        bool)
        requires
            old(self).wf(),
        ensures
            final(self).wf(),
            r == has_id(old(self)@.items, meal_item_id),
            has_id(old(self)@.items, meal_item_id) ==> final(self)@.items == old(
                self,
            )@.items.update(
                index_of_id(old(self)@.items, meal_item_id),
                (MealItemView {
                    status: status,
                    updated_at: final(self)@.items[index_of_id(old(self)@.items, meal_item_id)].updated_at,
                    ..item_with_id(old(self)@.items, meal_item_id)
                }),
            ),
            !has_id(old(self)@.items, meal_item_id) ==> final(self)@ == old(self)@,
            final(self)@.total_price == old(self)@.total_price,
            final(self)@.total_cooking_time_in_min == old(self)@.total_cooking_time_in_min,
            final(self)@.id == old(self)@.id,
            final(self)@.table_id == old(self)@.table_id,
            final(self)@.created_at == old(self)@.created_at,
            final(self)@.updated_at == old(self)@.updated_at,
    {
        let ghost pre = self@.items;
        match self.find_index(meal_item_id) {
            Some(i) => {
                proof {
                    lemma_index_of_id_unique(pre, meal_item_id, i as int);
                }
                let target = &mut self.meal_items[i];
                target.update_state(status);
                proof {
                    assert(self@.items =~= pre.update(i as int, self@.items[i as int]));
                    lemma_sum_update(pre, i as int, self@.items[i as int]);
                    lemma_ids_unique_update(pre, i as int, self@.items[i as int]);
                }
                true
            }
            None => {
                proof {
                    assert(self@ =~~= old(self)@);
                }
                false
            }
        }
    }

    /// Mark every item removed and release its share of the totals. Meant
    /// for an order none of whose items has started cooking.
    pub fn remove_all_meal_items(&mut self)
        requires
            old(self).wf(),
        ensures
            final(self).wf(),
            final(self)@.items.len() == old(self)@.items.len(),
            forall|i: int|
                0 <= i < old(self)@.items.len() ==> #[trigger] final(self)@.items[i] == (
                if old(self)@.items[i].removed {
                    old(self)@.items[i]
                } else {
                    (MealItemView {
                        removed: true,
                        updated_at: final(self)@.items[i].updated_at,
                        ..old(self)@.items[i]
                    })
                }),
            all_removed(final(self)@.items),
            final(self)@.total_price == 0,
            final(self)@.total_cooking_time_in_min == 0,
            final(self)@.id == old(self)@.id,
            final(self)@.table_id == old(self)@.table_id,
            final(self)@.created_at == old(self)@.created_at,
    {
        let ghost pre = self@.items;
        let n = self.meal_items.len();
        let mut i: usize = 0;
        while i < n
            invariant
                i <= n,
                n == self@.items.len(),
                self.wf(),
                self@.items.len() == pre.len(),
                forall|k: int|
                    0 <= k < i ==> #[trigger] self@.items[k].removed,
                forall|k: int|
                    0 <= k < pre.len() ==> #[trigger] self@.items[k] == (
                    if k >= i || pre[k].removed {
                        pre[k]
                    } else {
                        (MealItemView {
                            removed: true,
                            updated_at: self@.items[k].updated_at,
                            ..pre[k]
                        })
                    }),
                self@.id == old(self)@.id,
                self@.table_id == old(self)@.table_id,
                self@.created_at == old(self)@.created_at,
                pre == old(self)@.items,
            decreases n - i,
        {
            let ghost cur = self@.items;
            if !self.meal_items[i].is_removed() {
                proof {
                    lemma_contribution_le(cur, i as int);
                }
                let p = self.meal_items[i].price();
                let m = self.meal_items[i].cooking_time_in_min();
                self.total_price.deduct(p);
                self.total_cooking_time_in_min = self.total_cooking_time_in_min - m;
                let target = &mut self.meal_items[i];
                target.remove();
                proof {
                    assert(self@.items =~= cur.update(i as int, self@.items[i as int]));
                    lemma_sum_update(cur, i as int, self@.items[i as int]);
                    lemma_ids_unique_update(cur, i as int, self@.items[i as int]);
                }
            }
            i = i + 1;
        }
        proof {
            lemma_sum_all_removed(self@.items);
        }
        self.update_time = now_millis();
    }

    pub fn get_table_id(&self) -> (r: u32)
        ensures
            r == self@.table_id,
    {
        self.table_id
    }

    pub fn get_total_price(&self) -> (r: Price)
        ensures
            r@ == self@.total_price,
    {
        self.total_price
    }

    /// Whether the given items can be added to this order within the
    /// machine's number ranges; callers of `add_meal_items` test this
    /// first.
    pub fn meal_items_fit(&self, meal_items: &Vec<MealItem>) -> (r: bool)
        requires
            self.wf(),
        ensures
            r == (self@.total_price + sum_price(views_of(meal_items@)) <= u64::MAX
                && self@.total_cooking_time_in_min + sum_cooking(views_of(meal_items@))
                <= u32::MAX),
    {
        let ghost vs = views_of(meal_items@);
        let mut acc_p: u64 = self.total_price.cents();
        let mut acc_c: u32 = self.total_cooking_time_in_min;
        let n = meal_items.len();
        let mut i: usize = 0;
        while i < n
            invariant
                i <= n,
                n == meal_items@.len(),
                vs == views_of(meal_items@),
                self.wf(),
                acc_p == self@.total_price + sum_price(vs.subrange(0, i as int)),
                acc_c == self@.total_cooking_time_in_min + sum_cooking(vs.subrange(0, i as int)),
            decreases n - i,
        {
            proof {
                assert(vs.subrange(0, i + 1 as int).drop_last() =~= vs.subrange(0, i as int));
                lemma_sum_prefix_le(vs, i + 1);
            }
            let item = &meal_items[i];
            let p: u64;
            let c: u32;
            if item.is_removed() {
                p = 0;
                c = 0;
            } else {
                p = item.price().cents();
                c = item.cooking_time_in_min();
            }
            acc_p = match acc_p.checked_add(p) {
                Some(v) => v,
                None => {
                    return false;
                }
            };
            acc_c = match acc_c.checked_add(c) {
                Some(v) => v,
                None => {
                    return false;
                }
            };
            i = i + 1;
        }
        proof {
            assert(vs.subrange(0, n as int) =~= vs);
        }
        true
    }

    /// Whether the order still has work in front of it: derived status
    /// Received or Preparing.
    pub fn is_active(&self) -> (r: bool)
        ensures
            r == (order_status_of(self@.items) == OrderStatus::Received || order_status_of(
                self@.items,
            ) == OrderStatus::Preparing),
    {
        let status = self.get_order_status();
        match status {
            OrderStatus::Received | OrderStatus::Preparing => true,
            _ => false,
        }
    }

    /// The derived status: Canceled iff every item is removed; Preparing
    /// iff some non-removed item is Preparing; Received iff none is
    /// Preparing but some is Received; Completed iff some item is
    /// non-removed and every non-removed one is Completed.
    pub fn get_order_status(&self) -> (r: OrderStatus)
        ensures
            r == order_status_of(self@.items),
            (r == OrderStatus::Canceled) <==> all_removed(self@.items),
            (r == OrderStatus::Preparing) <==> has_live_status(
                self@.items,
                MealItemStatus::Preparing,
            ),
            (r == OrderStatus::Received) <==> (!has_live_status(
                self@.items,
                MealItemStatus::Preparing,
            ) && has_live_status(self@.items, MealItemStatus::Received)),
            (r == OrderStatus::Completed) <==> (!all_removed(self@.items) && forall|i: int|
                0 <= i < self@.items.len() && !self@.items[i].removed
                    ==> #[trigger] self@.items[i].status == MealItemStatus::Completed),
    {
        let ghost s = self@.items;
        let mut has_preparing = false;
        let mut has_received = false;
        let mut all_are_removed = true;
        let n = self.meal_items.len();
        let mut i: usize = 0;
        while i < n
            invariant
                i <= n,
                n == s.len(),
                s == self@.items,
                has_preparing == has_live_status(s.subrange(0, i as int), MealItemStatus::Preparing),
                has_received == has_live_status(s.subrange(0, i as int), MealItemStatus::Received),
                all_are_removed == all_removed(s.subrange(0, i as int)),
            decreases n - i,
        {
            let ghost prefix = s.subrange(0, i as int);
            let ghost prefix1 = s.subrange(0, i + 1 as int);
            proof {
                assert(prefix1 =~= prefix.push(s[i as int]));
                lemma_status_flags_push(prefix, s[i as int]);
            }
            if !self.meal_items[i].is_removed() {
                all_are_removed = false;
                match self.meal_items[i].get_status() {
                    MealItemStatus::Received => {
                        has_received = true;
                    }
                    MealItemStatus::Preparing => {
                        has_preparing = true;
                    }
                    MealItemStatus::Completed => {}
                }
            }
            i = i + 1;
        }
        proof {
            assert(s.subrange(0, n as int) =~= s);
        }
        if all_are_removed {
            OrderStatus::Canceled
        } else if has_preparing {
            OrderStatus::Preparing
        } else if has_received {
            OrderStatus::Received
        } else {
            proof {
                assert(forall|i: int|
                    0 <= i < s.len() && !s[i].removed ==> #[trigger] s[i].status
                        == MealItemStatus::Completed) by {
                    assert(forall|i: int|
                        0 <= i < s.len() && !s[i].removed && s[i].status != MealItemStatus::Completed
                            ==> has_live_status(s, s[i].status));
                };
            }
            OrderStatus::Completed
        }
    }
}

proof fn lemma_menu_prefix_le(s: Seq<MenuItemView>, i: int)
    requires
        0 <= i <= s.len(),
    ensures
        sum_menu_prices(s.subrange(0, i)) <= sum_menu_prices(s),
    decreases s.len() - i,
{
    if i < s.len() {
        lemma_menu_prefix_le(s, i + 1);
        let q = s.subrange(0, i + 1);
        assert(q.drop_last() =~= s.subrange(0, i));
    } else {
        assert(s.subrange(0, i) =~= s);
    }
}

/// Whether a fresh order over these menu items stays within the machine's
/// number ranges; callers of `Order::new` test this first.
pub fn menu_items_fit(menu_items: &Vec<MenuItem>) -> (r: bool)
    ensures
        r == (sum_menu_prices(Seq::new(menu_items@.len(), |i: int| menu_items@[i]@)) <= u64::MAX
            && MAX_COOKING_MINUTES * menu_items@.len() <= u32::MAX),
{
    let ghost vs = Seq::new(menu_items@.len(), |i: int| menu_items@[i]@);
    let cap = (u32::MAX / MAX_COOKING_MINUTES) as usize;
    let n = menu_items.len();
    if n > cap {
        proof {
            assert(MAX_COOKING_MINUTES * menu_items@.len() > u32::MAX) by (nonlinear_arith)
                requires
                    menu_items@.len() > (u32::MAX as int) / (MAX_COOKING_MINUTES as int),
                    MAX_COOKING_MINUTES == 15,
            ;
        }
        return false;
    }
    proof {
        assert(MAX_COOKING_MINUTES * menu_items@.len() <= u32::MAX) by (nonlinear_arith)
            requires
                menu_items@.len() <= (u32::MAX as int) / (MAX_COOKING_MINUTES as int),
                MAX_COOKING_MINUTES == 15,
        ;
    }
    let mut acc: u64 = 0;
    let mut i: usize = 0;
    while i < n
        invariant
            i <= n,
            n == menu_items@.len(),
            vs == Seq::new(menu_items@.len(), |k: int| menu_items@[k]@),
            acc == sum_menu_prices(vs.subrange(0, i as int)),
            MAX_COOKING_MINUTES * menu_items@.len() <= u32::MAX,
        decreases n - i,
    {
        proof {
            assert(vs.subrange(0, i + 1 as int).drop_last() =~= vs.subrange(0, i as int));
            lemma_menu_prefix_le(vs, i + 1);
        }
        let p = menu_items[i].price().cents();
        acc = match acc.checked_add(p) {
            Some(v) => v,
            None => {
                return false;
            }
        };
        i = i + 1;
    }
    proof {
        assert(vs.subrange(0, n as int) =~= vs);
    }
    true
}

/// Extending the flag computation by one item.
proof fn lemma_status_flags_push(s: Seq<MealItemView>, v: MealItemView)
    ensures
        all_removed(s.push(v)) == (all_removed(s) && v.removed),
        forall|st: MealItemStatus|
            has_live_status(s.push(v), st) == (has_live_status(s, st) || (!v.removed && v.status
                == st)),
{
    let p = s.push(v);
    assert forall|st: MealItemStatus|
        has_live_status(p, st) == (has_live_status(s, st) || (!v.removed && v.status == st)) by {
        if has_live_status(s, st) {
            let i = choose|i: int| 0 <= i < s.len() && !s[i].removed && s[i].status == st;
            assert(p[i] == s[i]);
            assert(has_live_status(p, st));
        }
        if !v.removed && v.status == st {
            assert(p[s.len() as int] == v);
            assert(has_live_status(p, st));
        }
        if has_live_status(p, st) {
            let i = choose|i: int| 0 <= i < p.len() && !p[i].removed && p[i].status == st;
            if i < s.len() {
                assert(s[i] == p[i]);
                assert(has_live_status(s, st));
            } else {
                assert(p[i] == v);
            }
        }
    }
    if all_removed(s) && v.removed {
        assert forall|i: int| 0 <= i < p.len() implies p[i].removed by {
            if i < s.len() {
                assert(p[i] == s[i]);
            } else {
                assert(p[i] == v);
            }
        }
    }
    if all_removed(p) {
        assert(forall|i: int| 0 <= i < s.len() ==> s[i] == p[i] && p[i].removed);
        assert(p[s.len() as int] == v);
    }
}

/// Under unique ids, any index holding the id is the chosen one.
proof fn lemma_index_of_id_unique(s: Seq<MealItemView>, id: u128, i: int)
    requires
        ids_unique(s),
        0 <= i < s.len(),
        s[i].id == id,
    ensures
        has_id(s, id),
        index_of_id(s, id) == i,
        item_with_id(s, id) == s[i],
{
    assert(has_id(s, id));
    let j = index_of_id(s, id);
    assert(0 <= j < s.len() && s[j].id == id);
    if i < j {
        assert(s[i].id != s[j].id);
    } else if j < i {
        assert(s[j].id != s[i].id);
    }
}

proof fn lemma_ids_unique_update(s: Seq<MealItemView>, i: int, v: MealItemView)
    requires
        ids_unique(s),
        0 <= i < s.len(),
        v.id == s[i].id,
    ensures
        ids_unique(s.update(i, v)),
{
}

/// A pointwise removal keeps every id, every status, and only adds removal
/// marks.
proof fn lemma_pointwise_preserves_ids(
    pre: Seq<MealItemView>,
    ids: Seq<u128>,
    post: Seq<MealItemView>,
)
    requires
        removes_pointwise(pre, ids, post),
    ensures
        post.len() == pre.len(),
        forall|i: int| 0 <= i < pre.len() ==> #[trigger] post[i].id == pre[i].id,
        forall|i: int| 0 <= i < pre.len() ==> #[trigger] post[i].status == pre[i].status,
        forall|i: int| 0 <= i < pre.len() ==> (pre[i].removed ==> #[trigger] post[i].removed),
        forall|i: int| 0 <= i < pre.len() ==> (!#[trigger] post[i].removed ==> !pre[i].removed),
        forall|id: u128| #[trigger] has_id(post, id) == has_id(pre, id),
        ids_unique(pre) ==> ids_unique(post),
{
    assert forall|id: u128| #[trigger] has_id(post, id) == has_id(pre, id) by {
        if has_id(pre, id) {
            let i = choose|i: int| 0 <= i < pre.len() && pre[i].id == id;
            assert(post[i].id == id);
        }
        if has_id(post, id) {
            let i = choose|i: int| 0 <= i < post.len() && post[i].id == id;
            assert(pre[i].id == id);
        }
    }
}

/// Extending a pointwise removal by a request that touches nothing.
proof fn lemma_pointwise_extend_untouched(
    pre: Seq<MealItemView>,
    ids: Seq<u128>,
    id: u128,
    post: Seq<MealItemView>,
)
    requires
        removes_pointwise(pre, ids, post),
        ids_unique(pre),
        (has_id(pre, id) && !item_with_id(pre, id).removed && item_with_id(pre, id).status
            == MealItemStatus::Received) ==> ids.contains(id),
    ensures
        removes_pointwise(pre, ids.push(id), post),
{
    assert forall|i: int| 0 <= i < pre.len() implies (if ids.push(id).contains(pre[i].id)
        && !pre[i].removed && pre[i].status == MealItemStatus::Received {
        post[i] == (MealItemView { removed: true, updated_at: post[i].updated_at, ..pre[i] })
    } else {
        post[i] == pre[i]
    }) by {
        if ids.push(id).contains(pre[i].id) && !pre[i].removed && pre[i].status
            == MealItemStatus::Received {
            if ids.contains(pre[i].id) {
            } else {
                let k = choose|k: int|
                    0 <= k < ids.push(id).len() && ids.push(id)[k] == pre[i].id;
                assert(k == ids.len());
                assert(pre[i].id == id);
                lemma_index_of_id_unique(pre, id, i);
                assert(ids.contains(id));
                assert(false);
            }
        } else {
            if ids.contains(pre[i].id) && !pre[i].removed && pre[i].status
                == MealItemStatus::Received {
                assert(ids.push(id).contains(pre[i].id)) by {
                    let k = choose|k: int| 0 <= k < ids.len() && ids[k] == pre[i].id;
                    assert(ids.push(id)[k] == pre[i].id);
                }
                assert(false);
            }
        }
    }
}

/// Extending a pointwise removal by the request that removed item `i`.
proof fn lemma_pointwise_extend_removed(
    pre: Seq<MealItemView>,
    ids: Seq<u128>,
    id: u128,
    i: int,
    t: i64,
    mid: Seq<MealItemView>,
    post: Seq<MealItemView>,
)
    requires
        removes_pointwise(pre, ids, mid),
        ids_unique(pre),
        0 <= i < pre.len(),
        pre[i].id == id,
        !mid[i].removed,
        mid[i] == pre[i],
        mid[i].status == MealItemStatus::Received,
        post == mid.update(i, (MealItemView { removed: true, updated_at: t, ..mid[i] })),
    ensures
        removes_pointwise(pre, ids.push(id), post),
{
    assert forall|k: int| 0 <= k < pre.len() implies (if ids.push(id).contains(pre[k].id)
        && !pre[k].removed && pre[k].status == MealItemStatus::Received {
        post[k] == (MealItemView { removed: true, updated_at: post[k].updated_at, ..pre[k] })
    } else {
        post[k] == pre[k]
    }) by {
        if k == i {
            assert(ids.push(id).contains(pre[i].id)) by {
                assert(ids.push(id)[ids.len() as int] == id);
            }
            assert(post[i] == (MealItemView { removed: true, updated_at: t, ..pre[i] }));
        } else {
            assert(post[k] == mid[k]);
            assert(pre[k].id != id) by {
                if pre[k].id == id {
                    if k < i {
                        assert(pre[k].id != pre[i].id);
                    } else {
                        assert(pre[i].id != pre[k].id);
                    }
                }
            }
            if ids.push(id).contains(pre[k].id) {
                let m = choose|m: int| 0 <= m < ids.push(id).len() && ids.push(id)[m] == pre[k].id;
                assert(m < ids.len());
                assert(ids[m] == pre[k].id);
                assert(ids.contains(pre[k].id));
            } else {
                if ids.contains(pre[k].id) {
                    let m = choose|m: int| 0 <= m < ids.len() && ids[m] == pre[k].id;
                    assert(ids.push(id)[m] == pre[k].id);
                    assert(false);
                }
            }
        }
    }
}

/// After any sequence of add and remove operations the totals equal a full
/// recomputation over the non-removed items: every constructor and mutator
/// of `Order` establishes `wf`, and `wf` says exactly that.
pub proof fn lemma_totals_match_recomputation(o: Order)
    requires
        o.wf(),
    ensures
        o@.total_price == sum_price(o@.items),
        o@.total_cooking_time_in_min == sum_cooking(o@.items),
{
}

/// Removing an item that is Preparing or Completed changes nothing — the
/// aggregate totals included — and the item is reported as non-removable.
pub proof fn lemma_remove_cooking_item_is_conflict(
    pre: Seq<MealItemView>,
    id: u128,
    post: Seq<MealItemView>,
)
    requires
        ids_unique(pre),
        removes_pointwise(pre, seq![id], post),
        has_id(pre, id),
        !item_with_id(pre, id).removed,
        item_with_id(pre, id).status != MealItemStatus::Received,
    ensures
        post =~= pre,
        sum_price(post) == sum_price(pre),
        sum_cooking(post) == sum_cooking(pre),
        report_of(pre, seq![id]) =~= seq![id],
{
    assert forall|i: int| 0 <= i < pre.len() implies post[i] == pre[i] by {
        if seq![id].contains(pre[i].id) {
            assert(pre[i].id == id);
            lemma_index_of_id_unique(pre, id, i);
            assert(pre[i].status != MealItemStatus::Received);
        }
    }
    assert(post =~= pre);
    assert(reportable(pre, id));
    assert(seq![id].drop_last() =~= Seq::<u128>::empty());
    assert(report_of(pre, Seq::<u128>::empty()) =~= Seq::<u128>::empty());
    assert(seq![id].last() == id);
    assert(report_of(pre, seq![id]) =~= seq![id]);
}

/// Removing an already-removed item is a no-op and is not reported as
/// non-removable.
pub proof fn lemma_remove_removed_item_is_noop(
    pre: Seq<MealItemView>,
    id: u128,
    post: Seq<MealItemView>,
)
    requires
        ids_unique(pre),
        removes_pointwise(pre, seq![id], post),
        has_id(pre, id),
        item_with_id(pre, id).removed,
    ensures
        post =~= pre,
        report_of(pre, seq![id]) =~= Seq::<u128>::empty(),
{
    assert forall|i: int| 0 <= i < pre.len() implies post[i] == pre[i] by {
        if seq![id].contains(pre[i].id) {
            assert(pre[i].id == id);
            lemma_index_of_id_unique(pre, id, i);
            assert(pre[i].removed);
        }
    }
    assert(post =~= pre);
    assert(!reportable(pre, id));
    assert(seq![id].drop_last() =~= Seq::<u128>::empty());
    assert(report_of(pre, Seq::<u128>::empty()) =~= Seq::<u128>::empty());
    assert(seq![id].last() == id);
    assert(report_of(pre, seq![id]) =~= Seq::<u128>::empty());
}

proof fn lemma_menu_sum_nonneg(s: Seq<MenuItemView>)
    ensures
        sum_menu_prices(s) >= 0,
    decreases s.len(),
{
    if s.len() > 0 {
        lemma_menu_sum_nonneg(s.drop_last());
    }
}

/// The price sum over menu items, split at its first element.
proof fn lemma_menu_sum_drop_first(s: Seq<MenuItemView>)
    requires
        s.len() > 0,
    ensures
        sum_menu_prices(s) == s[0].price + sum_menu_prices(s.drop_first()),
    decreases s.len(),
{
    if s.len() == 1 {
        assert(s.drop_last() =~= Seq::<MenuItemView>::empty());
        assert(s.drop_first() =~= Seq::<MenuItemView>::empty());
        assert(s.last() == s[0]);
    } else {
        lemma_menu_sum_drop_first(s.drop_last());
        assert(s.drop_last().drop_first() =~= s.drop_first().drop_last());
        assert(s.drop_last()[0] == s[0]);
        assert(s.drop_first().last() == s.last());
    }
}

/// The price sum over a suffix of menu items, split at its first element.
proof fn lemma_menu_suffix_sum(s: Seq<MenuItemView>, k: int)
    requires
        0 <= k < s.len(),
    ensures
        sum_menu_prices(s.subrange(k, s.len() as int)) == s[k].price + sum_menu_prices(
            s.subrange(k + 1, s.len() as int),
        ),
        sum_menu_prices(s.subrange(k + 1, s.len() as int)) >= 0,
{
    let suf = s.subrange(k, s.len() as int);
    lemma_menu_sum_drop_first(suf);
    assert(suf[0] == s[k]);
    assert(suf.drop_first() =~= s.subrange(k + 1, s.len() as int));
    lemma_menu_sum_nonneg(s.subrange(k + 1, s.len() as int));
}

} // verus!
