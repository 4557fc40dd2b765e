//! Repositories: concurrent maps from key to aggregate, held in dashmap so
//! that operations on different tables never contend. Each operation takes
//! the entry out, works on it with the verified aggregate code, and puts it
//! back; Verus sees the map only through the named entry function.
use vstd::prelude::*;
use crate::meal::{MealItem, MealItemStatus, MealItemView};
use crate::menu::Menu;
use crate::order::{
    all_removed, has_id, index_of_id, item_with_id, order_status_of, report_of, removes_pointwise,
    sum_cooking, sum_price, views_of, Order, OrderStatus,
};

verus! {

#[verifier::external_type_specification]
#[verifier::external_body]
#[verifier::reject_recursive_types(K)]
#[verifier::reject_recursive_types(V)]
#[verifier::reject_recursive_types(S)]
pub struct ExDashMap<K, V, S>(dashmap::DashMap<K, V, S>);

/// What the order map holds: its entries, as a map from table id to order.
pub uninterp spec fn order_entries(m: dashmap::DashMap<u32, Order>) -> Map<u32, Order>;

/// The entry map of a repository with no orders.
pub open spec fn no_orders() -> Map<u32, Order> {
    Map::empty()
}

/// Relies on dashmap::DashMap::insert: the entry for the key is created or
/// replaced with the given value.
#[verifier::external_body]
fn order_map_insert(m: &mut dashmap::DashMap<u32, Order>, key: u32, value: Order)
    ensures
        order_entries(*final(m)) == order_entries(*old(m)).insert(key, value),
{
    m.insert(key, value);
}

/// Relies on dashmap::DashMap::remove: the entry for the key, if any,
/// leaves the map and its value is handed back.
#[verifier::external_body]
fn order_map_take(m: &mut dashmap::DashMap<u32, Order>, key: u32) -> (r: Option<Order>)
    ensures
        order_entries(*old(m)).contains_key(key) ==> r == Some(order_entries(*old(m))[key])
            && order_entries(*final(m)) == order_entries(*old(m)).remove(key),
        !order_entries(*old(m)).contains_key(key) ==> r is None && order_entries(*final(m))
            == order_entries(*old(m)),
{
    m.remove(&key).map(|kv| kv.1)
}

/// Relies on dashmap::DashMap::get: the value under the key, if any, read
/// out as a clone of equal content.
#[verifier::external_body]
fn order_map_get_clone(m: &dashmap::DashMap<u32, Order>, key: u32) -> (r: Option<Order>)
    ensures
        r.is_some() == order_entries(*m).contains_key(key),
        r.is_some() ==> r.unwrap()@ == order_entries(*m)[key]@,
{
    m.get(&key).map(|entry| entry.value().clone())
}

/// The concurrent store of at most one order per table.
pub struct OrderRepo {
    orders: dashmap::DashMap<u32, Order>,
}

impl View for OrderRepo {
    type V = Map<u32, Order>;

    closed spec fn view(&self) -> Map<u32, Order> {
        order_entries(self.orders)
    }
}

impl OrderRepo {
    /// Every stored order is well formed and filed under its own table id.
    pub open spec fn wf(self) -> bool {
        forall|k: u32|
            self@.contains_key(k) ==> (#[trigger] self@[k]).wf() && self@[k]@.table_id == k
    }

    /// An empty repository. Relies on dashmap::DashMap::new: a map with no
    /// entries.
    #[verifier::external_body]
    pub fn new() -> (r: Self)
        ensures
            r@ == no_orders(),
    {
        OrderRepo { orders: dashmap::DashMap::new() }
    }

    /// File the order under its table id, replacing any prior entry.
    pub fn add(&mut self, order: Order)
        requires
            old(self).wf(),
            order.wf(),
        ensures
            final(self).wf(),
            final(self)@ == old(self)@.insert(order@.table_id, order),
    {
        let table_id = order.get_table_id();
        order_map_insert(&mut self.orders, table_id, order);
    }

    /// A copy of the table's order, if there is one.
    pub fn get_order_by_table_id(&self, id: u32) -> (r: Option<Order>)
        requires
            self.wf(),
        ensures
            match r {
                Some(o) => self@.contains_key(id) && o@ == self@[id]@ && o.wf(),
                None => !self@.contains_key(id),
            },
    {
        order_map_get_clone(&self.orders, id)
    }

    /// A copy of one meal item, looked up table first, then item; nothing
    /// if either level is absent.
    pub fn get_order_meal_item(&self, table_id: u32, meal_item_id: u128) -> (r: Option<MealItem>)
        requires
            self.wf(),
        ensures
            match r {
                Some(item) => self@.contains_key(table_id) && has_id(
                    self@[table_id]@.items,
                    meal_item_id,
                ) && item@ == item_with_id(self@[table_id]@.items, meal_item_id),
                None => !self@.contains_key(table_id) || !has_id(
                    self@[table_id]@.items,
                    meal_item_id,
                ),
            },
    {
        match self.get_order_by_table_id(table_id) {
            Some(order) => order.get_meal_item(meal_item_id),
            None => None,
        }
    }

    /// Set one meal item's status, touching nothing else; reports whether
    /// both the table and the item were found.
    pub fn update_order_meal_item_status(
        &mut self,
        table_id: u32,
        meal_item_id: u128,
        meal_item_status: MealItemStatus,
    ) -> (r: bool)
        requires
            old(self).wf(),
        ensures
            final(self).wf(),
            r == (old(self)@.contains_key(table_id) && has_id(
                old(self)@[table_id]@.items,
                meal_item_id,
            )),
            final(self)@.dom() == old(self)@.dom(),
            forall|k: u32|
                #![auto]
                old(self)@.contains_key(k) && k != table_id ==> final(self)@[k] == old(self)@[k],
            old(self)@.contains_key(table_id) ==> {
                let pre = old(self)@[table_id]@;
                let post = final(self)@[table_id]@;
                &&& post.total_price == pre.total_price
                &&& post.total_cooking_time_in_min == pre.total_cooking_time_in_min
                &&& post.id == pre.id
                &&& post.table_id == pre.table_id
                &&& (has_id(pre.items, meal_item_id) ==> post.items == pre.items.update(
                    index_of_id(pre.items, meal_item_id),
                    (MealItemView {
                        status: meal_item_status,
                        updated_at: post.items[index_of_id(pre.items, meal_item_id)].updated_at,
                        ..item_with_id(pre.items, meal_item_id)
                    }),
                ))
                &&& (!has_id(pre.items, meal_item_id) ==> post.items == pre.items)
            },
    {
        match order_map_take(&mut self.orders, table_id) {
            Some(mut order) => {
                let r = order.update_meal_item_status(meal_item_id, meal_item_status);
                order_map_insert(&mut self.orders, table_id, order);
                proof {
                    assert(final(self)@.dom() =~= old(self)@.dom());
                }
                r
            }
            None => false,
        }
    }

    /// Add the given meal items to the table's order; existed=false when
    /// the table has no order.
    pub fn add_order_meal_items(&mut self, table_id: u32, meal_items: Vec<MealItem>) -> (r: bool)
        requires
            old(self).wf(),
            old(self)@.contains_key(table_id) ==> old(self)@[table_id]@.total_price + sum_price(
                views_of(meal_items@),
            ) <= u64::MAX && old(self)@[table_id]@.total_cooking_time_in_min + sum_cooking(
                views_of(meal_items@),
            ) <= u32::MAX,
        ensures
            final(self).wf(),
            r == old(self)@.contains_key(table_id),
            final(self)@.dom() == old(self)@.dom(),
            forall|k: u32|
                #![auto]
                old(self)@.contains_key(k) && k != table_id ==> final(self)@[k] == old(self)@[k],
            old(self)@.contains_key(table_id) ==> final(self)@[table_id]@.items
                == crate::order::upsert_all(old(self)@[table_id]@.items, views_of(meal_items@)),
    {
        match order_map_take(&mut self.orders, table_id) {
            Some(mut order) => {
                order.add_meal_items(meal_items);
                order_map_insert(&mut self.orders, table_id, order);
                proof {
                    assert(final(self)@.dom() =~= old(self)@.dom());
                }
                true
            }
            None => false,
        }
    }

    /// Remove the requested meal items from the table's order, reporting
    /// the non-removable ones; existed=false when the table has no order.
    pub fn remove_order_meal_items(&mut self, table_id: u32, meal_item_ids: Vec<u128>) -> (r: (
        Vec<u128>,
        bool,
    ))
        requires
            old(self).wf(),
        ensures
            final(self).wf(),
            r.1 == old(self)@.contains_key(table_id),
            final(self)@.dom() == old(self)@.dom(),
            forall|k: u32|
                #![auto]
                old(self)@.contains_key(k) && k != table_id ==> final(self)@[k] == old(self)@[k],
            !old(self)@.contains_key(table_id) ==> r.0@ == Seq::<u128>::empty() && final(self)@
                == old(self)@,
            old(self)@.contains_key(table_id) ==> {
                &&& removes_pointwise(
                    old(self)@[table_id]@.items,
                    meal_item_ids@,
                    final(self)@[table_id]@.items,
                )
                &&& r.0@ == report_of(old(self)@[table_id]@.items, meal_item_ids@)
                &&& final(self)@[table_id]@.table_id == table_id
            },
    {
        match order_map_take(&mut self.orders, table_id) {
            Some(mut order) => {
                proof {
                    assert(order == old(self)@[table_id]);
                    assert(order.wf());
                }
                let ids = order.remove_meal_items(meal_item_ids);
                order_map_insert(&mut self.orders, table_id, order);
                proof {
                    assert(self@.dom() =~= old(self)@.dom());
                    assert forall|k: u32| self@.contains_key(k) implies (#[trigger] self@[k]).wf()
                        && self@[k]@.table_id == k by {
                        if k != table_id {
                            assert(old(self)@.contains_key(k));
                            assert(self@[k] == old(self)@[k]);
                        }
                    }
                }
                (ids, true)
            }
            None => {
                proof {
                    assert(!old(self)@.contains_key(table_id));
                    assert(self@ == old(self)@);
                    assert(self.wf());
                }
                (Vec::new(), false)
            }
        }
    }

    /// Cancel the table's whole order: refused (removed=false) when its
    /// derived status is Preparing or Completed, since an order with an
    /// item already cooking or finished cannot be bulk-cancelled; otherwise
    /// every item is marked removed and the totals return to zero.
    pub fn remove_order(&mut self, table_id: u32) -> (r: (bool, bool))
        requires
            old(self).wf(),
        ensures
            final(self).wf(),
            r.1 == old(self)@.contains_key(table_id),
            final(self)@.dom() == old(self)@.dom(),
            forall|k: u32|
                #![auto]
                old(self)@.contains_key(k) && k != table_id ==> final(self)@[k] == old(self)@[k],
            !old(self)@.contains_key(table_id) ==> r.0 == false && final(self)@ == old(self)@,
            old(self)@.contains_key(table_id) ==> {
                let st = order_status_of(old(self)@[table_id]@.items);
                let pre = old(self)@[table_id]@;
                let post = final(self)@[table_id]@;
                &&& r.0 == (st != OrderStatus::Preparing && st != OrderStatus::Completed)
                &&& (!r.0 ==> post == pre)
                &&& (r.0 ==> {
                    &&& all_removed(post.items)
                    &&& post.total_price == 0
                    &&& post.items.len() == pre.items.len()
                    &&& (forall|i: int|
                        0 <= i < pre.items.len() ==> #[trigger] post.items[i] == (
                        if pre.items[i].removed {
                            pre.items[i]
                        } else {
                            (MealItemView {
                                removed: true,
                                updated_at: post.items[i].updated_at,
                                ..pre.items[i]
                            })
                        }))
                })
            },
    {
        match order_map_take(&mut self.orders, table_id) {
            Some(mut order) => {
                let status = order.get_order_status();
                let refused = match status {
                    OrderStatus::Preparing | OrderStatus::Completed => true,
                    _ => false,
                };
                if refused {
                    order_map_insert(&mut self.orders, table_id, order);
                    proof {
                        assert(final(self)@ =~= old(self)@);
                    }
                    (false, true)
                } else {
                    order.remove_all_meal_items();
                    order_map_insert(&mut self.orders, table_id, order);
                    proof {
                        assert(final(self)@.dom() =~= old(self)@.dom());
                    }
                    (true, true)
                }
            }
            None => (false, false),
        }
    }
}

/// What the menu map holds: its entries, as a map from menu id to menu.
pub uninterp spec fn menu_entries(m: dashmap::DashMap<u128, Menu>) -> Map<u128, Menu>;

/// The entry map of a repository with no menus.
pub open spec fn no_menus() -> Map<u128, Menu> {
    Map::empty()
}

/// Relies on dashmap::DashMap::insert: the entry for the key is created or
/// replaced with the given value.
#[verifier::external_body]
fn menu_map_insert(m: &mut dashmap::DashMap<u128, Menu>, key: u128, value: Menu)
    ensures
        menu_entries(*final(m)) == menu_entries(*old(m)).insert(key, value),
{
    m.insert(key, value);
}

/// Relies on dashmap::DashMap::get: the value under the key, if any, read
/// out as a clone of equal content.
#[verifier::external_body]
fn menu_map_get_clone(m: &dashmap::DashMap<u128, Menu>, key: u128) -> (r: Option<Menu>)
    ensures
        r.is_some() == menu_entries(*m).contains_key(key),
        r.is_some() ==> r.unwrap()@ == menu_entries(*m)[key]@,
{
    m.get(&key).map(|entry| entry.value().clone())
}

/// The store of menus, keyed by menu id.
pub struct MenuRepo {
    menus: dashmap::DashMap<u128, Menu>,
}

impl View for MenuRepo {
    type V = Map<u128, Menu>;

    closed spec fn view(&self) -> Map<u128, Menu> {
        menu_entries(self.menus)
    }
}

impl MenuRepo {
    /// An empty repository. Relies on dashmap::DashMap::new: a map with no
    /// entries.
    #[verifier::external_body]
    pub fn new() -> (r: Self)
        ensures
            r@ == no_menus(),
    {
        MenuRepo { menus: dashmap::DashMap::new() }
    }

    /// A copy of the menu under the given id, if any.
    pub fn get(&self, id: u128) -> (r: Option<Menu>)
        ensures
            match r {
                Some(menu) => self@.contains_key(id) && menu@ == self@[id]@,
                None => !self@.contains_key(id),
            },
    {
        menu_map_get_clone(&self.menus, id)
    }

    /// File the menu under its own id, replacing any prior entry.
    pub fn add(&mut self, menu: Menu)
        ensures
            final(self)@ == old(self)@.insert(menu@.id, menu),
    {
        let menu_id = menu.id();
        menu_map_insert(&mut self.menus, menu_id, menu);
    }
}

} // verus!
