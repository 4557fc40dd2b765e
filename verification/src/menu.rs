//! Menu items: the value objects from which meal items are created, and a
//! menu owning a list of them.
use vstd::prelude::*;
use crate::price::{parse_cents, Price};
use crate::sources::fresh_id;

verus! {

/// The mathematical content of a menu item.
pub struct MenuItemView {
    pub id: u128,
    pub name: Seq<char>,
    pub price: u64,
}

/// One dish as offered on a menu: an identifier, a display name and an
/// exact price in minor units.
#[derive(Debug)]
pub struct MenuItem {
    menu_item_id: u128,
    name: String,
    price: Price,
}

impl View for MenuItem {
    type V = MenuItemView;

    closed spec fn view(&self) -> MenuItemView {
        MenuItemView { id: self.menu_item_id, name: self.name@, price: self.price@ as u64 }
    }
}

impl MenuItem {
    /// A menu item under a freshly drawn identifier, with its price parsed
    /// from a minor-unit string.
    pub fn new(name: String, price: String) -> (r: Self)
        ensures
            r@.name == name@,
            r@.price == parse_cents(price@),
    {
        MenuItem { menu_item_id: fresh_id(), name, price: Price::from_string(price) }
    }

    /// A menu item under a caller-chosen identifier, with its price parsed
    /// from a minor-unit string.
    pub fn create(id: u128, name: String, price: String) -> (r: Self)
        ensures
            r@.id == id,
            r@.name == name@,
            r@.price == parse_cents(price@),
    {
        MenuItem { menu_item_id: id, name, price: Price::from_string(price) }
    }

    pub fn price(&self) -> (r: Price)
        ensures
            r@ == self@.price,
    {
        self.price
    }

    pub fn get_name(&self) -> (r: String)
        ensures
            r@ == self@.name,
    {
        self.name.clone()
    }

    pub fn id(&self) -> (r: u128)
        ensures
            r == self@.id,
    {
        self.menu_item_id
    }
}

impl Clone for MenuItem {
    fn clone(&self) -> (r: Self)
        ensures
            r@ == self@,
    {
        MenuItem { menu_item_id: self.menu_item_id, name: self.name.clone(), price: self.price }
    }
}

impl PartialEq for MenuItem {
    fn eq(&self, other: &MenuItem) -> (r: bool) {
        proof {
            crate::price::lemma_price_value_injective(self.price, other.price);
        }
        self.menu_item_id == other.menu_item_id && self.name == other.name && self.price
            == other.price
    }
}

impl vstd::std_specs::cmp::PartialEqSpecImpl for MenuItem {
    open spec fn obeys_eq_spec() -> bool {
        true
    }

    open spec fn eq_spec(&self, other: &MenuItem) -> bool {
        self@ == other@
    }
}

/// The mathematical content of a menu.
pub struct MenuView {
    pub id: u128,
    pub name: Seq<char>,
    pub items: Seq<MenuItemView>,
}

/// A named menu owning a list of menu items.
#[derive(Clone, Debug)]
pub struct Menu {
    menu_id: u128,
    name: String,
    menu_items: Vec<MenuItem>,
}

impl View for Menu {
    type V = MenuView;

    closed spec fn view(&self) -> MenuView {
        MenuView {
            id: self.menu_id,
            name: self.name@,
            items: Seq::new(self.menu_items@.len(), |i: int| self.menu_items@[i]@),
        }
    }
}

impl Menu {
    /// A menu under a freshly drawn identifier.
    pub fn new(name: String, menu_items: Vec<MenuItem>) -> (r: Self)
        ensures
            r@.name == name@,
            r@.items == Seq::new(menu_items@.len(), |i: int| menu_items@[i]@),
    {
        Menu { menu_id: fresh_id(), name, menu_items }
    }

    /// Append further items to the menu.
    pub fn add_menu_items(&mut self, menu_items: Vec<MenuItem>) -> (r: bool)
        ensures
            final(self)@.id == old(self)@.id,
            final(self)@.name == old(self)@.name,
            final(self)@.items == old(self)@.items + Seq::new(
                menu_items@.len(),
                |i: int| menu_items@[i]@,
            ),
            r == true,
    {
        let ghost pre = self.menu_items@;
        let ghost given = menu_items@;
        let mut rest = menu_items;
        while rest.len() > 0
            invariant
                rest@.len() <= given.len(),
                self.menu_items@ =~= pre + given.subrange(
                    0,
                    given.len() - rest@.len(),
                ),
                rest@ =~= given.subrange(given.len() - rest@.len(), given.len() as int),
                self.menu_id == old(self).menu_id,
                self.name == old(self).name,
            decreases rest@.len(),
        {
            let ghost k = given.len() - rest@.len();
            let item = rest.remove(0);
            self.menu_items.push(item);
            proof {
                assert(item == given[k]);
                assert(given.subrange(0, k + 1) =~= given.subrange(0, k).push(given[k]));
                assert(rest@ =~= given.subrange(k + 1, given.len() as int));
            }
        }
        proof {
            assert(given.subrange(0, given.len() as int) =~= given);
            assert(final(self)@.items =~= old(self)@.items + Seq::new(
                given.len(),
                |k: int| given[k]@,
            ));
        }
        true
    }

    pub fn id(&self) -> (r: u128)
        ensures
            r == self@.id,
    {
        self.menu_id
    }
}

} // verus!
