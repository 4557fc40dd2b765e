//! Meal items: one ordered dish instance with its cooking lifecycle, a
//! one-way removal flag and an unconditional status setter. The forward-only
//! status discipline is the caller's duty, as is serializing access.
use vstd::prelude::*;
use crate::menu::{MenuItem, MenuItemView};
use crate::sources::{fresh_id, now_millis, random_in_range};

verus! {

/// Shortest cooking duration ever assigned, in minutes.
pub const MIN_COOKING_MINUTES: u32 = 5;

/// Longest cooking duration ever assigned, in minutes.
pub const MAX_COOKING_MINUTES: u32 = 15;

/// The cooking lifecycle of one meal item.
#[derive(Clone, Copy, Debug, PartialEq, Eq, Structural)]
pub enum MealItemStatus {
    Received,
    Preparing,
    Completed,
}

/// The display text of a meal-item status.
pub open spec fn meal_status_chars(st: MealItemStatus) -> Seq<char> {
    match st {
        MealItemStatus::Received => "Received"@,
        MealItemStatus::Preparing => "Preparing"@,
        MealItemStatus::Completed => "Completed"@,
    }
}

impl MealItemStatus {
    /// The status as display text.
    pub fn to_string(&self) -> (r: String)
        ensures
            r@ == meal_status_chars(*self),
    {
        match self {
            MealItemStatus::Received => "Received".to_owned(),
            MealItemStatus::Preparing => "Preparing".to_owned(),
            MealItemStatus::Completed => "Completed".to_owned(),
        }
    }
}

/// The mathematical content of a meal item.
pub struct MealItemView {
    pub id: u128,
    pub menu: MenuItemView,
    pub created_at: i64,
    pub updated_at: i64,
    pub cooking_time_in_min: u32,
    pub removed: bool,
    pub status: MealItemStatus,
}

/// One ordered dish: identity, the menu item it was ordered from, a fixed
/// cooking duration, a status and a one-way removal flag.
#[derive(Debug)]
pub struct MealItem {
    meal_item_id: u128,
    menu_item: MenuItem,
    creation_time: i64,
    update_time: i64,
    cooking_time_in_min: u32,
    is_removed: bool,
    status: MealItemStatus,
}

impl View for MealItem {
    type V = MealItemView;

    closed spec fn view(&self) -> MealItemView {
        MealItemView {
            id: self.meal_item_id,
            menu: self.menu_item@,
            created_at: self.creation_time,
            updated_at: self.update_time,
            cooking_time_in_min: self.cooking_time_in_min,
            removed: self.is_removed,
            status: self.status,
        }
    }
}

impl MealItem {
    /// A new meal item for the given menu item: fresh identifier, status
    /// Received, not removed, and a random cooking duration within the
    /// fixed inclusive range.
    pub fn create(menu_item: MenuItem) -> (r: MealItem)
        ensures
            r@.menu == menu_item@,
            r@.status == MealItemStatus::Received,
            !r@.removed,
            MIN_COOKING_MINUTES <= r@.cooking_time_in_min <= MAX_COOKING_MINUTES,
    {
        let now = now_millis();
        MealItem {
            meal_item_id: fresh_id(),
            menu_item,
            creation_time: now,
            update_time: now,
            cooking_time_in_min: random_in_range(MIN_COOKING_MINUTES, MAX_COOKING_MINUTES),
            is_removed: false,
            status: MealItemStatus::Received,
        }
    }

    /// Mark the item removed. One-way and idempotent: every other field but
    /// the update time keeps its value.
    pub fn remove(&mut self)
        ensures
            final(self)@ == (MealItemView { removed: true, updated_at: final(self)@.updated_at, ..old(self)@ }),
    {
        self.update_time = now_millis();
        self.is_removed = true;
    }

    /// Set the status unconditionally. The caller answers for the
    /// forward-only discipline; every other field but the update time keeps
    /// its value.
    pub fn update_state(&mut self, status: MealItemStatus)
        ensures
            final(self)@ == (MealItemView { status: status, updated_at: final(self)@.updated_at, ..old(self)@ }),
    {
        self.status = status;
        self.update_time = now_millis();
    }

    pub fn id(&self) -> (r: u128)
        ensures
            r == self@.id,
    {
        self.meal_item_id
    }

    pub fn cooking_time_in_min(&self) -> (r: u32)
        ensures
            r == self@.cooking_time_in_min,
    {
        self.cooking_time_in_min
    }

    pub fn price(&self) -> (r: crate::price::Price)
        ensures
            r@ == self@.menu.price,
    {
        self.menu_item.price()
    }

    pub fn is_removed(&self) -> (r: bool)
        ensures
            r == self@.removed,
    {
        self.is_removed
    }

    pub fn get_status(&self) -> (r: MealItemStatus)
        ensures
            r == self@.status,
    {
        self.status
    }

    pub fn get_name(&self) -> (r: String)
        ensures
            r@ == self@.menu.name,
    {
        self.menu_item.get_name()
    }
}

impl Clone for MealItem {
    fn clone(&self) -> (r: Self)
        ensures
            r@ == self@,
    {
        MealItem {
            meal_item_id: self.meal_item_id,
            menu_item: self.menu_item.clone(),
            creation_time: self.creation_time,
            update_time: self.update_time,
            cooking_time_in_min: self.cooking_time_in_min,
            is_removed: self.is_removed,
            status: self.status,
        }
    }
}

impl PartialEq for MealItem {
    fn eq(&self, other: &MealItem) -> (r: bool) {
        self.meal_item_id == other.meal_item_id && self.menu_item == other.menu_item
            && self.creation_time == other.creation_time && self.update_time == other.update_time
            && self.cooking_time_in_min == other.cooking_time_in_min && self.is_removed
            == other.is_removed && self.status == other.status
    }
}

impl vstd::std_specs::cmp::PartialEqSpecImpl for MealItem {
    open spec fn obeys_eq_spec() -> bool {
        true
    }

    open spec fn eq_spec(&self, other: &MealItem) -> bool {
        self@ == other@
    }
}

} // verus!
