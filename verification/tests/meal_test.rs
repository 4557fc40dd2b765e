use table_orders::meal::{MealItem, MealItemStatus};
use table_orders::menu::MenuItem;

#[test]
fn test_remove() {
    let menu_item = MenuItem::new(String::from("fries"), String::from("345"));
    let mut meal_item = MealItem::create(menu_item);
    assert!(!meal_item.is_removed());

    meal_item.remove();

    assert!(meal_item.is_removed());
}

#[test]
fn test_update_status() {
    let menu_item = MenuItem::new(String::from("fries"), String::from("345"));
    let mut meal_item = MealItem::create(menu_item);
    assert_eq!(MealItemStatus::Received, meal_item.get_status());

    meal_item.update_state(MealItemStatus::Completed);

    assert_eq!(MealItemStatus::Completed, meal_item.get_status());
}

#[test]
fn test_cooking_time_within_range() {
    let menu_item = MenuItem::new(String::from("fries"), String::from("345"));
    let meal_item = MealItem::create(menu_item);
    let minutes = meal_item.cooking_time_in_min();
    assert!(minutes >= 5);
    assert!(minutes <= 15);
}

#[test]
fn test_fresh_items_get_distinct_ids() {
    let a = MealItem::create(MenuItem::new(String::from("fries"), String::from("345")));
    let b = MealItem::create(MenuItem::new(String::from("fries"), String::from("345")));
    assert_ne!(a.id(), b.id());
}

#[test]
fn test_status_text() {
    assert_eq!("Received", MealItemStatus::Received.to_string());
    assert_eq!("Preparing", MealItemStatus::Preparing.to_string());
    assert_eq!("Completed", MealItemStatus::Completed.to_string());
}
