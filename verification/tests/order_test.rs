use table_orders::meal::{MealItem, MealItemStatus};
use table_orders::menu::MenuItem;
use table_orders::order::{Order, OrderStatus};

#[test]
fn test_add_meal_items() {
    let mut expected_meal_items = Vec::new();

    let menu_item = MenuItem::new(String::from("fries"), String::from("345"));
    let meal_item = MealItem::create(menu_item);
    let mut order = Order::new(1, vec![]);
    order.add_meal_items(vec![meal_item.clone()]);
    expected_meal_items.push(meal_item);

    let menu_item = MenuItem::new(String::from("burger"), String::from("789"));
    let meal_item = MealItem::create(menu_item);
    order.add_meal_items(vec![meal_item.clone()]);
    expected_meal_items.push(meal_item.clone());

    let mut actual_meal_items = order.get_meal_items();
    assert_eq!(expected_meal_items.len(), actual_meal_items.len());

    expected_meal_items.sort_by(|a, b| a.id().cmp(&b.id()));
    actual_meal_items.sort_by(|a, b| a.id().cmp(&b.id()));

    for (expected, actual) in expected_meal_items.iter().zip(actual_meal_items.iter()) {
        assert_eq!(expected.clone(), actual.clone());
    }
}

#[test]
fn test_remove_meal_items() {
    let mut order = Order::new(1, vec![]);
    let menu_item_one = MenuItem::new(String::from("fries"), String::from("345"));
    let meal_item_one = MealItem::create(menu_item_one);
    let menu_item_two = MenuItem::new(String::from("burger"), String::from("789"));
    let mut meal_item_two = MealItem::create(menu_item_two);
    meal_item_two.update_state(MealItemStatus::Preparing);
    order.add_meal_items(vec![meal_item_one.clone(), meal_item_two.clone()]);
    let meal_item_ids = vec![meal_item_one.id(), meal_item_two.id()];

    for meal_item in order.get_meal_items().iter() {
        assert!(!meal_item.is_removed());
    }

    order.remove_meal_items(meal_item_ids);

    for meal_item in order.get_meal_items().iter() {
        match meal_item.get_status() {
            MealItemStatus::Preparing | MealItemStatus::Completed => {
                assert!(!meal_item.is_removed());
            }
            _ => {
                assert!(meal_item.is_removed());
            }
        }
    }
}

#[test]
fn test_get_meal_items() {
    let mut expected_meal_items = Vec::new();

    let menu_item = MenuItem::new(String::from("fries"), String::from("345"));
    let meal_item = MealItem::create(menu_item);
    let mut order = Order::new(1, vec![]);
    order.add_meal_items(vec![meal_item.clone()]);
    expected_meal_items.push(meal_item);

    let actual_meal_items = order.get_meal_items();
    assert_eq!(expected_meal_items.len(), actual_meal_items.len());

    for (expected, actual) in expected_meal_items.iter().zip(actual_meal_items.iter()) {
        assert_eq!(expected.clone(), actual.clone());
    }
}

#[test]
fn test_get_meal_item() {
    let menu_item = MenuItem::new(String::from("fries"), String::from("345"));
    let meal_item = MealItem::create(menu_item);
    let mut order = Order::new(1, vec![]);
    order.add_meal_items(vec![meal_item.clone()]);

    if let Some(fetched) = order.get_meal_item(meal_item.id()) {
        assert_eq!(meal_item, fetched);
    } else {
        panic!("meal item not found");
    }
}

#[test]
fn test_get_order_status() {
    let menu_item = MenuItem::new(String::from("fries"), String::from("345"));
    let mut meal_item = MealItem::create(menu_item);
    let mut order = Order::new(1, vec![]);
    order.add_meal_items(vec![meal_item.clone()]);

    assert_eq!(OrderStatus::Received, order.get_order_status());

    meal_item.update_state(MealItemStatus::Preparing);
    order.add_meal_items(vec![meal_item.clone()]);
    assert_eq!(OrderStatus::Preparing, order.get_order_status());

    for meal_item in order.get_meal_items() {
        order.update_meal_item_status(meal_item.id(), MealItemStatus::Completed);
    }
    assert_eq!(OrderStatus::Completed, order.get_order_status());

    order.remove_all_meal_items();
    assert_eq!(OrderStatus::Canceled, order.get_order_status());
}

#[test]
fn test_empty_order_is_canceled() {
    let order = Order::new(7, vec![]);
    assert_eq!(OrderStatus::Canceled, order.get_order_status());
    assert!(!order.is_active());
}

#[test]
fn test_totals_track_adds_and_removes() {
    let mut order = Order::new(1, vec![]);
    let fries = MealItem::create(MenuItem::new(String::from("fries"), String::from("345")));
    let burger = MealItem::create(MenuItem::new(String::from("burger"), String::from("789")));
    order.add_meal_items(vec![fries.clone(), burger.clone()]);
    assert_eq!("1134", order.get_total_price().to_string());

    order.remove_meal_items(vec![fries.id()]);
    assert_eq!("789", order.get_total_price().to_string());

    // Removing the same item again changes nothing and reports nothing.
    let report = order.remove_meal_items(vec![fries.id()]);
    assert!(report.is_empty());
    assert_eq!("789", order.get_total_price().to_string());
}

#[test]
fn test_remove_preparing_item_keeps_totals() {
    let mut order = Order::new(1, vec![]);
    let mut burger = MealItem::create(MenuItem::new(String::from("burger"), String::from("789")));
    burger.update_state(MealItemStatus::Preparing);
    order.add_meal_items(vec![burger.clone()]);
    assert_eq!("789", order.get_total_price().to_string());

    let report = order.remove_meal_items(vec![burger.id()]);
    assert_eq!(vec![burger.id()], report);
    assert_eq!("789", order.get_total_price().to_string());
    assert!(!order.get_meal_items()[0].is_removed());
}

#[test]
fn test_remove_absent_item_is_reported() {
    let mut order = Order::new(1, vec![]);
    let report = order.remove_meal_items(vec![42]);
    assert_eq!(vec![42], report);
}
