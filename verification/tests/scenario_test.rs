use table_orders::cooking::job_check;
use table_orders::meal::{MealItem, MealItemStatus};
use table_orders::menu::{Menu, MenuItem};
use table_orders::order::Order;
use table_orders::pool::{JobSpec, WorkerPool};
use table_orders::repo::{MenuRepo, OrderRepo};
use table_orders::resp::OrderResp;

#[test]
fn test_add_meal_items_without_order_then_query_new_order() {
    let mut repo = OrderRepo::new();

    // Table 1 has no order yet: adding items reports existed=false.
    let fries = MealItem::create(MenuItem::new(String::from("fries"), String::from("345")));
    let existed = repo.add_order_meal_items(1, vec![fries]);
    assert!(!existed);

    // An order for table 1 with one item priced 345 cents.
    let order = Order::new(1, vec![MenuItem::new(String::from("fries"), String::from("345"))]);
    repo.add(order);

    let fetched = repo.get_order_by_table_id(1).expect("order for table 1");
    let view = OrderResp::new(fetched, false);
    assert_eq!("345", view.total_price);
    assert_eq!("Received", view.status);
    assert_eq!(1, view.meal_items.len());
    assert_eq!("fries", view.meal_items[0].name);
}

#[test]
fn test_pool_runs_at_most_pool_size_jobs() {
    // Three cooking jobs submitted to a pool of two workers: at most two
    // run at any moment, and all three end Completed.
    let mut repo = OrderRepo::new();
    let mut order = Order::new(4, vec![]);
    let mut items = Vec::new();
    for name in ["fries", "burger", "shake"] {
        let item = MealItem::create(MenuItem::new(String::from(name), String::from("345")));
        items.push(item.clone());
        order.add_meal_items(vec![item]);
    }
    repo.add(order);

    let mut pool = WorkerPool::new(2);
    for item in items.iter() {
        pool.submit(JobSpec { table_id: 4, meal_item_id: item.id() });
    }
    assert_eq!(3, pool.pending_count());

    let mut started: Vec<(usize, JobSpec)> = Vec::new();
    let mut max_seen_running = 0;
    loop {
        // Idle workers pick up work while any is pending.
        for worker in 0..2usize {
            if !started.iter().any(|(w, _)| *w == worker) {
                if let Some(job) = pool.take_job(worker) {
                    let minutes = job_check(&repo, job).expect("item still present");
                    assert!((5..=15).contains(&minutes));
                    let ok = repo.update_order_meal_item_status(
                        job.table_id,
                        job.meal_item_id,
                        MealItemStatus::Preparing,
                    );
                    assert!(ok);
                    started.push((worker, job));
                }
            }
        }
        if pool.running() > max_seen_running {
            max_seen_running = pool.running();
        }
        assert!(pool.running() <= 2);
        match started.pop() {
            Some((worker, job)) => {
                // The cooking wait elapses, then the final transition.
                let ok = repo.update_order_meal_item_status(
                    job.table_id,
                    job.meal_item_id,
                    MealItemStatus::Completed,
                );
                assert!(ok);
                pool.finish_job(worker);
            }
            None => break,
        }
        if pool.pending_count() == 0 && started.is_empty() && pool.running() == 0 {
            break;
        }
    }
    assert_eq!(2, max_seen_running);

    let order = repo.get_order_by_table_id(4).expect("order for table 4");
    for item in order.get_meal_items() {
        assert_eq!(MealItemStatus::Completed, item.get_status());
    }
}

#[test]
fn test_removal_racing_the_preparing_transition() {
    // The worker passes its removed-check, then a removal call gets in
    // before the Preparing write: the write still lands, the item stays
    // removed, and its price is not added back to the totals.
    let mut repo = OrderRepo::new();
    let item = MealItem::create(MenuItem::new(String::from("fries"), String::from("345")));
    let mut order = Order::new(3, vec![]);
    order.add_meal_items(vec![item.clone()]);
    repo.add(order);

    let job = JobSpec { table_id: 3, meal_item_id: item.id() };
    let minutes = job_check(&repo, job).expect("not removed at check time");
    assert!((5..=15).contains(&minutes));

    // The racing removal: the item is still Received, so it goes through
    // and its price leaves the totals.
    let (non_removable, existed) = repo.remove_order_meal_items(3, vec![item.id()]);
    assert!(existed);
    assert!(non_removable.is_empty());

    // The worker proceeds with the Preparing write it already decided on.
    let ok = repo.update_order_meal_item_status(3, item.id(), MealItemStatus::Preparing);
    assert!(ok);

    let fetched = repo.get_order_meal_item(3, item.id()).expect("item still stored");
    assert!(fetched.is_removed());
    assert_eq!(MealItemStatus::Preparing, fetched.get_status());

    let order = repo.get_order_by_table_id(3).expect("order for table 3");
    assert_eq!("0", order.get_total_price().to_string());

    // The final transition is accepted and just as harmless.
    let ok = repo.update_order_meal_item_status(3, item.id(), MealItemStatus::Completed);
    assert!(ok);
    let order = repo.get_order_by_table_id(3).expect("order for table 3");
    assert_eq!("0", order.get_total_price().to_string());
}

#[test]
fn test_pool_shutdown_is_idempotent() {
    let mut pool = WorkerPool::new(1);
    assert!(pool.is_open());
    pool.submit(JobSpec { table_id: 1, meal_item_id: 1 });
    pool.shutdown();
    assert!(!pool.is_open());
    pool.shutdown();
    assert!(!pool.is_open());
    // Pending work survives shutdown for the workers to drain.
    assert_eq!(1, pool.pending_count());
}

#[test]
fn test_menu_repo_round_trip() {
    let mut repo = MenuRepo::new();
    let menu = Menu::new(
        String::from("fast food menu"),
        vec![
            MenuItem::new(String::from("burger"), String::from("855")),
            MenuItem::new(String::from("fries"), String::from("349")),
        ],
    );
    let id = menu.id();
    assert!(repo.get(id).is_none());
    repo.add(menu);
    assert!(repo.get(id).is_some());
}

#[test]
fn test_order_resp_hides_removed_items() {
    let mut order = Order::new(5, vec![]);
    let fries = MealItem::create(MenuItem::new(String::from("fries"), String::from("345")));
    let burger = MealItem::create(MenuItem::new(String::from("burger"), String::from("789")));
    order.add_meal_items(vec![fries.clone(), burger.clone()]);
    order.remove_meal_items(vec![fries.id()]);

    let hidden = OrderResp::new(order.clone(), false);
    assert_eq!(1, hidden.meal_items.len());
    assert_eq!("burger", hidden.meal_items[0].name);
    assert_eq!("789", hidden.meal_items[0].price);

    let shown = OrderResp::new(order, true);
    assert_eq!(2, shown.meal_items.len());
}

#[test]
fn test_order_resp_remaining_time_skips_completed() {
    let mut order = Order::new(6, vec![]);
    let fries = MealItem::create(MenuItem::new(String::from("fries"), String::from("345")));
    let burger = MealItem::create(MenuItem::new(String::from("burger"), String::from("789")));
    order.add_meal_items(vec![fries.clone(), burger.clone()]);
    order.update_meal_item_status(fries.id(), MealItemStatus::Completed);

    let view = OrderResp::new(order, false);
    assert_eq!(burger.cooking_time_in_min(), view.remaining_cooking_time_upper_bound_in_min);
}
