use restaurant_orders::error::OrderError;
use restaurant_orders::order::{Order, OrderView};
use restaurant_orders::repository::{InMemoryRepository, Repository};
use restaurant_orders::service::{validate, validate_trimmed, OrderService};
use std::collections::HashSet;
use std::sync::{Arc, Mutex};

const MINUTE: i64 = 60_000;

fn service() -> OrderService<InMemoryRepository> {
    OrderService::new(InMemoryRepository::new())
}

fn validation_message(r: Result<(), OrderError>) -> String {
    match r {
        Err(OrderError::ValidationFailed(msg)) => msg,
        other => panic!("expected a validation failure, got {:?}", other),
    }
}

#[test]
fn validation_rules_in_order() {
    let mut s = service();
    assert_eq!(validation_message(s.add_order(0, "Sushi".to_string(), 2)), "Invalid table number");
    assert_eq!(validation_message(s.add_order(-3, "".to_string(), 0)), "Invalid table number");
    assert_eq!(validation_message(s.add_order(1, "".to_string(), 2)), "Menu item cannot be empty");
    assert_eq!(validation_message(s.add_order(1, "".to_string(), 0)), "Menu item cannot be empty");
    assert_eq!(
        validation_message(s.add_order(1, "Sushi".to_string(), 0)),
        "Quantity must be greater than 0"
    );
    assert!(s.add_order(1, "Sushi".to_string(), 2).is_ok());
    // nothing was stored for the refused requests
    assert_eq!(s.get_order(1).unwrap().menu_item, "Sushi");
    assert!(matches!(s.get_order(2), Err(OrderError::NotFound)));
}

#[test]
fn blank_menu_item_is_refused_after_trimming() {
    assert_eq!(validation_message(validate(4, "   \t ", 1)), "Menu item cannot be empty");
    assert!(validate(4, "  Gyoza ", 1).is_ok());
    assert_eq!(validation_message(validate_trimmed(4, "", 1)), "Menu item cannot be empty");
    assert!(validate_trimmed(4, "Gyoza", 1).is_ok());
    let mut s = service();
    assert!(s.add_order(2, "  ".to_string(), 1).is_err());
}

#[test]
fn round_trip_through_get_order() {
    let mut s = service();
    s.add_order(1, "Ramen".to_string(), 2).unwrap();
    let v = s.get_order(1).unwrap();
    assert_eq!(v.id, 1);
    assert_eq!(v.table_number, 1);
    assert_eq!(v.menu_item, "Ramen");
    assert_eq!(v.quantity, 2);
    assert!(v.time_to_cook >= 0 && v.time_to_cook <= 15);
}

#[test]
fn ids_start_at_one_and_increase() {
    let mut repo = InMemoryRepository::new();
    assert_eq!(repo.generate_id().unwrap(), 1);
    assert_eq!(repo.generate_id().unwrap(), 2);
    let mut s = service();
    for k in 0..5 {
        s.add_order(1 + k, "Tea".to_string(), 1).unwrap();
    }
    let ids: Vec<usize> = (1..=5).map(|i| s.get_order(i).unwrap().id).collect();
    assert_eq!(ids, vec![1, 2, 3, 4, 5]);
    assert!(s.get_order(6).is_err());
}

#[test]
fn delete_twice_succeeds() {
    let mut s = service();
    s.add_order(1, "Ramen".to_string(), 2).unwrap();
    s.add_order(5, "Udon".to_string(), 1).unwrap();
    assert!(s.remove_order(1).is_ok());
    assert!(s.remove_order(1).is_ok());
    assert!(matches!(s.get_order(1), Err(OrderError::NotFound)));
    // removal scans every table, not only table 1
    assert!(s.remove_order(2).is_ok());
    assert!(matches!(s.get_order(2), Err(OrderError::NotFound)));
    assert!(s.remove_order(99).is_ok());
}

#[test]
fn finished_orders_are_not_remaining() {
    let mut repo = InMemoryRepository::new();
    repo.add_at(7, "Miso".to_string(), 1, 0, 10 * MINUTE).unwrap();
    repo.add_at(7, "Tofu".to_string(), 2, 0, 30 * MINUTE).unwrap();
    repo.add_at(8, "Nori".to_string(), 3, 0, 30 * MINUTE).unwrap();
    let at = repo.remaining_at(7, 20 * MINUTE);
    assert_eq!(at.len(), 1);
    assert_eq!(at[0].menu_item, "Tofu");
    assert_eq!(repo.remaining_at(7, 5 * MINUTE).len(), 2);
    // an order finishing exactly now is no longer remaining
    assert_eq!(repo.remaining_at(7, 30 * MINUTE).len(), 0);
    // on the real clock, all of these finished long ago
    assert_eq!(repo.get_remaining_by_table_number(7).unwrap().len(), 0);
}

#[test]
fn future_orders_are_remaining() {
    let mut repo = InMemoryRepository::new();
    repo.add(3, "Sushi".to_string(), 2).unwrap();
    let left = repo.get_remaining_by_table_number(3).unwrap();
    assert_eq!(left.len(), 1);
    let v = OrderView::from_order(&left[0]);
    assert!(v.time_to_cook >= 0);
    assert_eq!(v.menu_item, "Sushi");
}

#[test]
fn time_to_cook_in_whole_minutes() {
    let o = Order::new(4, 2, "Soba".to_string(), 1, 0, 14 * MINUTE + 59_999);
    let v = OrderView::from_order_at(&o, 0);
    assert_eq!(v.time_to_cook, 14);
    assert_eq!(v.id, 4);
    assert_eq!(OrderView::from_order_at(&o, 14 * MINUTE + 59_999).time_to_cook, 0);
    assert_eq!(OrderView::from_order_at(&o, 20 * MINUTE).time_to_cook, 0);
    assert_eq!(OrderView::from_order_at(&o, 4 * MINUTE).time_to_cook, 10);
    let far = Order::new(1, 1, "Tea".to_string(), 1, i64::MIN, i64::MAX);
    assert_eq!(OrderView::from_order_at(&far, i64::MIN).time_to_cook, 307_445_734_561_825);
}

#[test]
fn cooking_time_is_drawn_in_range() {
    let mut repo = InMemoryRepository::new();
    for _ in 0..40 {
        repo.add(1, "Ramen".to_string(), 1).unwrap();
    }
    for id in 1..=40 {
        let o = repo.get(id).unwrap();
        let span = o.finished_at - o.created_at;
        assert!(span >= 5 * MINUTE && span <= 15 * MINUTE);
        assert_eq!(span % MINUTE, 0);
        // created on the real clock, after the start of 2020
        assert!(o.created_at > 1_577_836_800_000);
    }
}

#[test]
fn unknown_table_gives_empty_sequence() {
    let mut s = service();
    s.add_order(1, "Sushi".to_string(), 2).unwrap();
    let r = s.get_remaining_orders_by_table_number(999);
    assert!(r.is_ok());
    assert!(r.unwrap().is_empty());
}

#[test]
fn concurrent_adds_get_distinct_ids() {
    let s = Arc::new(Mutex::new(service()));
    let rt = tokio::runtime::Runtime::new().unwrap();
    let tasks: Vec<_> = (0..10)
        .map(|_| {
            let s = Arc::clone(&s);
            rt.spawn_blocking(move || s.lock().unwrap().add_order(1, "Sushi".to_string(), 1))
        })
        .collect();
    for t in tasks {
        assert!(rt.block_on(t).unwrap().is_ok());
    }
    let s = s.lock().unwrap();
    let views = s.get_remaining_orders_by_table_number(1).unwrap();
    assert_eq!(views.len(), 10);
    let ids: HashSet<usize> = views.iter().map(|v| v.id).collect();
    assert_eq!(ids.len(), 10);
    assert_eq!(ids, (1..=10).collect::<HashSet<usize>>());
    // in storage order, identifiers increase
    assert!(views.windows(2).all(|w| w[0].id < w[1].id));
}

#[test]
fn error_replies() {
    assert_eq!(OrderError::NotFound.http_status(), 404);
    assert_eq!(OrderError::NotFound.reply_message(), "NOT_FOUND");
    let v = OrderError::ValidationFailed("Invalid table number".to_string());
    assert_eq!(v.http_status(), 400);
    assert_eq!(v.reply_message(), "Invalid table number");
    let l = OrderError::LockFailed("poisoned".to_string());
    assert_eq!(l.http_status(), 500);
    assert_eq!(l.reply_message(), "poisoned");
    let d = OrderError::DatabaseError("full".to_string());
    assert_eq!(d.http_status(), 500);
    assert_eq!(d.reply_message(), "full");
}

#[test]
fn error_messages() {
    assert_eq!(OrderError::NotFound.message(), "Not found");
    assert_eq!(
        OrderError::LockFailed("poisoned".to_string()).message(),
        "Lock failed, reason: poisoned"
    );
    assert_eq!(
        OrderError::DatabaseError("full".to_string()).message(),
        "Database error, reason: full"
    );
    assert_eq!(
        OrderError::ValidationFailed("Invalid table number".to_string()).message(),
        "Validation failed, reason: Invalid table number"
    );
}
