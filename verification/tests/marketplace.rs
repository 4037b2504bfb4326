//! End-to-end behaviour of the marketplace store: event registry, ticket
//! lifecycle, authorization and the query facade.

use ticketing::current_time;
use ticketing::Error;
use ticketing::Principal;
use ticketing::Role;
use ticketing::TicketingSystem;

fn p(name: &str) -> Principal {
    Principal::new(name.to_string())
}

/// A store whose platform owner (and seeded admin) is "root".
fn fresh() -> TicketingSystem {
    TicketingSystem::new(p("root"))
}

/// A store with one event: organizer "org", price 50, two tickets, date 2000.
fn with_event(total: u64) -> TicketingSystem {
    let mut sys = fresh();
    let ev = sys
        .create_event(
            &p("org"),
            "Concert".to_string(),
            2000,
            "Hall".to_string(),
            50,
            total,
            "An evening of music".to_string(),
            None,
        )
        .unwrap();
    assert_eq!(ev.event_id, 1);
    sys
}

#[test]
fn create_event_initial_state() {
    let sys = with_event(2);
    let ev = sys.get_event(1).unwrap();
    assert_eq!(ev.name, "Concert");
    assert_eq!(ev.date, 2000);
    assert_eq!(ev.venue, "Hall");
    assert_eq!(ev.price, 50);
    assert_eq!(ev.total_tickets, 2);
    assert_eq!(ev.available_tickets, 2);
    assert_eq!(ev.organizer, p("org"));
    assert!(ev.is_active);
    assert_eq!(ev.image_url, None);
    assert!(matches!(sys.get_event(2), Err(Error::NotFound)));
}

#[test]
fn three_purchases_sell_out() {
    let mut sys = with_event(2);
    assert!(sys.purchase_ticket(&p("alice"), 1, 1000).is_ok());
    assert!(sys.purchase_ticket(&p("bob"), 1, 1000).is_ok());
    assert!(matches!(
        sys.purchase_ticket(&p("carol"), 1, 1000),
        Err(Error::SoldOut)
    ));
    let ev = sys.get_event(1).unwrap();
    assert_eq!(ev.available_tickets, 0);
    assert_eq!(ev.total_tickets, 2);
}

#[test]
fn raising_total_after_sales() {
    let mut sys = with_event(2);
    sys.purchase_ticket(&p("alice"), 1, 1000).unwrap();
    sys.purchase_ticket(&p("bob"), 1, 1000).unwrap();
    let ev = sys
        .update_event(
            &p("org"),
            1,
            None,
            None,
            None,
            None,
            Some(5),
            None,
            None,
            None,
            1000,
        )
        .unwrap();
    assert_eq!(ev.total_tickets, 5);
    assert_eq!(ev.available_tickets, 3);
}

#[test]
fn lowering_total_rejected() {
    let mut sys = with_event(2);
    let r = sys.update_event(
        &p("org"),
        1,
        None,
        None,
        None,
        None,
        Some(1),
        None,
        None,
        None,
        1000,
    );
    assert!(matches!(r, Err(Error::InvalidOperation)));
    assert_eq!(sys.get_event(1).unwrap().total_tickets, 2);
}

#[test]
fn resale_cap_boundary() {
    let mut sys = with_event(2);
    let mut sys = {
        // An event priced exactly at 100 so the cap is floor(100 * 1.2).
        let ev = sys
            .create_event(
                &p("org"),
                "Recital".to_string(),
                2000,
                "Hall".to_string(),
                100,
                2,
                "Solo evening".to_string(),
                None,
            )
            .unwrap();
        assert_eq!(ev.event_id, 2);
        sys
    };
    let t = sys.purchase_ticket(&p("alice"), 2, 1000).unwrap();
    assert_eq!(t.original_price, 100);
    assert!(matches!(
        sys.list_ticket_for_resale(&p("alice"), t.token_id, 121),
        Err(Error::LimitExceeded)
    ));
    let listed = sys
        .list_ticket_for_resale(&p("alice"), t.token_id, 120)
        .unwrap();
    assert_eq!(listed.current_price, 120);
    assert_eq!(listed.original_price, 100);
}

#[test]
fn update_event_requires_authorization() {
    let mut sys = with_event(2);
    let r = sys.update_event(
        &p("mallory"),
        1,
        Some("Hijacked".to_string()),
        None,
        None,
        None,
        None,
        None,
        None,
        None,
        1000,
    );
    assert!(matches!(r, Err(Error::NotAuthorized)));
    assert_eq!(sys.get_event(1).unwrap().name, "Concert");
}

#[test]
fn admin_may_update_foreign_event() {
    let mut sys = with_event(2);
    let ev = sys
        .update_event(
            &p("root"),
            1,
            None,
            None,
            Some("Arena".to_string()),
            Some(75),
            None,
            None,
            None,
            None,
            1000,
        )
        .unwrap();
    assert_eq!(ev.venue, "Arena");
    assert_eq!(ev.price, 75);
    // Untouched fields keep their values.
    assert_eq!(ev.name, "Concert");
    assert_eq!(ev.date, 2000);
}

#[test]
fn update_event_field_validation() {
    let mut sys = with_event(2);
    let empty_name = sys.update_event(
        &p("org"),
        1,
        Some(String::new()),
        None,
        None,
        None,
        None,
        None,
        None,
        None,
        1000,
    );
    assert!(matches!(empty_name, Err(Error::InvalidOperation)));
    let past_date = sys.update_event(
        &p("org"),
        1,
        None,
        Some(500),
        None,
        None,
        None,
        None,
        None,
        None,
        1000,
    );
    assert!(matches!(past_date, Err(Error::InvalidOperation)));
    assert!(matches!(
        sys.update_event(
            &p("org"),
            99,
            None,
            None,
            None,
            None,
            None,
            None,
            None,
            None,
            1000
        ),
        Err(Error::NotFound)
    ));
}

#[test]
fn self_transfer_rejected() {
    let mut sys = with_event(2);
    let t = sys.purchase_ticket(&p("alice"), 1, 1000).unwrap();
    let r = sys.transfer_ticket(&p("alice"), t.token_id, p("alice"), 1100);
    assert!(matches!(r, Err(Error::InvalidOperation)));
    assert_eq!(sys.owner_of(t.token_id), Some(p("alice")));
}

#[test]
fn transfer_moves_ownership_and_history() {
    let mut sys = with_event(2);
    let t = sys.purchase_ticket(&p("alice"), 1, 1000).unwrap();
    let moved = sys
        .transfer_ticket(&p("alice"), t.token_id, p("bob"), 1100)
        .unwrap();
    assert_eq!(moved.owner, p("bob"));
    assert_eq!(moved.purchase_history.len(), 2);
    let last = &moved.purchase_history[1];
    assert_eq!(last.from, p("alice"));
    assert_eq!(last.to, p("bob"));
    assert_eq!(last.price, 0);
    assert_eq!(last.timestamp, 1100);
    // Only the current owner may transfer.
    assert!(matches!(
        sys.transfer_ticket(&p("alice"), t.token_id, p("carol"), 1200),
        Err(Error::NotAuthorized)
    ));
}

#[test]
fn resale_purchase_flow() {
    let mut sys = with_event(2);
    let t = sys.purchase_ticket(&p("alice"), 1, 1000).unwrap();
    sys.list_ticket_for_resale(&p("alice"), t.token_id, 55)
        .unwrap();
    // The seller cannot buy their own listing.
    assert!(matches!(
        sys.buy_resale_ticket(&p("alice"), t.token_id, 1100),
        Err(Error::InvalidOperation)
    ));
    let bought = sys.buy_resale_ticket(&p("bob"), t.token_id, 1100).unwrap();
    assert_eq!(bought.owner, p("bob"));
    assert_eq!(bought.purchase_history.len(), 2);
    assert_eq!(bought.purchase_history[1].from, p("alice"));
    assert_eq!(bought.purchase_history[1].to, p("bob"));
    assert_eq!(bought.purchase_history[1].price, 55);
    assert_eq!(sys.tokens_of(&p("alice")), Vec::<u64>::new());
    assert_eq!(sys.tokens_of(&p("bob")), vec![t.token_id]);
    assert!(matches!(
        sys.buy_resale_ticket(&p("carol"), 99, 1100),
        Err(Error::NotFound)
    ));
}

#[test]
fn resale_blocked_on_inactive_or_past_event() {
    let mut sys = with_event(2);
    let t = sys.purchase_ticket(&p("alice"), 1, 1000).unwrap();
    // Past the event date.
    assert!(matches!(
        sys.buy_resale_ticket(&p("bob"), t.token_id, 2500),
        Err(Error::InvalidOperation)
    ));
    sys.cancel_event(&p("org"), 1).unwrap();
    assert!(matches!(
        sys.buy_resale_ticket(&p("bob"), t.token_id, 1100),
        Err(Error::InvalidOperation)
    ));
}

#[test]
fn purchase_errors() {
    let mut sys = with_event(2);
    assert!(matches!(
        sys.purchase_ticket(&p("alice"), 7, 1000),
        Err(Error::NotFound)
    ));
    // Past the event date.
    assert!(matches!(
        sys.purchase_ticket(&p("alice"), 1, 2500),
        Err(Error::InvalidOperation)
    ));
    sys.cancel_event(&p("org"), 1).unwrap();
    assert!(matches!(
        sys.purchase_ticket(&p("alice"), 1, 1000),
        Err(Error::InvalidOperation)
    ));
}

#[test]
fn cancel_event_flow() {
    let mut sys = with_event(2);
    let t = sys.purchase_ticket(&p("alice"), 1, 1000).unwrap();
    assert!(matches!(
        sys.cancel_event(&p("mallory"), 1),
        Err(Error::NotAuthorized)
    ));
    assert_eq!(sys.cancel_event(&p("org"), 1), Ok(true));
    let ev = sys.get_event(1).unwrap();
    assert!(!ev.is_active);
    // Cancellation neither invalidates tickets nor refunds.
    assert_eq!(ev.available_tickets, 1);
    assert_eq!(sys.verify_ticket(t.token_id, &p("alice")), Ok(true));
    assert!(matches!(
        sys.cancel_event(&p("org"), 9),
        Err(Error::NotFound)
    ));
}

#[test]
fn invalidate_authorization_is_owner_based() {
    let mut sys = with_event(2);
    let t = sys.purchase_ticket(&p("alice"), 1, 1000).unwrap();
    // An Admin who is neither organizer nor platform owner is refused:
    // invalidation is deliberately not role-based.
    sys.assign_role(&p("root"), p("admin2"), Role::Admin).unwrap();
    assert!(matches!(
        sys.invalidate_ticket(&p("admin2"), t.token_id),
        Err(Error::NotAuthorized)
    ));
    // The organizer may invalidate.
    let dead = sys.invalidate_ticket(&p("org"), t.token_id).unwrap();
    assert!(!dead.is_valid);
    assert_eq!(sys.verify_ticket(t.token_id, &p("alice")), Ok(false));
    // The platform owner may too (idempotent on an already-invalid ticket).
    let dead2 = sys.invalidate_ticket(&p("root"), t.token_id).unwrap();
    assert!(!dead2.is_valid);
    assert!(matches!(
        sys.invalidate_ticket(&p("org"), 42),
        Err(Error::NotFound)
    ));
}

#[test]
fn verify_ticket_checks_owner_and_validity() {
    let mut sys = with_event(2);
    let t = sys.purchase_ticket(&p("alice"), 1, 1000).unwrap();
    assert_eq!(sys.verify_ticket(t.token_id, &p("alice")), Ok(true));
    assert_eq!(sys.verify_ticket(t.token_id, &p("bob")), Ok(false));
    assert!(matches!(
        sys.verify_ticket(99, &p("alice")),
        Err(Error::NotFound)
    ));
}

#[test]
fn role_assignment() {
    let mut sys = fresh();
    assert_eq!(sys.get_user_role(&p("root")), Role::Admin);
    assert_eq!(sys.get_user_role(&p("alice")), Role::User);
    assert!(matches!(
        sys.assign_role(&p("alice"), p("bob"), Role::Admin),
        Err(Error::NotAuthorized)
    ));
    assert_eq!(sys.assign_role(&p("root"), p("bob"), Role::Organizer), Ok(true));
    assert_eq!(sys.get_user_role(&p("bob")), Role::Organizer);
    // Overwrites are unconditional.
    assert_eq!(sys.assign_role(&p("root"), p("bob"), Role::User), Ok(true));
    assert_eq!(sys.get_user_role(&p("bob")), Role::User);
}

#[test]
fn clock_reads_unix_seconds() {
    // Any running host clock reads later than 2001.
    let now = current_time();
    assert!(now > 1_000_000_000);
}
