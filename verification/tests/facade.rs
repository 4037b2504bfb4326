//! The metadata/query facade, the standing invariants on concrete runs, and
//! the read-only character of every query.

use ticketing::Error;
use ticketing::Principal;
use ticketing::Ticket;
use ticketing::TicketingSystem;

fn p(name: &str) -> Principal {
    Principal::new(name.to_string())
}

fn with_sales() -> TicketingSystem {
    let mut sys = TicketingSystem::new(p("root"));
    sys.create_event(
        &p("org"),
        "Concert".to_string(),
        2000,
        "Hall".to_string(),
        50,
        3,
        "An evening of music".to_string(),
        Some("https://example.test/poster.png".to_string()),
    )
    .unwrap();
    sys.purchase_ticket(&p("alice"), 1, 1000).unwrap();
    sys.purchase_ticket(&p("bob"), 1, 1001).unwrap();
    sys
}

#[test]
fn token_metadata_projection() {
    let mut sys = with_sales();
    let m = sys.get_token_metadata(1).unwrap();
    assert_eq!(m.token_id, 1);
    assert_eq!(m.owner, p("alice"));
    assert_eq!(m.metadata_blob, None);
    assert!(!m.is_approved);
    assert_eq!(m.properties.len(), 2);
    assert_eq!(m.properties[0], ("eventId".to_string(), "1".to_string()));
    assert_eq!(m.properties[1], ("isValid".to_string(), "true".to_string()));
    sys.invalidate_ticket(&p("org"), 1).unwrap();
    let m2 = sys.get_token_metadata(1).unwrap();
    assert_eq!(m2.properties[1], ("isValid".to_string(), "false".to_string()));
    assert!(sys.get_token_metadata(42).is_none());
}

#[test]
fn metadata_formats_large_ids_in_decimal() {
    let mut sys = with_sales();
    for _ in 0..11 {
        sys.create_event(
            &p("org"),
            "Extra".to_string(),
            2000,
            "Hall".to_string(),
            5,
            1,
            "One more show".to_string(),
            None,
        )
        .unwrap();
    }
    sys.purchase_ticket(&p("alice"), 12, 1000).unwrap();
    let m = sys.get_token_metadata(3).unwrap();
    assert_eq!(m.properties[0], ("eventId".to_string(), "12".to_string()));
    assert_eq!(sys.total_supply(), 3);
}

#[test]
fn supply_balances_and_owners() {
    let sys = with_sales();
    assert_eq!(sys.total_supply(), 2);
    assert_eq!(sys.balance_of(&p("alice")), 1);
    assert_eq!(sys.balance_of(&p("bob")), 1);
    assert_eq!(sys.balance_of(&p("nobody")), 0);
    assert_eq!(sys.owner_of(1), Some(p("alice")));
    assert_eq!(sys.owner_of(2), Some(p("bob")));
    assert_eq!(sys.owner_of(3), None);
    assert_eq!(sys.tokens_of(&p("alice")), vec![1]);
    assert_eq!(sys.tokens_of(&p("nobody")), Vec::<u64>::new());
}

#[test]
fn tokens_keep_purchase_order() {
    let mut sys = with_sales();
    sys.purchase_ticket(&p("alice"), 1, 1002).unwrap();
    assert_eq!(sys.tokens_of(&p("alice")), vec![1, 3]);
    let owned = sys.get_user_tickets(&p("alice"));
    let ids: Vec<u64> = owned.iter().map(|t| t.token_id).collect();
    assert_eq!(ids, vec![1, 3]);
}

#[test]
fn event_tickets_listing() {
    let sys = with_sales();
    let ts = sys.get_event_tickets(1);
    assert_eq!(ts.len(), 2);
    assert_eq!(ts[0].token_id, 1);
    assert_eq!(ts[1].token_id, 2);
    assert!(sys.get_event_tickets(9).is_empty());
}

#[test]
fn organizer_events_listing() {
    let mut sys = with_sales();
    sys.create_event(
        &p("org"),
        "Matinee".to_string(),
        3000,
        "Hall".to_string(),
        20,
        1,
        "Afternoon show".to_string(),
        None,
    )
    .unwrap();
    let evs = sys.get_organizer_events(&p("org"));
    assert_eq!(evs.len(), 2);
    assert_eq!(evs[0].event_id, 1);
    assert_eq!(evs[1].event_id, 2);
    assert!(sys.get_organizer_events(&p("alice")).is_empty());
}

#[test]
fn event_stats_aggregation() {
    let mut sys = with_sales();
    sys.invalidate_ticket(&p("org"), 2).unwrap();
    assert!(matches!(
        sys.get_event_stats(&p("alice"), 1),
        Err(Error::NotAuthorized)
    ));
    assert!(matches!(
        sys.get_event_stats(&p("org"), 9),
        Err(Error::NotFound)
    ));
    // sold = 2 at price 50 each; one ticket invalidated.
    assert_eq!(sys.get_event_stats(&p("org"), 1), Ok((2, 100, 1)));
    // The platform owner holds Admin and is allowed as well.
    assert_eq!(sys.get_event_stats(&p("root"), 1), Ok((2, 100, 1)));
}

#[test]
fn availability_never_exceeds_total() {
    let mut sys = with_sales();
    let check = |sys: &TicketingSystem| {
        let ev = sys.get_event(1).unwrap();
        assert!(ev.available_tickets <= ev.total_tickets);
    };
    check(&sys);
    sys.purchase_ticket(&p("carol"), 1, 1002).unwrap();
    check(&sys);
    assert!(matches!(
        sys.purchase_ticket(&p("dan"), 1, 1002),
        Err(Error::SoldOut)
    ));
    check(&sys);
    sys.update_event(
        &p("org"),
        1,
        None,
        None,
        None,
        None,
        Some(4),
        None,
        None,
        None,
        1000,
    )
    .unwrap();
    check(&sys);
}

#[test]
fn owner_always_matches_last_history_entry() {
    let mut sys = with_sales();
    let check = |t: &Ticket| {
        assert_eq!(&t.owner, &t.purchase_history.last().unwrap().to);
    };
    check(&sys.get_ticket(1).unwrap());
    sys.list_ticket_for_resale(&p("alice"), 1, 55).unwrap();
    check(&sys.get_ticket(1).unwrap());
    sys.buy_resale_ticket(&p("carol"), 1, 1100).unwrap();
    check(&sys.get_ticket(1).unwrap());
    sys.transfer_ticket(&p("carol"), 1, p("dan"), 1200).unwrap();
    check(&sys.get_ticket(1).unwrap());
    sys.invalidate_ticket(&p("org"), 1).unwrap();
    check(&sys.get_ticket(1).unwrap());
}

#[test]
fn owner_index_matches_ownership() {
    let mut sys = with_sales();
    sys.purchase_ticket(&p("alice"), 1, 1002).unwrap();
    sys.transfer_ticket(&p("alice"), 1, p("bob"), 1100).unwrap();
    sys.list_ticket_for_resale(&p("bob"), 2, 60).unwrap();
    sys.buy_resale_ticket(&p("alice"), 2, 1100).unwrap();
    // For every principal, the index lists exactly the tokens whose current
    // owner that principal is.
    for name in ["root", "org", "alice", "bob", "carol"] {
        let who = p(name);
        let listed = sys.tokens_of(&who);
        let owned: Vec<u64> = (1..=sys.total_supply())
            .filter(|tid| sys.owner_of(*tid) == Some(p(name)))
            .collect();
        let mut sorted = listed.clone();
        sorted.sort();
        assert_eq!(sorted, owned);
        assert_eq!(listed.len() as u64, sys.balance_of(&who));
    }
}

#[test]
fn queries_do_not_mutate() {
    let mut sys = with_sales();
    sys.list_ticket_for_resale(&p("alice"), 1, 55).unwrap();
    let snapshot = |sys: &TicketingSystem| {
        (
            (
                sys.total_supply(),
                sys.balance_of(&p("alice")),
                sys.tokens_of(&p("alice")),
                sys.owner_of(1),
                sys.verify_ticket(1, &p("alice")),
                sys.get_ticket(1).map(|t| (t.token_id, t.current_price, t.purchase_history.len())),
                sys.get_event(1).map(|e| (e.available_tickets, e.total_tickets)),
            ),
            (
                sys.get_user_role(&p("root")),
                sys.get_event_stats(&p("org"), 1),
                sys.get_token_metadata(1).map(|m| m.properties),
                sys.get_event_tickets(1).len(),
                sys.get_user_tickets(&p("alice")).len(),
                sys.get_organizer_events(&p("org")).len(),
            ),
        )
    };
    let before = snapshot(&sys);
    let again = snapshot(&sys);
    assert_eq!(before, again);
}
