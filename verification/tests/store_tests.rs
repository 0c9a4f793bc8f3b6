use ticket_store::codec::{encode, payload_within_bounds};
use ticket_store::store::{check_entries, check_fresh, TicketStore};
use ticket_store::ticket::{Error, FatalError, Ticket, TicketPayload};

fn payload(event: &str, price: u64, seat: &str) -> TicketPayload {
    TicketPayload { event: event.to_string(), price, seat: seat.to_string() }
}

#[test]
fn get_on_fresh_store_not_found() {
    let store = TicketStore::new().unwrap();
    assert_eq!(store.get_ticket(1), Err(Error::NotFound { id: 1 }));
    assert_eq!(store.get_ticket(0), Err(Error::NotFound { id: 0 }));
    assert_eq!(store.get_ticket(42), Err(Error::NotFound { id: 42 }));
    assert_eq!(store._get_ticket(&7), None);
}

#[test]
fn create_then_get_returns_equal_record() {
    let mut store = TicketStore::new().unwrap();
    let created = store.add_ticket(payload("Opera", 120, "B12"), 555).unwrap();
    assert_eq!(created.id, 1);
    assert_eq!(created.event, "Opera");
    assert_eq!(created.price, 120);
    assert_eq!(created.seat, "B12");
    assert_eq!(created.created_at, 555);
    assert_eq!(created.updated_at, None);
    let fetched = store.get_ticket(created.id).unwrap();
    assert_eq!(fetched, created);
    assert_eq!(store._get_ticket(&created.id), Some(created));
}

#[test]
fn update_replaces_fields_and_keeps_created_at() {
    let mut store = TicketStore::new().unwrap();
    let created = store.add_ticket(payload("Play", 10, "C3"), 1000).unwrap();
    let updated = store.update_ticket(created.id, payload("Play II", 15, "C4"), 2000).unwrap();
    assert_eq!(updated.id, created.id);
    assert_eq!(updated.created_at, 1000);
    assert!(updated.updated_at.unwrap() >= 2000);
    assert_eq!(updated.event, "Play II");
    assert_eq!(updated.price, 15);
    assert_eq!(updated.seat, "C4");
    assert_eq!(store.get_ticket(created.id).unwrap(), updated);
}

#[test]
fn update_missing_id_reports_not_found() {
    let mut store = TicketStore::new().unwrap();
    let r = store.update_ticket(9, payload("X", 1, "Y"), 10);
    assert_eq!(r, Err(Error::NotFound { id: 9 }));
}

#[test]
fn delete_then_get_not_found_and_second_delete_not_found() {
    let mut store = TicketStore::new().unwrap();
    let created = store.add_ticket(payload("Expo", 5, "D1"), 7).unwrap();
    let removed = store.delete_ticket(created.id).unwrap();
    assert_eq!(removed, created);
    assert_eq!(store.get_ticket(created.id), Err(Error::NotFound { id: created.id }));
    assert_eq!(store.delete_ticket(created.id), Err(Error::NotFound { id: created.id }));
}

#[test]
fn ids_are_strictly_increasing_and_never_reused() {
    let mut store = TicketStore::new().unwrap();
    let a = store.add_ticket(payload("A", 1, "a"), 1).unwrap();
    let b = store.add_ticket(payload("B", 2, "b"), 2).unwrap();
    let c = store.add_ticket(payload("C", 3, "c"), 3).unwrap();
    assert!(a.id < b.id && b.id < c.id);
    assert_eq!((a.id, b.id, c.id), (1, 2, 3));
    store.delete_ticket(b.id).unwrap();
    store.delete_ticket(c.id).unwrap();
    let d = store.add_ticket(payload("D", 4, "d"), 4).unwrap();
    assert_eq!(d.id, 4);
}

#[test]
fn last_assigned_id_tracks_creates() {
    let mut store = TicketStore::new().unwrap();
    assert_eq!(store.last_assigned_id(), 0);
    store.add_ticket(payload("A", 1, "a"), 1).unwrap();
    store.add_ticket(payload("B", 2, "b"), 2).unwrap();
    assert_eq!(store.last_assigned_id(), 2);
    store.delete_ticket(1).unwrap();
    assert_eq!(store.last_assigned_id(), 2);
}

#[test]
fn payload_bounds_check() {
    assert!(payload_within_bounds(&payload("Gig", 50, "A1")));
    let long_event = "e".repeat(975);
    assert!(payload_within_bounds(&payload(&long_event, 1, "")));
    assert!(!payload_within_bounds(&payload(&long_event, 1, "x")));
    let long_seat = "s".repeat(2000);
    assert!(!payload_within_bounds(&payload("Gig", 1, &long_seat)));
}

#[test]
fn crud_example() {
    let mut store = TicketStore::new().unwrap();
    let t0 = 42;
    let created = store.add_ticket(payload("Gig", 50, "A1"), t0).unwrap();
    assert_eq!(created.id, 1);
    assert_eq!(created.event, "Gig");
    assert_eq!(created.price, 50);
    assert_eq!(created.seat, "A1");
    assert_eq!(created.created_at, t0);
    assert_eq!(created.updated_at, None);

    let t2 = 99;
    let updated = store.update_ticket(1, payload("Gig2", 60, "A1"), t2).unwrap();
    assert_eq!(updated.id, 1);
    assert_eq!(updated.event, "Gig2");
    assert_eq!(updated.price, 60);
    assert_eq!(updated.seat, "A1");
    assert_eq!(updated.created_at, t0);
    assert_eq!(updated.updated_at, Some(t2));

    let removed = store.delete_ticket(1).unwrap();
    assert_eq!(removed, updated);
    assert_eq!(store.get_ticket(1), Err(Error::NotFound { id: 1 }));
}

#[test]
fn check_entries_accepts_well_formed_state_and_names_the_fault() {
    assert_eq!(check_entries(&vec![], 0), Ok(()));

    let t = Ticket {
        id: 3,
        event: "Gig".to_string(),
        price: 50,
        seat: "A1".to_string(),
        created_at: 7,
        updated_at: None,
    };
    let good = vec![(3u64, encode(&t))];
    assert_eq!(check_entries(&good, 3), Ok(()));

    // The entry decodes but its key exceeds the counter.
    assert_eq!(check_entries(&good, 2), Err(FatalError::CounterBehindMap));

    // The entry's bytes do not decode to a record.
    let garbage = vec![(3u64, vec![0u8; 10])];
    assert_eq!(check_entries(&garbage, 3), Err(FatalError::CorruptRecord { id: 3 }));

    // The entry decodes to a record keyed under another identifier.
    let misfiled = vec![(4u64, encode(&t))];
    assert_eq!(check_entries(&misfiled, 9), Err(FatalError::CorruptRecord { id: 4 }));
}

#[test]
fn check_fresh_accepts_only_untouched_state() {
    assert_eq!(check_fresh(0, 0), Ok(()));
    assert_eq!(check_fresh(1, 0), Err(FatalError::RegionNotFresh));
    assert_eq!(check_fresh(0, 2), Err(FatalError::RegionNotFresh));
}
