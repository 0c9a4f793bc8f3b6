use ticket_store::store::TicketStore;
use ticket_store::ticket::{Error, TicketPayload};

fn payload(event: &str, price: u64, seat: &str) -> TicketPayload {
    TicketPayload { event: event.to_string(), price, seat: seat.to_string() }
}

#[test]
fn reopening_reproduces_records_and_counter() {
    let mut store = TicketStore::new().unwrap();
    let a = store.add_ticket(payload("A", 1, "a"), 10).unwrap();
    let b = store.add_ticket(payload("B", 2, "b"), 20).unwrap();
    let c = store.add_ticket(payload("C", 3, "c"), 30).unwrap();
    let b2 = store.update_ticket(b.id, payload("B2", 22, "b2"), 40).unwrap();
    store.delete_ticket(c.id).unwrap();

    // Reconstruct the store from the same underlying region, as a process
    // restart would.
    let region = store.into_region();
    let mut reopened = TicketStore::open(region).unwrap();

    assert_eq!(reopened.get_ticket(a.id).unwrap(), a);
    assert_eq!(reopened.get_ticket(b.id).unwrap(), b2);
    assert_eq!(reopened.get_ticket(c.id), Err(Error::NotFound { id: c.id }));
    assert_eq!(reopened.last_assigned_id(), 3);

    // The next identifier continues past every identifier ever assigned.
    let d = reopened.add_ticket(payload("D", 4, "d"), 50).unwrap();
    assert_eq!(d.id, 4);
}

#[test]
fn reopening_an_empty_store_stays_empty() {
    let store = TicketStore::new().unwrap();
    let region = store.into_region();
    let mut reopened = TicketStore::open(region).unwrap();
    assert_eq!(reopened.get_ticket(1), Err(Error::NotFound { id: 1 }));
    assert_eq!(reopened.last_assigned_id(), 0);
    let first = reopened.add_ticket(payload("First", 9, "f"), 60).unwrap();
    assert_eq!(first.id, 1);
}

#[test]
fn counter_survives_restart_even_after_deleting_everything() {
    let mut store = TicketStore::new().unwrap();
    let a = store.add_ticket(payload("A", 1, "a"), 1).unwrap();
    let b = store.add_ticket(payload("B", 2, "b"), 2).unwrap();
    store.delete_ticket(a.id).unwrap();
    store.delete_ticket(b.id).unwrap();

    let region = store.into_region();
    let mut reopened = TicketStore::open(region).unwrap();
    assert_eq!(reopened.last_assigned_id(), 2);
    let c = reopened.add_ticket(payload("C", 3, "c"), 3).unwrap();
    assert_eq!(c.id, 3);
}

#[test]
fn reopening_twice_is_stable() {
    let mut store = TicketStore::new().unwrap();
    let a = store.add_ticket(payload("A", 1, "a"), 1).unwrap();
    let once = TicketStore::open(store.into_region()).unwrap();
    let twice = TicketStore::open(once.into_region()).unwrap();
    assert_eq!(twice.get_ticket(a.id).unwrap(), a);
    assert_eq!(twice.last_assigned_id(), 1);
}

#[test]
fn open_default_creates_a_working_store() {
    // On a host build the default region is fresh, so the store starts
    // empty and assigns identifier one first.
    let mut store = ticket_store::store::TicketStore::open_default().unwrap();
    assert_eq!(store.get_ticket(1), Err(Error::NotFound { id: 1 }));
    let t = store.add_ticket(payload("First", 9, "f"), 5).unwrap();
    assert_eq!(t.id, 1);
}
