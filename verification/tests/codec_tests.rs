use ticket_store::codec::{decode, encode};
use ticket_store::ticket::Ticket;

fn ticket(id: u64, event: &str, price: u64, seat: &str, created_at: u64, updated_at: Option<u64>) -> Ticket {
    Ticket { id, event: event.to_string(), price, seat: seat.to_string(), created_at, updated_at }
}

#[test]
fn round_trip_plain_record() {
    let t = ticket(1, "Gig", 50, "A1", 42, None);
    let bytes = encode(&t);
    assert_eq!(decode(&bytes), Some(t));
}

#[test]
fn round_trip_updated_record() {
    let t = ticket(7, "Gig2", 60, "A1", 42, Some(99));
    let bytes = encode(&t);
    assert_eq!(decode(&bytes), Some(t));
}

#[test]
fn round_trip_empty_and_unicode_text() {
    let t = ticket(3, "", 0, "", 0, None);
    let bytes = encode(&t);
    assert_eq!(decode(&bytes), Some(t));

    let u = ticket(u64::MAX, "Grüße 🎫", u64::MAX, "Reihe Å", u64::MAX, Some(u64::MAX));
    let bytes = encode(&u);
    assert_eq!(decode(&bytes), Some(u));
}

#[test]
fn encoded_size_never_exceeds_bound() {
    let event = "e".repeat(900);
    let seat = "s".repeat(75);
    let t = ticket(5, &event, 1, &seat, 2, Some(3));
    let bytes = encode(&t);
    assert_eq!(bytes.len(), 1024);
}

#[test]
fn encoding_is_not_the_raw_text() {
    // A codec that handed its input back unchanged would fail both checks.
    let t = ticket(1, "Gig", 50, "A1", 42, None);
    let bytes = encode(&t);
    assert_ne!(bytes, "Gig".as_bytes().to_vec());
    assert_eq!(&bytes[0..8], &1u64.to_le_bytes());
}

#[test]
fn decode_rejects_malformed_bytes() {
    assert_eq!(decode(&[]), None);
    assert_eq!(decode(&[0u8; 48]), None);

    let t = ticket(1, "Gig", 50, "A1", 42, None);
    let bytes = encode(&t);

    // A presence tag that is neither zero nor one.
    let mut bad_tag = bytes.clone();
    bad_tag[24] = 2;
    assert_eq!(decode(&bad_tag), None);

    // A nonzero update stamp beside an absent-marker tag.
    let mut bad_val = bytes.clone();
    bad_val[25] = 1;
    assert_eq!(decode(&bad_val), None);

    // A length prefix pointing past the end of the input.
    let mut bad_len = bytes.clone();
    bad_len[33] = 200;
    assert_eq!(decode(&bad_len), None);

    // Text bytes that are not UTF-8.
    let mut bad_text = bytes.clone();
    bad_text[41] = 0xff;
    assert_eq!(decode(&bad_text), None);

    // A truncated record.
    let cut = &bytes[0..bytes.len() - 1];
    assert_eq!(decode(cut), None);
}
