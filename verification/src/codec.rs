//! The record codec: a ticket's on-disk byte form.
//!
//! A ticket is laid out as three little-endian 64-bit integers (`id`,
//! `price`, `created_at`), a one-byte presence tag and the 64-bit value for
//! `updated_at`, and the two text fields, each as a little-endian 64-bit
//! byte length followed by its UTF-8 bytes.  The encoded form never exceeds
//! [`MAX_ENCODED_LEN`] bytes; a record whose text fields would push it past
//! that bound must not be constructed (see [`fits`]).

use vstd::bytes::{
    lemma_auto_spec_u64_to_from_le_bytes, spec_u64_from_le_bytes, spec_u64_to_le_bytes,
    u64_from_le_bytes, u64_to_le_bytes,
};
use vstd::prelude::*;
use vstd::slice::{slice_index_get, slice_subrange, slice_to_vec};
use vstd::string::StrSliceExecFns;
use vstd::utf8::{
    decode_utf8, encode_utf8, encode_utf8_decode_utf8, encode_utf8_valid_utf8, valid_utf8,
};

use crate::ticket::{PayloadView, Ticket, TicketPayload, TicketView};

verus! {

/// The declared upper bound on a ticket's encoded size, in bytes.
pub const MAX_ENCODED_LEN: u64 = 1024;

/// Bytes of fixed layout before and between the two text fields:
/// three 64-bit integers, the tag byte and the 64-bit `updated_at` value,
/// and the two 64-bit length prefixes.
pub const FIXED_LEN: u64 = 49;

/// How many bytes the two text fields of a ticket may hold together.
pub const MAX_TEXT_LEN: u64 = 975;

/// The UTF-8 byte length of a character sequence.
pub open spec fn utf8_len(s: Seq<char>) -> nat {
    encode_utf8(s).len()
}

/// A ticket whose encoded form fits within [`MAX_ENCODED_LEN`] bytes.
pub open spec fn fits(t: TicketView) -> bool {
    utf8_len(t.event) + utf8_len(t.seat) <= MAX_TEXT_LEN
}

/// A payload whose text fields fit within a ticket's encoded size bound,
/// whatever the fixed-width fields beside them hold.
pub open spec fn payload_fits(p: PayloadView) -> bool {
    utf8_len(p.event) + utf8_len(p.seat) <= MAX_TEXT_LEN
}

/// The tag byte that records whether `updated_at` is present.
pub open spec fn spec_updated_tag(u: Option<u64>) -> u8 {
    if u is Some {
        1
    } else {
        0
    }
}

/// The 64-bit field that carries `updated_at` when present, and zero when
/// absent.
pub open spec fn spec_updated_val(u: Option<u64>) -> u64 {
    match u {
        Some(v) => v,
        None => 0,
    }
}

/// The encoded byte form of a ticket.
pub open spec fn spec_encode(t: TicketView) -> Seq<u8> {
    spec_u64_to_le_bytes(t.id) + spec_u64_to_le_bytes(t.price) + spec_u64_to_le_bytes(t.created_at)
        + seq![spec_updated_tag(t.updated_at)] + spec_u64_to_le_bytes(
        spec_updated_val(t.updated_at),
    ) + spec_u64_to_le_bytes(utf8_len(t.event) as u64) + encode_utf8(t.event)
        + spec_u64_to_le_bytes(utf8_len(t.seat) as u64) + encode_utf8(t.seat)
}

/// The ticket a byte sequence encodes, or `None` where the bytes are not a
/// well-formed encoding.
pub open spec fn spec_decode(s: Seq<u8>) -> Option<TicketView> {
    if s.len() < FIXED_LEN {
        None
    } else {
        let id = spec_u64_from_le_bytes(s.subrange(0, 8));
        let price = spec_u64_from_le_bytes(s.subrange(8, 16));
        let created_at = spec_u64_from_le_bytes(s.subrange(16, 24));
        let tag = s[24];
        let uval = spec_u64_from_le_bytes(s.subrange(25, 33));
        let elen = spec_u64_from_le_bytes(s.subrange(33, 41)) as int;
        if tag != 0 && tag != 1 {
            None
        } else if tag == 0 && uval != 0 {
            None
        } else if s.len() < FIXED_LEN + elen {
            None
        } else {
            let ebytes = s.subrange(41, 41 + elen);
            let slen = spec_u64_from_le_bytes(s.subrange(41 + elen, 49 + elen)) as int;
            if s.len() != FIXED_LEN + elen + slen {
                None
            } else {
                let sbytes = s.subrange(49 + elen, 49 + elen + slen);
                if valid_utf8(ebytes) && valid_utf8(sbytes) {
                    Some(
                        TicketView {
                            id,
                            event: decode_utf8(ebytes),
                            price,
                            seat: decode_utf8(sbytes),
                            created_at,
                            updated_at: if tag == 1 {
                                Some(uval)
                            } else {
                                None
                            },
                        },
                    )
                } else {
                    None
                }
            }
        }
    }
}

/// Decoding is a two-sided inverse of encoding: every ticket that fits the
/// declared size bound comes back unchanged from its encoded byte form.
pub proof fn lemma_encode_decode(t: TicketView)
    requires
        fits(t),
    ensures
        spec_decode(spec_encode(t)) == Some(t),
{
    lemma_auto_spec_u64_to_from_le_bytes();
    encode_utf8_valid_utf8(t.event);
    encode_utf8_valid_utf8(t.seat);
    encode_utf8_decode_utf8(t.event);
    encode_utf8_decode_utf8(t.seat);
    let s = spec_encode(t);
    let e = encode_utf8(t.event);
    let se = encode_utf8(t.seat);
    let elen = e.len() as int;
    let slen = se.len() as int;
    assert(s.len() == 49 + elen + slen);
    assert(s.subrange(0, 8) =~= spec_u64_to_le_bytes(t.id));
    assert(s.subrange(8, 16) =~= spec_u64_to_le_bytes(t.price));
    assert(s.subrange(16, 24) =~= spec_u64_to_le_bytes(t.created_at));
    assert(s[24] == spec_updated_tag(t.updated_at));
    assert(s.subrange(25, 33) =~= spec_u64_to_le_bytes(spec_updated_val(t.updated_at)));
    assert(s.subrange(33, 41) =~= spec_u64_to_le_bytes(utf8_len(t.event) as u64));
    assert(s.subrange(41, 41 + elen) =~= e);
    assert(s.subrange(41 + elen, 49 + elen) =~= spec_u64_to_le_bytes(utf8_len(t.seat) as u64));
    assert(s.subrange(49 + elen, 49 + elen + slen) =~= se);
    assert(spec_decode(s) == Some(t));
}

/// Encodes a ticket into its on-disk byte form.
pub fn encode(t: &Ticket) -> (r: Vec<u8>)
    requires
        fits(t@),
    ensures
        r@ == spec_encode(t@),
        r@.len() <= MAX_ENCODED_LEN,
{
    proof {
        lemma_auto_spec_u64_to_from_le_bytes();
    }
    let mut out = u64_to_le_bytes(t.id);
    let mut price_b = u64_to_le_bytes(t.price);
    out.append(&mut price_b);
    let mut created_b = u64_to_le_bytes(t.created_at);
    out.append(&mut created_b);
    match t.updated_at {
        Some(v) => {
            out.push(1u8);
            let mut upd_b = u64_to_le_bytes(v);
            out.append(&mut upd_b);
        },
        None => {
            out.push(0u8);
            let mut upd_b = u64_to_le_bytes(0u64);
            out.append(&mut upd_b);
        },
    }
    let mut event_b = t.event.as_str().as_bytes_vec();
    let mut elen_b = u64_to_le_bytes(event_b.len() as u64);
    out.append(&mut elen_b);
    out.append(&mut event_b);
    let mut seat_b = t.seat.as_str().as_bytes_vec();
    let mut slen_b = u64_to_le_bytes(seat_b.len() as u64);
    out.append(&mut slen_b);
    out.append(&mut seat_b);
    proof {
        assert(out@ =~= spec_encode(t@));
    }
    out
}

/// Decides whether a payload's text fields fit within a ticket's encoded
/// size bound, so that a caller can reject an oversized payload before
/// building a record from it.
pub fn payload_within_bounds(p: &TicketPayload) -> (r: bool)
    ensures
        r == payload_fits(p@),
{
    let e = p.event.as_str().as_bytes_vec().len() as u64;
    let s = p.seat.as_str().as_bytes_vec().len() as u64;
    e <= MAX_TEXT_LEN && s <= MAX_TEXT_LEN - e
}

/// Relies on `String::from_utf8`: it returns `Ok` exactly on valid UTF-8
/// input, and the returned string's characters are the decoding of that
/// input.
#[verifier::external_body]
fn utf8_to_string(b: Vec<u8>) -> (r: Option<String>)
    ensures
        match r {
            Some(s) => valid_utf8(b@) && s@ == decode_utf8(b@),
            None => !valid_utf8(b@),
        },
{
    String::from_utf8(b).ok()
}

/// Decodes a ticket from its on-disk byte form; returns `None` exactly
/// where the bytes are not a well-formed encoding.
pub fn decode(bytes: &[u8]) -> (r: Option<Ticket>)
    ensures
        match r {
            Some(t) => spec_decode(bytes@) == Some(t@),
            None => spec_decode(bytes@) is None,
        },
{
    proof {
        lemma_auto_spec_u64_to_from_le_bytes();
    }
    let blen = bytes.len();
    if blen < 49 {
        return None;
    }
    let id = u64_from_le_bytes(slice_subrange(bytes, 0, 8));
    let price = u64_from_le_bytes(slice_subrange(bytes, 8, 16));
    let created_at = u64_from_le_bytes(slice_subrange(bytes, 16, 24));
    let tag = *slice_index_get(bytes, 24);
    let uval = u64_from_le_bytes(slice_subrange(bytes, 25, 33));
    let elen64 = u64_from_le_bytes(slice_subrange(bytes, 33, 41));
    if tag != 0 && tag != 1 {
        return None;
    }
    if tag == 0 && uval != 0 {
        return None;
    }
    if elen64 > (blen as u64) - 49 {
        return None;
    }
    let elen = elen64 as usize;
    let slen64 = u64_from_le_bytes(slice_subrange(bytes, 41 + elen, 49 + elen));
    if slen64 != (blen as u64) - 49 - elen64 {
        return None;
    }
    let slen = slen64 as usize;
    let event_b = slice_to_vec(slice_subrange(bytes, 41, 41 + elen));
    let seat_b = slice_to_vec(slice_subrange(bytes, 49 + elen, 49 + elen + slen));
    let event = match utf8_to_string(event_b) {
        Some(s) => s,
        None => {
            return None;
        },
    };
    let seat = match utf8_to_string(seat_b) {
        Some(s) => s,
        None => {
            return None;
        },
    };
    let updated_at = if tag == 1 {
        Some(uval)
    } else {
        None
    };
    Some(Ticket { id, event, price, seat, created_at, updated_at })
}

} // verus!
