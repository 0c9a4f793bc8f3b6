//! The stored entity and the caller-visible error.

use vstd::prelude::*;

verus! {

/// A stored ticket.  `id` and `created_at` are assigned by the store and
/// never change; the business fields may be replaced by an update, which
/// also stamps `updated_at`.
#[derive(Clone, Debug, PartialEq, Eq)]
pub struct Ticket {
    pub id: u64,
    pub event: String,
    pub price: u64,
    pub seat: String,
    pub created_at: u64,
    pub updated_at: Option<u64>,
}

/// The mathematical value of a [`Ticket`]: text fields as character
/// sequences, everything else as plain integers.
pub struct TicketView {
    pub id: u64,
    pub event: Seq<char>,
    pub price: u64,
    pub seat: Seq<char>,
    pub created_at: u64,
    pub updated_at: Option<u64>,
}

impl View for Ticket {
    type V = TicketView;

    open spec fn view(&self) -> TicketView {
        TicketView {
            id: self.id,
            event: self.event@,
            price: self.price,
            seat: self.seat@,
            created_at: self.created_at,
            updated_at: self.updated_at,
        }
    }
}

/// The mutable business fields handed in by a caller on create and update.
#[derive(Clone, Debug, PartialEq, Eq)]
pub struct TicketPayload {
    pub event: String,
    pub price: u64,
    pub seat: String,
}

/// The mathematical value of a [`TicketPayload`].
pub struct PayloadView {
    pub event: Seq<char>,
    pub price: u64,
    pub seat: Seq<char>,
}

impl View for TicketPayload {
    type V = PayloadView;

    open spec fn view(&self) -> PayloadView {
        PayloadView { event: self.event@, price: self.price, seat: self.seat@ }
    }
}

/// The only recoverable, caller-visible error: the requested identifier is
/// not in the store.  It carries the offending identifier.
#[derive(Clone, Copy, Debug, PartialEq, Eq, Structural)]
pub enum Error {
    NotFound { id: u64 },
}

/// An unrecoverable storage condition met while opening a store: the
/// persisted bytes do not describe a well-formed store.  Callers treat it
/// as fatal for the process.
#[derive(Clone, Copy, Debug, PartialEq, Eq, Structural)]
pub enum FatalError {
    CorruptRecord { id: u64 },
    CounterBehindMap,
    RegionNotFresh,
}

} // verus!
