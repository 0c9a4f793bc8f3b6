//! The ticket store: durable CRUD over one partitioned memory region.
//!
//! A store owns two partitions of one region: a durable cell holding the
//! identifier counter (the last assigned identifier; zero before the first
//! create) and a durable ordered map from identifiers to encoded records.
//! Opening a store re-derives both from the region's persisted bytes, so a
//! store reopened on the same region holds the same records and hands out
//! the same next identifier; [`lemma_restart_round_trip`] states that as a
//! law over the contracts of [`TicketStore::into_region`] and
//! [`TicketStore::open`].
//!
//! Callers pass the current time in; the store never reads a clock.

use vstd::prelude::*;

use crate::codec;
use crate::codec::{fits, payload_fits, spec_decode, spec_encode};
use crate::stable::{
    cell_get, cell_init, cell_set, cell_value, clone_region, default_region, map_contents,
    map_entries, map_get, map_init, map_insert, map_remove, mm_get, mm_init, region_counter,
    region_records, IdCell, Region, TicketMap, COUNTER_PARTITION, MAP_PARTITION,
};
use crate::ticket::{Error, FatalError, PayloadView, Ticket, TicketPayload, TicketView};

verus! {

/// The ticket a create call builds: identifier and creation time stamped by
/// the store, business fields from the payload, `updated_at` absent.
pub open spec fn make_ticket(id: u64, p: PayloadView, now: u64) -> TicketView {
    TicketView {
        id,
        event: p.event,
        price: p.price,
        seat: p.seat,
        created_at: now,
        updated_at: None,
    }
}

/// The ticket an update call builds: identifier and creation time kept from
/// the stored ticket, business fields from the payload, `updated_at`
/// stamped with the update time.
pub open spec fn updated_ticket(prev: TicketView, p: PayloadView, now: u64) -> TicketView {
    TicketView {
        id: prev.id,
        event: p.event,
        price: p.price,
        seat: p.seat,
        created_at: prev.created_at,
        updated_at: Some(now),
    }
}

/// A well-formed stored entry: the bytes decode to a ticket keyed by its
/// own identifier, and the identifier does not exceed the counter.
pub open spec fn entry_well_formed(k: u64, v: Seq<u8>, last: u64) -> bool {
    &&& spec_decode(v) is Some
    &&& spec_decode(v)->Some_0.id == k
    &&& k <= last
}

/// A region persisting a well-formed store: every persisted record is a
/// well-formed entry under the persisted counter.
pub open spec fn region_well_formed(m: Region) -> bool {
    forall|k: u64| #[trigger]
        region_records(m).contains_key(k) ==> entry_well_formed(
            k,
            region_records(m)[k],
            region_counter(m),
        )
}

/// The first index at which a read-back entry list fails well-formedness.
pub open spec fn first_violation(entries: Seq<(u64, Vec<u8>)>, last: u64, j: int) -> bool {
    &&& 0 <= j < entries.len()
    &&& !entry_well_formed(entries[j].0, entries[j].1@, last)
    &&& forall|i: int| 0 <= i < j ==> entry_well_formed(entries[i].0, entries[i].1@, last)
}

/// Decides whether the entries read back from the record map, with the
/// read-back counter, form a well-formed store: succeeds exactly when every
/// entry is well-formed, and otherwise says of the first offending entry
/// which way it failed — `CounterBehindMap` where the entry decodes under
/// its own key but the key exceeds the counter, `CorruptRecord` otherwise.
pub fn check_entries(entries: &Vec<(u64, Vec<u8>)>, last: u64) -> (r: Result<(), FatalError>)
    ensures
        r is Ok <==> (forall|j: int|
            0 <= j < entries@.len() ==> entry_well_formed(entries@[j].0, entries@[j].1@, last)),
        match r {
            Ok(_) => true,
            Err(e) => exists|j: int| #[trigger]
                first_violation(entries@, last, j) && e == (if spec_decode(entries@[j].1@) is Some
                    && spec_decode(entries@[j].1@)->Some_0.id == entries@[j].0 {
                    FatalError::CounterBehindMap
                } else {
                    FatalError::CorruptRecord { id: entries@[j].0 }
                }),
        },
{
    let mut i: usize = 0;
    while i < entries.len()
        invariant
            0 <= i <= entries@.len(),
            forall|j: int|
                0 <= j < i ==> entry_well_formed(entries@[j].0, entries@[j].1@, last),
        decreases entries@.len() - i,
    {
        let k = entries[i].0;
        match codec::decode(entries[i].1.as_slice()) {
            Some(t) => {
                if t.id != k {
                    proof {
                        assert(first_violation(entries@, last, i as int));
                    }
                    return Err(FatalError::CorruptRecord { id: k });
                }
                if k > last {
                    proof {
                        assert(first_violation(entries@, last, i as int));
                    }
                    return Err(FatalError::CounterBehindMap);
                }
            },
            None => {
                proof {
                    assert(first_violation(entries@, last, i as int));
                }
                return Err(FatalError::CorruptRecord { id: k });
            },
        }
        i = i + 1;
    }
    Ok(())
}

/// Decides whether read-back store state is that of a never-used region:
/// counter at zero and no stored entries.
pub fn check_fresh(last: u64, entry_count: usize) -> (r: Result<(), FatalError>)
    ensures
        r is Ok <==> (last == 0 && entry_count == 0),
        r matches Err(e) ==> e == FatalError::RegionNotFresh,
{
    if last != 0 || entry_count != 0 {
        Err(FatalError::RegionNotFresh)
    } else {
        Ok(())
    }
}

/// A persistent store of tickets keyed by their identifiers.
pub struct TicketStore {
    region: Region,
    counter: IdCell,
    map: TicketMap,
}

impl TicketStore {
    /// What the durable map holds, as raw bytes.
    pub closed spec fn contents(&self) -> Map<u64, Seq<u8>> {
        map_contents(self.map)
    }

    /// The last identifier the store assigned; zero before the first
    /// create.  Identifiers are never reused, so this only grows.
    pub closed spec fn last_id(&self) -> u64 {
        cell_value(self.counter)
    }

    /// Well-formedness: every stored byte blob is a well-formed entry under
    /// the counter.
    pub closed spec fn wf(&self) -> bool {
        forall|k: u64| #[trigger]
            self.contents().contains_key(k) ==> entry_well_formed(
                k,
                self.contents()[k],
                self.last_id(),
            )
    }

    /// The stored tickets, as mathematical values.
    pub closed spec fn tickets(&self) -> Map<u64, TicketView> {
        Map::new(
            |k: u64| self.contents().contains_key(k),
            |k: u64| spec_decode(self.contents()[k])->Some_0,
        )
    }

    /// Opens the store held in the given region, or creates one there if
    /// the region is fresh: the partition table, the counter cell and the
    /// record map are all re-derived from the region's persisted bytes, so
    /// the opened store holds exactly the region's persisted records and
    /// counter.  Succeeds exactly when those persisted records form a
    /// well-formed store.
    pub fn open(region: Region) -> (r: Result<TicketStore, FatalError>)
        ensures
            r is Ok <==> region_well_formed(region),
            match r {
                Ok(s) => {
                    &&& s.wf()
                    &&& s.contents() == region_records(region)
                    &&& s.last_id() == region_counter(region)
                },
                Err(e) => e is CorruptRecord || e is CounterBehindMap,
            },
    {
        let region2 = clone_region(&region);
        let mm = mm_init(region2);
        let counter_mem = mm_get(&mm, COUNTER_PARTITION);
        let map_mem = mm_get(&mm, MAP_PARTITION);
        let counter = cell_init(counter_mem, 0);
        let map = map_init(map_mem);
        proof {
            assert(cell_value(counter) == region_counter(region));
            assert(map_contents(map) == region_records(region));
        }
        let last = cell_get(&counter);
        let entries = map_entries(&map);
        match check_entries(&entries, last) {
            Ok(_) => {},
            Err(e) => {
                proof {
                    let j = choose|j: int| first_violation(entries@, last, j);
                    let bad = entries@[j].0;
                    assert(map_contents(map).contains_key(bad));
                    assert(entries@[j].1@ == map_contents(map)[bad]);
                    assert(!region_well_formed(region));
                }
                return Err(e);
            },
        }
        let store = TicketStore { region, counter, map };
        proof {
            assert forall|k: u64| #[trigger] store.contents().contains_key(k) implies
                entry_well_formed(k, store.contents()[k], store.last_id()) by {
                let j = choose|j: int| 0 <= j < entries@.len() && entries@[j].0 == k;
            }
            assert(region_well_formed(store.region));
        }
        Ok(store)
    }

    /// Opens the store persisted in the process's default memory region, or
    /// creates one there if the region is fresh.  On the deployed target
    /// the default region is the ambient stable memory, so this is the
    /// entry point that recovers the store across a restart or upgrade; on
    /// a host build it is a fresh in-memory region.
    pub fn open_default() -> (r: Result<TicketStore, FatalError>)
        ensures
            match r {
                Ok(s) => s.wf(),
                Err(e) => e is CorruptRecord || e is CounterBehindMap,
            },
    {
        Self::open(default_region())
    }

    /// Creates a store on the default region, demanding it fresh: no
    /// records, counter at zero, so the first create assigns identifier
    /// one.  Fails where the region already holds data.
    pub fn new() -> (r: Result<TicketStore, FatalError>)
        ensures
            match r {
                Ok(s) => {
                    &&& s.wf()
                    &&& s.contents() == Map::<u64, Seq<u8>>::empty()
                    &&& s.tickets() == Map::<u64, TicketView>::empty()
                    &&& s.last_id() == 0
                },
                Err(_) => true,
            },
    {
        let store = match Self::open_default() {
            Ok(s) => s,
            Err(e) => {
                return Err(e);
            },
        };
        let last = cell_get(&store.counter);
        let entries = map_entries(&store.map);
        match check_fresh(last, entries.len()) {
            Ok(_) => {},
            Err(e) => {
                return Err(e);
            },
        }
        proof {
            assert(store.contents() =~= Map::<u64, Seq<u8>>::empty());
            assert(store.tickets() =~= Map::<u64, TicketView>::empty());
        }
        Ok(store)
    }

    /// Gives the underlying region back, dropping the store's handles on
    /// it; passing it to `open` again reproduces this store.  Relies on the
    /// stable structures writing every mutation through to the region: the
    /// counter cell flushes on every set and the record map writes its
    /// nodes on every insert and remove, so the region persists exactly the
    /// store's current counter and records.
    #[verifier::external_body]
    pub fn into_region(self) -> (r: Region)
        ensures
            region_counter(r) == self.last_id(),
            region_records(r) == self.contents(),
    {
        self.region
    }

    /// The last identifier the store assigned, as a runtime value: zero
    /// before the first create.  A caller can test it against the largest
    /// identifier before a create, which must still have room to assign a
    /// fresh one.
    pub fn last_assigned_id(&self) -> (r: u64)
        ensures
            r == self.last_id(),
    {
        cell_get(&self.counter)
    }

    /// Looks a ticket up by its identifier.
    pub fn _get_ticket(&self, id: &u64) -> (r: Option<Ticket>)
        requires
            self.wf(),
        ensures
            match r {
                Some(t) => self.tickets().contains_key(*id) && t@ == self.tickets()[*id],
                None => !self.tickets().contains_key(*id),
            },
    {
        match map_get(&self.map, *id) {
            Some(bytes) => {
                match codec::decode(bytes.as_slice()) {
                    Some(t) => Some(t),
                    None => None,  // unreachable: well-formedness says the blob decodes
                }
            },
            None => None,
        }
    }

    /// Looks a ticket up by its identifier; reports not-found exactly when
    /// no ticket has ever been stored under it (or it has been deleted).
    pub fn get_ticket(&self, id: u64) -> (r: Result<Ticket, Error>)
        requires
            self.wf(),
        ensures
            match r {
                Ok(t) => self.tickets().contains_key(id) && t@ == self.tickets()[id],
                Err(e) => e == (Error::NotFound { id }) && !self.tickets().contains_key(id),
            },
    {
        match self._get_ticket(&id) {
            Some(ticket) => Ok(ticket),
            None => Err(Error::NotFound { id }),
        }
    }

    /// Stores the ticket under its identifier: inserts if absent, replaces
    /// if present.  The counter and every other record are untouched.
    pub fn do_insert(&mut self, ticket: &Ticket)
        requires
            old(self).wf(),
            fits(ticket@),
            ticket@.id <= old(self).last_id(),
        ensures
            final(self).wf(),
            final(self).contents() == old(self).contents().insert(
                ticket@.id,
                spec_encode(ticket@),
            ),
            final(self).tickets() == old(self).tickets().insert(ticket@.id, ticket@),
            final(self).last_id() == old(self).last_id(),
    {
        let bytes = codec::encode(ticket);
        proof {
            codec::lemma_encode_decode(ticket@);
        }
        let _prev = map_insert(&mut self.map, ticket.id, bytes);
        proof {
            lemma_wf_after_insert(*old(self), *self, ticket@.id, spec_encode(ticket@));
            assert(self.tickets() =~= old(self).tickets().insert(ticket@.id, ticket@));
        }
    }

    /// Creates a ticket: assigns the next identifier (one above the last),
    /// stamps the creation time, leaves `updated_at` absent, and stores the
    /// record.  Always returns the created ticket.
    pub fn add_ticket(&mut self, payload: TicketPayload, now: u64) -> (r: Option<Ticket>)
        requires
            old(self).wf(),
            old(self).last_id() < u64::MAX,
            payload_fits(payload@),
        ensures
            final(self).wf(),
            match r {
                Some(t) => {
                    &&& t@ == make_ticket((old(self).last_id() + 1) as u64, payload@, now)
                    &&& !old(self).tickets().contains_key(t@.id)
                    &&& final(self).tickets() == old(self).tickets().insert(t@.id, t@)
                    &&& final(self).last_id() == old(self).last_id() + 1
                },
                None => false,
            },
    {
        let current_value = cell_get(&self.counter);
        let id = current_value + 1;
        let _prev = cell_set(&mut self.counter, id);
        proof {
            lemma_wf_counter_advance(*old(self), *self);
            assert(!old(self).tickets().contains_key(id));
        }
        let ticket = Ticket {
            id,
            event: payload.event,
            price: payload.price,
            seat: payload.seat,
            created_at: now,
            updated_at: None,
        };
        self.do_insert(&ticket);
        Some(ticket)
    }

    /// Updates a ticket: replaces the business fields, stamps the update
    /// time, and keeps the identifier and creation time; reports not-found
    /// exactly when the identifier is absent, leaving the stored bytes
    /// unchanged.
    pub fn update_ticket(&mut self, id: u64, payload: TicketPayload, now: u64) -> (r: Result<
        Ticket,
        Error,
    >)
        requires
            old(self).wf(),
            payload_fits(payload@),
        ensures
            final(self).wf(),
            match r {
                Ok(t) => {
                    &&& old(self).tickets().contains_key(id)
                    &&& t@ == updated_ticket(old(self).tickets()[id], payload@, now)
                    &&& final(self).tickets() == old(self).tickets().insert(id, t@)
                    &&& final(self).last_id() == old(self).last_id()
                },
                Err(e) => {
                    &&& e == (Error::NotFound { id })
                    &&& !old(self).tickets().contains_key(id)
                    &&& final(self).contents() == old(self).contents()
                    &&& final(self).tickets() == old(self).tickets()
                    &&& final(self).last_id() == old(self).last_id()
                },
            },
    {
        match map_get(&self.map, id) {
            Some(bytes) => {
                match codec::decode(bytes.as_slice()) {
                    Some(mut ticket) => {
                        ticket.event = payload.event;
                        ticket.price = payload.price;
                        ticket.seat = payload.seat;
                        ticket.updated_at = Some(now);
                        self.do_insert(&ticket);
                        Ok(ticket)
                    },
                    None => Err(Error::NotFound { id }),  // unreachable: the blob decodes
                }
            },
            None => Err(Error::NotFound { id }),
        }
    }

    /// Deletes a ticket and returns it; reports not-found exactly when the
    /// identifier is absent, leaving the stored bytes unchanged, so a
    /// second delete of the same identifier reports not-found rather than
    /// failing.
    pub fn delete_ticket(&mut self, id: u64) -> (r: Result<Ticket, Error>)
        requires
            old(self).wf(),
        ensures
            final(self).wf(),
            match r {
                Ok(t) => {
                    &&& old(self).tickets().contains_key(id)
                    &&& t@ == old(self).tickets()[id]
                    &&& final(self).tickets() == old(self).tickets().remove(id)
                    &&& final(self).last_id() == old(self).last_id()
                },
                Err(e) => {
                    &&& e == (Error::NotFound { id })
                    &&& !old(self).tickets().contains_key(id)
                    &&& final(self).contents() == old(self).contents()
                    &&& final(self).tickets() == old(self).tickets()
                    &&& final(self).last_id() == old(self).last_id()
                },
            },
    {
        match map_remove(&mut self.map, id) {
            Some(bytes) => {
                proof {
                    lemma_wf_after_remove(*old(self), *self, id);
                    assert(self.tickets() =~= old(self).tickets().remove(id));
                }
                match codec::decode(bytes.as_slice()) {
                    Some(t) => Ok(t),
                    None => Err(Error::NotFound { id }),  // unreachable: the blob decodes
                }
            },
            None => {
                proof {
                    assert(self.contents() =~= old(self).contents());
                    assert(self.tickets() =~= old(self).tickets());
                }
                Err(Error::NotFound { id })
            },
        }
    }
}

/// Well-formedness is preserved by replacing or adding one entry that is
/// itself well-formed, with the counter unchanged.
proof fn lemma_wf_after_insert(pre: TicketStore, post: TicketStore, key: u64, v: Seq<u8>)
    requires
        pre.wf(),
        post.last_id() == pre.last_id(),
        post.contents() == pre.contents().insert(key, v),
        entry_well_formed(key, v, post.last_id()),
    ensures
        post.wf(),
{
    assert forall|k: u64| #[trigger] post.contents().contains_key(k) implies entry_well_formed(
        k,
        post.contents()[k],
        post.last_id(),
    ) by {
        if k != key {
            assert(pre.contents().contains_key(k));
        }
    }
}

/// Well-formedness is preserved by removing one entry, with the counter
/// unchanged.
proof fn lemma_wf_after_remove(pre: TicketStore, post: TicketStore, key: u64)
    requires
        pre.wf(),
        post.last_id() == pre.last_id(),
        post.contents() == pre.contents().remove(key),
    ensures
        post.wf(),
{
    assert forall|k: u64| #[trigger] post.contents().contains_key(k) implies entry_well_formed(
        k,
        post.contents()[k],
        post.last_id(),
    ) by {
        assert(pre.contents().contains_key(k));
    }
}

/// Well-formedness is preserved by raising the counter, with the records
/// unchanged.
proof fn lemma_wf_counter_advance(pre: TicketStore, post: TicketStore)
    requires
        pre.wf(),
        post.last_id() >= pre.last_id(),
        post.contents() == pre.contents(),
    ensures
        post.wf(),
{
    assert forall|k: u64| #[trigger] post.contents().contains_key(k) implies entry_well_formed(
        k,
        post.contents()[k],
        post.last_id(),
    ) by {
        assert(pre.contents().contains_key(k));
    }
}

/// Law: an identifier the counter never reached was never assigned by any
/// create, so it is absent from the store and a lookup of it reports
/// not-found.
pub proof fn lemma_unassigned_id_absent(s: TicketStore, id: u64)
    requires
        s.wf(),
        id > s.last_id(),
    ensures
        !s.tickets().contains_key(id),
{
}

/// Law: after a create that returned ticket `t`, a lookup of `t.id` yields
/// exactly `t`: creation time stamped, `updated_at` absent, business fields
/// from the payload, under an identifier that was not in the store before.
pub proof fn lemma_create_then_get(
    pre: TicketStore,
    post: TicketStore,
    t: TicketView,
    p: PayloadView,
    now: u64,
)
    requires
        pre.wf(),
        pre.last_id() < u64::MAX,
        t == make_ticket((pre.last_id() + 1) as u64, p, now),
        post.tickets() == pre.tickets().insert(t.id, t),
    ensures
        post.tickets().contains_key(t.id),
        post.tickets()[t.id] == t,
        t.updated_at is None,
        t.event == p.event && t.price == p.price && t.seat == p.seat,
        t.created_at == now,
        !pre.tickets().contains_key(t.id),
{
}

/// Law: after an update of `id`, the ticket stored under `id` keeps its
/// identifier and creation time, carries the new business fields, and has
/// `updated_at` stamped with the update time.
pub proof fn lemma_update_then_get(
    pre: TicketStore,
    post: TicketStore,
    id: u64,
    t: TicketView,
    p: PayloadView,
    now: u64,
)
    requires
        pre.wf(),
        pre.tickets().contains_key(id),
        t == updated_ticket(pre.tickets()[id], p, now),
        post.tickets() == pre.tickets().insert(id, t),
    ensures
        post.tickets().contains_key(id),
        post.tickets()[id] == t,
        t.id == id,
        t.created_at == pre.tickets()[id].created_at,
        t.updated_at == Some(now),
        t.event == p.event && t.price == p.price && t.seat == p.seat,
{
}

/// Law: after a delete of `id`, a lookup of `id` reports not-found, and a
/// second delete of `id` finds nothing to remove, leaving the store as it
/// is rather than failing.
pub proof fn lemma_delete_then_get(pre: TicketStore, post: TicketStore, id: u64)
    requires
        post.tickets() == pre.tickets().remove(id),
    ensures
        !post.tickets().contains_key(id),
        post.tickets().remove(id) =~= post.tickets(),
{
}

/// Law: two consecutive creates assign distinct identifiers, strictly
/// increasing in call order, whatever the payloads and times.
pub proof fn lemma_ids_strictly_increase(
    s0: TicketStore,
    s1: TicketStore,
    t1: TicketView,
    t2: TicketView,
    p1: PayloadView,
    p2: PayloadView,
    now1: u64,
    now2: u64,
)
    requires
        s0.last_id() + 2 <= u64::MAX,
        t1 == make_ticket((s0.last_id() + 1) as u64, p1, now1),
        s1.last_id() == s0.last_id() + 1,
        t2 == make_ticket((s1.last_id() + 1) as u64, p2, now2),
    ensures
        t1.id < t2.id,
        t1.id != t2.id,
{
}

/// Law: the region a well-formed store gives back persists a well-formed
/// store, so opening that region is guaranteed to succeed.
pub proof fn lemma_into_region_well_formed(s: TicketStore, region: Region)
    requires
        s.wf(),
        region_counter(region) == s.last_id(),
        region_records(region) == s.contents(),
    ensures
        region_well_formed(region),
{
    assert forall|k: u64| #[trigger] region_records(region).contains_key(k) implies
        entry_well_formed(k, region_records(region)[k], region_counter(region)) by {
        assert(s.contents().contains_key(k));
    }
}

/// Law: restart round trip — reopening the region a store gave back yields
/// a store holding exactly the same records under the same counter, so
/// every lookup answers as before the restart and the next create assigns
/// one above the old counter.
pub proof fn lemma_restart_round_trip(pre: TicketStore, region: Region, post: TicketStore)
    requires
        region_counter(region) == pre.last_id(),
        region_records(region) == pre.contents(),
        post.contents() == region_records(region),
        post.last_id() == region_counter(region),
    ensures
        post.contents() == pre.contents(),
        post.tickets() == pre.tickets(),
        post.last_id() == pre.last_id(),
{
    assert(post.tickets() =~= pre.tickets());
}

} // verus!
