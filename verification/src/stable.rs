//! Trusted bindings to the stable-storage crate.
//!
//! The durable pieces of the store — the memory region, the partitioner
//! that carves it into independently growable virtual memories, the durable
//! counter cell and the ordered byte map — come from `ic_stable_structures`.
//! The verifier refuses declarations of those types (their bounds name
//! traits of the outside crate), so each is held in a private field of an
//! opaque struct here, and the calls the store makes are wrapped, stating
//! of each call what the crate's source shows.
//!
//! Uninterpreted functions name what the opaque values hold: the live
//! contents of the map and the cell, and the counter and records persisted
//! in a region, a partitioner or a partition — that is, what reopening the
//! counter cell and the record map on those bytes yields.  Everything
//! proved about the store, including that reopening a region reproduces the
//! store persisted in it, rests on the contracts here.

use ic_stable_structures::memory_manager::{MemoryId, MemoryManager, VirtualMemory};
use ic_stable_structures::DefaultMemoryImpl;
use ic_stable_structures::{StableBTreeMap, StableCell};
use vstd::prelude::*;

verus! {

/// The partition holding the identifier counter.
pub const COUNTER_PARTITION: u8 = 0;

/// The partition holding the record map.
pub const MAP_PARTITION: u8 = 1;

/// The flat addressable byte region everything durable lives in.
#[verifier::external_body]
pub struct Region {
    inner: DefaultMemoryImpl,
}

/// The partitioner: hands out the virtual memories the region is carved
/// into.
#[verifier::external_body]
pub struct Partitioner {
    inner: MemoryManager<DefaultMemoryImpl>,
}

/// One partition of the region: a virtual memory that grows independently
/// of its siblings.
#[verifier::external_body]
pub struct PartitionMemory {
    inner: VirtualMemory<DefaultMemoryImpl>,
}

/// The durable cell holding the identifier counter.
#[verifier::external_body]
pub struct IdCell {
    inner: StableCell<u64, VirtualMemory<DefaultMemoryImpl>>,
}

/// The durable ordered map from record identifiers to encoded records.
#[verifier::external_body]
pub struct TicketMap {
    inner: StableBTreeMap<u64, Vec<u8>, VirtualMemory<DefaultMemoryImpl>>,
}

/// What the durable map holds: each present key with its stored bytes.
pub uninterp spec fn map_contents(m: TicketMap) -> Map<u64, Seq<u8>>;

/// The value the durable cell holds.
pub uninterp spec fn cell_value(c: IdCell) -> u64;

/// The identifier-counter value persisted in a region: what a counter cell
/// opened on the region's counter partition yields (zero where none was
/// ever written).
pub uninterp spec fn region_counter(m: Region) -> u64;

/// The encoded records persisted in a region: what a record map opened on
/// the region's record partition holds (empty where none was ever written).
pub uninterp spec fn region_records(m: Region) -> Map<u64, Seq<u8>>;

/// The identifier-counter value persisted in the partitions a partitioner
/// hands out.
pub uninterp spec fn manager_counter(p: Partitioner) -> u64;

/// The encoded records persisted in the partitions a partitioner hands out.
pub uninterp spec fn manager_records(p: Partitioner) -> Map<u64, Seq<u8>>;

/// The identifier-counter value persisted in one partition's bytes.
pub uninterp spec fn partition_counter(m: PartitionMemory) -> u64;

/// The encoded records persisted in one partition's bytes.
pub uninterp spec fn partition_records(m: PartitionMemory) -> Map<u64, Seq<u8>>;

/// Relies on `DefaultMemoryImpl::default`: the process's default region.
/// On a host build this is a fresh in-memory region; on the deployed
/// target it is the canister's ambient stable memory, which may already
/// hold a persisted store, so nothing is promised of its contents.
#[verifier::external_body]
pub(crate) fn default_region() -> (r: Region) {
    Region { inner: DefaultMemoryImpl::default() }
}

/// Relies on `Clone` of the region handle (a reference-counted pointer):
/// the clone addresses the same underlying bytes, so it persists the same
/// counter and records, and structures opened through either handle read
/// and write the same durable state.
#[verifier::external_body]
pub(crate) fn clone_region(m: &Region) -> (r: Region)
    ensures
        region_counter(r) == region_counter(*m),
        region_records(r) == region_records(*m),
{
    Region { inner: m.inner.clone() }
}

/// Relies on `MemoryManager::init`: carves the region into virtual
/// memories addressed by stable partition identifiers, recovering an
/// existing partition table from the region where one is persisted, so the
/// partitions it hands out persist exactly what the region persists.
#[verifier::external_body]
pub(crate) fn mm_init(m: Region) -> (r: Partitioner)
    ensures
        manager_counter(r) == region_counter(m),
        manager_records(r) == region_records(m),
{
    Partitioner { inner: MemoryManager::init(m.inner) }
}

/// Relies on `MemoryManager::get`: the virtual memory of the given
/// partition identifier; growing one such memory never invalidates
/// another, and each partition persists what the partitioner's region
/// persists for it.  The largest identifier value is reserved by the
/// partitioner and asking for it panics, so it is excluded here.
#[verifier::external_body]
pub(crate) fn mm_get(mm: &Partitioner, id: u8) -> (r: PartitionMemory)
    requires
        id != u8::MAX,
    ensures
        id == COUNTER_PARTITION ==> partition_counter(r) == manager_counter(*mm),
        id == MAP_PARTITION ==> partition_records(r) == manager_records(*mm),
{
    PartitionMemory { inner: mm.inner.get(MemoryId::new(id)) }
}

/// Relies on `Cell::init`: loads the value persisted in the partition if
/// one is present, else persists `default_value`; traps where the
/// persisted layout is incompatible, which the store treats as fatal.
/// With a zero default the loaded value is exactly the partition's
/// persisted counter.
#[verifier::external_body]
pub(crate) fn cell_init(memory: PartitionMemory, default_value: u64) -> (r: IdCell)
    ensures
        default_value == 0 ==> cell_value(r) == partition_counter(memory),
{
    IdCell { inner: StableCell::init(memory.inner, default_value) }
}

/// Relies on `Cell::get`: the value the cell holds.
#[verifier::external_body]
pub(crate) fn cell_get(c: &IdCell) -> (r: u64)
    ensures
        r == cell_value(*c),
{
    *c.inner.get()
}

/// Relies on `Cell::set`: persists the new value and returns the previous
/// one; traps where the region cannot grow to hold it, which the store
/// treats as fatal.
#[verifier::external_body]
pub(crate) fn cell_set(c: &mut IdCell, v: u64) -> (r: u64)
    ensures
        cell_value(*final(c)) == v,
        r == cell_value(*old(c)),
{
    c.inner.set(v)
}

/// Relies on `BTreeMap::init`: loads the map persisted in the partition,
/// or creates an empty one where none is present, so it holds exactly the
/// partition's persisted records.
#[verifier::external_body]
pub(crate) fn map_init(memory: PartitionMemory) -> (r: TicketMap)
    ensures
        map_contents(r) == partition_records(memory),
{
    TicketMap { inner: StableBTreeMap::init(memory.inner) }
}

/// Relies on `BTreeMap::get`: the value stored under the key, if any.
#[verifier::external_body]
pub(crate) fn map_get(m: &TicketMap, k: u64) -> (r: Option<Vec<u8>>)
    ensures
        match r {
            Some(v) => map_contents(*m).contains_key(k) && v@ == map_contents(*m)[k],
            None => !map_contents(*m).contains_key(k),
        },
{
    m.inner.get(&k)
}

/// Relies on `BTreeMap::insert`: stores the value under the key, keeping
/// key order on disk, and returns the value previously stored there, if
/// any; traps where the region cannot grow, which the store treats as
/// fatal.
#[verifier::external_body]
pub(crate) fn map_insert(m: &mut TicketMap, k: u64, v: Vec<u8>) -> (r: Option<Vec<u8>>)
    ensures
        map_contents(*final(m)) == map_contents(*old(m)).insert(k, v@),
        match r {
            Some(p) => map_contents(*old(m)).contains_key(k) && p@ == map_contents(*old(m))[k],
            None => !map_contents(*old(m)).contains_key(k),
        },
{
    m.inner.insert(k, v)
}

/// Relies on `BTreeMap::remove`: deletes the entry under the key and
/// returns its value, if any.
#[verifier::external_body]
pub(crate) fn map_remove(m: &mut TicketMap, k: u64) -> (r: Option<Vec<u8>>)
    ensures
        map_contents(*final(m)) == map_contents(*old(m)).remove(k),
        match r {
            Some(p) => map_contents(*old(m)).contains_key(k) && p@ == map_contents(*old(m))[k],
            None => !map_contents(*old(m)).contains_key(k),
        },
{
    m.inner.remove(&k)
}

/// Relies on `BTreeMap::iter`: yields every entry of the map exactly once,
/// in ascending key order.
#[verifier::external_body]
pub(crate) fn map_entries(m: &TicketMap) -> (r: Vec<(u64, Vec<u8>)>)
    ensures
        forall|i: int|
            0 <= i < r@.len() ==> #[trigger] map_contents(*m).contains_key(r@[i].0)
                && r@[i].1@ == map_contents(*m)[r@[i].0],
        forall|k: u64| #[trigger]
            map_contents(*m).contains_key(k) ==> exists|i: int|
                0 <= i < r@.len() && r@[i].0 == k,
        forall|i: int, j: int| 0 <= i < j < r@.len() ==> r@[i].0 < r@[j].0,
{
    m.inner.iter().map(|e| e.into_pair()).collect()
}

} // verus!
