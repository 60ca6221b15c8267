use crate::dt_data::{DtData, RedisEntry};
use crate::error::Error;
use std::collections::HashMap;
use vstd::prelude::*;

verus! {

broadcast use vstd::std_specs::hash::group_hash_axioms;

/// One bit step of CRC-16/XMODEM (polynomial 0x1021).
pub open spec fn crc16_bit(crc: u16) -> u16 {
    if crc & 0x8000u16 != 0 {
        ((crc << 1u16) ^ 0x1021u16) as u16
    } else {
        (crc << 1u16) as u16
    }
}

/// `k` bit steps.
pub open spec fn crc16_bits(crc: u16, k: nat) -> u16
    decreases k,
{
    if k == 0 {
        crc
    } else {
        crc16_bit(crc16_bits(crc, (k - 1) as nat))
    }
}

/// CRC-16/XMODEM of a byte sequence (initial value 0), as Redis Cluster uses it.
pub open spec fn crc16(data: Seq<u8>) -> u16
    decreases data.len(),
{
    if data.len() == 0 {
        0
    } else {
        let crc = crc16(data.drop_last());
        crc16_bits((crc ^ ((data.last() as u16) << 8u16)) as u16, 8)
    }
}

/// The index of the first `{` in `key`, searching from `i` on, or -1.
pub open spec fn find_byte_from(key: Seq<u8>, b: u8, i: int) -> int
    decreases key.len() - i,
{
    if i < 0 || i >= key.len() {
        -1
    } else if key[i] == b {
        i
    } else {
        find_byte_from(key, b, i + 1)
    }
}

/// The part of a key that decides its slot: the bytes between the first `{`
/// and the first `}` after it, when that part is not empty; otherwise the key.
pub open spec fn hash_tag_of(key: Seq<u8>) -> Seq<u8> {
    let s = find_byte_from(key, 0x7b, 0);
    if s < 0 {
        key
    } else {
        let e = find_byte_from(key, 0x7d, s + 1);
        if e < 0 || e == s + 1 {
            key
        } else {
            key.subrange(s + 1, e)
        }
    }
}

/// The cluster slot of a key.
pub open spec fn key_slot(key: Seq<u8>) -> u16 {
    (crc16(hash_tag_of(key)) % 16384) as u16
}

fn crc16_update(crc: u16, b: u8) -> (r: u16)
    ensures
        r == crc16_bits((crc ^ ((b as u16) << 8u16)) as u16, 8),
{
    let start: u16 = crc ^ ((b as u16) << 8u16);
    let mut c: u16 = start;
    let mut k: usize = 0;
    while k < 8
        invariant
            0 <= k <= 8,
            c == crc16_bits(start, k as nat),
        decreases 8 - k,
    {
        if c & 0x8000u16 != 0 {
            c = (c << 1u16) ^ 0x1021u16;
        } else {
            c = c << 1u16;
        }
        k = k + 1;
    }
    c
}

fn crc16_of(data: &[u8], from: usize, to: usize) -> (r: u16)
    requires
        from <= to <= data@.len(),
    ensures
        r == crc16(data@.subrange(from as int, to as int)),
{
    let mut crc: u16 = 0;
    let mut i: usize = from;
    assert(data@.subrange(from as int, from as int) =~= Seq::<u8>::empty());
    while i < to
        invariant
            from <= i <= to,
            to <= data@.len(),
            crc == crc16(data@.subrange(from as int, i as int)),
        decreases to - i,
    {
        assert(data@.subrange(from as int, i + 1).drop_last() =~= data@.subrange(from as int, i as int));
        crc = crc16_update(crc, data[i]);
        i = i + 1;
    }
    crc
}

fn find_byte(key: &[u8], b: u8, from: usize) -> (r: Option<usize>)
    requires
        from <= key@.len(),
    ensures
        match r {
            Some(i) => i as int == find_byte_from(key@, b, from as int) && from <= i < key@.len(),
            None => find_byte_from(key@, b, from as int) == -1,
        },
{
    let mut i: usize = from;
    while i < key.len()
        invariant
            from <= i <= key@.len(),
            find_byte_from(key@, b, from as int) == find_byte_from(key@, b, i as int),
        decreases key.len() - i,
    {
        if key[i] == b {
            return Some(i);
        }
        i = i + 1;
    }
    None
}

/// The cluster slot of a key.
pub fn calc_key_slot(key: &Vec<u8>) -> (r: u16)
    ensures
        r == key_slot(key@),
        r < 16384,
{
    let k = key.as_slice();
    let n: usize = k.len();
    let crc = match find_byte(k, 0x7b, 0) {
        None => {
            assert(key@.subrange(0, key@.len() as int) =~= key@);
            crc16_of(k, 0, k.len())
        },
        Some(s) => match find_byte(k, 0x7d, s + 1) {
            Some(e) if e != s + 1 => crc16_of(k, s + 1, e),
            _ => {
                assert(key@.subrange(0, key@.len() as int) =~= key@);
                crc16_of(k, 0, k.len())
            },
        },
    };
    crc % 16384
}

/// The slots of an entry's keys, in order.
pub open spec fn entry_slots(e: RedisEntry) -> Seq<u16> {
    e.keys@.map_values(|k: Vec<u8>| key_slot(k@))
}

/// Where an item of the raw path goes.
#[derive(Clone, Copy, Debug, PartialEq, Eq, Structural)]
pub enum Route {
    /// To every node's sinker (a command without keys, such as `SWAPDB`).
    All,
    /// To the sinker at this index.
    Node(usize),
}

/// Whether `e` is the error for an item that routes as `rv`.
pub open spec fn route_error(rv: RouteView, e: Error) -> bool {
    match rv {
        RouteView::CrossSlot => e is RedisCmdError,
        RouteView::Unrouted => e is RedisRouteError,
        RouteView::To(_) => false,
    }
}

/// Routes raw items to the sinkers of a Redis Cluster.
pub struct RedisParallelizer {
    pub parallel_size: usize,
    /// The node id that serves each slot; empty when the target is no cluster.
    pub slot_node_map: HashMap<u16, String>,
}

/// The index of the first sinker whose id is `node`, or -1.
pub open spec fn sinker_index_from(ids: Seq<String>, node: Seq<char>, i: int) -> int
    decreases ids.len() - i,
{
    if i < 0 || i >= ids.len() {
        -1
    } else if ids[i]@ == node {
        i
    } else {
        sinker_index_from(ids, node, i + 1)
    }
}

/// The outcome of routing one item: a route or an error.
pub enum RouteView {
    To(Route),
    CrossSlot,
    Unrouted,
}

impl RedisParallelizer {
    /// How one item is routed: without a cluster everything goes to the first
    /// sinker; otherwise an item without keys goes to every sinker, a command
    /// whose keys lie in different slots is refused, and any other goes to the
    /// sinker of the node that serves its slot.
    pub open spec fn route_of(&self, d: DtData, ids: Seq<String>) -> RouteView {
        if self.slot_node_map@.len() == 0 {
            RouteView::To(Route::Node(0))
        } else {
            match d {
                DtData::Redis { entry } => {
                    let slots = entry_slots(entry);
                    if slots.len() == 0 {
                        RouteView::To(Route::All)
                    } else if exists|i: int| 0 <= i < slots.len() && #[trigger] slots[i] != slots[0] {
                        RouteView::CrossSlot
                    } else if !self.slot_node_map@.contains_key(slots[0]) {
                        RouteView::Unrouted
                    } else {
                        let idx = sinker_index_from(ids, self.slot_node_map@[slots[0]]@, 0);
                        if idx < 0 {
                            RouteView::Unrouted
                        } else {
                            RouteView::To(Route::Node(idx as usize))
                        }
                    }
                },
                _ => RouteView::To(Route::All),
            }
        }
    }

    pub fn get_name(&self) -> (r: String)
        ensures
            r@ == "RedisParallelizer"@,
    {
        "RedisParallelizer".to_owned()
    }

    fn sinker_index(ids: &Vec<String>, node: &String) -> (r: Option<usize>)
        ensures
            match r {
                Some(i) => i as int == sinker_index_from(ids@, node@, 0) && i < ids@.len(),
                None => sinker_index_from(ids@, node@, 0) == -1,
            },
    {
        let mut i: usize = 0;
        while i < ids.len()
            invariant
                0 <= i <= ids@.len(),
                sinker_index_from(ids@, node@, 0) == sinker_index_from(ids@, node@, i as int),
            decreases ids.len() - i,
        {
            if ids[i] == *node {
                return Some(i);
            }
            i = i + 1;
        }
        None
    }

    /// Routes one item (see `route_of`).
    pub fn route(&self, d: &DtData, sinker_ids: &Vec<String>) -> (r: Result<Route, Error>)
        ensures
            match self.route_of(*d, sinker_ids@) {
                RouteView::To(x) => r == Ok::<Route, Error>(x),
                RouteView::CrossSlot => r matches Err(Error::RedisCmdError { .. }),
                RouteView::Unrouted => r matches Err(Error::RedisRouteError { .. }),
            },
    {
        if self.slot_node_map.len() == 0 {
            return Ok(Route::Node(0));
        }
        match d {
            DtData::Redis { entry } => {
                let ghost slots = entry_slots(*entry);
                if entry.keys.len() == 0 {
                    return Ok(Route::All);
                }
                let first = calc_key_slot(&entry.keys[0]);
                assert(slots[0] == key_slot(entry.keys@[0]@));
                let mut i: usize = 1;
                while i < entry.keys.len()
                    invariant
                        1 <= i <= entry.keys@.len(),
                        self.slot_node_map@.len() != 0,
                        *d == (DtData::Redis { entry: *entry }),
                        slots == entry_slots(*entry),
                        first == slots[0],
                        forall|j: int| 0 <= j < i ==> #[trigger] slots[j] == slots[0],
                    decreases entry.keys.len() - i,
                {
                    if calc_key_slot(&entry.keys[i]) != first {
                        assert(slots[i as int] == key_slot(entry.keys@[i as int]@));
                        assert(slots[i as int] != slots[0]);
                        return Err(Error::RedisCmdError { cmd: entry.cmd_name.clone() });
                    }
                    assert(slots[i as int] == key_slot(entry.keys@[i as int]@));
                    i = i + 1;
                }
                match self.slot_node_map.get(&first) {
                    None => Err(Error::RedisRouteError { slot: first }),
                    Some(node) => match Self::sinker_index(sinker_ids, node) {
                        None => Err(Error::RedisRouteError { slot: first }),
                        Some(idx) => Ok(Route::Node(idx)),
                    },
                }
            },
            _ => Ok(Route::All),
        }
    }

    /// Routes a batch of raw items: one route per item, or the error of the
    /// first item that cannot be routed.
    pub fn sink_raw_routes(&self, data: &Vec<DtData>, sinker_ids: &Vec<String>) -> (r: Result<Vec<Route>, Error>)
        ensures
            r is Ok <==> forall|i: int| 0 <= i < data@.len() ==> (self.route_of(#[trigger] data@[i], sinker_ids@) is To),
            r is Err ==> exists|i: int|
                0 <= i < data@.len() && (forall|j: int| 0 <= j < i ==> (self.route_of(#[trigger] data@[j], sinker_ids@) is To))
                    && route_error(self.route_of(data@[i], sinker_ids@), r->Err_0),
            r is Ok ==> r.unwrap()@.len() == data@.len() && forall|i: int|
                0 <= i < data@.len() ==> self.route_of(#[trigger] data@[i], sinker_ids@) == RouteView::To(r.unwrap()@[i]),
    {
        let mut routes: Vec<Route> = Vec::new();
        let mut i: usize = 0;
        while i < data.len()
            invariant
                0 <= i <= data@.len(),
                routes@.len() == i,
                forall|j: int| 0 <= j < i ==> self.route_of(#[trigger] data@[j], sinker_ids@) == RouteView::To(routes@[j]),
            decreases data.len() - i,
        {
            match self.route(&data[i], sinker_ids) {
                Ok(x) => routes.push(x),
                Err(e) => {
                    assert(route_error(self.route_of(data@[i as int], sinker_ids@), e));
                    return Err(e);
                },
            }
            i = i + 1;
        }
        Ok(routes)
    }
}

} // verus!
