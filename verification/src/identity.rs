//! Display identity: which monitor this is, apart from how long its lease runs.
//!
//! The operating system keys remembered display settings on the EDID identity and
//! on the connector a monitor appears on. A returning client that gets both back
//! gets its settings back. Everything that bears identity is derived from a
//! `display_id`; connector reservations keep an identity on its connector across
//! reconnects and restarts.
use vstd::prelude::*;

use crate::idmap::{sorted_ids, IdMap};
use crate::proto::wire::{lemma_u64_le_injective, lemma_u64_le_len, put_u64, u64_le};
use crate::proto::LUMINAL_VGD_INTERFACE_GUID;

verus! {

/// Identities of the permanent pool: the base with the pool index below it.
pub const PERMANENT_DISPLAY_ID_BASE: u64 = 0x7000_0000_0000_0000;

/// Throwaway identities, out of the range of host-chosen ones.
pub const EPHEMERAL_DISPLAY_ID_BASE: u64 = 0xE000_0000_0000_0000;

pub const PERMANENT_PRODUCT_CODE_BASE: u16 = 0x4000;

pub const TEMPORARY_PRODUCT_CODE_BASE: u16 = 0x5000;

/// The top four bits mark the permanent range.
pub open spec fn in_permanent_range(display_id: u64) -> bool {
    display_id & 0xF000_0000_0000_0000 == PERMANENT_DISPLAY_ID_BASE
}

pub open spec fn permanent_id(index: u32) -> u64 {
    PERMANENT_DISPLAY_ID_BASE | index as u64
}

pub open spec fn ephemeral_id(session_id: u64) -> u64 {
    EPHEMERAL_DISPLAY_ID_BASE | (session_id & 0x0FFF_FFFF_FFFF_FFFF)
}

pub open spec fn folded_serial(display_id: u64) -> u32 {
    (display_id ^ (display_id >> 32)) as u32
}

pub fn permanent_display_id(index: u32) -> (r: u64)
    ensures
        r == permanent_id(index),
{
    PERMANENT_DISPLAY_ID_BASE | index as u64
}

pub fn is_permanent_display_id(display_id: u64) -> (r: bool)
    ensures
        r == in_permanent_range(display_id),
{
    display_id & 0xF000_0000_0000_0000 == PERMANENT_DISPLAY_ID_BASE
}

/// Derive a throwaway identity from a session id.
pub fn ephemeral_display_id(session_id: u64) -> (r: u64)
    ensures
        r == ephemeral_id(session_id),
{
    EPHEMERAL_DISPLAY_ID_BASE | (session_id & 0x0FFF_FFFF_FFFF_FFFF)
}

/// `base` and the low half of `index`, modulo 2^16.
pub open spec fn product_code(base: u16, index: u32) -> u16 {
    ((base + index % 0x1_0000) % 0x1_0000) as u16
}

pub fn permanent_product_code(index: u32) -> (r: u16)
    ensures
        r == product_code(PERMANENT_PRODUCT_CODE_BASE, index),
{
    PERMANENT_PRODUCT_CODE_BASE.wrapping_add((index % 0x1_0000) as u16)
}

pub fn temporary_product_code(connector_index: u32) -> (r: u16)
    ensures
        r == product_code(TEMPORARY_PRODUCT_CODE_BASE, connector_index),
{
    TEMPORARY_PRODUCT_CODE_BASE.wrapping_add((connector_index % 0x1_0000) as u16)
}

/// EDID serial derived from the identity.
pub fn serial_from_display_id(display_id: u64) -> (r: u32)
    ensures
        r == folded_serial(display_id),
{
    #[verifier::truncate]
    let r: u32 = (display_id ^ (display_id >> 32)) as u32;
    r
}

/// The last eight bytes of a container GUID.
pub open spec fn container_tail(display_id: u64) -> Seq<u8> {
    Seq::new(8, |i: int| LUMINAL_VGD_INTERFACE_GUID.3[i] ^ u64_le(display_id)[i])
}

/// The second field of a container GUID, with the version bits of a custom GUID.
pub open spec fn container_mid(display_id: u64) -> u16 {
    ((LUMINAL_VGD_INTERFACE_GUID.1 ^ ((display_id / 0x1_0000_0000 % 0x1_0000) as u16)) & 0x0FFF)
        | 0x8000
}

/// The third field of a container GUID, with the same bits set.
pub open spec fn container_high(display_id: u64) -> u16 {
    ((LUMINAL_VGD_INTERFACE_GUID.2 ^ ((display_id / 0x1_0000_0000_0000) as u16)) & 0x0FFF) | 0x8000
}

/// Deterministic container GUID for a monitor: the interface GUID combined with
/// the identity.
pub fn container_guid_from_display_id(display_id: u64) -> (r: (u32, u16, u16, [u8; 8]))
    ensures
        r.0 == LUMINAL_VGD_INTERFACE_GUID.0 ^ ((display_id % 0x1_0000_0000) as u32),
        r.1 == container_mid(display_id),
        r.2 == container_high(display_id),
        r.3@ == container_tail(display_id),
{
    let (d1, d2, d3, d4) = LUMINAL_VGD_INTERFACE_GUID;
    let lo: u32 = (display_id % 0x1_0000_0000) as u32;
    let hi_lo: u16 = (display_id / 0x1_0000_0000 % 0x1_0000) as u16;
    let hi_hi: u16 = (display_id / 0x1_0000_0000_0000) as u16;
    let mut bytes: Vec<u8> = Vec::new();
    put_u64(&mut bytes, display_id);
    let mut tail: [u8; 8] = d4;
    let mut i: usize = 0;
    proof {
        lemma_u64_le_len(display_id);
        assert(bytes@ =~= u64_le(display_id));
    }
    while i < 8
        invariant
            i <= 8,
            bytes@ == u64_le(display_id),
            bytes@.len() == 8,
            d4 == LUMINAL_VGD_INTERFACE_GUID.3,
            forall|j: int| 0 <= j < i ==> #[trigger] tail@[j] == container_tail(display_id)[j],
            forall|j: int| i <= j < 8 ==> #[trigger] tail@[j] == d4@[j],
        decreases 8 - i,
    {
        tail[i] = tail[i] ^ bytes[i];
        i += 1;
    }
    assert(tail@ =~= container_tail(display_id));
    (d1 ^ lo, ((d2 ^ hi_lo) & 0x0FFF) | 0x8000, ((d3 ^ hi_hi) & 0x0FFF) | 0x8000, tail)
}

/// Different identities have different container GUIDs, and none of them is the
/// interface GUID.
pub proof fn law_container_guids_distinct(a: u64, b: u64)
    ensures
        container_tail(a) == container_tail(b) ==> a == b,
        container_mid(a) != LUMINAL_VGD_INTERFACE_GUID.1,
{
    if container_tail(a) == container_tail(b) {
        lemma_u64_le_len(a);
        lemma_u64_le_len(b);
        assert forall|i: int| 0 <= i < 8 implies u64_le(a)[i] == u64_le(b)[i] by {
            let (k, x, y) = (LUMINAL_VGD_INTERFACE_GUID.3[i], u64_le(a)[i], u64_le(b)[i]);
            assert(container_tail(a)[i] == container_tail(b)[i]);
            assert(k ^ x == k ^ y ==> x == y) by (bit_vector);
        }
        assert(u64_le(a) =~= u64_le(b));
        lemma_u64_le_injective(a, b);
    }
    let m: u16 = (LUMINAL_VGD_INTERFACE_GUID.1 ^ ((a / 0x1_0000_0000 % 0x1_0000) as u16)) & 0x0FFF;
    assert(m | 0x8000u16 >= 0x8000u16) by (bit_vector);
}

/// The three kinds of identity never meet: pool identities lie in the permanent
/// range, throwaway ones above it, and neither is a plain host-chosen id.
pub proof fn law_identity_ranges_disjoint(index: u32, session_id: u64, host_id: u64)
    requires
        host_id < EPHEMERAL_DISPLAY_ID_BASE,
        !in_permanent_range(host_id),
    ensures
        in_permanent_range(permanent_id(index)),
        permanent_id(index) < EPHEMERAL_DISPLAY_ID_BASE,
        ephemeral_id(session_id) >= EPHEMERAL_DISPLAY_ID_BASE,
        !in_permanent_range(ephemeral_id(session_id)),
        permanent_id(index) != host_id,
        ephemeral_id(session_id) != host_id,
        ephemeral_id(session_id) != permanent_id(index),
{
    assert((0x7000_0000_0000_0000u64 | index as u64) & 0xF000_0000_0000_0000u64
        == 0x7000_0000_0000_0000u64) by (bit_vector);
    assert((0x7000_0000_0000_0000u64 | index as u64) < 0xE000_0000_0000_0000u64) by (bit_vector);
    assert((0xE000_0000_0000_0000u64 | (session_id & 0x0FFF_FFFF_FFFF_FFFFu64))
        & 0xF000_0000_0000_0000u64 == 0xE000_0000_0000_0000u64) by (bit_vector);
    assert((0xE000_0000_0000_0000u64 | (session_id & 0x0FFF_FFFF_FFFF_FFFFu64))
        >= 0xE000_0000_0000_0000u64) by (bit_vector);
}

/// Pool members of different index have different identities.
pub proof fn law_permanent_ids_distinct(a: u32, b: u32)
    ensures
        permanent_id(a) == permanent_id(b) ==> a == b,
        permanent_id(a) & 0xFFFF_FFFF == a,
{
    assert((0x7000_0000_0000_0000u64 | a as u64) & 0xFFFF_FFFFu64 == a as u64) by (bit_vector);
    assert((0x7000_0000_0000_0000u64 | b as u64) & 0xFFFF_FFFFu64 == b as u64) by (bit_vector);
}

/// A connector held for an identity.
#[derive(Clone, Copy, Debug, PartialEq, Eq, Structural)]
pub struct Reservation {
    pub connector: u32,
    /// When the identity last used it; larger is later.
    pub last_used: u64,
}

/// What a connector table holds.
pub struct ConnectorModel {
    pub max_connectors: u32,
    pub reservations: Map<u64, Reservation>,
    pub next_age: u64,
}

impl ConnectorModel {
    /// Reserved connectors exist and are held by one identity each; ages are
    /// distinct and in the past.
    pub open spec fn wf(self) -> bool {
        &&& self.reservations.dom().finite()
        &&& forall|d: u64| #[trigger]
            self.reservations.dom().contains(d) ==> self.reservations[d].connector
                < self.max_connectors && self.reservations[d].last_used < self.next_age
        &&& forall|a: u64, b: u64|
            #![trigger self.reservations[a], self.reservations[b]]
            self.reservations.dom().contains(a) && self.reservations.dom().contains(b) && a != b
                ==> self.reservations[a].connector != self.reservations[b].connector
                && self.reservations[a].last_used != self.reservations[b].last_used
    }

    pub open spec fn taken(self, connector: u32) -> bool {
        exists|d: u64| #[trigger]
            self.reservations.dom().contains(d) && self.reservations[d].connector == connector
    }

    /// Taken by one of the identities in `active`.
    pub open spec fn held_live(self, connector: u32, active: Set<u64>) -> bool {
        exists|d: u64| #[trigger]
            self.reservations.dom().contains(d) && self.reservations[d].connector == connector
                && active.contains(d)
    }

    /// Free, with every connector below it taken.
    pub open spec fn is_lowest_free(self, connector: u32) -> bool {
        &&& connector < self.max_connectors
        &&& !self.taken(connector)
        &&& forall|c: u32| c < connector ==> self.taken(c)
    }

    pub open spec fn any_free(self) -> bool {
        exists|c: u32| c < self.max_connectors && !self.taken(c)
    }

    /// Holds a reservation and has no live monitor.
    pub open spec fn idle(self, display_id: u64, active: Set<u64>) -> bool {
        self.reservations.dom().contains(display_id) && !active.contains(display_id)
    }

    /// The idle identity that used its connector longest ago.
    pub open spec fn is_victim(self, display_id: u64, active: Set<u64>) -> bool {
        &&& self.idle(display_id, active)
        &&& forall|d: u64| #[trigger]
            self.idle(d, active) ==> self.reservations[display_id].last_used
                <= self.reservations[d].last_used
    }

    pub open spec fn victim(self, active: Set<u64>) -> u64 {
        choose|d: u64| self.is_victim(d, active)
    }

    pub open spec fn lowest_free(self) -> u32 {
        choose|c: u32| self.is_lowest_free(c)
    }

    /// Hold `connector` for `display_id` from now on.
    pub open spec fn bound(self, display_id: u64, connector: u32) -> ConnectorModel {
        ConnectorModel {
            reservations: self.reservations.insert(
                display_id,
                Reservation { connector, last_used: self.next_age },
            ),
            next_age: (self.next_age + 1) as u64,
            ..self
        }
    }

    /// Hold nothing for `display_id`.
    pub open spec fn without(self, display_id: u64) -> ConnectorModel {
        ConnectorModel { reservations: self.reservations.remove(display_id), ..self }
    }

    /// The connector `display_id` gets while the identities in `active` are live:
    /// its own, else the lowest free one, else that of the idle identity which used
    /// its connector longest ago.
    pub open spec fn connector_for(self, display_id: u64, active: Set<u64>) -> Option<u32> {
        if self.reservations.dom().contains(display_id) {
            Some(self.reservations[display_id].connector)
        } else if self.any_free() {
            Some(self.lowest_free())
        } else if exists|d: u64| self.idle(d, active) {
            Some(self.reservations[self.victim(active)].connector)
        } else {
            None
        }
    }

    /// The table after `display_id` asked for a connector.
    pub open spec fn acquired(self, display_id: u64, active: Set<u64>) -> ConnectorModel {
        match self.connector_for(display_id, active) {
            None => ConnectorModel { next_age: (self.next_age + 1) as u64, ..self },
            Some(c) => if self.reservations.dom().contains(display_id) || self.any_free() {
                self.bound(display_id, c)
            } else {
                self.without(self.victim(active)).bound(display_id, c)
            },
        }
    }

    /// One stored entry put back, unless its connector does not exist or is taken.
    pub open spec fn restored_one(self, display_id: u64, connector: u32) -> ConnectorModel {
        if connector < self.max_connectors && !self.taken(connector) {
            self.bound(display_id, connector)
        } else {
            self
        }
    }

    /// Stored entries put back in order.
    pub open spec fn restored(self, entries: Seq<(u64, u32)>) -> ConnectorModel
        decreases entries.len(),
    {
        if entries.len() == 0 {
            self
        } else {
            self.restored(entries.drop_last()).restored_one(entries.last().0, entries.last().1)
        }
    }

    /// Every reservation, in ascending order of identity.
    pub open spec fn listing(self) -> Seq<(u64, u32)> {
        sorted_ids(self.reservations.dom()).map_values(
            |d: u64| (d, self.reservations[d].connector),
        )
    }
}

/// Connector reservations. They outlive leases and, once stored, restarts.
pub struct ConnectorTable {
    max_connectors: u32,
    reservations: IdMap<Reservation>,
    next_age: u64,
}

impl View for ConnectorTable {
    type V = ConnectorModel;

    closed spec fn view(&self) -> ConnectorModel {
        ConnectorModel {
            max_connectors: self.max_connectors,
            reservations: self.reservations@,
            next_age: self.next_age,
        }
    }
}

impl ConnectorTable {
    pub closed spec fn wf(&self) -> bool {
        self.reservations.wf() && self@.wf()
    }

    /// A well-formed table has a well-formed model.
    pub proof fn lemma_wf(&self)
        requires
            self.wf(),
        ensures
            self@.wf(),
    {
    }

    pub fn new(max_connectors: u32) -> (r: Self)
        ensures
            r.wf(),
            r@ == (ConnectorModel { max_connectors, reservations: Map::empty(), next_age: 0 }),
    {
        ConnectorTable { max_connectors, reservations: IdMap::new(), next_age: 0 }
    }

    /// The number the next use of a connector gets.
    pub fn next_age(&self) -> (r: u64)
        ensures
            r == self@.next_age,
    {
        self.next_age
    }

    /// Every reservation, in ascending order of identity.
    pub fn reservations(&self) -> (r: Vec<(u64, u32)>)
        requires
            self.wf(),
        ensures
            r@ == self@.listing(),
            r@.len() == self@.reservations.dom().len(),
    {
        let mut out: Vec<(u64, u32)> = Vec::new();
        let mut i: usize = 0;
        proof {
            self.reservations.lemma_ids();
        }
        while i < self.reservations.len()
            invariant
                self.reservations.wf(),
                self.reservations.ids() == sorted_ids(self@.reservations.dom()),
                i <= self.reservations.ids().len(),
                self@.listing().len() == self.reservations.ids().len(),
                out@ == self@.listing().take(i as int),
            decreases self.reservations.ids().len() - i,
        {
            let d: u64 = self.reservations.key_at(i);
            out.push((d, self.reservations.at(i).connector));
            i += 1;
            assert(out@ =~= self@.listing().take(i as int));
        }
        assert(out@ =~= self@.listing());
        out
    }

    /// Whether some identity holds `connector`.
    fn is_taken(&self, connector: u32) -> (r: bool)
        requires
            self.wf(),
        ensures
            r == self@.taken(connector),
    {
        let mut i: usize = 0;
        proof {
            self.reservations.lemma_ids();
        }
        while i < self.reservations.len()
            invariant
                self.reservations.wf(),
                i <= self.reservations.ids().len(),
                forall|k: u64|
                    self.reservations.ids().contains(k)
                        <==> #[trigger] self.reservations@.dom().contains(k),
                forall|j: int|
                    0 <= j < i ==> self.reservations@[#[trigger] self.reservations.ids()[j]].connector
                        != connector,
            decreases self.reservations.ids().len() - i,
        {
            if self.reservations.at(i).connector == connector {
                assert(self@.reservations.dom().contains(self.reservations.ids()[i as int]));
                return true;
            }
            i += 1;
        }
        proof {
            assert forall|d: u64| #[trigger]
                self@.reservations.dom().contains(d) implies self@.reservations[d].connector
                != connector by {
                let j = self.reservations.ids().index_of(d);
                assert(self.reservations.ids()[j] == d);
            }
        }
        false
    }

    fn bind(&mut self, display_id: u64, connector: u32)
        requires
            old(self).reservations.wf(),
            old(self)@.next_age < u64::MAX,
        ensures
            final(self).reservations.wf(),
            final(self)@ == old(self)@.bound(display_id, connector),
    {
        let r = Reservation { connector, last_used: self.next_age };
        self.reservations.insert(display_id, r);
        self.next_age += 1;
    }

    /// Put stored reservations back. Entries that cannot hold are dropped, not
    /// trusted.
    pub fn restore(&mut self, entries: &[(u64, u32)])
        requires
            old(self).wf(),
            old(self)@.next_age + entries@.len() <= u64::MAX,
        ensures
            final(self).wf(),
            final(self)@ == old(self)@.restored(entries@),
            final(self)@.max_connectors == old(self)@.max_connectors,
            final(self)@.next_age <= old(self)@.next_age + entries@.len(),
    {
        let mut i: usize = 0;
        assert(entries@.take(0) =~= Seq::<(u64, u32)>::empty());
        while i < entries.len()
            invariant
                i <= entries@.len(),
                self.wf(),
                self@ == old(self)@.restored(entries@.take(i as int)),
                self@.max_connectors == old(self)@.max_connectors,
                self@.next_age <= old(self)@.next_age + i,
                old(self)@.next_age + entries@.len() <= u64::MAX,
            decreases entries@.len() - i,
        {
            let (display_id, connector) = entries[i];
            assert(entries@.take(i + 1).drop_last() =~= entries@.take(i as int));
            if connector < self.max_connectors && !self.is_taken(connector) {
                self.bind(display_id, connector);
            }
            i += 1;
        }
        assert(entries@.take(i as int) =~= entries@);
    }

    fn find_free(&self) -> (r: Option<u32>)
        requires
            self.wf(),
        ensures
            r is Some <==> self@.any_free(),
            r matches Some(c) ==> c == self@.lowest_free() && self@.is_lowest_free(c),
    {
        let mut c: u32 = 0;
        while c < self.max_connectors
            invariant
                self.wf(),
                c <= self.max_connectors,
                forall|x: u32| x < c ==> self@.taken(x),
            decreases self.max_connectors - c,
        {
            if !self.is_taken(c) {
                assert(self@.is_lowest_free(c));
                assert(self@.is_lowest_free(self@.lowest_free()));
                return Some(c);
            }
            c += 1;
        }
        None
    }

    fn find_victim(&self, active: &[u64]) -> (r: Option<u64>)
        requires
            self.wf(),
        ensures
            r is Some <==> exists|d: u64| self@.idle(d, active@.to_set()),
            r matches Some(d) ==> d == self@.victim(active@.to_set()) && self@.is_victim(
                d,
                active@.to_set(),
            ),
    {
        let ghost live = active@.to_set();
        let mut best: Option<u64> = None;
        let mut i: usize = 0;
        proof {
            self.reservations.lemma_ids();
        }
        while i < self.reservations.len()
            invariant
                self.wf(),
                live == active@.to_set(),
                i <= self.reservations.ids().len(),
                forall|k: u64|
                    self.reservations.ids().contains(k)
                        <==> #[trigger] self.reservations@.dom().contains(k),
                best is None ==> forall|j: int|
                    0 <= j < i ==> !self@.idle(#[trigger] self.reservations.ids()[j], live),
                best matches Some(b) ==> self@.idle(b, live) && forall|j: int|
                    0 <= j < i && self@.idle(#[trigger] self.reservations.ids()[j], live)
                        ==> self@.reservations[b].last_used
                        <= self@.reservations[self.reservations.ids()[j]].last_used,
            decreases self.reservations.ids().len() - i,
        {
            let d: u64 = self.reservations.key_at(i);
            if !holds_id(active, d) {
                let age: u64 = self.reservations.at(i).last_used;
                let better: bool = match best {
                    None => true,
                    Some(b) => match self.reservations.get(b) {
                        Some(r) => age < r.last_used,
                        None => true,
                    },
                };
                if better {
                    best = Some(d);
                }
            }
            i += 1;
        }
        proof {
            assert forall|d: u64| self@.idle(d, live) implies exists|j: int|
                0 <= j < self.reservations.ids().len() && #[trigger] self.reservations.ids()[j]
                    == d by {
                let j = self.reservations.ids().index_of(d);
                assert(self.reservations.ids()[j] == d);
            }
            if let Some(b) = best {
                assert(self@.is_victim(b, live));
                let v = self@.victim(live);
                assert(self@.is_victim(v, live));
                assert(self@.reservations[b].last_used == self@.reservations[v].last_used);
            }
        }
        best
    }

    /// Get the connector for an identity. `active` lists the identities that have
    /// a live monitor; they are never evicted. `None` means that every connector is
    /// held by one of those.
    pub fn acquire(&mut self, display_id: u64, active: &[u64]) -> (r: Option<u32>)
        requires
            old(self).wf(),
            old(self)@.next_age < u64::MAX,
        ensures
            final(self).wf(),
            r == old(self)@.connector_for(display_id, active@.to_set()),
            final(self)@ == old(self)@.acquired(display_id, active@.to_set()),
    {
        if let Some(held) = self.reservations.get(display_id) {
            let c: u32 = held.connector;
            self.bind(display_id, c);
            return Some(c);
        }
        match self.find_free() {
            Some(c) => {
                self.bind(display_id, c);
                Some(c)
            },
            None => match self.find_victim(active) {
                Some(victim) => {
                    let c: u32 = match self.reservations.remove(victim) {
                        Some(r) => r.connector,
                        None => 0,
                    };
                    self.bind(display_id, c);
                    Some(c)
                },
                None => {
                    self.next_age += 1;
                    None
                },
            },
        }
    }

    /// Drop a reservation entirely.
    pub fn release(&mut self, display_id: u64)
        requires
            old(self).wf(),
        ensures
            final(self).wf(),
            final(self)@ == old(self)@.without(display_id),
    {
        self.reservations.remove(display_id);
    }
}

/// An identity that got a connector gets the same one back, whoever is live then.
pub proof fn law_returning_identity_keeps_connector(
    t: ConnectorModel,
    display_id: u64,
    active: Set<u64>,
    later: Set<u64>,
)
    requires
        t.wf(),
        t.connector_for(display_id, active) is Some,
    ensures
        t.acquired(display_id, active).connector_for(display_id, later) == t.connector_for(
            display_id,
            active,
        ),
{
}

/// A request for a connector never takes one away from a live identity.
pub proof fn law_live_identities_never_evicted(
    t: ConnectorModel,
    display_id: u64,
    active: Set<u64>,
    other: u64,
)
    requires
        t.wf(),
        active.contains(other),
        t.reservations.dom().contains(other),
    ensures
        t.acquired(display_id, active).reservations.dom().contains(other),
        t.acquired(display_id, active).reservations[other].connector
            == t.reservations[other].connector,
{
    if !t.reservations.dom().contains(display_id) && !t.any_free() && exists|d: u64|
        t.idle(d, active) {
        lemma_victim_exists(t, active);
        assert(t.is_victim(t.victim(active), active));
    }
}

/// As long as a connector is free, no reservation is given up.
pub proof fn law_free_connectors_go_first(
    t: ConnectorModel,
    display_id: u64,
    active: Set<u64>,
    other: u64,
)
    requires
        t.wf(),
        t.any_free(),
        t.reservations.dom().contains(other),
    ensures
        t.acquired(display_id, active).reservations.dom().contains(other),
        t.acquired(display_id, active).reservations[other].connector
            == t.reservations[other].connector,
{
}

/// A request fails only when every connector is held by a live identity.
pub proof fn law_full_means_all_live(t: ConnectorModel, display_id: u64, active: Set<u64>)
    requires
        t.wf(),
        t.connector_for(display_id, active) is None,
    ensures
        forall|c: u32| c < t.max_connectors ==> #[trigger] t.held_live(c, active),
{
    assert forall|c: u32| c < t.max_connectors implies #[trigger] t.held_live(c, active) by {
        assert(t.taken(c));
        let d = choose|d: u64| #[trigger]
            t.reservations.dom().contains(d) && t.reservations[d].connector == c;
        assert(!t.idle(d, active));
        assert(active.contains(d));
    }
}

/// Reservations put back into an empty table of the same size are what they were.
pub proof fn law_restored_listing_is_the_same(t: ConnectorModel, d: u64)
    requires
        t.wf(),
    ensures
        ({
            let fresh = ConnectorModel {
                max_connectors: t.max_connectors,
                reservations: Map::empty(),
                next_age: 0,
            };
            let back = fresh.restored(t.listing());
            &&& back.reservations.dom().contains(d) <==> t.reservations.dom().contains(d)
            &&& t.reservations.dom().contains(d) ==> back.reservations[d].connector
                == t.reservations[d].connector
        }),
{
    let fresh = ConnectorModel {
        max_connectors: t.max_connectors,
        reservations: Map::empty(),
        next_age: 0,
    };
    let ids = sorted_ids(t.reservations.dom());
    crate::idmap::lemma_sorted_exists(t.reservations.dom());
    assert(crate::idmap::ascending(ids) && ids.to_set() == t.reservations.dom());
    lemma_restored_prefix(t, fresh, ids, ids.len() as int);
    assert(t.listing().take(ids.len() as int) =~= t.listing());
    assert(ids.take(ids.len() as int) =~= ids);
    assert(ids.contains(d) <==> ids.to_set().contains(d));
}

proof fn lemma_restored_prefix(t: ConnectorModel, fresh: ConnectorModel, ids: Seq<u64>, k: int)
    requires
        t.wf(),
        fresh.reservations == Map::<u64, Reservation>::empty(),
        fresh.max_connectors == t.max_connectors,
        crate::idmap::ascending(ids),
        ids.to_set() == t.reservations.dom(),
        ids == sorted_ids(t.reservations.dom()),
        0 <= k <= ids.len(),
    ensures
        ({
            let r = fresh.restored(t.listing().take(k));
            &&& r.max_connectors == t.max_connectors
            &&& forall|d: u64| #[trigger]
                r.reservations.dom().contains(d) <==> ids.take(k).contains(d)
            &&& forall|d: u64| #[trigger]
                r.reservations.dom().contains(d) ==> r.reservations[d].connector
                    == t.reservations[d].connector
        }),
    decreases k,
{
    if k > 0 {
        lemma_restored_prefix(t, fresh, ids, k - 1);
        let before = fresh.restored(t.listing().take(k - 1));
        let r = fresh.restored(t.listing().take(k));
        let x = ids[k - 1];
        assert(t.listing().take(k).drop_last() =~= t.listing().take(k - 1));
        assert(t.listing().take(k).last() == (x, t.reservations[x].connector));
        assert(ids.contains(x));
        assert(t.reservations.dom().contains(x));
        assert(!before.taken(t.reservations[x].connector)) by {
            assert forall|d: u64| #[trigger] before.reservations.dom().contains(d) implies before.reservations[d].connector
                != t.reservations[x].connector by {
                assert(ids.take(k - 1).contains(d));
                let p = ids.take(k - 1).index_of(d);
                assert(ids[p] == d);
                assert(ids.contains(d));
                assert(t.reservations.dom().contains(d));
                assert(t.reservations[d].connector != t.reservations[x].connector);
            }
        }
        assert(r == before.bound(x, t.reservations[x].connector));
        assert forall|d: u64| #[trigger] r.reservations.dom().contains(d) <==> ids.take(k).contains(d) by {
            if ids.take(k - 1).contains(d) {
                let p = ids.take(k - 1).index_of(d);
                assert(ids.take(k)[p] == d);
            }
            if ids.take(k).contains(d) {
                let p = ids.take(k).index_of(d);
                if p < k - 1 {
                    assert(ids.take(k - 1)[p] == d);
                }
            }
            assert(ids.take(k)[k - 1] == x);
        }
    } else {
        assert(t.listing().take(0) =~= Seq::<(u64, u32)>::empty());
    }
}

/// There are no more reservations than connectors.
pub proof fn law_reservations_fit_connectors(t: ConnectorModel)
    requires
        t.wf(),
    ensures
        t.reservations.dom().len() <= t.max_connectors,
        t.listing().len() == t.reservations.dom().len(),
{
    let f = |d: u64| t.reservations[d].connector as int;
    let ids = t.reservations.dom();
    let used = ids.map(f);
    let all = vstd::set_lib::set_int_range(0, t.max_connectors as int);
    assert(vstd::relations::injective_on(f, ids));
    vstd::set_lib::lemma_map_size(ids, used, f);
    vstd::set_lib::lemma_int_range(0, t.max_connectors as int);
    assert forall|c: int| used.contains(c) implies all.contains(c) by {
        let d = choose|d: u64| ids.contains(d) && c == f(d);
        assert(ids.contains(d));
    }
    vstd::set_lib::lemma_len_subset(used, all);
    crate::idmap::lemma_sorted_exists(ids);
    let s = sorted_ids(ids);
    assert(s.no_duplicates());
    s.unique_seq_to_set();
}

/// Some idle identity used its connector longest ago.
pub proof fn lemma_victim_exists(t: ConnectorModel, active: Set<u64>)
    requires
        t.wf(),
        exists|d: u64| t.idle(d, active),
    ensures
        exists|d: u64| t.is_victim(d, active),
{
    let idle = t.reservations.dom().filter(|d: u64| t.idle(d, active));
    let some = choose|d: u64| t.idle(d, active);
    assert(idle.contains(some));
    lemma_least(t, idle);
    let v = choose|v: u64|
        idle.contains(v) && forall|d: u64| #[trigger]
            idle.contains(d) ==> t.reservations[v].last_used <= t.reservations[d].last_used;
    assert forall|d: u64| #[trigger] t.idle(d, active) implies t.reservations[v].last_used
        <= t.reservations[d].last_used by {
        assert(idle.contains(d));
    }
    assert(t.is_victim(v, active));
}

proof fn lemma_least(t: ConnectorModel, s: Set<u64>)
    requires
        s.finite(),
        s.len() > 0,
    ensures
        exists|v: u64|
            s.contains(v) && forall|d: u64| #[trigger]
                s.contains(d) ==> t.reservations[v].last_used <= t.reservations[d].last_used,
    decreases s.len(),
{
    let x = s.choose();
    let rest = s.remove(x);
    if rest.len() == 0 {
        assert forall|d: u64| #[trigger] s.contains(d) implies d == x by {
            if d != x {
                assert(rest.contains(d));
            }
        }
        assert(s.contains(x));
    } else {
        lemma_least(t, rest);
        let v = choose|v: u64|
            rest.contains(v) && forall|d: u64| #[trigger]
                rest.contains(d) ==> t.reservations[v].last_used <= t.reservations[d].last_used;
        let w = if t.reservations[x].last_used <= t.reservations[v].last_used { x } else { v };
        assert forall|d: u64| #[trigger] s.contains(d) implies t.reservations[w].last_used
            <= t.reservations[d].last_used by {
            if d != x {
                assert(rest.contains(d));
            }
        }
        assert(s.contains(w));
    }
}

/// Whether `ids` holds `id`.
pub fn holds_id(ids: &[u64], id: u64) -> (r: bool)
    ensures
        r == ids@.to_set().contains(id),
{
    let mut i: usize = 0;
    while i < ids.len()
        invariant
            i <= ids@.len(),
            forall|j: int| 0 <= j < i ==> ids@[j] != id,
        decreases ids@.len() - i,
    {
        if ids[i] == id {
            assert(ids@.contains(ids@[i as int]));
            return true;
        }
        i += 1;
    }
    false
}

/// Identities as numbers: a pool member's is 7 in the top four bits and its index below,
/// a throwaway one is 14 in the top four bits and the rest of its session below, and the
/// permanent range is everything that starts with a 7.
pub proof fn law_identity_values(index: u32, session_id: u64, display_id: u64)
    ensures
        permanent_id(index) == 0x7000_0000_0000_0000 + index,
        ephemeral_id(session_id) == 0xE000_0000_0000_0000 + session_id % 0x1000_0000_0000_0000,
        in_permanent_range(display_id) <==> 0x7000_0000_0000_0000 <= display_id
            < 0x8000_0000_0000_0000,
{
    assert((0x7000_0000_0000_0000u64 | index as u64) == 0x7000_0000_0000_0000u64 + index as u64 && (
    0xE000_0000_0000_0000u64 | (session_id & 0x0FFF_FFFF_FFFF_FFFFu64))
        == 0xE000_0000_0000_0000u64 + session_id % 0x1000_0000_0000_0000u64 && ((display_id
        & 0xF000_0000_0000_0000u64 == 0x7000_0000_0000_0000u64) <==> (0x7000_0000_0000_0000u64
        <= display_id && display_id < 0x8000_0000_0000_0000u64))) by (bit_vector);
}

/// A derived serial depends on both halves of the identity: it is their exclusive or.
/// Identities that agree in one half and differ in the other have different serials.
pub proof fn law_serial_folds_both_halves(a: u64, b: u64)
    ensures
        folded_serial(a) == ((a % 0x1_0000_0000) as u32) ^ ((a / 0x1_0000_0000) as u32),
        a % 0x1_0000_0000 == b % 0x1_0000_0000 && folded_serial(a) == folded_serial(b) ==> a == b,
        a / 0x1_0000_0000 == b / 0x1_0000_0000 && folded_serial(a) == folded_serial(b) ==> a == b,
        a < 0x1_0000_0000 ==> folded_serial(a) == a,
{
    assert((a ^ (a >> 32u64)) as u32 == ((a % 0x1_0000_0000u64) as u32) ^ ((a / 0x1_0000_0000u64)
        as u32) && (a % 0x1_0000_0000u64 == b % 0x1_0000_0000u64 && (a ^ (a >> 32u64)) as u32 == (b
        ^ (b >> 32u64)) as u32 ==> a == b) && (a / 0x1_0000_0000u64 == b / 0x1_0000_0000u64 && (a ^ (
    a >> 32u64)) as u32 == (b ^ (b >> 32u64)) as u32 ==> a == b) && (a < 0x1_0000_0000u64 ==> (a ^ (a
        >> 32u64)) as u32 == a)) by (bit_vector);
}

/// Product codes count up from 0x4000 in the pool and from 0x5000 elsewhere. For the
/// indices there are, the two ranges do not meet.
pub proof fn law_product_code_values(index: u32, connector: u32)
    requires
        index < 0x1000,
        connector < 0x1000,
    ensures
        product_code(PERMANENT_PRODUCT_CODE_BASE, index) == 0x4000 + index,
        product_code(TEMPORARY_PRODUCT_CODE_BASE, connector) == 0x5000 + connector,
        product_code(PERMANENT_PRODUCT_CODE_BASE, index) != product_code(
            TEMPORARY_PRODUCT_CODE_BASE,
            connector,
        ),
{
}

/// Product codes start over when the index outgrows sixteen bits.
pub proof fn law_product_codes_wrap(base: u16, index: u32, n: u32)
    requires
        index + 0x1_0000 * n <= u32::MAX,
    ensures
        product_code(base, (index + 0x1_0000 * n) as u32) == product_code(base, index),
        product_code(base, 0) == base,
        index < u32::MAX ==> product_code(base, (index + 1) as u32) == (if product_code(base, index)
            == 0xFFFF {
            0
        } else {
            product_code(base, index) + 1
        }),
{
    assert((index + 0x1_0000 * n) % 0x1_0000 == index % 0x1_0000) by (nonlinear_arith);
}

/// Exactly the container GUID of an identity: the interface GUID with the identity mixed
/// into every field, and the variant marked in the two middle fields.
pub proof fn law_container_fields(display_id: u64, i: int)
    requires
        0 <= i < 8,
    ensures
        container_mid(display_id) / 0x1000 == 8,
        container_high(display_id) / 0x1000 == 8,
        container_mid(display_id) % 0x1000 == (0x6E1Cu16 ^ ((display_id / 0x1_0000_0000 % 0x1_0000)
            as u16)) % 0x1000,
        container_high(display_id) % 0x1000 == (0x4A98u16 ^ ((display_id / 0x1_0000_0000_0000)
            as u16)) % 0x1000,
        container_tail(display_id).len() == 8,
        container_tail(display_id)[i] == seq![0x9Du8, 0x3B, 0x5C, 0x0E, 0x8F, 0x71, 0x4A, 0x26][i]
            ^ u64_le(display_id)[i],
{
    let (a, b) = (
        (display_id / 0x1_0000_0000 % 0x1_0000) as u16,
        (display_id / 0x1_0000_0000_0000) as u16,
    );
    assert((((0x6E1Cu16 ^ a) & 0x0FFFu16) | 0x8000u16) / 0x1000u16 == 8u16 && (((0x6E1Cu16 ^ a)
        & 0x0FFFu16) | 0x8000u16) % 0x1000u16 == (0x6E1Cu16 ^ a) % 0x1000u16) by (bit_vector);
    assert((((0x4A98u16 ^ b) & 0x0FFFu16) | 0x8000u16) / 0x1000u16 == 8u16 && (((0x4A98u16 ^ b)
        & 0x0FFFu16) | 0x8000u16) % 0x1000u16 == (0x4A98u16 ^ b) % 0x1000u16) by (bit_vector);
}

/// Where a connector is free, one of them is the lowest.
pub proof fn lemma_lowest_free_exists(t: ConnectorModel, c: u32)
    requires
        c < t.max_connectors,
        !t.taken(c),
    ensures
        t.is_lowest_free(t.lowest_free()),
    decreases c,
{
    if exists|x: u32| x < c && !t.taken(x) {
        lemma_lowest_free_exists(t, choose|x: u32| x < c && !t.taken(x));
    } else {
        assert(t.is_lowest_free(c));
    }
}

/// Who gets which connector. An identity keeps the one it holds; a new one gets the
/// lowest that nobody holds; where every connector is held it takes over from the
/// identity that is not live and used its connector longest ago; and it gets none only
/// where all are held by live ones. The use is written down as the latest, and every
/// other reservation stays as it was.
pub proof fn law_connector_choice(t: ConnectorModel, display_id: u64, active: Set<u64>)
    requires
        t.wf(),
        t.next_age < u64::MAX,
    ensures
        ({
            let held = t.reservations;
            let r = t.connector_for(display_id, active);
            let n = t.acquired(display_id, active);
            &&& held.dom().contains(display_id) ==> r == Some(held[display_id].connector)
            &&& !held.dom().contains(display_id) ==> (r matches Some(c) ==> c < t.max_connectors && {
                ||| {
                    &&& forall|d: u64| #[trigger]
                        held.dom().contains(d) ==> held[d].connector != c
                    &&& forall|x: u32| x < c ==> #[trigger] t.taken(x)
                    &&& forall|d: u64| #[trigger]
                        held.dom().contains(d) ==> n.reservations.dom().contains(d)
                }
                ||| {
                    &&& forall|x: u32| x < t.max_connectors ==> #[trigger] t.taken(x)
                    &&& exists|v: u64| #[trigger]
                        held.dom().contains(v) && !active.contains(v) && held[v].connector == c
                            && !n.reservations.dom().contains(v) && forall|d: u64| #[trigger]
                            held.dom().contains(d) && !active.contains(d) ==> held[v].last_used
                                <= held[d].last_used
                }
            })
            &&& r is None <==> !held.dom().contains(display_id) && forall|x: u32|
                x < t.max_connectors ==> #[trigger] t.held_live(x, active)
            &&& r matches Some(c) ==> {
                &&& n.reservations.dom().contains(display_id)
                &&& n.reservations[display_id].connector == c
                &&& n.reservations[display_id].last_used == t.next_age
            }
            &&& n.next_age == t.next_age + 1
            &&& n.max_connectors == t.max_connectors
            &&& forall|d: u64|
                d != display_id && #[trigger] n.reservations.dom().contains(d) ==> held.dom().contains(d)
                    && n.reservations[d] == held[d]
            &&& forall|d: u64| #[trigger]
                held.dom().contains(d) && !n.reservations.dom().contains(d) ==> !active.contains(d)
                    && r == Some(held[d].connector)
        }),
{
    let held = t.reservations;
    let r = t.connector_for(display_id, active);
    if !held.dom().contains(display_id) {
        if t.any_free() {
            let c = choose|c: u32| c < t.max_connectors && !t.taken(c);
            lemma_lowest_free_exists(t, c);
            assert(!t.taken(t.lowest_free()));
            assert forall|d: u64| #[trigger] held.dom().contains(d) implies held[d].connector
                != t.lowest_free() by {}
            assert(!t.held_live(c, active)) by {
                if t.held_live(c, active) {
                    let d = choose|d: u64| #[trigger]
                        held.dom().contains(d) && held[d].connector == c && active.contains(d);
                    assert(t.taken(c));
                }
            }
        } else if exists|d: u64| t.idle(d, active) {
            lemma_victim_exists(t, active);
            let v = t.victim(active);
            assert(t.is_victim(v, active));
            assert(held.dom().contains(v));
            assert forall|d: u64| #[trigger]
                held.dom().contains(d) && !active.contains(d) implies held[v].last_used
                <= held[d].last_used by {
                assert(t.idle(d, active));
            }
            let c = held[v].connector;
            assert(!t.held_live(c, active)) by {
                if t.held_live(c, active) {
                    let d = choose|d: u64| #[trigger]
                        held.dom().contains(d) && held[d].connector == c && active.contains(d);
                    assert(held[d].connector != held[v].connector);
                }
            }
        } else {
            law_full_means_all_live(t, display_id, active);
        }
    }
}

/// Putting stored reservations back: an entry whose connector exists and is free takes
/// it, any other is dropped, and what was held before stays held.
pub proof fn law_restored_entry(t: ConnectorModel, entries: Seq<(u64, u32)>, display_id: u64, connector: u32)
    ensures
        ({
            let before = t.restored(entries);
            let after = t.restored(entries.push((display_id, connector)));
            let good = connector < before.max_connectors && forall|d: u64| #[trigger]
                before.reservations.dom().contains(d) ==> before.reservations[d].connector
                    != connector;
            &&& t.restored(Seq::empty()) == t
            &&& good ==> {
                &&& after.reservations.dom() == before.reservations.dom().insert(display_id)
                &&& after.reservations[display_id].connector == connector
                &&& after.reservations[display_id].last_used == before.next_age
            }
            &&& !good ==> after == before
            &&& forall|d: u64|
                d != display_id && #[trigger] before.reservations.dom().contains(d)
                    ==> after.reservations.dom().contains(d) && after.reservations[d]
                    == before.reservations[d]
        }),
{
    assert(entries.push((display_id, connector)).drop_last() =~= entries);
    let before = t.restored(entries);
    let after = t.restored(entries.push((display_id, connector)));
    if !before.taken(connector) {
        assert forall|d: u64| #[trigger]
            before.reservations.dom().contains(d) implies before.reservations[d].connector
            != connector by {}
        if connector < before.max_connectors {
            assert(after.reservations.dom() =~= before.reservations.dom().insert(display_id));
        }
    }
}

/// The stored list names every reservation once, in ascending order of identity, with
/// its connector.
pub proof fn law_listing_is_complete(t: ConnectorModel, i: int, j: int, d: u64)
    requires
        t.wf(),
    ensures
        0 <= i < t.listing().len() ==> t.reservations.dom().contains(t.listing()[i].0)
            && t.listing()[i].1 == t.reservations[t.listing()[i].0].connector,
        0 <= i < j < t.listing().len() ==> t.listing()[i].0 < t.listing()[j].0,
        t.reservations.dom().contains(d) ==> exists|k: int|
            0 <= k < t.listing().len() && #[trigger] t.listing()[k] == (
                d,
                t.reservations[d].connector,
            ),
{
    crate::idmap::lemma_sorted_exists(t.reservations.dom());
    let ids = sorted_ids(t.reservations.dom());
    if t.reservations.dom().contains(d) {
        assert(ids.to_set().contains(d));
        let k = ids.index_of(d);
        assert(t.listing()[k] == (d, t.reservations[d].connector));
    }
    if 0 <= i < t.listing().len() {
        assert(ids.to_set().contains(ids[i]));
    }
}

} // verus!
