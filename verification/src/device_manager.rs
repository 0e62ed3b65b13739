//! Devices seen on the bus: address claims, conflicts, expiry after a time to live, cached
//! parameters and the NAME of each address.
use vstd::prelude::*;
use std::collections::HashMap;
use crate::text::{push_str, push_dec};
use crate::pgn_decoders::j1939::address_claim::{le_u64, name_from_bytes};

verus! {

broadcast use vstd::std_specs::hash::group_hash_axioms;

/// A device seen on the bus.
#[derive(Debug, Clone)]
pub struct Device {
    pub address: u8,
    pub name: Option<String>,
    pub last_seen_timestamp: u64,
    pub is_claimed: bool,
}

/// Something that happened to a device.
#[derive(Debug, Clone)]
pub enum DeviceEvent {
    Claimed { address: u8, name: String, timestamp: u64 },
    Conflict { address: u8, name1: String, name2: String, timestamp: u64 },
    Expired { address: u8, timestamp: u64 },
}

/// What an event says, with names as character sequences.
pub enum EventModel {
    Claimed(u8, Seq<char>, u64),
    Conflict(u8, Seq<char>, Seq<char>, u64),
    Expired(u8, u64),
}

impl DeviceEvent {
    /// What the event says.
    pub open spec fn model(&self) -> EventModel {
        match *self {
            DeviceEvent::Claimed { address, name, timestamp } => EventModel::Claimed(
                address,
                name@,
                timestamp,
            ),
            DeviceEvent::Conflict { address, name1, name2, timestamp } => EventModel::Conflict(
                address,
                name1@,
                name2@,
                timestamp,
            ),
            DeviceEvent::Expired { address, timestamp } => EventModel::Expired(address, timestamp),
        }
    }
}

/// What a list of events says.
pub open spec fn events_model(v: Seq<DeviceEvent>) -> Seq<EventModel> {
    v.map_values(|e: DeviceEvent| e.model())
}

/// The device was last seen more than `ttl` microseconds before `ts`.
pub open spec fn stale(d: Device, ts: u64, ttl: u64) -> bool {
    ts - d.last_seen_timestamp > ttl
}

/// A device seen again at `ts`, renamed when a name is given.
pub open spec fn refreshed(d: Device, name: Option<String>, ts: u64) -> Device {
    Device {
        name: if name is Some {
            name
        } else {
            d.name
        },
        last_seen_timestamp: ts,
        is_claimed: true,
        ..d
    }
}

/// The devices after address `a` was seen at `ts`: a new device is recorded, a stale one is
/// dropped, a live one is refreshed.
pub open spec fn after_seen(
    m: Map<u8, Device>,
    a: u8,
    name: Option<String>,
    ts: u64,
    ttl: u64,
) -> Map<u8, Device> {
    if !m.contains_key(a) {
        m.insert(a, Device { address: a, name, last_seen_timestamp: ts, is_claimed: true })
    } else if stale(m[a], ts, ttl) {
        m.remove(a)
    } else {
        m.insert(a, refreshed(m[a], name, ts))
    }
}

/// The event of seeing address `a`: its expiry, or a conflict between a claimed name and a
/// different new one.
pub open spec fn seen_events(
    m: Map<u8, Device>,
    a: u8,
    name: Option<String>,
    ts: u64,
    ttl: u64,
) -> Seq<EventModel> {
    if m.contains_key(a) && stale(m[a], ts, ttl) {
        seq![EventModel::Expired(a, ts)]
    } else if m.contains_key(a) && name is Some && m[a].name is Some && m[a].name->0@
        != name->0@ && m[a].is_claimed {
        seq![EventModel::Conflict(a, m[a].name->0@, name->0@, ts)]
    } else {
        Seq::empty()
    }
}

/// Expiry events for the stale devices at addresses below `k`, in address order.
pub open spec fn expired_below(m: Map<u8, Device>, ts: u64, ttl: u64, k: nat) -> Seq<EventModel>
    decreases k,
{
    if k == 0 {
        Seq::empty()
    } else {
        let prev = expired_below(m, ts, ttl, (k - 1) as nat);
        let a = (k - 1) as u8;
        if k <= 256 && m.contains_key(a) && stale(m[a], ts, ttl) {
            prev.push(EventModel::Expired(a, ts))
        } else {
            prev
        }
    }
}

/// The devices without the stale ones at addresses below `k`.
pub open spec fn pruned(m: Map<u8, Device>, ts: u64, ttl: u64, k: int) -> Map<u8, Device> {
    Map::new(|a: u8| m.contains_key(a) && !((a as int) < k && stale(m[a], ts, ttl)), |a: u8| m[a])
}

/// The NAME table without the addresses of stale devices below `k`.
pub open spec fn pruned_names(
    n: Map<u8, u64>,
    m: Map<u8, Device>,
    ts: u64,
    ttl: u64,
    k: int,
) -> Map<u8, u64> {
    Map::new(
        |a: u8| n.contains_key(a) && !((a as int) < k && m.contains_key(a) && stale(m[a], ts, ttl)),
        |a: u8| n[a],
    )
}

proof fn lemma_events_push(v: Seq<DeviceEvent>, e: DeviceEvent)
    ensures
        events_model(v.push(e)) == events_model(v).push(e.model()),
{
    assert(events_model(v.push(e)) =~= events_model(v).push(e.model()));
}

/// Devices, their cached parameters and NAMEs, with expiry after a time to live.
pub struct DeviceManager {
    devices: HashMap<u8, Device>,
    parameter_cache: HashMap<u8, HashMap<u32, Vec<u8>>>,
    name_table: HashMap<u8, u64>,
    ttl_microseconds: u64,
}

impl DeviceManager {
    /// The known devices by address.
    pub closed spec fn devices(&self) -> Map<u8, Device> {
        self.devices@
    }

    /// The cached parameters by address, then PGN.
    pub closed spec fn parameters(&self) -> Map<u8, HashMap<u32, Vec<u8>>> {
        self.parameter_cache@
    }

    /// The NAME recorded for each address.
    pub closed spec fn names(&self) -> Map<u8, u64> {
        self.name_table@
    }

    /// Time to live in microseconds.
    pub closed spec fn ttl(&self) -> u64 {
        self.ttl_microseconds
    }

    /// Every device is stored under its own address.
    pub open spec fn wf(&self) -> bool {
        forall|a: u8| #[trigger] self.devices().contains_key(a) ==> self.devices()[a].address == a
    }

    /// A manager with no devices whose devices expire after `ttl_seconds`.
    pub fn new(ttl_seconds: u64) -> (r: Self)
        requires
            ttl_seconds * 1_000_000 <= u64::MAX,
        ensures
            r.wf(),
            r.devices() == Map::<u8, Device>::empty(),
            r.parameters() == Map::<u8, HashMap<u32, Vec<u8>>>::empty(),
            r.names() == Map::<u8, u64>::empty(),
            r.ttl() == ttl_seconds * 1_000_000,
    {
        DeviceManager {
            devices: HashMap::new(),
            parameter_cache: HashMap::new(),
            name_table: HashMap::new(),
            ttl_microseconds: ttl_seconds * 1_000_000,
        }
    }

    /// Records that `address` was seen at `timestamp`, then drops every device not seen
    /// within the time to live. Reports a conflicting name, and each expiry (in address
    /// order after the seen device's own).
    pub fn update(&mut self, timestamp: u64, address: u8, name: Option<String>) -> (r: Vec<
        DeviceEvent,
    >)
        requires
            old(self).wf(),
            forall|a: u8|
                old(self).devices().contains_key(a) ==> #[trigger] old(self).devices()[a].last_seen_timestamp <= timestamp,
        ensures
            final(self).wf(),
            ({
                let m1 = after_seen(old(self).devices(), address, name, timestamp, old(self).ttl());
                let n1 = if old(self).devices().contains_key(address) && stale(
                    old(self).devices()[address],
                    timestamp,
                    old(self).ttl(),
                ) {
                    old(self).names().remove(address)
                } else {
                    old(self).names()
                };
                &&& final(self).devices() == pruned(m1, timestamp, old(self).ttl(), 256)
                &&& final(self).names() == pruned_names(n1, m1, timestamp, old(self).ttl(), 256)
                &&& events_model(r@) == seen_events(
                    old(self).devices(),
                    address,
                    name,
                    timestamp,
                    old(self).ttl(),
                ) + expired_below(m1, timestamp, old(self).ttl(), 256)
            }),
            final(self).parameters() == old(self).parameters(),
            final(self).ttl() == old(self).ttl(),
    {
        let ghost m0 = self.devices@;
        let ttl = self.ttl_microseconds;
        assert forall|a: u8| m0.contains_key(a) implies #[trigger] m0[a].last_seen_timestamp
            <= timestamp && m0[a].address == a by {
            assert(old(self).devices()[a].last_seen_timestamp <= timestamp);
            assert(old(self).devices().contains_key(a));
        }
        let mut events: Vec<DeviceEvent> = Vec::new();
        match self.devices.remove(&address) {
            Some(mut device) => {
                if timestamp - device.last_seen_timestamp > ttl {
                    events.push(DeviceEvent::Expired { address: device.address, timestamp });
                    self.name_table.remove(&address);
                } else {
                    match &name {
                        Some(new_name) => {
                            match &device.name {
                                Some(old_name) => {
                                    if *old_name != *new_name && device.is_claimed {
                                        events.push(
                                            DeviceEvent::Conflict {
                                                address,
                                                name1: old_name.clone(),
                                                name2: new_name.clone(),
                                                timestamp,
                                            },
                                        );
                                    }
                                },
                                None => {},
                            }
                        },
                        None => {},
                    }
                    if name.is_some() {
                        device.name = name;
                    }
                    device.last_seen_timestamp = timestamp;
                    device.is_claimed = true;
                    self.devices.insert(address, device);
                }
            },
            None => {
                self.devices.insert(
                    address,
                    Device { address, name, last_seen_timestamp: timestamp, is_claimed: true },
                );
            },
        }
        let ghost m1 = self.devices@;
        let ghost n1 = self.name_table@;
        assert(events_model(events@) =~= seen_events(m0, address, name, timestamp, ttl));
        assert(m1 =~= after_seen(m0, address, name, timestamp, ttl));
        assert forall|a: u8| m1.contains_key(a) implies #[trigger] m1[a].last_seen_timestamp
            <= timestamp && m1[a].address == a by {
            if a != address {
                assert(m0.contains_key(a));
            }
        }
        let mut k: u16 = 0;
        assert(pruned(m1, timestamp, ttl, 0) =~= m1);
        assert(pruned_names(n1, m1, timestamp, ttl, 0) =~= n1);
        while k < 256
            invariant
                k <= 256,
                ttl == self.ttl_microseconds,
                forall|a: u8| m1.contains_key(a) ==> #[trigger] m1[a].last_seen_timestamp <= timestamp
                    && m1[a].address == a,
                self.devices@ == pruned(m1, timestamp, ttl, k as int),
                self.name_table@ == pruned_names(n1, m1, timestamp, ttl, k as int),
                events_model(events@) == seen_events(m0, address, name, timestamp, ttl)
                    + expired_below(m1, timestamp, ttl, k as nat),
                self.parameter_cache@ == old(self).parameter_cache@,
            decreases 256 - k,
        {
            let a = k as u8;
            let ghost before = events@;
            assert(a as int == k as int);
            let is_stale = match self.devices.get(&a) {
                Some(d) => timestamp - d.last_seen_timestamp > ttl,
                None => false,
            };
            if is_stale {
                match self.devices.remove(&a) {
                    Some(device) => {
                        let ev = DeviceEvent::Expired { address: device.address, timestamp };
                        proof {
                            lemma_events_push(events@, ev);
                        }
                        events.push(ev);
                        self.name_table.remove(&a);
                    },
                    None => {},
                }
            }
            proof {
                assert(events_model(events@) =~= seen_events(m0, address, name, timestamp, ttl)
                    + expired_below(m1, timestamp, ttl, (k + 1) as nat));
                assert(self.devices@ =~= pruned(m1, timestamp, ttl, k + 1));
                assert(self.name_table@ =~= pruned_names(n1, m1, timestamp, ttl, k + 1));
            }
            k = k + 1;
        }
        events
    }

    /// Records an address claim: a different name on a claimed address is a conflict; the
    /// device takes the new name and is marked claimed and seen.
    pub fn handle_claim(&mut self, address: u8, name: String, timestamp: u64) -> (r: Vec<
        DeviceEvent,
    >)
        requires
            old(self).wf(),
        ensures
            final(self).wf(),
            final(self).devices() == old(self).devices().insert(
                address,
                Device { address, name: Some(name), last_seen_timestamp: timestamp, is_claimed: true },
            ),
            events_model(r@) == if old(self).devices().contains_key(address) && old(self).devices()[address].is_claimed && !(old(self).devices()[address].name is Some && old(self).devices()[address].name->0@ == name@) {
                seq![
                    EventModel::Conflict(
                        address,
                        match old(self).devices()[address].name {
                            Some(n) => n@,
                            None => Seq::empty(),
                        },
                        name@,
                        timestamp,
                    ),
                ]
            } else {
                Seq::empty()
            },
            final(self).parameters() == old(self).parameters(),
            final(self).names() == old(self).names(),
            final(self).ttl() == old(self).ttl(),
    {
        let mut events: Vec<DeviceEvent> = Vec::new();
        match self.devices.remove(&address) {
            Some(mut device) => {
                assert(old(self).devices().contains_key(address));
                let same = match &device.name {
                    Some(n) => *n == name,
                    None => false,
                };
                if device.is_claimed && !same {
                    let name1 = match &device.name {
                        Some(n) => n.clone(),
                        None => String::new(),
                    };
                    events.push(
                        DeviceEvent::Conflict { address, name1, name2: name.clone(), timestamp },
                    );
                }
                device.name = Some(name);
                device.is_claimed = true;
                device.last_seen_timestamp = timestamp;
                self.devices.insert(address, device);
            },
            None => {
                self.devices.insert(
                    address,
                    Device { address, name: Some(name), last_seen_timestamp: timestamp, is_claimed: true },
                );
            },
        }
        proof {
            assert(self.devices@ =~= old(self).devices@.insert(
                address,
                Device { address, name: Some(name), last_seen_timestamp: timestamp, is_claimed: true },
            ));
        }
        assert(events_model(events@) =~= if old(self).devices@.contains_key(address) && old(self).devices@[address].is_claimed && !(old(self).devices@[address].name is Some && old(self).devices@[address].name->0@ == name@) {
            seq![
                EventModel::Conflict(
                    address,
                    match old(self).devices@[address].name {
                        Some(n) => n@,
                        None => Seq::empty(),
                    },
                    name@,
                    timestamp,
                ),
            ]
        } else {
            Seq::empty()
        });
        events
    }

    /// The device at an address.
    pub fn get_device(&self, address: u8) -> (r: Option<&Device>)
        ensures
            match r {
                Some(d) => self.devices().contains_key(address) && *d == self.devices()[address],
                None => !self.devices().contains_key(address),
            },
    {
        self.devices.get(&address)
    }

    /// Caches a parameter's bytes for an address and PGN.
    pub fn update_parameter(&mut self, address: u8, pgn: u32, data: Vec<u8>)
        ensures
            final(self).parameters().contains_key(address),
            final(self).parameters()[address]@ == if old(self).parameters().contains_key(address) {
                old(self).parameters()[address]@.insert(pgn, data)
            } else {
                Map::<u32, Vec<u8>>::empty().insert(pgn, data)
            },
            forall|a: u8|
                a != address ==> #[trigger] final(self).parameters().contains_key(a) == old(self).parameters().contains_key(a),
            forall|a: u8|
                a != address && old(self).parameters().contains_key(a) ==> #[trigger] final(self).parameters()[a] == old(self).parameters()[a],
            old(self).wf() ==> final(self).wf(),
            final(self).devices() == old(self).devices(),
            final(self).names() == old(self).names(),
            final(self).ttl() == old(self).ttl(),
    {
        let mut inner = match self.parameter_cache.remove(&address) {
            Some(m) => m,
            None => HashMap::new(),
        };
        inner.insert(pgn, data);
        self.parameter_cache.insert(address, inner);
    }

    /// The cached bytes for an address and PGN.
    pub fn get_parameter(&self, address: u8, pgn: u32) -> (r: Option<&Vec<u8>>)
        ensures
            match r {
                Some(v) => self.parameters().contains_key(address)
                    && self.parameters()[address]@.contains_key(pgn) && *v
                    == self.parameters()[address]@[pgn],
                None => !(self.parameters().contains_key(address)
                    && self.parameters()[address]@.contains_key(pgn)),
            },
    {
        match self.parameter_cache.get(&address) {
            Some(inner) => inner.get(&pgn),
            None => None,
        }
    }

    /// The 64-bit NAME in the first eight bytes (little-endian).
    pub fn parse_name_from_bytes(bytes: &[u8]) -> (r: Result<u64, String>)
        ensures
            bytes@.len() >= 8 ==> r == Ok::<u64, String>(le_u64(bytes@)),
            bytes@.len() < 8 ==> r is Err && r->Err_0@ == "Expected 8 bytes for NAME parsing, got "@
                + crate::text::dec_str(bytes@.len()),
    {
        if bytes.len() < 8 {
            let mut m = String::new();
            push_str(&mut m, "Expected 8 bytes for NAME parsing, got ");
            push_dec(&mut m, bytes.len() as u64);
            return Err(m);
        }
        match name_from_bytes(bytes) {
            Some(v) => Ok(v),
            None => Err(String::from_str("Failed to parse NAME from bytes")),
        }
    }

    /// Records the NAME in the first eight bytes for an address.
    pub fn set_name_from_bytes(&mut self, address: u8, bytes: &[u8]) -> (r: Result<(), String>)
        ensures
            bytes@.len() >= 8 ==> r is Ok && final(self).names() == old(self).names().insert(
                address,
                le_u64(bytes@),
            ),
            bytes@.len() < 8 ==> r is Err && final(self).names() == old(self).names(),
            old(self).wf() ==> final(self).wf(),
            final(self).devices() == old(self).devices(),
            final(self).parameters() == old(self).parameters(),
            final(self).ttl() == old(self).ttl(),
    {
        let name_u64 = match Self::parse_name_from_bytes(bytes) {
            Ok(v) => v,
            Err(e) => {
                return Err(e);
            },
        };
        self.name_table.insert(address, name_u64);
        Ok(())
    }

    /// Records a NAME for an address.
    pub fn set_name_u64(&mut self, address: u8, name_u64: u64)
        ensures
            final(self).names() == old(self).names().insert(address, name_u64),
            old(self).wf() ==> final(self).wf(),
            final(self).devices() == old(self).devices(),
            final(self).parameters() == old(self).parameters(),
            final(self).ttl() == old(self).ttl(),
    {
        self.name_table.insert(address, name_u64);
    }

    /// The NAME recorded for an address.
    pub fn get_name_u64(&self, address: u8) -> (r: Option<u64>)
        ensures
            r == if self.names().contains_key(address) {
                Some(self.names()[address])
            } else {
                None::<u64>
            },
    {
        match self.name_table.get(&address) {
            Some(v) => Some(*v),
            None => None,
        }
    }

    /// Forgets the NAME of an address.
    pub fn remove_name(&mut self, address: u8)
        ensures
            final(self).names() == old(self).names().remove(address),
            old(self).wf() ==> final(self).wf(),
            final(self).devices() == old(self).devices(),
            final(self).parameters() == old(self).parameters(),
            final(self).ttl() == old(self).ttl(),
    {
        self.name_table.remove(&address);
    }
}


/// After an update no stale device remains, and every remaining device was known before the
/// pruning.
pub proof fn lemma_update_leaves_no_stale(m: Map<u8, Device>, ts: u64, ttl: u64)
    ensures
        forall|a: u8|
            #[trigger] pruned(m, ts, ttl, 256).contains_key(a) ==> m.contains_key(a) && !stale(
                pruned(m, ts, ttl, 256)[a],
                ts,
                ttl,
            ),
{
}

proof fn lemma_expired_only_stale(m: Map<u8, Device>, ts: u64, ttl: u64, k: nat, b: u8)
    ensures
        expired_below(m, ts, ttl, k).contains(EventModel::Expired(b, ts)) ==> m.contains_key(b)
            && stale(m[b], ts, ttl),
    decreases k,
{
    if k > 0 {
        lemma_expired_only_stale(m, ts, ttl, (k - 1) as nat, b);
        let prev = expired_below(m, ts, ttl, (k - 1) as nat);
        let a = (k - 1) as u8;
        if expired_below(m, ts, ttl, k).contains(EventModel::Expired(b, ts)) {
            let i = choose|i: int|
                0 <= i < expired_below(m, ts, ttl, k).len() && expired_below(m, ts, ttl, k)[i]
                    == EventModel::Expired(b, ts);
            if i < prev.len() {
                assert(prev[i] == EventModel::Expired(b, ts));
                assert(prev.contains(EventModel::Expired(b, ts)));
            }
        }
    }
}

/// Seeing a device that is new, or was last seen within the time to live, records it as
/// present, claimed and last seen at that moment; no expiry is reported for it, so a device
/// seen at least once per time to live never expires.
pub proof fn lemma_seen_device_refreshed(
    m: Map<u8, Device>,
    a: u8,
    name: Option<String>,
    ts: u64,
    ttl: u64,
)
    requires
        forall|b: u8| m.contains_key(b) ==> #[trigger] m[b].last_seen_timestamp <= ts,
        m.contains_key(a) ==> ts - m[a].last_seen_timestamp <= ttl,
    ensures
        ({
            let m1 = after_seen(m, a, name, ts, ttl);
            let after = pruned(m1, ts, ttl, 256);
            let events = seen_events(m, a, name, ts, ttl) + expired_below(m1, ts, ttl, 256);
            &&& after.contains_key(a)
            &&& after[a].last_seen_timestamp == ts
            &&& after[a].is_claimed
            &&& !events.contains(EventModel::Expired(a, ts))
        }),
{
    let m1 = after_seen(m, a, name, ts, ttl);
    let se = seen_events(m, a, name, ts, ttl);
    let ex = expired_below(m1, ts, ttl, 256);
    lemma_expired_only_stale(m1, ts, ttl, 256, a);
    assert(!ex.contains(EventModel::Expired(a, ts)));
    assert(!se.contains(EventModel::Expired(a, ts)));
    if (se + ex).contains(EventModel::Expired(a, ts)) {
        let i = choose|i: int| 0 <= i < (se + ex).len() && (se + ex)[i] == EventModel::Expired(a, ts);
        if i < se.len() {
            assert(se[i] == EventModel::Expired(a, ts));
        } else {
            assert(ex[i - se.len()] == EventModel::Expired(a, ts));
        }
    }
}

} // verus!
