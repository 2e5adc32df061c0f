//! The topology/counter subsystem: the data model (Topology, CPUSocket,
//! Domain), records, the sensor contract, and the error taxonomy.
use vstd::prelude::*;

pub mod counters;
pub mod decimal;
pub mod units;

use std::collections::HashMap;

use vstd::string::StringExecFns;

use crate::sensors::counters::delta;
use crate::sensors::counters::delta_representable;
use crate::sensors::counters::spec_wrap_delta;
use crate::sensors::decimal::counter_text_val;
use crate::sensors::decimal::counter_text_wf;
use crate::sensors::decimal::dec_of;
use crate::sensors::decimal::parse_counter_text;
use crate::sensors::units::unit_label;
use crate::sensors::units::EnergyUnit;

verus! {

/// Everything that can go wrong in the measurement core.
///
/// Discovery failures are fatal to the agent's measurement capability;
/// counter read/parse/overflow failures are per-entity and recoverable, and
/// carry enough context (entity id, counter source) for an operator to
/// diagnose them.
#[derive(Debug)]
pub enum SensorError {
    /// No usable sensor backend, or no readable topology at all.
    DiscoveryError { reason: String },
    /// One entity's counter source was unreadable this tick.
    CounterReadError { entity_id: u16, source: String },
    /// One entity's counter source held text that is not a counter value.
    CounterParseError { entity_id: u16, source: String },
    /// The delta between two readings cannot be reconstructed (the counter
    /// wrapped more than once between ticks).  The entity context is
    /// present when an entity reports the failure, and absent when the
    /// bare delta computation does, which knows no entity.
    CounterOverflowUnrepresentable {
        previous_raw: u64,
        current_raw: u64,
        max_value: u64,
        entity_id: Option<u16>,
        source: Option<String>,
    },
    /// A conversion between incompatible physical quantities was requested.
    UnsupportedUnit { from: EnergyUnit, to: EnergyUnit },
}

/// A monotonic wall-clock instant, as seconds and nanoseconds since an epoch.
///
/// The clock itself lives with the caller; this library only carries the
/// value into the records it builds.
#[derive(Clone, Copy, Debug, PartialEq, Eq, Structural)]
pub struct Timestamp {
    pub secs: u64,
    pub nanos: u32,
}

/// One immutable measurement: a timestamp, a non-negative integer value and
/// the unit the value is scaled in.  Two records are equal exactly when all
/// three fields are equal.
#[derive(Clone, Copy, Debug, PartialEq, Eq, Structural)]
pub struct Record {
    pub timestamp: Timestamp,
    pub value: i128,
    pub unit: EnergyUnit,
}

impl Record {
    /// Builds a record.  Hardware energy counters are monotonic and
    /// non-negative by construction, so a negative value is refused at the
    /// boundary rather than validated here.
    pub fn new(timestamp: Timestamp, value: i128, unit: EnergyUnit) -> (r: Record)
        requires
            value >= 0,
        ensures
            r.timestamp == timestamp,
            r.value == value,
            r.unit == unit,
    {
        Record { timestamp, value, unit }
    }

    /// The display text of a record: `recorded <value> <unit>`.
    pub fn format(&self) -> (r: String)
        requires
            self.value >= 0,
        ensures
            r@ == record_text(*self),
    {
        let head = String::from_str("recorded ");
        let mid = crate::sensors::decimal::dec_string(self.value as u128);
        let with_value = head.concat(mid.as_str());
        let with_space = with_value.concat(" ");
        with_space.concat(self.unit.label())
    }
}

/// The display text of a record.
pub open spec fn record_text(rec: Record) -> Seq<char>
    recommends
        rec.value >= 0,
{
    "recorded "@ + dec_of(rec.value as nat) + " "@ + unit_label(rec.unit)
}

/// Records are pure values: equality is exactly field-by-field equality.
pub proof fn lemma_record_eq(a: Record, b: Record)
    ensures
        (a == b) <==> (a.timestamp == b.timestamp && a.value == b.value && a.unit == b.unit),
{
}

/// Whether some domain in the sequence carries the given id.
pub open spec fn has_domain_id(domains: Seq<Domain>, id: u16) -> bool {
    exists|i: int| 0 <= i < domains.len() && (#[trigger] domains[i]).id == id
}

/// No two domains in the sequence share an id.
pub open spec fn domains_unique(domains: Seq<Domain>) -> bool {
    forall|i: int, j: int|
        #![trigger domains[i], domains[j]]
        0 <= i < j < domains.len() ==> domains[i].id != domains[j].id
}

/// Whether some socket in the sequence carries the given id.
pub open spec fn has_socket_id(sockets: Seq<CPUSocket>, id: u16) -> bool {
    exists|i: int| 0 <= i < sockets.len() && (#[trigger] sockets[i]).id == id
}

/// No two sockets in the sequence share an id.
pub open spec fn sockets_unique(sockets: Seq<CPUSocket>) -> bool {
    forall|i: int, j: int|
        #![trigger sockets[i], sockets[j]]
        0 <= i < j < sockets.len() ==> sockets[i].id != sockets[j].id
}

/// One energy-accounting domain of a socket (core, uncore, dram, ...).
///
/// The counter source identifier is resolved once at discovery time; the
/// two counter-value fields retain exactly the last two raw readings for
/// delta computation.
#[derive(Debug)]
pub struct Domain {
    pub id: u16,
    pub name: String,
    pub counter_uj_path: String,
    pub last_counter_value_uj: Option<u64>,
    pub current_counter_value_uj: Option<u64>,
}

impl Domain {
    /// A fresh domain with no readings yet.
    pub fn new(id: u16, name: String, counter_uj_path: String) -> (r: Domain)
        ensures
            r.id == id,
            r.name == name,
            r.counter_uj_path == counter_uj_path,
            r.last_counter_value_uj is None,
            r.current_counter_value_uj is None,
    {
        Domain {
            id,
            name,
            counter_uj_path,
            last_counter_value_uj: None,
            current_counter_value_uj: None,
        }
    }

    /// The display text of a domain: `Domain: <name>`.
    pub fn format(&self) -> (r: String)
        ensures
            r@ == "Domain: "@ + self.name@,
    {
        let head = String::from_str("Domain: ");
        head.concat(self.name.as_str())
    }

    /// Shifts in a raw counter reading: the current value becomes the last
    /// one and the new reading becomes current.
    pub fn record_counter_value(&mut self, raw: u64)
        ensures
            final(self).last_counter_value_uj == old(self).current_counter_value_uj,
            final(self).current_counter_value_uj == Some(raw),
            final(self).id == old(self).id,
            final(self).name == old(self).name,
            final(self).counter_uj_path == old(self).counter_uj_path,
    {
        self.last_counter_value_uj = self.current_counter_value_uj;
        self.current_counter_value_uj = Some(raw);
    }

    /// The wraparound-safe energy delta between the two retained readings,
    /// absent until two readings are held.
    pub fn energy_delta(&self, max_value: u64) -> (r: Option<Result<u64, SensorError>>)
        ensures
            r is Some <==> (self.last_counter_value_uj is Some
                && self.current_counter_value_uj is Some),
            self.last_counter_value_uj matches Some(p)
                ==> self.current_counter_value_uj matches Some(c)
                ==> delta_representable(p as int, c as int, max_value as int)
                ==> (r matches Some(res) && res matches Ok(d) && d == spec_wrap_delta(
                p as int,
                c as int,
                max_value as int,
            )),
            self.last_counter_value_uj matches Some(p)
                ==> self.current_counter_value_uj matches Some(c)
                ==> !delta_representable(p as int, c as int, max_value as int)
                ==> (r matches Some(res) && res matches Err(e)
                && e matches SensorError::CounterOverflowUnrepresentable {
                    previous_raw: ep,
                    current_raw: ec,
                    max_value: em,
                    entity_id: eid,
                    source: esrc,
                } && ep == p && ec == c && em == max_value && eid == Some(self.id)
                && (esrc matches Some(src) && src@ == self.counter_uj_path@)),
    {
        match (self.last_counter_value_uj, self.current_counter_value_uj) {
            (Some(p), Some(c)) => match delta(p, c, max_value) {
                Ok(d) => Some(Ok(d)),
                Err(_) => Some(
                    Err(
                        SensorError::CounterOverflowUnrepresentable {
                            previous_raw: p,
                            current_raw: c,
                            max_value,
                            entity_id: Some(self.id),
                            source: Some(self.counter_uj_path.clone()),
                        },
                    ),
                ),
            },
            _ => None,
        }
    }
}

/// One CPU package, owning an ordered collection of domains with unique
/// ids, per-domain hardware attribute maps, and a whole-socket counter.
#[derive(Debug)]
pub struct CPUSocket {
    pub id: u16,
    pub domains: Vec<Domain>,
    pub attributes: Vec<Vec<HashMap<String, String>>>,
    pub counter_uj_path: String,
    pub last_counter_value_uj: Option<u64>,
    pub current_counter_value_uj: Option<u64>,
}

/// What `safe_add_domain` does: nothing when the id is already present
/// (the first-seen definition wins), otherwise the domain is appended and
/// everything else is untouched.
pub open spec fn socket_add_domain_rel(pre: CPUSocket, post: CPUSocket, domain: Domain) -> bool {
    &&& has_domain_id(pre.domains@, domain.id) ==> post == pre
    &&& !has_domain_id(pre.domains@, domain.id) ==> {
        &&& post.id == pre.id
        &&& post.attributes == pre.attributes
        &&& post.counter_uj_path == pre.counter_uj_path
        &&& post.last_counter_value_uj == pre.last_counter_value_uj
        &&& post.current_counter_value_uj == pre.current_counter_value_uj
        &&& post.domains@ == pre.domains@.push(domain)
    }
}

impl CPUSocket {
    /// Domain ids are unique within the socket.
    pub open spec fn wf(&self) -> bool {
        domains_unique(self.domains@)
    }

    fn new(
        id: u16,
        domains: Vec<Domain>,
        attributes: Vec<Vec<HashMap<String, String>>>,
        counter_uj_path: String,
    ) -> (r: CPUSocket)
        requires
            domains_unique(domains@),
        ensures
            r.id == id,
            r.domains == domains,
            r.attributes == attributes,
            r.counter_uj_path == counter_uj_path,
            r.last_counter_value_uj is None,
            r.current_counter_value_uj is None,
            r.wf(),
    {
        CPUSocket {
            id,
            domains,
            attributes,
            counter_uj_path,
            last_counter_value_uj: None,
            current_counter_value_uj: None,
        }
    }

    /// Inserts the domain only if its id is not already present: discovery
    /// passes that enumerate the same domain twice keep the first-seen
    /// definition.
    pub fn safe_add_domain(&mut self, domain: Domain)
        requires
            old(self).wf(),
        ensures
            final(self).wf(),
            socket_add_domain_rel(*old(self), *final(self), domain),
    {
        let mut present = false;
        let mut k: usize = 0;
        while k < self.domains.len()
            invariant
                k <= self.domains@.len(),
                present ==> has_domain_id(self.domains@, domain.id),
                !present ==> forall|i: int|
                    0 <= i < k ==> (#[trigger] self.domains@[i]).id != domain.id,
            decreases self.domains@.len() - k,
        {
            if self.domains[k].id == domain.id {
                present = true;
            }
            k = k + 1;
        }
        if !present {
            self.domains.push(domain);
            proof {
                assert(!has_domain_id(old(self).domains@, domain.id));
                assert forall|i: int, j: int|
                    0 <= i < j < self.domains@.len() implies (#[trigger] self.domains@[i]).id != (
                #[trigger] self.domains@[j]).id by {
                    if j < old(self).domains@.len() {
                        assert(self.domains@[i] == old(self).domains@[i]);
                        assert(self.domains@[j] == old(self).domains@[j]);
                    } else {
                        assert(self.domains@[j] == domain);
                        assert(self.domains@[i] == old(self).domains@[i]);
                    }
                }
            }
        }
    }

    /// The wraparound-safe energy delta between the two retained readings,
    /// absent until two readings are held.
    pub fn energy_delta(&self, max_value: u64) -> (r: Option<Result<u64, SensorError>>)
        ensures
            r is Some <==> (self.last_counter_value_uj is Some
                && self.current_counter_value_uj is Some),
            self.last_counter_value_uj matches Some(p)
                ==> self.current_counter_value_uj matches Some(c)
                ==> delta_representable(p as int, c as int, max_value as int)
                ==> (r matches Some(res) && res matches Ok(d) && d == spec_wrap_delta(
                p as int,
                c as int,
                max_value as int,
            )),
            self.last_counter_value_uj matches Some(p)
                ==> self.current_counter_value_uj matches Some(c)
                ==> !delta_representable(p as int, c as int, max_value as int)
                ==> (r matches Some(res) && res matches Err(e)
                && e matches SensorError::CounterOverflowUnrepresentable {
                    previous_raw: ep,
                    current_raw: ec,
                    max_value: em,
                    entity_id: eid,
                    source: esrc,
                } && ep == p && ec == c && em == max_value && eid == Some(self.id)
                && (esrc matches Some(src) && src@ == self.counter_uj_path@)),
    {
        match (self.last_counter_value_uj, self.current_counter_value_uj) {
            (Some(p), Some(c)) => match delta(p, c, max_value) {
                Ok(d) => Some(Ok(d)),
                Err(_) => Some(
                    Err(
                        SensorError::CounterOverflowUnrepresentable {
                            previous_raw: p,
                            current_raw: c,
                            max_value,
                            entity_id: Some(self.id),
                            source: Some(self.counter_uj_path.clone()),
                        },
                    ),
                ),
            },
            _ => None,
        }
    }

    /// Shifts in a raw counter reading: the current value becomes the last
    /// one and the new reading becomes current.
    pub fn record_counter_value(&mut self, raw: u64)
        ensures
            final(self).last_counter_value_uj == old(self).current_counter_value_uj,
            final(self).current_counter_value_uj == Some(raw),
            final(self).id == old(self).id,
            final(self).domains == old(self).domains,
            final(self).attributes == old(self).attributes,
            final(self).counter_uj_path == old(self).counter_uj_path,
    {
        self.last_counter_value_uj = self.current_counter_value_uj;
        self.current_counter_value_uj = Some(raw);
    }
}


/// The whole-host measurement surface: the ordered collection of sockets,
/// whether readings originate from a proxied remote host, and the raw CPU
/// description text captured once at construction.
#[derive(Debug)]
pub struct Topology {
    pub sockets: Vec<CPUSocket>,
    pub remote: bool,
    pub cpuinfo: String,
}

/// What `safe_add_socket` does: nothing when the id is already present,
/// otherwise a fresh socket built from the arguments is appended and
/// everything else is untouched.
pub open spec fn add_socket_rel(
    pre: Topology,
    post: Topology,
    socket_id: u16,
    domains: Seq<Domain>,
    attributes: Vec<Vec<HashMap<String, String>>>,
    counter_uj_path: Seq<char>,
) -> bool {
    &&& post.remote == pre.remote
    &&& post.cpuinfo == pre.cpuinfo
    &&& has_socket_id(pre.sockets@, socket_id) ==> post.sockets@ == pre.sockets@
    &&& !has_socket_id(pre.sockets@, socket_id) ==> {
        let n = pre.sockets@.len() as int;
        &&& post.sockets@.len() == n + 1
        &&& post.sockets@.subrange(0, n) == pre.sockets@
        &&& post.sockets@[n].id == socket_id
        &&& post.sockets@[n].domains@ == domains
        &&& post.sockets@[n].attributes == attributes
        &&& post.sockets@[n].counter_uj_path@ == counter_uj_path
        &&& post.sockets@[n].last_counter_value_uj is None
        &&& post.sockets@[n].current_counter_value_uj is None
    }
}

/// What one socket undergoes when a domain built from the arguments is
/// inserted into it: nothing when the domain id is already present,
/// otherwise the new domain is appended and the rest of the socket is
/// untouched.
pub open spec fn domain_insert_rel(
    pre: CPUSocket,
    post: CPUSocket,
    domain_id: u16,
    name: Seq<char>,
    uj_counter: Seq<char>,
) -> bool {
    &&& has_domain_id(pre.domains@, domain_id) ==> post == pre
    &&& !has_domain_id(pre.domains@, domain_id) ==> {
        let n = pre.domains@.len() as int;
        &&& post.id == pre.id
        &&& post.attributes == pre.attributes
        &&& post.counter_uj_path == pre.counter_uj_path
        &&& post.last_counter_value_uj == pre.last_counter_value_uj
        &&& post.current_counter_value_uj == pre.current_counter_value_uj
        &&& post.domains@.len() == n + 1
        &&& post.domains@.subrange(0, n) == pre.domains@
        &&& post.domains@[n].id == domain_id
        &&& post.domains@[n].name@ == name
        &&& post.domains@[n].counter_uj_path@ == uj_counter
        &&& post.domains@[n].last_counter_value_uj is None
        &&& post.domains@[n].current_counter_value_uj is None
    }
}

/// What `safe_add_domain_to_socket` does: sockets with another id are
/// untouched, sockets with the given id undergo the domain insertion, and
/// when no socket has the id (out-of-order discovery) nothing changes.
pub open spec fn add_domain_rel(
    pre: Topology,
    post: Topology,
    socket_id: u16,
    domain_id: u16,
    name: Seq<char>,
    uj_counter: Seq<char>,
) -> bool {
    &&& post.remote == pre.remote
    &&& post.cpuinfo == pre.cpuinfo
    &&& post.sockets@.len() == pre.sockets@.len()
    &&& forall|i: int|
        0 <= i < pre.sockets@.len() && (#[trigger] pre.sockets@[i]).id != socket_id
            ==> post.sockets@[i] == pre.sockets@[i]
    &&& forall|i: int|
        0 <= i < pre.sockets@.len() && (#[trigger] pre.sockets@[i]).id == socket_id
            ==> domain_insert_rel(pre.sockets@[i], post.sockets@[i], domain_id, name, uj_counter)
}

impl Topology {
    /// Socket ids are unique and every socket is itself well-formed.
    pub open spec fn wf(&self) -> bool {
        &&& sockets_unique(self.sockets@)
        &&& forall|i: int| 0 <= i < self.sockets@.len() ==> (#[trigger] self.sockets@[i]).wf()
    }

    /// An empty local topology around the host CPU description text.  The
    /// text is captured once here; reading it (and failing fatally when it
    /// cannot be read) is the embedding host's work.
    pub fn new(cpuinfo: String) -> (r: Topology)
        ensures
            r.sockets@ == Seq::<CPUSocket>::empty(),
            r.remote == false,
            r.cpuinfo == cpuinfo,
            r.wf(),
    {
        Topology { sockets: Vec::new(), remote: false, cpuinfo }
    }

    /// Inserts a new socket only if `socket_id` is unused; repeated
    /// discovery passes never duplicate an entry.
    pub fn safe_add_socket(
        &mut self,
        socket_id: u16,
        domains: Vec<Domain>,
        attributes: Vec<Vec<HashMap<String, String>>>,
        counter_uj_path: String,
    )
        requires
            old(self).wf(),
            domains_unique(domains@),
        ensures
            final(self).wf(),
            add_socket_rel(
                *old(self),
                *final(self),
                socket_id,
                domains@,
                attributes,
                counter_uj_path@,
            ),
            has_socket_id(final(self).sockets@, socket_id),
    {
        let mut present = false;
        let mut k: usize = 0;
        while k < self.sockets.len()
            invariant
                k <= self.sockets@.len(),
                present ==> has_socket_id(self.sockets@, socket_id),
                !present ==> forall|i: int|
                    0 <= i < k ==> (#[trigger] self.sockets@[i]).id != socket_id,
            decreases self.sockets@.len() - k,
        {
            if self.sockets[k].id == socket_id {
                present = true;
            }
            k = k + 1;
        }
        if !present {
            let socket = CPUSocket::new(socket_id, domains, attributes, counter_uj_path);
            self.sockets.push(socket);
            proof {
                assert(!has_socket_id(old(self).sockets@, socket_id));
                assert(self.sockets@.subrange(0, old(self).sockets@.len() as int) =~= old(
                    self,
                ).sockets@);
                assert forall|i: int, j: int|
                    0 <= i < j < self.sockets@.len() implies (#[trigger] self.sockets@[i]).id != (
                #[trigger] self.sockets@[j]).id by {
                    if j < old(self).sockets@.len() {
                        assert(self.sockets@[i] == old(self).sockets@[i]);
                        assert(self.sockets@[j] == old(self).sockets@[j]);
                    } else {
                        assert(self.sockets@[i] == old(self).sockets@[i]);
                    }
                }
                assert(has_socket_id(self.sockets@, socket_id)) by {
                    assert(self.sockets@[old(self).sockets@.len() as int].id == socket_id);
                }
            }
        }
    }

    /// Locates the socket with `socket_id` and inserts the domain into it;
    /// a no-op (not an error) when no such socket exists, since discovery
    /// code is expected to add sockets before their domains and
    /// out-of-order calls are tolerated.
    pub fn safe_add_domain_to_socket(
        &mut self,
        socket_id: u16,
        domain_id: u16,
        name: &str,
        uj_counter: &str,
    )
        requires
            old(self).wf(),
        ensures
            final(self).wf(),
            add_domain_rel(*old(self), *final(self), socket_id, domain_id, name@, uj_counter@),
    {
        let mut k: usize = 0;
        while k < self.sockets.len()
            invariant
                old(self).wf(),
                k <= self.sockets@.len(),
                self.sockets@.len() == old(self).sockets@.len(),
                self.remote == old(self).remote,
                self.cpuinfo == old(self).cpuinfo,
                forall|i: int|
                    k <= i < self.sockets@.len() ==> #[trigger] self.sockets@[i] == old(
                        self,
                    ).sockets@[i],
                forall|i: int|
                    0 <= i < k && (#[trigger] old(self).sockets@[i]).id != socket_id
                        ==> self.sockets@[i] == old(self).sockets@[i],
                forall|i: int|
                    0 <= i < k && (#[trigger] old(self).sockets@[i]).id == socket_id
                        ==> domain_insert_rel(
                        old(self).sockets@[i],
                        self.sockets@[i],
                        domain_id,
                        name@,
                        uj_counter@,
                    ),
                self.wf(),
            decreases self.sockets@.len() - k,
        {
            if self.sockets[k].id == socket_id {
                let domain = Domain::new(
                    domain_id,
                    String::from_str(name),
                    String::from_str(uj_counter),
                );
                let ghost pre_elem = self.sockets@[k as int];
                let ghost pre_sockets = self.sockets@;
                let sock = &mut self.sockets[k];
                sock.safe_add_domain(domain);
                proof {
                    assert(self.sockets@ == pre_sockets.update(k as int, self.sockets@[k as int]));
                    assert(domain_insert_rel(
                        pre_elem,
                        self.sockets@[k as int],
                        domain_id,
                        name@,
                        uj_counter@,
                    )) by {
                        if !has_domain_id(pre_elem.domains@, domain_id) {
                            assert(self.sockets@[k as int].domains@ == pre_elem.domains@.push(
                                domain,
                            ));
                            assert(self.sockets@[k as int].domains@.subrange(
                                0,
                                pre_elem.domains@.len() as int,
                            ) =~= pre_elem.domains@);
                        }
                    }
                    assert forall|i: int, j: int|
                        0 <= i < j < self.sockets@.len() implies (
                    #[trigger] self.sockets@[i]).id != (#[trigger] self.sockets@[j]).id by {
                        assert(self.sockets@[i].id == pre_sockets[i].id);
                        assert(self.sockets@[j].id == pre_sockets[j].id);
                    }
                }
            }
            k = k + 1;
        }
    }
}


/// How many sockets in the sequence carry the given id.
pub open spec fn socket_id_count(sockets: Seq<CPUSocket>, id: u16) -> int
    decreases sockets.len(),
{
    if sockets.len() == 0 {
        0
    } else {
        socket_id_count(sockets.drop_last(), id) + (if sockets.last().id == id {
            1int
        } else {
            0int
        })
    }
}

/// How many domains in the sequence carry the given id.
pub open spec fn domain_id_count(domains: Seq<Domain>, id: u16) -> int
    decreases domains.len(),
{
    if domains.len() == 0 {
        0
    } else {
        domain_id_count(domains.drop_last(), id) + (if domains.last().id == id {
            1int
        } else {
            0int
        })
    }
}

proof fn lemma_socket_count_has(sockets: Seq<CPUSocket>, id: u16)
    ensures
        socket_id_count(sockets, id) >= 0,
        socket_id_count(sockets, id) > 0 <==> has_socket_id(sockets, id),
    decreases sockets.len(),
{
    if sockets.len() > 0 {
        lemma_socket_count_has(sockets.drop_last(), id);
        if has_socket_id(sockets.drop_last(), id) {
            let i = choose|i: int|
                0 <= i < sockets.drop_last().len() && (#[trigger] sockets.drop_last()[i]).id == id;
            assert(sockets[i].id == id);
        }
        if sockets.last().id == id {
            assert(sockets[sockets.len() - 1].id == id);
        }
        if has_socket_id(sockets, id) && sockets.last().id != id {
            let i = choose|i: int| 0 <= i < sockets.len() && (#[trigger] sockets[i]).id == id;
            assert(sockets.drop_last()[i].id == id);
        }
    }
}

proof fn lemma_socket_count_unique(sockets: Seq<CPUSocket>, id: u16)
    requires
        sockets_unique(sockets),
    ensures
        socket_id_count(sockets, id) <= 1,
    decreases sockets.len(),
{
    if sockets.len() > 0 {
        assert(sockets_unique(sockets.drop_last())) by {
            assert(forall|i: int|
                0 <= i < sockets.len() - 1 ==> #[trigger] sockets.drop_last()[i] == sockets[i]);
        }
        lemma_socket_count_unique(sockets.drop_last(), id);
        if sockets.last().id == id {
            lemma_socket_count_has(sockets.drop_last(), id);
            if has_socket_id(sockets.drop_last(), id) {
                let i = choose|i: int|
                    0 <= i < sockets.drop_last().len() && (#[trigger] sockets.drop_last()[i]).id
                        == id;
                assert(sockets[i].id == sockets[sockets.len() - 1].id);
            }
        }
    }
}

proof fn lemma_domain_count_has(domains: Seq<Domain>, id: u16)
    ensures
        domain_id_count(domains, id) >= 0,
        domain_id_count(domains, id) > 0 <==> has_domain_id(domains, id),
    decreases domains.len(),
{
    if domains.len() > 0 {
        lemma_domain_count_has(domains.drop_last(), id);
        if has_domain_id(domains.drop_last(), id) {
            let i = choose|i: int|
                0 <= i < domains.drop_last().len() && (#[trigger] domains.drop_last()[i]).id == id;
            assert(domains[i].id == id);
        }
        if domains.last().id == id {
            assert(domains[domains.len() - 1].id == id);
        }
        if has_domain_id(domains, id) && domains.last().id != id {
            let i = choose|i: int| 0 <= i < domains.len() && (#[trigger] domains[i]).id == id;
            assert(domains.drop_last()[i].id == id);
        }
    }
}

proof fn lemma_domain_count_unique(domains: Seq<Domain>, id: u16)
    requires
        domains_unique(domains),
    ensures
        domain_id_count(domains, id) <= 1,
    decreases domains.len(),
{
    if domains.len() > 0 {
        assert(domains_unique(domains.drop_last())) by {
            assert(forall|i: int|
                0 <= i < domains.len() - 1 ==> #[trigger] domains.drop_last()[i] == domains[i]);
        }
        lemma_domain_count_unique(domains.drop_last(), id);
        if domains.last().id == id {
            lemma_domain_count_has(domains.drop_last(), id);
            if has_domain_id(domains.drop_last(), id) {
                let i = choose|i: int|
                    0 <= i < domains.drop_last().len() && (#[trigger] domains.drop_last()[i]).id
                        == id;
                assert(domains[i].id == domains[domains.len() - 1].id);
            }
        }
    }
}

/// Law (uniqueness): in a well-formed topology no two sockets share an id.
pub proof fn lemma_socket_ids_unique(t: Topology, i: int, j: int)
    requires
        t.wf(),
        0 <= i < j < t.sockets@.len(),
    ensures
        t.sockets@[i].id != t.sockets@[j].id,
{
}

/// Law (uniqueness): in a well-formed socket no two domains share an id.
pub proof fn lemma_domain_ids_unique(s: CPUSocket, i: int, j: int)
    requires
        s.wf(),
        0 <= i < j < s.domains@.len(),
    ensures
        s.domains@[i].id != s.domains@[j].id,
{
}

/// Law (idempotence): adding a socket with the same id twice yields
/// exactly one socket with that id, and the second call changes nothing.
pub proof fn lemma_safe_add_socket_idempotent(
    t0: Topology,
    t1: Topology,
    t2: Topology,
    socket_id: u16,
    domains1: Seq<Domain>,
    attributes1: Vec<Vec<HashMap<String, String>>>,
    path1: Seq<char>,
    domains2: Seq<Domain>,
    attributes2: Vec<Vec<HashMap<String, String>>>,
    path2: Seq<char>,
)
    requires
        t0.wf(),
        add_socket_rel(t0, t1, socket_id, domains1, attributes1, path1),
        add_socket_rel(t1, t2, socket_id, domains2, attributes2, path2),
    ensures
        t2.sockets@ == t1.sockets@,
        socket_id_count(t1.sockets@, socket_id) == 1,
        socket_id_count(t2.sockets@, socket_id) == 1,
{
    lemma_socket_count_has(t0.sockets@, socket_id);
    lemma_socket_count_unique(t0.sockets@, socket_id);
    if has_socket_id(t0.sockets@, socket_id) {
        assert(t1.sockets@ == t0.sockets@);
        assert(has_socket_id(t1.sockets@, socket_id));
        assert(t2.sockets@ == t1.sockets@);
    } else {
        let n = t0.sockets@.len() as int;
        assert(t1.sockets@.drop_last() =~= t0.sockets@) by {
            assert(t1.sockets@.subrange(0, n) == t0.sockets@);
            assert(t1.sockets@.drop_last() =~= t1.sockets@.subrange(0, n));
        }
        assert(t1.sockets@.last().id == socket_id);
        assert(socket_id_count(t1.sockets@, socket_id) == socket_id_count(t0.sockets@, socket_id)
            + 1);
        assert(has_socket_id(t1.sockets@, socket_id)) by {
            assert(t1.sockets@[n].id == socket_id);
        }
        assert(t2.sockets@ == t1.sockets@);
    }
}

/// Law (idempotence): inserting a domain with the same ids twice leaves
/// every socket exactly as the first insertion left it, and the socket
/// addressed holds exactly one domain with that id.
pub proof fn lemma_safe_add_domain_idempotent(
    t0: Topology,
    t1: Topology,
    t2: Topology,
    socket_id: u16,
    domain_id: u16,
    name1: Seq<char>,
    path1: Seq<char>,
    name2: Seq<char>,
    path2: Seq<char>,
)
    requires
        t0.wf(),
        add_domain_rel(t0, t1, socket_id, domain_id, name1, path1),
        add_domain_rel(t1, t2, socket_id, domain_id, name2, path2),
    ensures
        t2.sockets@ =~= t1.sockets@,
        forall|j: int|
            0 <= j < t1.sockets@.len() && (#[trigger] t1.sockets@[j]).id == socket_id
                ==> domain_id_count(t1.sockets@[j].domains@, domain_id) == 1,
{
    let len = t0.sockets@.len();
    assert forall|j: int|
        0 <= j < len && (#[trigger] t1.sockets@[j]).id == socket_id implies domain_id_count(
        t1.sockets@[j].domains@,
        domain_id,
    ) == 1 && has_domain_id(t1.sockets@[j].domains@, domain_id) by {
        let pre = t0.sockets@[j];
        let post = t1.sockets@[j];
        assert(post.id == pre.id) by {
            if pre.id != socket_id {
                assert(post == pre);
            }
        }
        assert(pre.id == socket_id);
        assert(domain_insert_rel(pre, post, domain_id, name1, path1));
        lemma_domain_count_has(pre.domains@, domain_id);
        lemma_domain_count_unique(pre.domains@, domain_id);
        if has_domain_id(pre.domains@, domain_id) {
            assert(post == pre);
        } else {
            let n = pre.domains@.len() as int;
            assert(post.domains@.drop_last() =~= pre.domains@) by {
                assert(post.domains@.subrange(0, n) == pre.domains@);
                assert(post.domains@.drop_last() =~= post.domains@.subrange(0, n));
            }
            assert(post.domains@.last().id == domain_id);
            assert(domain_id_count(post.domains@, domain_id) == domain_id_count(
                pre.domains@,
                domain_id,
            ) + 1);
            assert(has_domain_id(post.domains@, domain_id)) by {
                assert(post.domains@[n].id == domain_id);
            }
        }
    }
    assert forall|j: int| 0 <= j < len implies #[trigger] t2.sockets@[j] == t1.sockets@[j] by {
        if t1.sockets@[j].id == socket_id {
            assert(domain_insert_rel(t1.sockets@[j], t2.sockets@[j], domain_id, name2, path2));
            assert(has_domain_id(t1.sockets@[j].domains@, domain_id));
        } else {
            assert(t2.sockets@[j] == t1.sockets@[j]);
        }
    }
}


/// The record-generation contract shared by sockets and domains.
///
/// Reading the counter source is operating-system work and stays with the
/// embedding host: it hands the raw text in (`None` when the source was
/// unreadable this tick) and takes a record or a per-entity error back, so
/// one faulty entity never blinds the rest of the host.
pub trait RecordGenerator {
    /// The id of the measured entity, for error context.
    spec fn spec_entity_id(&self) -> u16;

    /// The counter source identifier of the entity, for error context.
    spec fn spec_counter_source(&self) -> Seq<char>;

    /// Builds the record for one measurement tick from the raw counter
    /// text of this entity's counter source.
    fn get_record(&self, timestamp: Timestamp, raw: Option<&str>) -> (r: Result<
        Record,
        SensorError,
    >)
        ensures
            raw is None ==> (r matches Err(e) && e matches SensorError::CounterReadError {
                entity_id,
                source,
            } && entity_id == self.spec_entity_id() && source@ == self.spec_counter_source()),
            raw matches Some(s) ==> counter_text_wf(s@) ==> (r matches Ok(rec) && rec.timestamp
                == timestamp && rec.value == counter_text_val(s@) && rec.unit
                == EnergyUnit::MicroJoule),
            raw matches Some(s) ==> !counter_text_wf(s@) ==> (r matches Err(e)
                && e matches SensorError::CounterParseError { entity_id, source } && entity_id
                == self.spec_entity_id() && source@ == self.spec_counter_source()),
    ;
}

impl RecordGenerator for Domain {
    open spec fn spec_entity_id(&self) -> u16 {
        self.id
    }

    open spec fn spec_counter_source(&self) -> Seq<char> {
        self.counter_uj_path@
    }

    fn get_record(&self, timestamp: Timestamp, raw: Option<&str>) -> (r: Result<
        Record,
        SensorError,
    >) {
        match raw {
            None => Err(
                SensorError::CounterReadError {
                    entity_id: self.id,
                    source: self.counter_uj_path.clone(),
                },
            ),
            Some(s) => match parse_counter_text(s) {
                Some(v) => Ok(Record::new(timestamp, v as i128, EnergyUnit::MicroJoule)),
                None => Err(
                    SensorError::CounterParseError {
                        entity_id: self.id,
                        source: self.counter_uj_path.clone(),
                    },
                ),
            },
        }
    }
}

impl RecordGenerator for CPUSocket {
    open spec fn spec_entity_id(&self) -> u16 {
        self.id
    }

    open spec fn spec_counter_source(&self) -> Seq<char> {
        self.counter_uj_path@
    }

    fn get_record(&self, timestamp: Timestamp, raw: Option<&str>) -> (r: Result<
        Record,
        SensorError,
    >) {
        match raw {
            None => Err(
                SensorError::CounterReadError {
                    entity_id: self.id,
                    source: self.counter_uj_path.clone(),
                },
            ),
            Some(s) => match parse_counter_text(s) {
                Some(v) => Ok(Record::new(timestamp, v as i128, EnergyUnit::MicroJoule)),
                None => Err(
                    SensorError::CounterParseError {
                        entity_id: self.id,
                        source: self.counter_uj_path.clone(),
                    },
                ),
            },
        }
    }
}

/// The polymorphic backend contract: a backend performs its own discovery
/// (a sysfs tree walk, an MSR enumeration, or pre-enumerated data) and
/// populates a topology through the idempotent insertion operations.
pub trait Sensor {
    /// Whether this backend's discovery succeeds, as a function of the
    /// backend's state (for enumerated data: whether any socket was
    /// enumerated at all).
    spec fn discovery_succeeds(&self) -> bool;

    /// What a topology delivered by this backend's successful discovery
    /// satisfies, beyond well-formedness.
    spec fn discovered(&self, t: Topology) -> bool;

    /// The topology this backend holds for read-back, if any.
    spec fn spec_topology(&self) -> Option<Topology>;

    /// Performs backend-specific discovery and returns a freshly populated
    /// topology; fails with `DiscoveryError` exactly when the backend
    /// finds no usable energy accounting, so the agent never exports a
    /// misleading empty topology.
    fn generate_topology(&self) -> (r: Result<Topology, SensorError>)
        ensures
            r is Ok <==> self.discovery_succeeds(),
            r matches Ok(t) ==> t.wf() && self.discovered(t),
            r matches Err(e) ==> e is DiscoveryError,
    ;

    /// The topology held from the last successful refresh — exactly the
    /// backend's held state, absent when none has been stored; never
    /// re-runs discovery.
    fn get_topology(&self) -> (r: Option<&Topology>)
        ensures
            r matches Some(t) ==> self.spec_topology() == Some(*t),
            r is None ==> self.spec_topology() is None,
    ;
}

/// Discovery data for one socket, as the discovery collaborator
/// enumerates it.
#[derive(Debug)]
pub struct SocketEntry {
    pub socket_id: u16,
    pub attributes: Vec<Vec<HashMap<String, String>>>,
    pub counter_uj_path: String,
}

/// Discovery data for one domain of a socket.
#[derive(Debug)]
pub struct DomainEntry {
    pub socket_id: u16,
    pub domain_id: u16,
    pub name: String,
    pub counter_uj_path: String,
}

/// Every domain entry whose socket exists in the topology is represented
/// there: the socket with the entry's socket id holds a domain with the
/// entry's domain id.
pub open spec fn domain_covered(t: Topology, e: DomainEntry) -> bool {
    forall|j: int|
        0 <= j < t.sockets@.len() && (#[trigger] t.sockets@[j]).id == e.socket_id
            ==> has_domain_id(t.sockets@[j].domains@, e.domain_id)
}

/// Some enumerated entry supplied this socket's id and counter source.
pub open spec fn socket_matches_entry(entries: Seq<SocketEntry>, s: CPUSocket) -> bool {
    exists|q: int|
        0 <= q < entries.len() && (#[trigger] entries[q]).socket_id == s.id
            && entries[q].counter_uj_path@ == s.counter_uj_path@
}

/// Every socket of the topology stems from some enumerated entry, counter
/// source included: the construction invents nothing.
pub open spec fn sockets_from_entries(t: Topology, entries: Seq<SocketEntry>) -> bool {
    forall|j: int|
        0 <= j < t.sockets@.len() ==> socket_matches_entry(entries, #[trigger] t.sockets@[j])
}

/// Some enumerated entry supplied this domain's ids, name and counter
/// source, for the socket with the given id.
pub open spec fn domain_matches_entry(entries: Seq<DomainEntry>, socket_id: u16, d: Domain) -> bool {
    exists|q: int|
        0 <= q < entries.len() && (#[trigger] entries[q]).socket_id == socket_id
            && entries[q].domain_id == d.id && entries[q].name@ == d.name@
            && entries[q].counter_uj_path@ == d.counter_uj_path@
}

/// Every domain of every socket stems from some enumerated entry, name and
/// counter source included.
pub open spec fn domains_from_entries(t: Topology, entries: Seq<DomainEntry>) -> bool {
    forall|j: int, w: int|
        0 <= j < t.sockets@.len() && 0 <= w < (#[trigger] t.sockets@[j]).domains@.len()
            ==> domain_matches_entry(entries, t.sockets@[j].id, #[trigger] t.sockets@[j].domains@[w])
}

/// What a topology built from enumerated discovery data guarantees: it is
/// well-formed and local, every enumerated socket id is present, every
/// domain entry reached its socket, and no socket was invented.
pub open spec fn built_from_entries(
    t: Topology,
    socket_entries: Seq<SocketEntry>,
    domain_entries: Seq<DomainEntry>,
) -> bool {
    &&& t.wf()
    &&& t.remote == false
    &&& forall|q: int|
        0 <= q < socket_entries.len() ==> has_socket_id(
            t.sockets@,
            (#[trigger] socket_entries[q]).socket_id,
        )
    &&& forall|q: int| 0 <= q < domain_entries.len() ==> domain_covered(t, #[trigger] domain_entries[q])
    &&& sockets_from_entries(t, socket_entries)
    &&& domains_from_entries(t, domain_entries)
}

proof fn lemma_add_socket_preserves_has(
    pre: Topology,
    post: Topology,
    socket_id: u16,
    domains: Seq<Domain>,
    attributes: Vec<Vec<HashMap<String, String>>>,
    path: Seq<char>,
    id: u16,
)
    requires
        add_socket_rel(pre, post, socket_id, domains, attributes, path),
        has_socket_id(pre.sockets@, id),
    ensures
        has_socket_id(post.sockets@, id),
{
    let w = choose|w: int| 0 <= w < pre.sockets@.len() && (#[trigger] pre.sockets@[w]).id == id;
    if has_socket_id(pre.sockets@, socket_id) {
        assert(post.sockets@[w].id == id);
    } else {
        let n = pre.sockets@.len() as int;
        assert(post.sockets@.subrange(0, n)[w] == pre.sockets@[w]);
        assert(post.sockets@[w].id == id);
    }
}

proof fn lemma_add_domain_keeps_ids(
    pre: Topology,
    post: Topology,
    socket_id: u16,
    domain_id: u16,
    name: Seq<char>,
    uj_counter: Seq<char>,
    j: int,
)
    requires
        add_domain_rel(pre, post, socket_id, domain_id, name, uj_counter),
        0 <= j < pre.sockets@.len(),
    ensures
        post.sockets@[j].id == pre.sockets@[j].id,
        post.sockets@[j].counter_uj_path == pre.sockets@[j].counter_uj_path,
{
    if pre.sockets@[j].id == socket_id {
        assert(domain_insert_rel(pre.sockets@[j], post.sockets@[j], domain_id, name, uj_counter));
        if has_domain_id(pre.sockets@[j].domains@, domain_id) {
            assert(post.sockets@[j] == pre.sockets@[j]);
        }
    } else {
        assert(post.sockets@[j] == pre.sockets@[j]);
    }
}

proof fn lemma_add_domain_keeps_domains(
    pre: Topology,
    post: Topology,
    socket_id: u16,
    domain_id: u16,
    name: Seq<char>,
    uj_counter: Seq<char>,
    j: int,
    id2: u16,
)
    requires
        add_domain_rel(pre, post, socket_id, domain_id, name, uj_counter),
        0 <= j < pre.sockets@.len(),
        has_domain_id(pre.sockets@[j].domains@, id2),
    ensures
        has_domain_id(post.sockets@[j].domains@, id2),
{
    let pre_s = pre.sockets@[j];
    let post_s = post.sockets@[j];
    let w = choose|w: int| 0 <= w < pre_s.domains@.len() && (#[trigger] pre_s.domains@[w]).id == id2;
    if pre_s.id == socket_id {
        assert(domain_insert_rel(pre_s, post_s, domain_id, name, uj_counter));
        if has_domain_id(pre_s.domains@, domain_id) {
            assert(post_s == pre_s);
        } else {
            let n = pre_s.domains@.len() as int;
            assert(post_s.domains@.subrange(0, n)[w] == pre_s.domains@[w]);
            assert(post_s.domains@[w].id == id2);
        }
    } else {
        assert(post_s == pre_s);
    }
}

proof fn lemma_add_domain_covers(
    pre: Topology,
    post: Topology,
    socket_id: u16,
    domain_id: u16,
    name: Seq<char>,
    uj_counter: Seq<char>,
    j: int,
)
    requires
        add_domain_rel(pre, post, socket_id, domain_id, name, uj_counter),
        0 <= j < pre.sockets@.len(),
        pre.sockets@[j].id == socket_id,
    ensures
        has_domain_id(post.sockets@[j].domains@, domain_id),
{
    let pre_s = pre.sockets@[j];
    let post_s = post.sockets@[j];
    assert(domain_insert_rel(pre_s, post_s, domain_id, name, uj_counter));
    if has_domain_id(pre_s.domains@, domain_id) {
        assert(post_s == pre_s);
    } else {
        let n = pre_s.domains@.len() as int;
        assert(post_s.domains@[n].id == domain_id);
    }
}

/// A sensor backend over already-enumerated discovery data: the walking of
/// `/sys` trees or of model-specific registers belongs to the embedding
/// host, which hands the enumerated entries in as plain values and gets
/// the same idempotent topology construction every backend gets.
pub struct StaticSensor {
    pub cpuinfo: String,
    pub socket_entries: Vec<SocketEntry>,
    pub domain_entries: Vec<DomainEntry>,
    pub topology: Option<Topology>,
}

impl StaticSensor {
    /// A sensor over the given discovery data, holding no topology yet.
    pub fn new(
        cpuinfo: String,
        socket_entries: Vec<SocketEntry>,
        domain_entries: Vec<DomainEntry>,
    ) -> (r: StaticSensor)
        ensures
            r.cpuinfo == cpuinfo,
            r.socket_entries == socket_entries,
            r.domain_entries == domain_entries,
            r.spec_topology() is None,
    {
        StaticSensor { cpuinfo, socket_entries, domain_entries, topology: None }
    }

    /// Builds a topology from the enumerated entries: one socket per
    /// distinct socket entry id, then every domain entry inserted into its
    /// socket.  Discovery fails when there are no socket entries at all —
    /// a host whose counter sources were all unreadable enumerates
    /// nothing, and the agent must not proceed with an empty topology.
    pub fn build_topology(&self) -> (r: Result<Topology, SensorError>)
        ensures
            r is Ok <==> self.socket_entries@.len() > 0,
            r matches Ok(t) ==> built_from_entries(t, self.socket_entries@, self.domain_entries@)
                && t.cpuinfo == self.cpuinfo,
            r matches Err(e) ==> e is DiscoveryError,
    {
        if self.socket_entries.len() == 0 {
            return Err(
                SensorError::DiscoveryError {
                    reason: String::from_str("no energy-accounting sockets were enumerated"),
                },
            );
        }
        let mut topo = Topology::new(self.cpuinfo.clone());
        let mut i: usize = 0;
        while i < self.socket_entries.len()
            invariant
                i <= self.socket_entries@.len(),
                topo.wf(),
                topo.remote == false,
                topo.cpuinfo == self.cpuinfo,
                forall|q: int|
                    0 <= q < i ==> has_socket_id(
                        topo.sockets@,
                        (#[trigger] self.socket_entries@[q]).socket_id,
                    ),
                forall|j: int|
                    0 <= j < topo.sockets@.len() ==> exists|q: int|
                        0 <= q < i && (#[trigger] topo.sockets@[j]).id == (
                        #[trigger] self.socket_entries@[q]).socket_id
                            && topo.sockets@[j].counter_uj_path@
                            == self.socket_entries@[q].counter_uj_path@,
                forall|j: int|
                    0 <= j < topo.sockets@.len() ==> (
                    #[trigger] topo.sockets@[j]).domains@.len() == 0,
            decreases self.socket_entries@.len() - i,
        {
            let e = &self.socket_entries[i];
            let ghost pre = topo;
            let attrs = e.attributes.clone();
            let path = e.counter_uj_path.clone();
            let ghost attrs_snapshot = attrs;
            let ghost path_snapshot = path@;
            topo.safe_add_socket(e.socket_id, Vec::new(), attrs, path);
            proof {
                assert forall|q: int| 0 <= q < i + 1 implies has_socket_id(
                    topo.sockets@,
                    (#[trigger] self.socket_entries@[q]).socket_id,
                ) by {
                    if q < i {
                        lemma_add_socket_preserves_has(
                            pre,
                            topo,
                            e.socket_id,
                            Seq::<Domain>::empty(),
                            attrs_snapshot,
                            path_snapshot,
                            self.socket_entries@[q].socket_id,
                        );
                    }
                }
                assert forall|j: int| 0 <= j < topo.sockets@.len() implies exists|q: int|
                    0 <= q < i + 1 && (#[trigger] topo.sockets@[j]).id == (
                    #[trigger] self.socket_entries@[q]).socket_id
                        && topo.sockets@[j].counter_uj_path@
                        == self.socket_entries@[q].counter_uj_path@ by {
                    let n = pre.sockets@.len() as int;
                    if j < n {
                        if has_socket_id(pre.sockets@, e.socket_id) {
                            assert(topo.sockets@[j] == pre.sockets@[j]);
                        } else {
                            assert(topo.sockets@.subrange(0, n)[j] == pre.sockets@[j]);
                        }
                        let q = choose|q: int|
                            0 <= q < i && (#[trigger] pre.sockets@[j]).id == (
                            #[trigger] self.socket_entries@[q]).socket_id
                                && pre.sockets@[j].counter_uj_path@
                                == self.socket_entries@[q].counter_uj_path@;
                        assert(topo.sockets@[j].id == self.socket_entries@[q].socket_id
                            && topo.sockets@[j].counter_uj_path@
                            == self.socket_entries@[q].counter_uj_path@);
                    } else {
                        assert(topo.sockets@[j].id == self.socket_entries@[i as int].socket_id
                            && topo.sockets@[j].counter_uj_path@
                            == self.socket_entries@[i as int].counter_uj_path@);
                    }
                }
                assert forall|j: int| 0 <= j < topo.sockets@.len() implies (
                #[trigger] topo.sockets@[j]).domains@.len() == 0 by {
                    let n = pre.sockets@.len() as int;
                    if j < n {
                        if has_socket_id(pre.sockets@, e.socket_id) {
                            assert(topo.sockets@[j] == pre.sockets@[j]);
                        } else {
                            assert(topo.sockets@.subrange(0, n)[j] == pre.sockets@[j]);
                        }
                    }
                }
            }
            i = i + 1;
        }
        proof {
            assert forall|j: int| 0 <= j < topo.sockets@.len() implies socket_matches_entry(
                self.socket_entries@,
                #[trigger] topo.sockets@[j],
            ) by {
                let q = choose|q: int|
                    0 <= q < i && (#[trigger] topo.sockets@[j]).id == (
                    #[trigger] self.socket_entries@[q]).socket_id
                        && topo.sockets@[j].counter_uj_path@
                        == self.socket_entries@[q].counter_uj_path@;
                assert(self.socket_entries@[q].socket_id == topo.sockets@[j].id
                    && self.socket_entries@[q].counter_uj_path@
                    == topo.sockets@[j].counter_uj_path@);
            }
            assert forall|j: int, w: int|
                0 <= j < topo.sockets@.len() && 0 <= w < (
                #[trigger] topo.sockets@[j]).domains@.len() implies domain_matches_entry(
                self.domain_entries@,
                topo.sockets@[j].id,
                #[trigger] topo.sockets@[j].domains@[w],
            ) by {
                assert(topo.sockets@[j].domains@.len() == 0);
            }
        }
        let mut d: usize = 0;
        while d < self.domain_entries.len()
            invariant
                d <= self.domain_entries@.len(),
                topo.wf(),
                topo.remote == false,
                topo.cpuinfo == self.cpuinfo,
                forall|q: int|
                    0 <= q < self.socket_entries@.len() ==> has_socket_id(
                        topo.sockets@,
                        (#[trigger] self.socket_entries@[q]).socket_id,
                    ),
                forall|q: int|
                    0 <= q < d ==> domain_covered(topo, #[trigger] self.domain_entries@[q]),
                sockets_from_entries(topo, self.socket_entries@),
                domains_from_entries(topo, self.domain_entries@),
            decreases self.domain_entries@.len() - d,
        {
            let e = &self.domain_entries[d];
            let ghost pre = topo;
            topo.safe_add_domain_to_socket(
                e.socket_id,
                e.domain_id,
                e.name.as_str(),
                e.counter_uj_path.as_str(),
            );
            proof {
                let ghost entry = self.domain_entries@[d as int];
                assert forall|q: int| 0 <= q < self.socket_entries@.len() implies has_socket_id(
                    topo.sockets@,
                    (#[trigger] self.socket_entries@[q]).socket_id,
                ) by {
                    let id = self.socket_entries@[q].socket_id;
                    let w = choose|w: int|
                        0 <= w < pre.sockets@.len() && (#[trigger] pre.sockets@[w]).id == id;
                    lemma_add_domain_keeps_ids(
                        pre,
                        topo,
                        entry.socket_id,
                        entry.domain_id,
                        entry.name@,
                        entry.counter_uj_path@,
                        w,
                    );
                    assert(topo.sockets@[w].id == id);
                }
                assert forall|j: int| 0 <= j < topo.sockets@.len() implies socket_matches_entry(
                    self.socket_entries@,
                    #[trigger] topo.sockets@[j],
                ) by {
                    lemma_add_domain_keeps_ids(
                        pre,
                        topo,
                        entry.socket_id,
                        entry.domain_id,
                        entry.name@,
                        entry.counter_uj_path@,
                        j,
                    );
                    assert(socket_matches_entry(self.socket_entries@, pre.sockets@[j]));
                    let q = choose|q: int|
                        0 <= q < self.socket_entries@.len() && (
                        #[trigger] self.socket_entries@[q]).socket_id == pre.sockets@[j].id
                            && self.socket_entries@[q].counter_uj_path@
                            == pre.sockets@[j].counter_uj_path@;
                    assert(self.socket_entries@[q].socket_id == topo.sockets@[j].id
                        && self.socket_entries@[q].counter_uj_path@
                        == topo.sockets@[j].counter_uj_path@);
                }
                assert forall|j: int, w: int|
                    0 <= j < topo.sockets@.len() && 0 <= w < (
                    #[trigger] topo.sockets@[j]).domains@.len() implies domain_matches_entry(
                    self.domain_entries@,
                    topo.sockets@[j].id,
                    #[trigger] topo.sockets@[j].domains@[w],
                ) by {
                    lemma_add_domain_keeps_ids(
                        pre,
                        topo,
                        entry.socket_id,
                        entry.domain_id,
                        entry.name@,
                        entry.counter_uj_path@,
                        j,
                    );
                    if pre.sockets@[j].id == entry.socket_id {
                        assert(domain_insert_rel(
                            pre.sockets@[j],
                            topo.sockets@[j],
                            entry.domain_id,
                            entry.name@,
                            entry.counter_uj_path@,
                        ));
                        if has_domain_id(pre.sockets@[j].domains@, entry.domain_id) {
                            assert(topo.sockets@[j] == pre.sockets@[j]);
                            assert(domain_matches_entry(
                                self.domain_entries@,
                                pre.sockets@[j].id,
                                pre.sockets@[j].domains@[w],
                            ));
                        } else {
                            let n = pre.sockets@[j].domains@.len() as int;
                            if w < n {
                                assert(topo.sockets@[j].domains@.subrange(0, n)[w]
                                    == pre.sockets@[j].domains@[w]);
                                assert(domain_matches_entry(
                                    self.domain_entries@,
                                    pre.sockets@[j].id,
                                    pre.sockets@[j].domains@[w],
                                ));
                            } else {
                                assert(self.domain_entries@[d as int].socket_id
                                    == topo.sockets@[j].id);
                                assert(topo.sockets@[j].domains@[w].id == entry.domain_id
                                    && topo.sockets@[j].domains@[w].name@ == entry.name@
                                    && topo.sockets@[j].domains@[w].counter_uj_path@
                                    == entry.counter_uj_path@);
                            }
                        }
                    } else {
                        assert(topo.sockets@[j] == pre.sockets@[j]);
                        assert(domain_matches_entry(
                            self.domain_entries@,
                            pre.sockets@[j].id,
                            pre.sockets@[j].domains@[w],
                        ));
                    }
                }
                assert forall|q: int| 0 <= q < d + 1 implies domain_covered(
                    topo,
                    #[trigger] self.domain_entries@[q],
                ) by {
                    let old_e = self.domain_entries@[q];
                    assert forall|j: int|
                        0 <= j < topo.sockets@.len() && (#[trigger] topo.sockets@[j]).id
                            == old_e.socket_id implies has_domain_id(
                        topo.sockets@[j].domains@,
                        old_e.domain_id,
                    ) by {
                        lemma_add_domain_keeps_ids(
                            pre,
                            topo,
                            entry.socket_id,
                            entry.domain_id,
                            entry.name@,
                            entry.counter_uj_path@,
                            j,
                        );
                        if q < d {
                            assert(has_domain_id(pre.sockets@[j].domains@, old_e.domain_id));
                            lemma_add_domain_keeps_domains(
                                pre,
                                topo,
                                entry.socket_id,
                                entry.domain_id,
                                entry.name@,
                                entry.counter_uj_path@,
                                j,
                                old_e.domain_id,
                            );
                        } else {
                            lemma_add_domain_covers(
                                pre,
                                topo,
                                entry.socket_id,
                                entry.domain_id,
                                entry.name@,
                                entry.counter_uj_path@,
                                j,
                            );
                        }
                    }
                }
            }
            d = d + 1;
        }
        Ok(topo)
    }

    /// Re-runs the construction over the held entries and stores the
    /// result for later read-back; on failure the held topology is kept.
    pub fn refresh_topology(&mut self) -> (r: Result<(), SensorError>)
        ensures
            r is Ok <==> old(self).socket_entries@.len() > 0,
            r matches Err(e) ==> e is DiscoveryError && *final(self) == *old(self),
            r is Ok ==> {
                &&& final(self).cpuinfo == old(self).cpuinfo
                &&& final(self).socket_entries == old(self).socket_entries
                &&& final(self).domain_entries == old(self).domain_entries
                &&& final(self).spec_topology() matches Some(t) && built_from_entries(
                    t,
                    old(self).socket_entries@,
                    old(self).domain_entries@,
                ) && t.cpuinfo == old(self).cpuinfo
            },
    {
        match self.build_topology() {
            Ok(t) => {
                self.topology = Some(t);
                Ok(())
            },
            Err(e) => Err(e),
        }
    }
}

impl Sensor for StaticSensor {
    open spec fn discovery_succeeds(&self) -> bool {
        self.socket_entries@.len() > 0
    }

    open spec fn discovered(&self, t: Topology) -> bool {
        built_from_entries(t, self.socket_entries@, self.domain_entries@) && t.cpuinfo
            == self.cpuinfo
    }

    open spec fn spec_topology(&self) -> Option<Topology> {
        self.topology
    }

    fn generate_topology(&self) -> (r: Result<Topology, SensorError>) {
        self.build_topology()
    }

    fn get_topology(&self) -> (r: Option<&Topology>) {
        self.topology.as_ref()
    }
}

} // verus!
