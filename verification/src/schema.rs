//! The published snapshot: what readers see of the live statistics.

use crate::registry::{index_of, lemma_insert_keeps_others, lemma_take_index, Registry};
use crate::ringbuf::RingStatsBuffer;
use crate::rolling::Rolling;
use crate::sample::Sample;
use crate::systats::{with_names, NetworkBytes, SysinfoStats};
use vstd::prelude::*;

verus! {

/// The published figures of one metric.
#[derive(Clone, Copy, Debug)]
pub struct Metric<T> {
    pub max: T,
    pub min: T,
    pub avg: T,
    pub last: T,
}

/// The published figures of one metric as numbers.
pub struct Record {
    pub max: int,
    pub min: int,
    pub avg: int,
    pub last: int,
}

/// What a window has to publish: its committed statistics and its most
/// recent sample. A window that lacks either has nothing to publish.
pub open spec fn record_of(window: Rolling) -> Option<Record> {
    match (window.committed, window.last()) {
        (Some(c), Some(last)) => Some(Record { max: c.max, min: c.min, avg: c.avg, last }),
        _ => None,
    }
}

/// The numbers of an optional metric.
pub open spec fn figures<T: Sample>(metric: Option<Metric<T>>) -> Option<Record> {
    match metric {
        Some(m) => Some(m@),
        None => None,
    }
}

impl<T: Sample> View for Metric<T> {
    type V = Record;

    open spec fn view(&self) -> Record {
        Record {
            max: self.max.value(),
            min: self.min.value(),
            avg: self.avg.value(),
            last: self.last.value(),
        }
    }
}

impl<T: Sample> Metric<T> {
    /// A metric with every figure at zero.
    pub fn new() -> (metric: Self)
        ensures
            metric@ == (Record { max: 0, min: 0, avg: 0, last: 0 }),
    {
        let top = T::highest();
        proof {
            top.lemma_in_range();
        }
        let zero = T::narrow(0);
        Metric { max: zero, min: zero, avg: zero, last: zero }
    }

    /// What `buffer` has to publish, or `None` where it has no data yet.
    pub fn from_buffer(buffer: &RingStatsBuffer<T>) -> (metric: Option<Metric<T>>)
        ensures
            figures(metric) == record_of(buffer@),
    {
        match (buffer.committed(), buffer.get_last()) {
            (Some(stats), Some(last)) => Some(
                Metric { max: stats.max, min: stats.min, avg: stats.avg, last },
            ),
            _ => None,
        }
    }
}

/// The processor figures.
#[derive(Clone, Copy)]
pub struct Cpu {
    pub cpu_cores: usize,
    pub cpu_freq: Option<Metric<u64>>,
    /// Processor load in hundredths of a percent.
    pub cpu_usage: Option<Metric<u32>>,
}

/// The memory figures.
#[derive(Clone, Copy)]
pub struct Mem {
    pub total_mem: u64,
    pub total_swap: u64,
    pub mem_free: Option<Metric<u64>>,
    pub mem_used: Option<Metric<u64>>,
    pub mem_available: Option<Metric<u64>>,
    pub mem_buffer: Option<Metric<u64>>,
}

/// What identifies the host.
pub struct Info {
    pub uptime: u64,
    pub name: String,
}

/// The traffic figures of one network interface.
#[derive(Clone, Copy)]
pub struct Net {
    pub rx_bytes: Option<Metric<u64>>,
    pub tx_bytes: Option<Metric<u64>>,
}

impl Net {
    /// The figures of an interface with no data yet.
    pub fn new() -> (net: Self)
        ensures
            net.rx_bytes.is_none(),
            net.tx_bytes.is_none(),
    {
        Net { rx_bytes: None, tx_bytes: None }
    }
}

/// The disk figures, by disk name.
pub type Disk = Registry<Option<Metric<u64>>>;

/// The traffic figures, by interface name.
pub type Networks = Registry<Net>;

/// The whole snapshot.
pub struct SysinfoSchema {
    pub cpu: Cpu,
    pub mem: Mem,
    pub system: Info,
    pub disks: Disk,
    pub networks: Networks,
}

impl Cpu {
    /// Some processor metric has data.
    pub open spec fn available(self) -> bool {
        self.cpu_freq.is_some() || self.cpu_usage.is_some()
    }
}

impl Mem {
    /// Some memory metric has data.
    pub open spec fn available(self) -> bool {
        ||| self.mem_free.is_some()
        ||| self.mem_used.is_some()
        ||| self.mem_available.is_some()
        ||| self.mem_buffer.is_some()
    }
}

/// Some disk has data.
pub open spec fn disks_available(slots: Seq<Option<Metric<u64>>>) -> bool {
    exists|i: int| 0 <= i < slots.len() && (#[trigger] slots[i]).is_some()
}

/// Some network interface has data.
pub open spec fn networks_available(slots: Seq<Net>) -> bool {
    exists|i: int|
        0 <= i < slots.len() && ((#[trigger] slots[i]).rx_bytes.is_some()
            || slots[i].tx_bytes.is_some())
}

/// The disk figures after the windows of `source` are published into
/// them: a disk of `source` gets what its window has to publish, under its
/// name; what was there under other names stays.
pub fn publish_disks(disks: &mut Disk, source: &Registry<RingStatsBuffer<u64>>)
    ensures
        final(disks).wf(),
        final(disks).names() == with_names(old(disks).names(), source.names()),
        forall|i: int|
            0 <= i < final(disks).names().len() ==> match index_of(
                source.names(),
                final(disks).names()[i],
            ) {
                Some(j) => figures(#[trigger] final(disks).slots()[i]) == record_of(
                    source.slots()[j]@,
                ),
                None => final(disks).slots()[i] == old(disks).slots()[i],
            },
{
    let ghost start_names = disks.names();
    let ghost start = disks.slots();
    let ghost all = source.names();
    let count: usize = source.len();
    let mut k: usize = 0;
    proof {
        assert(all.take(0) =~= Seq::<Seq<char>>::empty());
    }
    let _ = disks.len();
    while k < count
        invariant
            k <= count == all.len(),
            all == source.names(),
            source.wf(),
            disks.wf(),
            disks.names() == with_names(start_names, all.take(k as int)),
            forall|i: int|
                0 <= i < disks.names().len() ==> match index_of(
                    all.take(k as int),
                    disks.names()[i],
                ) {
                    Some(j) => figures(#[trigger] disks.slots()[i]) == record_of(
                        source.slots()[j]@,
                    ),
                    None => disks.slots()[i] == start[i],
                },
        decreases count - k,
    {
        let name: String = source.name_at(k).clone();
        let metric = Metric::from_buffer(source.slot_at(k));
        let ghost held = disks.names();
        let ghost slots = disks.slots();
        let ghost shorter = all.take(k as int);
        let ghost longer = all.take(k + 1);
        proof {
            lemma_take_index(all, k as int, name@);
        }
        disks.insert(name, metric);
        proof {
            lemma_insert_keeps_others(held, name@);
            assert forall|i: int| 0 <= i < disks.names().len() implies match index_of(
                longer,
                disks.names()[i],
            ) {
                Some(j) => figures(#[trigger] disks.slots()[i]) == record_of(source.slots()[j]@),
                None => disks.slots()[i] == start[i],
            } by {
                let n = disks.names()[i];
                if n == name@ {
                    assert(index_of(longer, n) == Some(k as int));
                } else {
                    assert(index_of(longer, n) == index_of(shorter, n));
                    assert(i < held.len());
                    assert(disks.slots()[i] == slots[i]);
                }
            }
        }
        k = k + 1;
    }
    proof {
        assert(all.take(k as int) =~= all);
    }
}

/// The traffic figures after the windows of `source` are published into
/// them: an interface of `source` gets what its windows have to publish,
/// under its name; what was there under other names stays.
pub fn publish_networks(networks: &mut Networks, source: &Registry<NetworkBytes>)
    ensures
        final(networks).wf(),
        final(networks).names() == with_names(old(networks).names(), source.names()),
        forall|i: int|
            0 <= i < final(networks).names().len() ==> match index_of(
                source.names(),
                final(networks).names()[i],
            ) {
                Some(j) => figures((#[trigger] final(networks).slots()[i]).rx_bytes) == record_of(
                    source.slots()[j].rx_bytes@,
                ) && figures(final(networks).slots()[i].tx_bytes) == record_of(
                    source.slots()[j].tx_bytes@,
                ),
                None => final(networks).slots()[i] == old(networks).slots()[i],
            },
{
    let ghost start_names = networks.names();
    let ghost start = networks.slots();
    let ghost all = source.names();
    let count: usize = source.len();
    let mut k: usize = 0;
    proof {
        assert(all.take(0) =~= Seq::<Seq<char>>::empty());
    }
    let _ = networks.len();
    while k < count
        invariant
            k <= count == all.len(),
            all == source.names(),
            source.wf(),
            networks.wf(),
            networks.names() == with_names(start_names, all.take(k as int)),
            forall|i: int|
                0 <= i < networks.names().len() ==> match index_of(
                    all.take(k as int),
                    networks.names()[i],
                ) {
                    Some(j) => figures((#[trigger] networks.slots()[i]).rx_bytes) == record_of(
                        source.slots()[j].rx_bytes@,
                    ) && figures(networks.slots()[i].tx_bytes) == record_of(
                        source.slots()[j].tx_bytes@,
                    ),
                    None => networks.slots()[i] == start[i],
                },
        decreases count - k,
    {
        let name: String = source.name_at(k).clone();
        let bytes = source.slot_at(k);
        let net = Net {
            rx_bytes: Metric::from_buffer(&bytes.rx_bytes),
            tx_bytes: Metric::from_buffer(&bytes.tx_bytes),
        };
        let ghost held = networks.names();
        let ghost slots = networks.slots();
        let ghost shorter = all.take(k as int);
        let ghost longer = all.take(k + 1);
        proof {
            lemma_take_index(all, k as int, name@);
        }
        networks.insert(name, net);
        proof {
            lemma_insert_keeps_others(held, name@);
            assert forall|i: int| 0 <= i < networks.names().len() implies match index_of(
                longer,
                networks.names()[i],
            ) {
                Some(j) => figures((#[trigger] networks.slots()[i]).rx_bytes) == record_of(
                    source.slots()[j].rx_bytes@,
                ) && figures(networks.slots()[i].tx_bytes) == record_of(
                    source.slots()[j].tx_bytes@,
                ),
                None => networks.slots()[i] == start[i],
            } by {
                let n = networks.names()[i];
                if n == name@ {
                    assert(index_of(longer, n) == Some(k as int));
                } else {
                    assert(index_of(longer, n) == index_of(shorter, n));
                    assert(i < held.len());
                    assert(networks.slots()[i] == slots[i]);
                }
            }
        }
        k = k + 1;
    }
    proof {
        assert(all.take(k as int) =~= all);
    }
}

impl Cpu {
    /// Whether some processor metric has data.
    pub fn is_available(&self) -> (available: bool)
        ensures
            available == self.available(),
    {
        self.cpu_freq.is_some() || self.cpu_usage.is_some()
    }
}

impl Mem {
    /// Whether some memory metric has data.
    pub fn is_available(&self) -> (available: bool)
        ensures
            available == self.available(),
    {
        self.mem_free.is_some() || self.mem_used.is_some() || self.mem_available.is_some()
            || self.mem_buffer.is_some()
    }
}

/// Whether some disk has data.
pub fn disks_ready(disks: &Disk) -> (ready: bool)
    ensures
        ready == disks_available(disks.slots()),
{
    let count: usize = disks.len();
    let mut k: usize = 0;
    while k < count
        invariant
            k <= count == disks.names().len() == disks.slots().len(),
            forall|i: int| 0 <= i < k ==> (#[trigger] disks.slots()[i]).is_none(),
        decreases count - k,
    {
        if disks.slot_at(k).is_some() {
            return true;
        }
        k = k + 1;
    }
    false
}

/// Whether some network interface has data.
pub fn networks_ready(networks: &Networks) -> (ready: bool)
    ensures
        ready == networks_available(networks.slots()),
{
    let count: usize = networks.len();
    let mut k: usize = 0;
    while k < count
        invariant
            k <= count == networks.names().len() == networks.slots().len(),
            forall|i: int|
                0 <= i < k ==> (#[trigger] networks.slots()[i]).rx_bytes.is_none()
                    && networks.slots()[i].tx_bytes.is_none(),
        decreases count - k,
    {
        let net = networks.slot_at(k);
        if net.rx_bytes.is_some() || net.tx_bytes.is_some() {
            return true;
        }
        k = k + 1;
    }
    false
}

impl SysinfoSchema {
    /// Some metric of the snapshot has data.
    pub open spec fn available(&self) -> bool {
        ||| self.cpu.available()
        ||| self.mem.available()
        ||| disks_available(self.disks.slots())
        ||| networks_available(self.networks.slots())
    }

    /// `other` holds what this snapshot holds.
    pub open spec fn same_as(&self, other: &SysinfoSchema) -> bool {
        &&& self.cpu == other.cpu
        &&& self.mem == other.mem
        &&& self.system.uptime == other.system.uptime
        &&& self.system.name@ == other.system.name@
        &&& self.disks.names() == other.disks.names()
        &&& self.disks.slots() == other.disks.slots()
        &&& self.networks.names() == other.networks.names()
        &&& self.networks.slots() == other.networks.slots()
    }

    /// The snapshot holds no data and no device.
    pub open spec fn blank(&self) -> bool {
        &&& self.cpu.cpu_cores == 0
        &&& self.cpu.cpu_freq.is_none()
        &&& self.cpu.cpu_usage.is_none()
        &&& self.mem.total_mem == 0
        &&& self.mem.total_swap == 0
        &&& self.mem.mem_free.is_none()
        &&& self.mem.mem_used.is_none()
        &&& self.mem.mem_available.is_none()
        &&& self.mem.mem_buffer.is_none()
        &&& self.system.uptime == 0
        &&& self.system.name@.len() == 0
        &&& self.disks.names().len() == 0
        &&& self.disks.slots().len() == 0
        &&& self.networks.names().len() == 0
        &&& self.networks.slots().len() == 0
    }

    /// `after` is what this snapshot becomes when it is rebuilt from
    /// `stats`: every fixed metric has what its window has to publish;
    /// every device of `stats` has its entry, with what its windows have to
    /// publish, and the entries of other names stay; the host name, once
    /// known, stays.
    pub open spec fn rebuilt(&self, stats: &SysinfoStats, after: &SysinfoSchema) -> bool {
        &&& after.system.uptime == stats.uptime
        &&& after.system.name@ == if self.system.name@.len() == 0 {
            stats.name@
        } else {
            self.system.name@
        }
        &&& after.cpu.cpu_cores == stats.cpu_cores
        &&& after.mem.total_mem == stats.total_mem
        &&& after.mem.total_swap == stats.total_swap
        &&& figures(after.cpu.cpu_freq) == record_of(stats.cpu_freq@)
        &&& figures(after.cpu.cpu_usage) == record_of(stats.cpu_usage@)
        &&& figures(after.mem.mem_free) == record_of(stats.mem_free@)
        &&& figures(after.mem.mem_used) == record_of(stats.mem_used@)
        &&& figures(after.mem.mem_available) == record_of(stats.mem_available@)
        &&& after.mem.mem_buffer == self.mem.mem_buffer
        &&& after.disks.names() == with_names(self.disks.names(), stats.disk_usage.names())
        &&& forall|i: int|
            0 <= i < after.disks.names().len() ==> match index_of(
                stats.disk_usage.names(),
                after.disks.names()[i],
            ) {
                Some(j) => figures(#[trigger] after.disks.slots()[i]) == record_of(
                    stats.disk_usage.slots()[j]@,
                ),
                None => after.disks.slots()[i] == self.disks.slots()[i],
            }
        &&& after.networks.names() == with_names(self.networks.names(), stats.networks.names())
        &&& forall|i: int|
            0 <= i < after.networks.names().len() ==> match index_of(
                stats.networks.names(),
                after.networks.names()[i],
            ) {
                Some(j) => figures((#[trigger] after.networks.slots()[i]).rx_bytes) == record_of(
                    stats.networks.slots()[j].rx_bytes@,
                ) && figures(after.networks.slots()[i].tx_bytes) == record_of(
                    stats.networks.slots()[j].tx_bytes@,
                ),
                None => after.networks.slots()[i] == self.networks.slots()[i],
            }
    }

    /// A snapshot with no data and no device.
    pub fn new() -> (schema: Self)
        ensures
            schema.blank(),
            !schema.available(),
    {
        let schema = SysinfoSchema {
            cpu: Cpu { cpu_cores: 0, cpu_freq: None, cpu_usage: None },
            mem: Mem {
                total_mem: 0,
                total_swap: 0,
                mem_free: None,
                mem_used: None,
                mem_available: None,
                mem_buffer: None,
            },
            system: Info { uptime: 0, name: String::new() },
            disks: Registry::new(),
            networks: Registry::new(),
        };
        schema
    }

    /// Rebuilds the snapshot from the live statistics. Every fixed metric
    /// gets what its window has to publish; every registered device gets
    /// its entry, made at the first rebuild that sees the device. The host
    /// name, once known, stays.
    pub fn rebuild(&mut self, stats: &SysinfoStats)
        ensures
            old(self).rebuilt(stats, final(self)),
    {
        self.system.uptime = stats.uptime;
        if self.system.name.as_str().is_empty() {
            self.system.name = stats.name.clone();
        }
        self.cpu.cpu_cores = stats.cpu_cores;
        self.mem.total_mem = stats.total_mem;
        self.mem.total_swap = stats.total_swap;
        self.cpu.cpu_freq = Metric::from_buffer(&stats.cpu_freq);
        self.cpu.cpu_usage = Metric::from_buffer(&stats.cpu_usage);
        self.mem.mem_free = Metric::from_buffer(&stats.mem_free);
        self.mem.mem_used = Metric::from_buffer(&stats.mem_used);
        self.mem.mem_available = Metric::from_buffer(&stats.mem_available);
        publish_disks(&mut self.disks, &stats.disk_usage);
        publish_networks(&mut self.networks, &stats.networks);
    }

    /// The processor figures, or `None` while no processor metric has
    /// data.
    pub fn cpu_payload(&self) -> (payload: Option<Cpu>)
        ensures
            payload == if self.cpu.available() {
                Some(self.cpu)
            } else {
                None
            },
    {
        if self.cpu.is_available() {
            Some(self.cpu)
        } else {
            None
        }
    }

    /// The memory figures, or `None` while no memory metric has data.
    pub fn mem_payload(&self) -> (payload: Option<Mem>)
        ensures
            payload == if self.mem.available() {
                Some(self.mem)
            } else {
                None
            },
    {
        if self.mem.is_available() {
            Some(self.mem)
        } else {
            None
        }
    }

    /// The disk figures, or `None` while no disk has data.
    pub fn disks_payload(&self) -> (payload: Option<Disk>)
        ensures
            payload.is_some() == disks_available(self.disks.slots()),
            payload matches Some(disks) ==> disks.names() == self.disks.names() && disks.slots()
                == self.disks.slots(),
    {
        if disks_ready(&self.disks) {
            Some(self.disks.clone())
        } else {
            None
        }
    }

    /// The traffic figures, or `None` while no network interface has data.
    pub fn networks_payload(&self) -> (payload: Option<Networks>)
        ensures
            payload.is_some() == networks_available(self.networks.slots()),
            payload matches Some(networks) ==> networks.names() == self.networks.names()
                && networks.slots() == self.networks.slots(),
    {
        if networks_ready(&self.networks) {
            Some(self.networks.clone())
        } else {
            None
        }
    }

    /// A copy of the whole snapshot, or `None` while no metric has data.
    pub fn full_payload(&self) -> (payload: Option<SysinfoSchema>)
        ensures
            payload.is_some() == self.available(),
            payload matches Some(copy) ==> copy.same_as(self),
    {
        if self.cpu.is_available() || self.mem.is_available() || disks_ready(&self.disks)
            || networks_ready(&self.networks) {
            Some(
                SysinfoSchema {
                    cpu: self.cpu,
                    mem: self.mem,
                    system: Info { uptime: self.system.uptime, name: self.system.name.clone() },
                    disks: self.disks.clone(),
                    networks: self.networks.clone(),
                },
            )
        } else {
            None
        }
    }
}

/// The owner of the published snapshot. To rebuild the snapshot takes the
/// builder for oneself alone; to read it takes the builder shared with other
/// readers, and every reader gets a copy of its own. So no reader sees a
/// snapshot that is rebuilt in part.
pub struct SysinfoSchemaBuilder {
    schema: SysinfoSchema,
}

impl SysinfoSchemaBuilder {
    /// The snapshot as it was last rebuilt.
    pub closed spec fn snapshot(&self) -> SysinfoSchema {
        self.schema
    }

    /// A builder whose snapshot has no data and no device yet.
    pub fn new() -> (builder: Self)
        ensures
            builder.snapshot().blank(),
            !builder.snapshot().available(),
    {
        SysinfoSchemaBuilder { schema: SysinfoSchema::new() }
    }

    /// Rebuilds the snapshot from `stats`, every field of it from the one
    /// `stats`.
    pub fn build(&mut self, stats: &SysinfoStats)
        ensures
            old(self).snapshot().rebuilt(stats, &final(self).snapshot()),
    {
        self.schema.rebuild(stats);
    }

    /// A copy of the whole snapshot, or `None` while no metric has data.
    pub fn get_full_payload(&self) -> (payload: Option<SysinfoSchema>)
        ensures
            payload.is_some() == self.snapshot().available(),
            payload matches Some(copy) ==> copy.same_as(&self.snapshot()),
    {
        self.schema.full_payload()
    }

    /// A copy of the processor figures, or `None` while no processor
    /// metric has data.
    pub fn get_cpu_payload(&self) -> (payload: Option<Cpu>)
        ensures
            payload == if self.snapshot().cpu.available() {
                Some(self.snapshot().cpu)
            } else {
                None
            },
    {
        self.schema.cpu_payload()
    }

    /// A copy of the memory figures, or `None` while no memory metric has
    /// data.
    pub fn get_mem_payload(&self) -> (payload: Option<Mem>)
        ensures
            payload == if self.snapshot().mem.available() {
                Some(self.snapshot().mem)
            } else {
                None
            },
    {
        self.schema.mem_payload()
    }

    /// A copy of the disk figures, or `None` while no disk has data.
    pub fn get_disks_payload(&self) -> (payload: Option<Disk>)
        ensures
            payload.is_some() == disks_available(self.snapshot().disks.slots()),
            payload matches Some(disks) ==> disks.names() == self.snapshot().disks.names()
                && disks.slots() == self.snapshot().disks.slots(),
    {
        self.schema.disks_payload()
    }

    /// A copy of the traffic figures, or `None` while no network interface
    /// has data.
    pub fn get_networks_payload(&self) -> (payload: Option<Networks>)
        ensures
            payload.is_some() == networks_available(self.snapshot().networks.slots()),
            payload matches Some(networks) ==> networks.names()
                == self.snapshot().networks.names() && networks.slots()
                == self.snapshot().networks.slots(),
    {
        self.schema.networks_payload()
    }
}

} // verus!
