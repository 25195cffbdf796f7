//! The live statistics of the host: one rolling window per metric, fed by
//! the readings of each tick.

use crate::registry::{distinct, index_of, lemma_index_of, Registry};
use crate::ringbuf::RingStatsBuffer;
use crate::rolling::Rolling;
use crate::schema::SysinfoSchemaBuilder;
use vstd::prelude::*;

verus! {

/// The traffic counters of one network interface.
pub struct NetworkBytes {
    pub rx_bytes: RingStatsBuffer<u64>,
    pub tx_bytes: RingStatsBuffer<u64>,
}

/// What the provider reports of one disk.
pub struct DiskReading {
    pub name: String,
    pub total_space: u64,
    pub available_space: u64,
}

/// What the provider reports of one network interface.
pub struct NetworkReading {
    pub name: String,
    pub total_received: u64,
    pub total_transmitted: u64,
}

/// What the provider reports at one tick. A metric that it could not read
/// is `None`.
pub struct Readings {
    pub name: Option<String>,
    pub uptime: u64,
    pub cpu_cores: Option<usize>,
    pub total_mem: u64,
    pub total_swap: u64,
    /// Processor load in hundredths of a percent.
    pub cpu_usage: Option<u32>,
    pub cpu_freq: Option<u64>,
    pub mem_free: Option<u64>,
    pub mem_used: Option<u64>,
    pub mem_available: Option<u64>,
    pub disks: Vec<DiskReading>,
    pub networks: Vec<NetworkReading>,
    /// Seconds since the epoch.
    pub timestamp: u64,
}

/// The live statistics: a window per fixed metric and per device found at
/// startup.
pub struct SysinfoStats {
    pub name: String,
    pub uptime: u64,
    pub cpu_cores: usize,
    pub total_mem: u64,
    pub total_swap: u64,
    /// Processor load in hundredths of a percent.
    pub cpu_usage: RingStatsBuffer<u32>,
    pub cpu_freq: RingStatsBuffer<u64>,
    pub mem_free: RingStatsBuffer<u64>,
    pub mem_used: RingStatsBuffer<u64>,
    pub mem_available: RingStatsBuffer<u64>,
    pub disk_usage: Registry<RingStatsBuffer<u64>>,
    pub networks: Registry<NetworkBytes>,
    pub timestamp: RingStatsBuffer<u64>,
}

/// The window after an optional sample: pushed where there is one.
pub open spec fn pushed(window: Rolling, sample: Option<int>) -> Rolling {
    match sample {
        Some(value) => window.push(value),
        None => window,
    }
}

/// The space in use on a disk, where the reading is sound: the space
/// available is no more than the whole.
pub open spec fn disk_used(reading: DiskReading) -> Option<int> {
    if reading.available_space <= reading.total_space {
        Some(reading.total_space - reading.available_space)
    } else {
        None
    }
}

/// The samples that `readings` hold for the disk `name`, in their order.
pub open spec fn disk_samples(readings: Seq<DiskReading>, name: Seq<char>) -> Seq<int>
    decreases readings.len(),
{
    if readings.len() == 0 {
        Seq::empty()
    } else {
        let before = disk_samples(readings.drop_last(), name);
        match disk_used(readings.last()) {
            Some(used) => if readings.last().name@ == name {
                before.push(used)
            } else {
                before
            },
            None => before,
        }
    }
}

/// The received-bytes samples that `readings` hold for the interface
/// `name`, in their order.
pub open spec fn received_samples(readings: Seq<NetworkReading>, name: Seq<char>) -> Seq<int>
    decreases readings.len(),
{
    if readings.len() == 0 {
        Seq::empty()
    } else {
        let before = received_samples(readings.drop_last(), name);
        if readings.last().name@ == name {
            before.push(readings.last().total_received as int)
        } else {
            before
        }
    }
}

/// The transmitted-bytes samples that `readings` hold for the interface
/// `name`, in their order.
pub open spec fn transmitted_samples(readings: Seq<NetworkReading>, name: Seq<char>) -> Seq<int>
    decreases readings.len(),
{
    if readings.len() == 0 {
        Seq::empty()
    } else {
        let before = transmitted_samples(readings.drop_last(), name);
        if readings.last().name@ == name {
            before.push(readings.last().total_transmitted as int)
        } else {
            before
        }
    }
}

/// The names after `entered` are entered into `names`: each that is not
/// yet there becomes the last.
pub open spec fn with_names(names: Seq<Seq<char>>, entered: Seq<Seq<char>>) -> Seq<Seq<char>>
    decreases entered.len(),
{
    if entered.len() == 0 {
        names
    } else {
        let before = with_names(names, entered.drop_last());
        if before.contains(entered.last()) {
            before
        } else {
            before.push(entered.last())
        }
    }
}

/// The views of `names`.
pub open spec fn str_views(names: Seq<&str>) -> Seq<Seq<char>> {
    names.map_values(|name: &str| name@)
}

/// Pushes the space in use on each disk into the window of its name.
/// A disk that the registry does not hold is passed over, and so is a
/// reading that is not sound.
pub fn record_disks(registry: &mut Registry<RingStatsBuffer<u64>>, readings: &Vec<DiskReading>)
    ensures
        final(registry).wf(),
        final(registry).names() == old(registry).names(),
        forall|i: int|
            0 <= i < old(registry).names().len() ==> (#[trigger] final(registry).slots()[i])@
                == old(registry).slots()[i]@.push_all(
                disk_samples(readings@, old(registry).names()[i]),
            ),
{
    let ghost names = registry.names();
    let ghost start = registry.slots();
    let count: usize = registry.len();
    let mut k: usize = 0;
    while k < readings.len()
        invariant
            k <= readings@.len(),
            registry.wf(),
            registry.names() == names,
            names.len() == start.len() == count,
            forall|i: int|
                0 <= i < names.len() ==> (#[trigger] registry.slots()[i])@ == start[i]@.push_all(
                    disk_samples(readings@.take(k as int), names[i]),
                ),
        decreases readings@.len() - k,
    {
        let reading = &readings[k];
        let ghost slots = registry.slots();
        proof {
            assert(readings@.take(k + 1).drop_last() =~= readings@.take(k as int));
            assert(readings@.take(k + 1).last() == *reading);
        }
        if reading.available_space <= reading.total_space {
            match registry.position(&reading.name) {
                Some(at) => {
                    let mut window = registry.replace_at(at, RingStatsBuffer::new(0, false));
                    window.push_back(reading.total_space - reading.available_space);
                    let ghost after = window@;
                    let _ = registry.replace_at(at, window);
                    proof {
                        let used = reading.total_space - reading.available_space;
                        assert(names[at as int] == reading.name@);
                        assert forall|i: int| 0 <= i < names.len() implies (
                        #[trigger] registry.slots()[i])@ == start[i]@.push_all(
                            disk_samples(readings@.take(k + 1), names[i]),
                        ) by {
                            let before = disk_samples(readings@.take(k as int), names[i]);
                            if i == at {
                                assert(registry.slots()[i]@ == after);
                                assert(after == slots[i]@.push(used));
                                assert(before.push(used).drop_last() =~= before);
                            } else {
                                assert(registry.slots()[i] == slots[i]);
                                if names[i] == reading.name@ {
                                    lemma_index_of(names, i);
                                }
                            }
                        }
                    }
                },
                None => {
                    proof {
                        assert forall|i: int| 0 <= i < names.len() implies names[i]
                            != reading.name@ by {
                            if names[i] == reading.name@ {
                                lemma_index_of(names, i);
                            }
                        }
                    }
                },
            }
        }
        k = k + 1;
    }
    proof {
        assert(readings@.take(k as int) =~= readings@);
    }
}

/// Pushes the counters of each interface into the windows of its name:
/// the transmitted bytes, then the received ones. An interface that the
/// registry does not hold is passed over.
pub fn record_networks(registry: &mut Registry<NetworkBytes>, readings: &Vec<NetworkReading>)
    ensures
        final(registry).wf(),
        final(registry).names() == old(registry).names(),
        forall|i: int|
            0 <= i < old(registry).names().len() ==> {
                &&& (#[trigger] final(registry).slots()[i]).rx_bytes@ == old(
                    registry,
                ).slots()[i].rx_bytes@.push_all(
                    received_samples(readings@, old(registry).names()[i]),
                )
                &&& final(registry).slots()[i].tx_bytes@ == old(
                    registry,
                ).slots()[i].tx_bytes@.push_all(
                    transmitted_samples(readings@, old(registry).names()[i]),
                )
            },
{
    let ghost names = registry.names();
    let ghost start = registry.slots();
    let count: usize = registry.len();
    let mut k: usize = 0;
    while k < readings.len()
        invariant
            k <= readings@.len(),
            registry.wf(),
            registry.names() == names,
            names.len() == start.len() == count,
            forall|i: int|
                0 <= i < names.len() ==> {
                    &&& (#[trigger] registry.slots()[i]).rx_bytes@
                        == start[i].rx_bytes@.push_all(
                        received_samples(readings@.take(k as int), names[i]),
                    )
                    &&& registry.slots()[i].tx_bytes@ == start[i].tx_bytes@.push_all(
                        transmitted_samples(readings@.take(k as int), names[i]),
                    )
                },
        decreases readings@.len() - k,
    {
        let reading = &readings[k];
        let ghost slots = registry.slots();
        proof {
            assert(readings@.take(k + 1).drop_last() =~= readings@.take(k as int));
            assert(readings@.take(k + 1).last() == *reading);
        }
        match registry.position(&reading.name) {
            Some(at) => {
                let spare = NetworkBytes {
                    rx_bytes: RingStatsBuffer::new(0, false),
                    tx_bytes: RingStatsBuffer::new(0, false),
                };
                let mut bytes = registry.replace_at(at, spare);
                bytes.tx_bytes.push_back(reading.total_transmitted);
                bytes.rx_bytes.push_back(reading.total_received);
                let ghost received = bytes.rx_bytes@;
                let ghost transmitted = bytes.tx_bytes@;
                let _ = registry.replace_at(at, bytes);
                proof {
                    assert(names[at as int] == reading.name@);
                    assert forall|i: int| 0 <= i < names.len() implies {
                        &&& (#[trigger] registry.slots()[i]).rx_bytes@
                            == start[i].rx_bytes@.push_all(
                            received_samples(readings@.take(k + 1), names[i]),
                        )
                        &&& registry.slots()[i].tx_bytes@ == start[i].tx_bytes@.push_all(
                            transmitted_samples(readings@.take(k + 1), names[i]),
                        )
                    } by {
                        let rx = received_samples(readings@.take(k as int), names[i]);
                        let tx = transmitted_samples(readings@.take(k as int), names[i]);
                        if i == at {
                            assert(registry.slots()[i].rx_bytes@ == received);
                            assert(registry.slots()[i].tx_bytes@ == transmitted);
                            assert(received == slots[i].rx_bytes@.push(
                                reading.total_received as int,
                            ));
                            assert(transmitted == slots[i].tx_bytes@.push(
                                reading.total_transmitted as int,
                            ));
                            assert(rx.push(reading.total_received as int).drop_last() =~= rx);
                            assert(tx.push(reading.total_transmitted as int).drop_last() =~= tx);
                        } else {
                            assert(registry.slots()[i] == slots[i]);
                            if names[i] == reading.name@ {
                                lemma_index_of(names, i);
                            }
                        }
                    }
                }
            },
            None => {
                proof {
                    assert forall|i: int| 0 <= i < names.len() implies names[i]
                        != reading.name@ by {
                        if names[i] == reading.name@ {
                            lemma_index_of(names, i);
                        }
                    }
                }
            },
        }
        k = k + 1;
    }
    proof {
        assert(readings@.take(k as int) =~= readings@);
    }
}

/// Entering a name keeps the names that were there in their places, and
/// every further name is one of those entered.
pub proof fn lemma_with_names(names: Seq<Seq<char>>, entered: Seq<Seq<char>>)
    ensures
        names.len() <= with_names(names, entered).len(),
        forall|i: int| 0 <= i < names.len() ==> with_names(names, entered)[i] == names[i],
        forall|i: int|
            names.len() <= i < with_names(names, entered).len() ==> entered.contains(
                #[trigger] with_names(names, entered)[i],
            ),
        forall|j: int|
            0 <= j < entered.len() ==> with_names(names, entered).contains(#[trigger] entered[j]),
    decreases entered.len(),
{
    if entered.len() > 0 {
        let head = entered.drop_last();
        let before = with_names(names, head);
        let after = with_names(names, entered);
        lemma_with_names(names, head);
        assert forall|i: int| names.len() <= i < after.len() implies entered.contains(
            #[trigger] after[i],
        ) by {
            if i < before.len() {
                let j = choose|j: int| 0 <= j < head.len() && head[j] == before[i];
                assert(entered[j] == after[i]);
            } else {
                assert(entered[entered.len() - 1] == after[i]);
            }
        }
        assert forall|j: int| 0 <= j < entered.len() implies after.contains(
            #[trigger] entered[j],
        ) by {
            if j < head.len() {
                assert(head[j] == entered[j]);
                let i = choose|i: int| 0 <= i < before.len() && before[i] == head[j];
                assert(after[i] == entered[j]);
            } else {
                if before.contains(entered.last()) {
                } else {
                    assert(after[after.len() - 1] == entered[j]);
                }
            }
        }
    }
}

/// No device comes from nowhere: a name that stands among the names after
/// `entered` are entered was among the names before, or is one of those
/// entered.
pub proof fn lemma_known_devices(names: Seq<Seq<char>>, entered: Seq<Seq<char>>, name: Seq<char>)
    requires
        with_names(names, entered).contains(name),
    ensures
        names.contains(name) || entered.contains(name),
{
    lemma_with_names(names, entered);
    let after = with_names(names, entered);
    let i = choose|i: int| 0 <= i < after.len() && after[i] == name;
    if i < names.len() {
        assert(names[i] == name);
    }
}

/// Entering names that are all there changes nothing.
pub proof fn lemma_with_names_again(names: Seq<Seq<char>>, entered: Seq<Seq<char>>)
    requires
        forall|j: int| 0 <= j < entered.len() ==> names.contains(#[trigger] entered[j]),
    ensures
        with_names(names, entered) == names,
    decreases entered.len(),
{
    if entered.len() > 0 {
        let head = entered.drop_last();
        assert forall|j: int| 0 <= j < head.len() implies names.contains(#[trigger] head[j]) by {
            assert(head[j] == entered[j]);
        }
        lemma_with_names_again(names, head);
        assert(names.contains(entered[entered.len() - 1]));
    }
}

/// Entering distinct names where there is none yet gives those names, in
/// their order.
pub proof fn lemma_with_names_first(entered: Seq<Seq<char>>)
    requires
        distinct(entered),
    ensures
        with_names(Seq::empty(), entered) == entered,
    decreases entered.len(),
{
    if entered.len() > 0 {
        let head = entered.drop_last();
        lemma_with_names_first(head);
        if head.contains(entered.last()) {
            let i = choose|i: int| 0 <= i < head.len() && head[i] == entered.last();
            assert(entered[i] == entered[entered.len() - 1]);
        }
        assert(head.push(entered.last()) =~= entered);
    } else {
        assert(entered =~= Seq::<Seq<char>>::empty());
    }
}

/// The devices stay those that were registered: names that hold no device
/// yet, or the registered devices, are the registered devices once these
/// are entered.
pub proof fn lemma_devices_mirror_registry(names: Seq<Seq<char>>, registered: Seq<Seq<char>>)
    requires
        distinct(registered),
        names.len() == 0 || names == registered,
    ensures
        with_names(names, registered) == registered,
{
    if names.len() == 0 {
        assert(names =~= Seq::<Seq<char>>::empty());
        lemma_with_names_first(registered);
    } else {
        assert forall|j: int| 0 <= j < registered.len() implies names.contains(
            #[trigger] registered[j],
        ) by {
            assert(names[j] == registered[j]);
        }
        lemma_with_names_again(names, registered);
    }
}

/// Enters a new window for each name. A name that the registry holds gets
/// a new window in place of the one it had.
pub fn enter_disks(
    registry: &mut Registry<RingStatsBuffer<u64>>,
    names: &Vec<&str>,
    capacity: usize,
    rst_flag: bool,
)
    ensures
        final(registry).wf(),
        final(registry).names() == with_names(old(registry).names(), str_views(names@)),
        forall|i: int|
            0 <= i < final(registry).names().len() ==> (#[trigger] final(registry).slots()[i])@
                == if str_views(names@).contains(final(registry).names()[i]) {
                Rolling::empty(capacity as nat, rst_flag, u64::MAX as int)
            } else {
                old(registry).slots()[i]@
            },
{
    let ghost start_names = registry.names();
    let ghost start = registry.slots();
    let ghost entered = str_views(names@);
    let _ = registry.len();
    let mut k: usize = 0;
    proof {
        assert(entered.take(0) =~= Seq::<Seq<char>>::empty());
    }
    while k < names.len()
        invariant
            k <= names@.len(),
            entered == str_views(names@),
            registry.wf(),
            registry.names() == with_names(start_names, entered.take(k as int)),
            forall|i: int|
                0 <= i < registry.names().len() ==> (#[trigger] registry.slots()[i])@
                    == if entered.take(k as int).contains(registry.names()[i]) {
                    Rolling::empty(capacity as nat, rst_flag, u64::MAX as int)
                } else {
                    start[i]@
                },
        decreases names@.len() - k,
    {
        let name: String = names[k].to_owned();
        let ghost held = registry.names();
        let ghost shorter = entered.take(k as int);
        let ghost longer = entered.take(k + 1);
        proof {
            assert(name@ == entered[k as int]);
            assert(longer.drop_last() =~= shorter);
            assert(longer.last() == name@);
            assert forall|n: Seq<char>| longer.contains(n) <==> (shorter.contains(n) || n
                == name@) by {
                if shorter.contains(n) {
                    let j = choose|j: int| 0 <= j < shorter.len() && shorter[j] == n;
                    assert(longer[j] == n);
                }
                if n == name@ {
                    assert(longer[k as int] == n);
                }
                if longer.contains(n) {
                    let j = choose|j: int| 0 <= j < longer.len() && longer[j] == n;
                    if j < k {
                        assert(shorter[j] == n);
                    }
                }
            }
        }
        registry.insert(name, RingStatsBuffer::new(capacity, rst_flag));
        proof {
            match index_of(held, name@) {
                Some(at) => {
                    assert(held[at] == name@);
                    assert(held.contains(name@));
                    assert forall|i: int| 0 <= i < held.len() && i != at implies held[i]
                        != name@ by {
                        if held[i] == name@ {
                            lemma_index_of(held, i);
                        }
                    }
                },
                None => {
                    if held.contains(name@) {
                        let i = choose|i: int| 0 <= i < held.len() && held[i] == name@;
                        assert(false);
                    }
                },
            }
        }
        k = k + 1;
    }
    proof {
        assert(entered.take(k as int) =~= entered);
    }
}

/// Enters a new pair of windows for each name. A name that the registry
/// holds gets a new pair in place of the one it had.
pub fn enter_networks(
    registry: &mut Registry<NetworkBytes>,
    names: &Vec<&str>,
    capacity: usize,
    rst_flag: bool,
)
    ensures
        final(registry).wf(),
        final(registry).names() == with_names(old(registry).names(), str_views(names@)),
        forall|i: int|
            0 <= i < final(registry).names().len() ==> {
                &&& (#[trigger] final(registry).slots()[i]).rx_bytes@ == if str_views(
                    names@,
                ).contains(final(registry).names()[i]) {
                    Rolling::empty(capacity as nat, rst_flag, u64::MAX as int)
                } else {
                    old(registry).slots()[i].rx_bytes@
                }
                &&& final(registry).slots()[i].tx_bytes@ == if str_views(names@).contains(
                    final(registry).names()[i],
                ) {
                    Rolling::empty(capacity as nat, rst_flag, u64::MAX as int)
                } else {
                    old(registry).slots()[i].tx_bytes@
                }
            },
{
    let ghost start_names = registry.names();
    let ghost start = registry.slots();
    let ghost entered = str_views(names@);
    let _ = registry.len();
    let mut k: usize = 0;
    proof {
        assert(entered.take(0) =~= Seq::<Seq<char>>::empty());
    }
    while k < names.len()
        invariant
            k <= names@.len(),
            entered == str_views(names@),
            registry.wf(),
            registry.names() == with_names(start_names, entered.take(k as int)),
            forall|i: int|
                0 <= i < registry.names().len() ==> {
                    &&& (#[trigger] registry.slots()[i]).rx_bytes@ == if entered.take(
                        k as int,
                    ).contains(registry.names()[i]) {
                        Rolling::empty(capacity as nat, rst_flag, u64::MAX as int)
                    } else {
                        start[i].rx_bytes@
                    }
                    &&& registry.slots()[i].tx_bytes@ == if entered.take(k as int).contains(
                        registry.names()[i],
                    ) {
                        Rolling::empty(capacity as nat, rst_flag, u64::MAX as int)
                    } else {
                        start[i].tx_bytes@
                    }
                },
        decreases names@.len() - k,
    {
        let name: String = names[k].to_owned();
        let ghost held = registry.names();
        let ghost shorter = entered.take(k as int);
        let ghost longer = entered.take(k + 1);
        proof {
            assert(name@ == entered[k as int]);
            assert(longer.drop_last() =~= shorter);
            assert(longer.last() == name@);
            assert forall|n: Seq<char>| longer.contains(n) <==> (shorter.contains(n) || n
                == name@) by {
                if shorter.contains(n) {
                    let j = choose|j: int| 0 <= j < shorter.len() && shorter[j] == n;
                    assert(longer[j] == n);
                }
                if n == name@ {
                    assert(longer[k as int] == n);
                }
                if longer.contains(n) {
                    let j = choose|j: int| 0 <= j < longer.len() && longer[j] == n;
                    if j < k {
                        assert(shorter[j] == n);
                    }
                }
            }
        }
        registry.insert(
            name,
            NetworkBytes {
                rx_bytes: RingStatsBuffer::new(capacity, rst_flag),
                tx_bytes: RingStatsBuffer::new(capacity, rst_flag),
            },
        );
        proof {
            match index_of(held, name@) {
                Some(at) => {
                    assert(held[at] == name@);
                    assert(held.contains(name@));
                    assert forall|i: int| 0 <= i < held.len() && i != at implies held[i]
                        != name@ by {
                        if held[i] == name@ {
                            lemma_index_of(held, i);
                        }
                    }
                },
                None => {
                    if held.contains(name@) {
                        let i = choose|i: int| 0 <= i < held.len() && held[i] == name@;
                        assert(false);
                    }
                },
            }
        }
        k = k + 1;
    }
    proof {
        assert(entered.take(k as int) =~= entered);
    }
}

impl SysinfoStats {
    /// Statistics as they are made: an empty window of `capacity` samples
    /// for each fixed metric and no device.
    pub open spec fn fresh(&self, capacity: nat, rst_flag: bool) -> bool {
        &&& self.name@.len() == 0
        &&& self.uptime == 0
        &&& self.cpu_cores == 0
        &&& self.total_mem == 0
        &&& self.total_swap == 0
        &&& self.cpu_usage@ == Rolling::empty(capacity, rst_flag, u32::MAX as int)
        &&& self.cpu_freq@ == Rolling::empty(capacity, rst_flag, u64::MAX as int)
        &&& self.mem_free@ == Rolling::empty(capacity, rst_flag, u64::MAX as int)
        &&& self.mem_used@ == Rolling::empty(capacity, rst_flag, u64::MAX as int)
        &&& self.mem_available@ == Rolling::empty(capacity, rst_flag, u64::MAX as int)
        &&& self.timestamp@ == Rolling::empty(capacity, rst_flag, u64::MAX as int)
        &&& self.disk_usage.names().len() == 0
        &&& self.networks.names().len() == 0
    }

    /// `after` is what these statistics become when the devices `disks`
    /// and `networks` are registered: each gets new windows, made like the
    /// window of the timestamps; the rest stays.
    pub open spec fn registered(
        &self,
        disks: Seq<Seq<char>>,
        networks: Seq<Seq<char>>,
        after: &SysinfoStats,
    ) -> bool {
        let window = Rolling::empty(
            self.timestamp@.capacity,
            self.timestamp@.resets,
            u64::MAX as int,
        );
        &&& after.disk_usage.names() == with_names(self.disk_usage.names(), disks)
        &&& forall|i: int|
            0 <= i < after.disk_usage.names().len() ==> (#[trigger] after.disk_usage.slots()[i])@
                == if disks.contains(after.disk_usage.names()[i]) {
                window
            } else {
                self.disk_usage.slots()[i]@
            }
        &&& after.networks.names() == with_names(self.networks.names(), networks)
        &&& forall|i: int|
            0 <= i < after.networks.names().len() ==> {
                &&& (#[trigger] after.networks.slots()[i]).rx_bytes@ == if networks.contains(
                    after.networks.names()[i],
                ) {
                    window
                } else {
                    self.networks.slots()[i].rx_bytes@
                }
                &&& after.networks.slots()[i].tx_bytes@ == if networks.contains(
                    after.networks.names()[i],
                ) {
                    window
                } else {
                    self.networks.slots()[i].tx_bytes@
                }
            }
        &&& after.name == self.name
        &&& after.uptime == self.uptime
        &&& after.cpu_cores == self.cpu_cores
        &&& after.total_mem == self.total_mem
        &&& after.total_swap == self.total_swap
        &&& after.cpu_usage == self.cpu_usage
        &&& after.cpu_freq == self.cpu_freq
        &&& after.mem_free == self.mem_free
        &&& after.mem_used == self.mem_used
        &&& after.mem_available == self.mem_available
        &&& after.timestamp == self.timestamp
    }

    /// `after` is what these statistics become when they take in the
    /// readings of one tick: each metric that was read is pushed into its
    /// window, and so is the timestamp; a metric that was not read leaves
    /// its window as it is; the devices stay those that were registered.
    pub open spec fn recorded(&self, readings: &Readings, after: &SysinfoStats) -> bool {
        &&& after.name@ == if self.name@.len() == 0 {
            match readings.name {
                Some(name) => name@,
                None => Seq::<char>::empty(),
            }
        } else {
            self.name@
        }
        &&& after.uptime == readings.uptime
        &&& after.cpu_cores == match readings.cpu_cores {
            Some(cores) => cores,
            None => 0,
        }
        &&& after.total_mem == readings.total_mem
        &&& after.total_swap == readings.total_swap
        &&& after.cpu_usage@ == pushed(
            self.cpu_usage@,
            match readings.cpu_usage {
                Some(v) => Some(v as int),
                None => None,
            },
        )
        &&& after.cpu_freq@ == pushed(
            self.cpu_freq@,
            match readings.cpu_freq {
                Some(v) => Some(v as int),
                None => None,
            },
        )
        &&& after.mem_free@ == pushed(
            self.mem_free@,
            match readings.mem_free {
                Some(v) => Some(v as int),
                None => None,
            },
        )
        &&& after.mem_used@ == pushed(
            self.mem_used@,
            match readings.mem_used {
                Some(v) => Some(v as int),
                None => None,
            },
        )
        &&& after.mem_available@ == pushed(
            self.mem_available@,
            match readings.mem_available {
                Some(v) => Some(v as int),
                None => None,
            },
        )
        &&& after.timestamp@ == self.timestamp@.push(readings.timestamp as int)
        &&& after.disk_usage.names() == self.disk_usage.names()
        &&& forall|i: int|
            0 <= i < self.disk_usage.names().len() ==> (#[trigger] after.disk_usage.slots()[i])@
                == self.disk_usage.slots()[i]@.push_all(
                disk_samples(readings.disks@, self.disk_usage.names()[i]),
            )
        &&& after.networks.names() == self.networks.names()
        &&& forall|i: int|
            0 <= i < self.networks.names().len() ==> {
                &&& (#[trigger] after.networks.slots()[i]).rx_bytes@
                    == self.networks.slots()[i].rx_bytes@.push_all(
                    received_samples(readings.networks@, self.networks.names()[i]),
                )
                &&& after.networks.slots()[i].tx_bytes@
                    == self.networks.slots()[i].tx_bytes@.push_all(
                    transmitted_samples(readings.networks@, self.networks.names()[i]),
                )
            }
    }

    /// Statistics with an empty window of `capacity` samples for each fixed
    /// metric and no device yet.
    pub fn new(capacity: usize, rst_flag: bool) -> (stats: Self)
        ensures
            stats.fresh(capacity as nat, rst_flag),
    {
        SysinfoStats {
            name: String::new(),
            uptime: 0,
            cpu_cores: 0,
            total_mem: 0,
            total_swap: 0,
            cpu_usage: RingStatsBuffer::new(capacity, rst_flag),
            cpu_freq: RingStatsBuffer::new(capacity, rst_flag),
            mem_free: RingStatsBuffer::new(capacity, rst_flag),
            mem_used: RingStatsBuffer::new(capacity, rst_flag),
            mem_available: RingStatsBuffer::new(capacity, rst_flag),
            disk_usage: Registry::new(),
            networks: Registry::new(),
            timestamp: RingStatsBuffer::new(capacity, rst_flag),
        }
    }

    /// Registers the devices found at startup: a window per disk and a
    /// pair of windows per network interface, made like the window of the
    /// timestamps.
    pub fn build_dynamic_values(&mut self, disks: &Vec<&str>, networks: &Vec<&str>)
        ensures
            old(self).registered(str_views(disks@), str_views(networks@), final(self)),
    {
        let capacity = self.timestamp.capacity();
        let rst_flag = self.timestamp.has_reset_flag();
        enter_disks(&mut self.disk_usage, disks, capacity, rst_flag);
        enter_networks(&mut self.networks, networks, capacity, rst_flag);
    }

    /// Takes in the readings of one tick: each metric that was read is
    /// pushed into its window, and so is the timestamp. A metric that was
    /// not read leaves its window as it is, and a device that was not
    /// registered is passed over.
    pub fn record(&mut self, readings: &Readings)
        ensures
            old(self).recorded(readings, final(self)),
    {
        record_disks(&mut self.disk_usage, &readings.disks);
        record_networks(&mut self.networks, &readings.networks);
        if self.name.as_str().is_empty() {
            self.name = match &readings.name {
                Some(name) => name.clone(),
                None => String::new(),
            };
        }
        self.uptime = readings.uptime;
        self.cpu_cores = match readings.cpu_cores {
            Some(cores) => cores,
            None => 0,
        };
        self.total_mem = readings.total_mem;
        self.total_swap = readings.total_swap;
        if let Some(usage) = readings.cpu_usage {
            self.cpu_usage.push_back(usage);
        }
        if let Some(freq) = readings.cpu_freq {
            self.cpu_freq.push_back(freq);
        }
        if let Some(free) = readings.mem_free {
            self.mem_free.push_back(free);
        }
        if let Some(used) = readings.mem_used {
            self.mem_used.push_back(used);
        }
        if let Some(available) = readings.mem_available {
            self.mem_available.push_back(available);
        }
        self.timestamp.push_back(readings.timestamp);
    }
}

/// The seconds that the sampler sleeps between two wake-ups, whatever the
/// interval between two ticks.
pub const POLL_SECONDS: u64 = 1;

/// Where the sampler stands after a wake-up.
#[derive(Clone, Copy, Debug, PartialEq, Eq, Structural)]
pub enum SamplerState {
    /// The interval has not passed: wait for the next wake-up.
    Idle,
    /// The interval has passed: take a reading now.
    Ticking,
    /// The run flag was down: the loop ends.
    Stopped,
}

/// The state that a wake-up leads to: stopped where the run flag is down,
/// ticking where `interval` seconds have passed since the last tick, idle
/// otherwise.
pub open spec fn after_wake(interval: u64, running: bool, elapsed: u64) -> SamplerState {
    if !running {
        SamplerState::Stopped
    } else if elapsed >= interval {
        SamplerState::Ticking
    } else {
        SamplerState::Idle
    }
}

/// What to do at a wake-up, `elapsed` seconds after the last tick, where two
/// ticks are `interval` seconds apart.
pub fn wake(interval: u64, running: bool, elapsed: u64) -> (state: SamplerState)
    ensures
        state == after_wake(interval, running, elapsed),
{
    if !running {
        SamplerState::Stopped
    } else if elapsed >= interval {
        SamplerState::Ticking
    } else {
        SamplerState::Idle
    }
}

/// The sampler: the live statistics, the interval between two ticks, and
/// the builder of the snapshot that each tick rebuilds.
pub struct SystatsExecutor {
    systats: SysinfoStats,
    sampling_freq: u64,
    schema: SysinfoSchemaBuilder,
}

impl SystatsExecutor {
    /// The live statistics.
    pub closed spec fn stats(&self) -> &SysinfoStats {
        &self.systats
    }

    /// The seconds between two ticks.
    pub closed spec fn interval(&self) -> u64 {
        self.sampling_freq
    }

    /// The builder of the snapshot.
    pub closed spec fn builder(&self) -> &SysinfoSchemaBuilder {
        &self.schema
    }

    /// A sampler with new statistics, to tick every `sampling_freq`
    /// seconds and to rebuild the snapshot of `schema`.
    pub fn new(
        capacity: usize,
        sampling_freq: u64,
        reset_flag: bool,
        schema: SysinfoSchemaBuilder,
    ) -> (executor: Self)
        ensures
            executor.stats().fresh(capacity as nat, reset_flag),
            executor.interval() == sampling_freq,
            *executor.builder() == schema,
    {
        SystatsExecutor {
            systats: SysinfoStats::new(capacity, reset_flag),
            sampling_freq,
            schema,
        }
    }

    /// The seconds between two ticks.
    pub fn sampling_freq(&self) -> (seconds: u64)
        ensures
            seconds == self.interval(),
    {
        self.sampling_freq
    }

    /// The live statistics.
    pub fn systats(&self) -> (stats: &SysinfoStats)
        ensures
            stats == self.stats(),
    {
        &self.systats
    }

    /// The builder of the snapshot, to read the snapshot from.
    pub fn schema(&self) -> (schema: &SysinfoSchemaBuilder)
        ensures
            schema == self.builder(),
    {
        &self.schema
    }

    /// Registers the devices found at startup.
    pub fn init_dynamic_attrs(&mut self, disks: &Vec<&str>, networks: &Vec<&str>)
        ensures
            old(self).stats().registered(
                str_views(disks@),
                str_views(networks@),
                final(self).stats(),
            ),
            final(self).interval() == old(self).interval(),
            final(self).builder() == old(self).builder(),
    {
        self.systats.build_dynamic_values(disks, networks);
    }

    /// One tick: takes in the readings, then rebuilds the snapshot from
    /// the statistics as they then are.
    pub fn read_sysinfo(&mut self, readings: &Readings)
        ensures
            old(self).stats().recorded(readings, final(self).stats()),
            old(self).builder().snapshot().rebuilt(
                final(self).stats(),
                &final(self).builder().snapshot(),
            ),
            final(self).interval() == old(self).interval(),
    {
        self.systats.record(readings);
        self.schema.build(&self.systats);
    }

    /// What to do at a wake-up, `elapsed` seconds after the last tick.
    pub fn on_wake(&self, running: bool, elapsed: u64) -> (state: SamplerState)
        ensures
            state == after_wake(self.interval(), running, elapsed),
    {
        wake(self.sampling_freq, running, elapsed)
    }
}

} // verus!
