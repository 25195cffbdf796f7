use sysinfo_reader::schema::SysinfoSchemaBuilder;
use sysinfo_reader::systats::{
    wake, DiskReading, NetworkReading, Readings, SamplerState, SysinfoStats, SystatsExecutor,
};

fn s(text: &str) -> String {
    text.to_string()
}

fn readings(tick: u64) -> Readings {
    Readings {
        name: Some(s("host")),
        uptime: 100 + tick,
        cpu_cores: Some(4),
        total_mem: 16_000,
        total_swap: 2_000,
        cpu_usage: Some(1_000 + tick as u32),
        cpu_freq: Some(2_400 + tick),
        mem_free: Some(8_000 - tick),
        mem_used: Some(8_000 + tick),
        mem_available: Some(9_000),
        disks: vec![
            DiskReading { name: s("sda"), total_space: 500, available_space: 200 + tick },
            DiskReading { name: s("usb"), total_space: 64, available_space: 10 },
        ],
        networks: vec![
            NetworkReading { name: s("eth0"), total_received: 1_000 * tick, total_transmitted: 10 * tick },
            NetworkReading { name: s("tun9"), total_received: 5, total_transmitted: 6 },
        ],
        timestamp: 1_700_000_000 + tick,
    }
}

fn window(buffer: &sysinfo_reader::ringbuf::RingStatsBuffer<u64>) -> Vec<u64> {
    buffer.iter().copied().collect()
}

#[test]
fn new_stats_have_empty_windows_and_no_device() {
    let stats = SysinfoStats::new(4, true);
    assert_eq!(stats.name, "");
    assert_eq!((stats.uptime, stats.cpu_cores, stats.total_mem, stats.total_swap), (0, 0, 0, 0));
    assert_eq!(stats.cpu_usage.capacity(), 4);
    assert_eq!(stats.timestamp.capacity(), 4);
    assert!(stats.mem_free.has_reset_flag());
    assert_eq!(stats.cpu_freq.len(), 0);
    assert_eq!(stats.disk_usage.len(), 0);
    assert_eq!(stats.networks.len(), 0);
}

#[test]
fn build_dynamic_values_registers_each_device_once() {
    let mut stats = SysinfoStats::new(3, true);
    stats.build_dynamic_values(&vec!["sda", "sdb", "sda"], &vec!["lo", "eth0"]);
    assert_eq!(stats.disk_usage.len(), 2);
    assert_eq!(stats.disk_usage.name_at(0), "sda");
    assert_eq!(stats.disk_usage.name_at(1), "sdb");
    assert_eq!(stats.disk_usage.slot_at(0).capacity(), 3);
    assert!(stats.disk_usage.slot_at(1).has_reset_flag());
    assert_eq!(stats.networks.len(), 2);
    assert_eq!(stats.networks.name_at(1), "eth0");
    assert_eq!(stats.networks.slot_at(1).rx_bytes.capacity(), 3);
    assert_eq!(stats.networks.slot_at(1).tx_bytes.len(), 0);
}

#[test]
fn build_dynamic_values_gives_a_held_device_new_windows() {
    let mut stats = SysinfoStats::new(3, false);
    stats.build_dynamic_values(&vec!["sda", "sdb"], &vec![]);
    stats.record(&readings(1));
    assert_eq!(stats.disk_usage.slot_at(0).len(), 1);
    stats.build_dynamic_values(&vec!["sda"], &vec![]);
    assert_eq!(stats.disk_usage.len(), 2);
    assert_eq!(stats.disk_usage.slot_at(0).len(), 0);
}

#[test]
fn record_pushes_each_reading_into_its_window() {
    let mut stats = SysinfoStats::new(3, false);
    stats.build_dynamic_values(&vec!["sda", "sdb"], &vec!["eth0"]);
    stats.record(&readings(1));
    stats.record(&readings(2));
    assert_eq!(stats.name, "host");
    assert_eq!(stats.uptime, 102);
    assert_eq!(stats.cpu_cores, 4);
    assert_eq!((stats.total_mem, stats.total_swap), (16_000, 2_000));
    assert_eq!(stats.cpu_usage.iter().copied().collect::<Vec<u32>>(), vec![1_001, 1_002]);
    assert_eq!(window(&stats.cpu_freq), vec![2_401, 2_402]);
    assert_eq!(window(&stats.mem_free), vec![7_999, 7_998]);
    assert_eq!(window(&stats.mem_used), vec![8_001, 8_002]);
    assert_eq!(window(&stats.mem_available), vec![9_000, 9_000]);
    assert_eq!(window(&stats.timestamp), vec![1_700_000_001, 1_700_000_002]);
    assert_eq!(window(stats.disk_usage.slot_at(0)), vec![299, 298]);
    assert_eq!(window(stats.disk_usage.slot_at(1)), Vec::<u64>::new());
    assert_eq!(window(&stats.networks.slot_at(0).rx_bytes), vec![1_000, 2_000]);
    assert_eq!(window(&stats.networks.slot_at(0).tx_bytes), vec![10, 20]);
}

#[test]
fn record_drops_devices_that_were_not_registered() {
    let mut stats = SysinfoStats::new(3, false);
    stats.build_dynamic_values(&vec!["sda"], &vec!["eth0"]);
    for tick in 1..=5 {
        stats.record(&readings(tick));
        assert_eq!(stats.disk_usage.len(), 1);
        assert_eq!(stats.disk_usage.name_at(0), "sda");
        assert_eq!(stats.networks.len(), 1);
        assert_eq!(stats.networks.name_at(0), "eth0");
    }
    assert!(!stats.disk_usage.contains_key(&s("usb")));
    assert!(!stats.networks.contains_key(&s("tun9")));
}

#[test]
fn record_skips_the_metrics_that_were_not_read() {
    let mut stats = SysinfoStats::new(3, false);
    stats.build_dynamic_values(&vec!["sda"], &vec![]);
    let mut partial = readings(1);
    partial.cpu_usage = None;
    partial.mem_used = None;
    partial.name = None;
    partial.cpu_cores = None;
    partial.disks = vec![DiskReading { name: s("sda"), total_space: 10, available_space: 11 }];
    stats.record(&partial);
    assert_eq!(stats.cpu_usage.len(), 0);
    assert_eq!(stats.mem_used.len(), 0);
    assert_eq!(stats.cpu_freq.len(), 1);
    assert_eq!(stats.mem_free.len(), 1);
    assert_eq!(stats.timestamp.len(), 1);
    assert_eq!(stats.disk_usage.slot_at(0).len(), 0);
    assert_eq!(stats.name, "");
    assert_eq!(stats.cpu_cores, 0);
    stats.record(&readings(2));
    assert_eq!(stats.name, "host");
    let mut renamed = readings(3);
    renamed.name = Some(s("other"));
    stats.record(&renamed);
    assert_eq!(stats.name, "host");
}

#[test]
fn record_pushes_every_reading_of_a_device_named_twice() {
    let mut stats = SysinfoStats::new(4, false);
    stats.build_dynamic_values(&vec!["sda"], &vec!["eth0"]);
    let mut twice = readings(1);
    twice.disks = vec![
        DiskReading { name: s("sda"), total_space: 10, available_space: 1 },
        DiskReading { name: s("sdb"), total_space: 10, available_space: 2 },
        DiskReading { name: s("sda"), total_space: 10, available_space: 3 },
    ];
    twice.networks = vec![
        NetworkReading { name: s("eth0"), total_received: 1, total_transmitted: 2 },
        NetworkReading { name: s("eth0"), total_received: 3, total_transmitted: 4 },
    ];
    stats.record(&twice);
    assert_eq!(window(stats.disk_usage.slot_at(0)), vec![9, 7]);
    assert_eq!(window(&stats.networks.slot_at(0).rx_bytes), vec![1, 3]);
    assert_eq!(window(&stats.networks.slot_at(0).tx_bytes), vec![2, 4]);
}

#[test]
fn executor_ticks_when_the_interval_has_passed() {
    let executor = SystatsExecutor::new(4, 15, false, SysinfoSchemaBuilder::new());
    assert_eq!(executor.on_wake(true, 0), SamplerState::Idle);
    assert_eq!(executor.on_wake(true, 14), SamplerState::Idle);
    assert_eq!(executor.on_wake(true, 15), SamplerState::Ticking);
    assert_eq!(executor.on_wake(true, 16), SamplerState::Ticking);
    assert_eq!(executor.on_wake(false, 0), SamplerState::Stopped);
    assert_eq!(executor.on_wake(false, 100), SamplerState::Stopped);
    assert_eq!(executor.sampling_freq(), 15);
    let eager = SystatsExecutor::new(4, 0, false, SysinfoSchemaBuilder::new());
    assert_eq!(eager.on_wake(true, 0), SamplerState::Ticking);
    assert_eq!(sysinfo_reader::systats::POLL_SECONDS, 1);
}

#[test]
fn executor_tick_records_and_rebuilds() {
    let mut executor = SystatsExecutor::new(2, 1, false, SysinfoSchemaBuilder::new());
    executor.init_dynamic_attrs(&vec!["sda"], &vec!["eth0"]);
    assert!(executor.schema().get_full_payload().is_none());
    executor.read_sysinfo(&readings(1));
    assert_eq!(executor.systats().cpu_freq.len(), 1);
    assert!(executor.schema().get_cpu_payload().is_none());
    assert!(executor.schema().get_disks_payload().is_none());
    executor.read_sysinfo(&readings(2));
    assert_eq!(executor.systats().timestamp.get_last(), Some(1_700_000_002));
    let disks = executor.schema().get_disks_payload().unwrap();
    assert_eq!(disks.len(), 1);
    assert_eq!(disks.name_at(0), "sda");
    let cpu = executor.schema().get_cpu_payload().unwrap();
    assert_eq!(cpu.cpu_cores, 4);
    let freq = cpu.cpu_freq.unwrap();
    assert_eq!((freq.min, freq.max, freq.avg, freq.last), (2_401, 2_402, 2_401, 2_402));
}

#[test]
fn wake_decides_by_flag_and_interval() {
    assert_eq!(wake(900, true, 899), SamplerState::Idle);
    assert_eq!(wake(900, true, 900), SamplerState::Ticking);
    assert_eq!(wake(900, true, u64::MAX), SamplerState::Ticking);
    assert_eq!(wake(900, false, 900), SamplerState::Stopped);
    assert_eq!(wake(0, true, 0), SamplerState::Ticking);
    assert_eq!(wake(u64::MAX, true, u64::MAX - 1), SamplerState::Idle);
}
