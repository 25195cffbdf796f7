use sysinfo_reader::cpu::CpuInfo;
use sysinfo_reader::mem::{read_figure, MemInfo};
use sysinfo_reader::net::{read_kilobytes, IfaceFiles, IfaceInfo, NetInfo};

const REPORT: &str = "MemTotal:       16316412 kB\nMemFree:         5238160 kB\nMemAvailable:   11216412 kB\nBuffers:          600000 kB\nCached:          4000000 kB\nSwapCached:            0 kB\nSwapTotal:       2097148 kB\nSwapFree:        2000000 kB\n";

#[test]
fn mem_info_reads_the_report() {
    let mut info = MemInfo::new();
    info.read_mem_info(REPORT);
    assert_eq!(info.total, 16316412);
    assert_eq!(info.free, 5238160);
    assert_eq!(info.avail, 11216412);
    assert_eq!(info.buff, 4600000);
    assert_eq!(info.used, 16316412 - 5238160 - 4600000);
    assert_eq!(info.swapt, 2097148);
    assert_eq!(info.swapf, 2000000);
    assert_eq!(info.swapu, 97148);
}

#[test]
fn mem_info_keeps_what_the_report_lacks() {
    let mut info = MemInfo::new();
    info.read_mem_info(REPORT);
    info.read_mem_info("MemFree: 16 kB\n");
    assert_eq!(info.total, 16316412);
    assert_eq!(info.free, 16);
    assert_eq!(info.buff, 4600000);
    assert_eq!(info.used, 16316412 - 16 - 4600000);
    assert_eq!(info.swapu, 97148);
    assert_eq!(read_figure("MemFree: 16 kB\n", "MemTotal"), None);
    assert_eq!(read_figure("MemFree: x kB\n", "MemFree"), Some(0));
    assert_eq!(read_figure("MemFree: 16 kB", "MemFree"), None);
}

#[test]
fn mem_info_figures_do_not_wrap() {
    let mut info = MemInfo::new();
    info.read_mem_info("MemTotal: 10 kB\nMemFree: 20 kB\nSwapTotal: 1 kB\nSwapFree: 2 kB\n");
    assert_eq!(info.used, 0);
    assert_eq!(info.swapu, 0);
    let mut info = MemInfo::new();
    info.read_mem_info("Buffers: 4294967295 kB\nCached: 7 kB\nMemTotal: 5 kB\n");
    assert_eq!(info.buff, u32::MAX);
    assert_eq!(info.used, 0);
}

#[test]
fn kilobytes_round_down() {
    assert_eq!(read_kilobytes("0\n"), 0);
    assert_eq!(read_kilobytes("1023\n"), 0);
    assert_eq!(read_kilobytes("1024\n"), 1);
    assert_eq!(read_kilobytes(" 4097 "), 4);
    assert_eq!(read_kilobytes("18446744073709551615"), 18014398509481983);
    assert_eq!(read_kilobytes("12 34"), 0);
    assert_eq!(read_kilobytes(""), 0);
}

#[test]
fn net_info_appends_the_interfaces() {
    let files = vec![
        IfaceFiles {
            name: "eth0".to_string(),
            address: "aa:bb:cc:dd:ee:ff\n".to_string(),
            tx_bytes: "2048\n".to_string(),
            rx_bytes: "10240\n".to_string(),
        },
        IfaceFiles {
            name: "lo".to_string(),
            address: "00:00:00:00:00:00\n".to_string(),
            tx_bytes: "none".to_string(),
            rx_bytes: "5\n".to_string(),
        },
    ];
    let mut info = NetInfo::new();
    info.read_net_info(&files);
    assert_eq!(info.ifaces.len(), 2);
    assert_eq!(info.ifaces[0].name, "eth0");
    assert_eq!(info.ifaces[0].addr, "aa:bb:cc:dd:ee:ff");
    assert_eq!((info.ifaces[0].tx_bytes, info.ifaces[0].rx_bytes), (2, 10));
    assert_eq!(info.ifaces[1].name, "lo");
    assert_eq!((info.ifaces[1].tx_bytes, info.ifaces[1].rx_bytes), (0, 0));
    info.read_net_info(&files);
    assert_eq!(info.ifaces.len(), 4);
    assert_eq!(info.ifaces[2].name, "eth0");
    let single = IfaceInfo::from_files(&files[0]);
    assert_eq!(single.addr, "aa:bb:cc:dd:ee:ff");
}

#[test]
fn cpu_info_reads_the_files() {
    let mut info = CpuInfo::new();
    info.read_cpus_online("0-2,5\n");
    assert_eq!(info.cpus.iter().map(|cpu| cpu.id).collect::<Vec<u32>>(), vec![0, 1, 2, 5]);
    assert_eq!(info.cpus[0].freq, 0);
    assert_eq!(info.cpus[0].driver, "");
    let report = "processor\t: 0\nvendor_id\t: GenuineIntel\nmodel name\t: Intel(R) Core(TM) i7\nstepping\t: 10\nmodel name\t: other\n";
    assert_eq!(CpuInfo::read_model(report), "Intel(R) Core(TM) i7");
    assert_eq!(CpuInfo::read_model("vendor_id\t: GenuineIntel\n"), "");
    assert_eq!(CpuInfo::read_freq("2400000\n"), 2400000);
    assert_eq!(CpuInfo::read_freq("fast\n"), 0);
    assert_eq!(CpuInfo::read_driver("intel_pstate\n"), "intel_pstate");
    assert_eq!(CpuInfo::read_governor(" powersave \n"), "powersave");
}
