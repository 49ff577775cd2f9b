use oxidroid::collector::Fault;
use oxidroid::device::{android_device, desktop_device, on_android, settle_device, DeviceInfo};
use oxidroid::gather::{
    apply_cpu_fallback, chosen_traffic, needs_cpu_fallback, network_totals, shown_ip, shown_uptime,
    storage_totals, AddrInfo, CpuSummary,
};

#[test]
fn android_is_recognised_by_its_properties() {
    assert!(on_android("samsung\n", ""));
    assert!(on_android("", "SM-G991B\n"));
    assert!(!on_android("", ""));
    assert!(!on_android(" \n", "\n"));
}

#[test]
fn android_device_fields() {
    let d = android_device("samsung\n", "SM-G991B\n", "14\n", "arm64-v8a\n", "5.10.177\n");
    assert_eq!(d.manufacturer, "samsung");
    assert_eq!(d.model, "SM-G991B");
    assert_eq!(d.android, "Android 14");
    assert_eq!(d.arch, "arm64-v8a");
    assert_eq!(d.kernel, "5.10.177");
}

#[test]
fn desktop_device_fields() {
    let d = desktop_device(Some("Ubuntu"), Some("22.04"), Some("box"), "x86_64", Some("6.5.0"));
    assert_eq!(d.android, "Ubuntu 22.04");
    assert_eq!(d.manufacturer, "box");
    assert_eq!(d.model, "");
    assert_eq!(d.arch, "x86_64");
    assert_eq!(d.kernel, "6.5.0");
}

#[test]
fn desktop_device_defaults() {
    let d = desktop_device(None, None, None, "aarch64", None);
    assert_eq!(d.android, "Unknown");
    assert_eq!(d.manufacturer, "Localhost");
    assert_eq!(d.kernel, "");
}

fn device(kernel: &str, model: &str) -> DeviceInfo {
    DeviceInfo {
        model: model.into(),
        android: String::new(),
        arch: String::new(),
        manufacturer: String::new(),
        kernel: kernel.into(),
    }
}

#[test]
fn first_device_with_kernel_stays() {
    let mut d = device("", "a");
    settle_device(&mut d, device("", "b"));
    assert_eq!(d.model, "b");
    settle_device(&mut d, device("6.1", "c"));
    assert_eq!(d.model, "c");
    settle_device(&mut d, device("6.2", "d"));
    assert_eq!(d.model, "c");
    assert_eq!(d.kernel, "6.1");
}

#[test]
fn cpu_fallback_needed_when_blocked() {
    let blocked = CpuSummary { count: 0, model: String::new(), freq_mhz: vec![] };
    assert!(needs_cpu_fallback(&blocked));
    let zero = CpuSummary { count: 4, model: "X".into(), freq_mhz: vec![0, 0, 0, 0] };
    assert!(needs_cpu_fallback(&zero));
    let fine = CpuSummary { count: 2, model: "X".into(), freq_mhz: vec![0, 1800] };
    assert!(!needs_cpu_fallback(&fine));
}

#[test]
fn cpu_fallback_takes_hardware_readings() {
    let mut cpu = CpuSummary { count: 0, model: String::new(), freq_mhz: vec![] };
    assert!(apply_cpu_fallback(&mut cpu, vec![1800, 2400]));
    assert_eq!(cpu.count, 2);
    assert_eq!(cpu.freq_mhz, vec![1800, 2400]);
    assert_eq!(cpu.model, "ARM CPU (Hardware Fallback)");
    let mut named = CpuSummary { count: 8, model: "Kryo".into(), freq_mhz: vec![0; 8] };
    assert!(apply_cpu_fallback(&mut named, vec![1000]));
    assert_eq!(named.model, "Kryo");
    assert_eq!(named.count, 1);
}

#[test]
fn cpu_fallback_without_hardware_changes_nothing() {
    let mut cpu = CpuSummary { count: 0, model: String::new(), freq_mhz: vec![] };
    assert!(!apply_cpu_fallback(&mut cpu, vec![]));
    assert_eq!(cpu.count, 0);
    assert_eq!(cpu.model, "");
}

#[test]
fn storage_totals_add_up() {
    let r = storage_totals(&[(100, 40), (50, 50), (10, 0)]);
    assert_eq!(r, Ok((160, 70, 90)));
    let (t, u, f) = r.unwrap();
    assert_eq!(u + f, t);
    assert_eq!(storage_totals(&[]), Ok((0, 0, 0)));
}

#[test]
fn storage_overfull_disk_is_a_fault() {
    assert_eq!(storage_totals(&[(100, 40), (10, 11)]), Err(Fault));
}

#[test]
fn storage_overflow_is_a_fault() {
    assert_eq!(storage_totals(&[(u64::MAX, 0), (1, 0)]), Err(Fault));
}

#[test]
fn network_totals_sum_interfaces() {
    assert_eq!(network_totals(&[(1, 2), (30, 40)]), Ok((31, 42)));
    assert_eq!(network_totals(&[]), Ok((0, 0)));
    assert_eq!(network_totals(&[(u64::MAX, 0), (1, 0)]), Err(Fault));
    assert_eq!(network_totals(&[(0, u64::MAX), (0, 1)]), Err(Fault));
}

fn addr(loopback: bool, ipv4: bool, text: &str) -> AddrInfo {
    AddrInfo { loopback, ipv4, text: text.into() }
}

#[test]
fn ip_prefers_wifi_then_public_v4() {
    let addrs = vec![addr(true, true, "127.0.0.1"), addr(false, false, "fe80::1"), addr(false, true, "10.0.0.7"), addr(false, true, "10.0.0.8")];
    assert_eq!(shown_ip(Some("192.168.1.2".into()), &addrs), "192.168.1.2");
    assert_eq!(shown_ip(None, &addrs), "10.0.0.7");
    assert_eq!(shown_ip(None, &vec![addr(true, true, "127.0.0.1")]), "N/A");
    assert_eq!(shown_ip(None, &vec![]), "N/A");
}

#[test]
fn uptime_fallback_only_for_zero() {
    assert_eq!(shown_uptime(120, Some(5)), 120);
    assert_eq!(shown_uptime(0, Some(5)), 5);
    assert_eq!(shown_uptime(0, None), 0);
}

#[test]
fn traffic_from_first_source_that_shows_some() {
    assert_eq!(chosen_traffic((5, 0), Some((1, 1)), None, None), (5, 0));
    assert_eq!(chosen_traffic((0, 0), Some((1, 2)), Some((3, 4)), None), (1, 2));
    assert_eq!(chosen_traffic((0, 0), Some((0, 0)), Some((3, 4)), Some((5, 6))), (3, 4));
    assert_eq!(chosen_traffic((0, 0), None, Some((0, 0)), Some((0, 6))), (0, 6));
    assert_eq!(chosen_traffic((0, 0), Some((0, 0)), None, Some((0, 0))), (0, 0));
    assert_eq!(chosen_traffic((0, 0), None, None, None), (0, 0));
}
