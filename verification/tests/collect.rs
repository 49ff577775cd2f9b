use oxidroid::collector::{
    cpu_freq_mhz, ifconfig_counts, ifconfig_totals, uptime_from_tokens, ip_link_totals, net_dev_totals, parse_uptime, traffic_seen,
    wifi_ip, Fault,
};

const NET_DEV: &str = "Inter-|   Receive                                                |  Transmit\n face |bytes    packets errs drop fifo frame compressed multicast|bytes    packets errs drop fifo colls carrier compressed\n    lo:  500 5 0 0 0 0 0 0  500 5 0 0 0 0 0 0\n  wlan0: 1234 10 0 0 0 0 0 0 5678 20 0 0 0 0 0 0\n rmnet0: 100 1 0 0 0 0 0 0 200 2 0 0 0 0 0 0\n dummy0: 9 9 0 0 0 0 0 0 9 9 0 0 0 0 0 0\n  tun0: 7 7 0 0 0 0 0 0 7 7 0 0 0 0 0 0\n";

#[test]
fn net_dev_sums_real_interfaces() {
    assert_eq!(net_dev_totals(NET_DEV), Ok((5878, 1334)));
}

#[test]
fn net_dev_skips_header_lines() {
    let text = "wlan0: 1 0 0 0 0 0 0 0 2 0 0 0 0 0 0 0\nwlan1: 1 0 0 0 0 0 0 0 2 0 0 0 0 0 0 0\n";
    assert_eq!(net_dev_totals(text), Ok((0, 0)));
}

#[test]
fn net_dev_short_lines_add_nothing() {
    let text = "h1\nh2\n eth0: 1 2 3\n eth1: 10 0 0 0 0 0 0 0 20 0\n";
    assert_eq!(net_dev_totals(text), Ok((20, 10)));
}

#[test]
fn net_dev_eight_fields_is_a_fault() {
    let text = "h1\nh2\n eth0: 1 2 3 4 5 6 7 8\n";
    assert_eq!(net_dev_totals(text), Err(Fault));
}

#[test]
fn net_dev_overflow_is_a_fault() {
    let text = "h1\nh2\n a: 18446744073709551615 0 0 0 0 0 0 0 1 0\n b: 1 0 0 0 0 0 0 0 1 0\n";
    assert_eq!(net_dev_totals(text), Err(Fault));
}

#[test]
fn net_dev_non_numbers_count_zero() {
    let text = "h1\nh2\n a: x 0 0 0 0 0 0 0 y 0\n b: 3 0 0 0 0 0 0 0 4 0\n";
    assert_eq!(net_dev_totals(text), Ok((4, 3)));
}

#[test]
fn ip_link_reads_line_after_labels() {
    let text = "1: lo: <LOOPBACK,UP>\n    link/loopback 00:00\n    RX:  bytes packets errors\n    1000 10 0\n    TX:  bytes packets errors\n    2000 20 0\n2: wlan0: <UP>\n    RX:  bytes packets errors\n    30 1 0\n    TX:  bytes packets errors\n    40 2 0\n";
    assert_eq!(ip_link_totals(text), Ok((2040, 1030)));
}

#[test]
fn ip_link_label_on_last_line_adds_nothing() {
    assert_eq!(ip_link_totals("    RX: bytes"), Ok((0, 0)));
    assert_eq!(ip_link_totals(""), Ok((0, 0)));
}

#[test]
fn ip_link_overflow_is_a_fault() {
    let text = "RX: b\n18446744073709551615\nRX: b\n1\n";
    assert_eq!(ip_link_totals(text), Err(Fault));
}

#[test]
fn ifconfig_reads_rx_and_tx_bytes() {
    let text = "wlan0: flags=4163<UP>\n        RX packets 10  bytes 1500 (1.5 KB)\n        TX packets 5  bytes 700 (700 B)\neth0  Link encap\n          RX bytes:2048 (2.0 KiB)  TX bytes:4096 (4.0 KiB)\n";
    assert_eq!(ifconfig_totals(text), Ok((4096, 2048)));
}

#[test]
fn ifconfig_is_case_insensitive() {
    let text = "   RX Bytes:10  TX BYTES:20\n";
    assert_eq!(ifconfig_totals(text), Ok((20, 10)));
}

#[test]
fn ifconfig_without_counts() {
    assert_eq!(ifconfig_totals("nothing here\n"), Ok((0, 0)));
}

#[test]
fn traffic_needs_a_nonzero_counter() {
    assert_eq!(traffic_seen((0, 0)), None);
    assert_eq!(traffic_seen((0, 5)), Some((0, 5)));
    assert_eq!(traffic_seen((7, 0)), Some((7, 0)));
}

#[test]
fn wifi_ip_found() {
    let text = "{\n  \"bssid\": \"02:00\",\n  \"ip\": \"192.168.1.5\",\n  \"link_speed_mbps\": 72\n}";
    assert_eq!(wifi_ip(text), Some("192.168.1.5".to_string()));
}

#[test]
fn wifi_ip_missing() {
    assert_eq!(wifi_ip("{\"ssid\": \"x\"}"), None);
    assert_eq!(wifi_ip("\"ip\": \"10.0.0.1"), None);
}

#[test]
fn cpu_freq_from_current_file() {
    assert_eq!(cpu_freq_mhz(Some("1804800\n"), Some("2000000")), 1804);
}

#[test]
fn cpu_freq_falls_back_to_max_file() {
    assert_eq!(cpu_freq_mhz(None, Some(" 2000000 ")), 2000);
    assert_eq!(cpu_freq_mhz(None, None), 0);
}

#[test]
fn cpu_freq_unreadable_number_is_zero() {
    assert_eq!(cpu_freq_mhz(Some("abc"), Some("3000000")), 0);
}

#[test]
fn uptime_days_and_clock() {
    let text = " 14:32:07 up 3 days,  4:05,  1 user,  load average: 0.00, 0.01, 0.05\n";
    assert_eq!(parse_uptime(text), Ok(Some(273900)));
}

#[test]
fn uptime_minutes() {
    let text = " 10:00:00 up 10 min,  2 users,  load average: 0.10, 0.20, 0.30\n";
    assert_eq!(parse_uptime(text), Ok(Some(600)));
}

#[test]
fn uptime_busybox_form() {
    let text = "up time: 1 day, 02:03:04, idle time: 5 days, 00:00:01, sleep time: 0:00\n";
    assert_eq!(parse_uptime(text), Ok(Some(93784)));
}

#[test]
fn uptime_hours_words() {
    assert_eq!(parse_uptime("up 5 hrs 3 mins load"), Ok(Some(5 * 3600 + 180)));
    assert_eq!(parse_uptime("up 2 hours"), Ok(Some(7200)));
    assert_eq!(parse_uptime("up 42 secs"), Ok(Some(42)));
}

#[test]
fn uptime_without_up_is_none() {
    assert_eq!(parse_uptime("hello"), Ok(None));
}

#[test]
fn uptime_of_zero_is_none() {
    assert_eq!(parse_uptime("up 0 min, 1 user"), Ok(None));
}

#[test]
fn uptime_end_before_start_is_a_fault() {
    assert_eq!(parse_uptime("x user up 5 min"), Err(Fault));
}

#[test]
fn uptime_overflow_is_a_fault() {
    assert_eq!(parse_uptime("up 213503982334602 days"), Err(Fault));
}

fn words(ws: &[&str]) -> Vec<Vec<char>> {
    ws.iter().map(|w| w.chars().collect()).collect()
}

#[test]
fn uptime_tokens_with_their_lower_case() {
    let tokens = words(&["3", "Days", "4:05"]);
    let lows = words(&["3", "days", "4:05"]);
    assert_eq!(uptime_from_tokens(&tokens, &lows), Ok(Some(273900)));
    let tokens = words(&["1", "d", "2", "h", "3", "m", "4", "s"]);
    assert_eq!(uptime_from_tokens(&tokens, &tokens.clone()), Ok(Some(86400 + 7200 + 180 + 4)));
    let tokens = words(&["12:34:56"]);
    assert_eq!(uptime_from_tokens(&tokens, &tokens.clone()), Ok(Some(12 * 3600 + 34 * 60 + 56)));
    let tokens = words(&["min", "5"]);
    assert_eq!(uptime_from_tokens(&tokens, &tokens.clone()), Ok(None));
    let tokens = words(&["213503982334602", "days"]);
    assert_eq!(uptime_from_tokens(&tokens, &tokens.clone()), Err(Fault));
}

#[test]
fn ifconfig_lower_case_line_counts() {
    let line: Vec<char> = "rx bytes:2048 (2.0 kib)  tx bytes:4096 (4.0 kib)".chars().collect();
    assert_eq!(ifconfig_counts(&line), (2048, 4096));
    let line: Vec<char> = "rx packets 10  bytes 1500".chars().collect();
    assert_eq!(ifconfig_counts(&line), (0, 0));
    let line: Vec<char> = "rx bytes 77 tx bytes x".chars().collect();
    assert_eq!(ifconfig_counts(&line), (77, 0));
}
