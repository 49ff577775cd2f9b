use oxidroid::battery::{android_battery, linux_battery, mains_power, wmic_battery, BatteryReading};
use oxidroid::gather::chosen_battery;

fn fields(b: &BatteryReading) -> (u8, String, String, String, i64, String) {
    (
        b.percentage,
        b.status.clone(),
        b.health.clone(),
        b.plugged.clone(),
        b.current_ua,
        b.time_remaining.clone(),
    )
}

#[test]
fn android_files_read_and_trimmed() {
    let b = android_battery(Some("87\n"), Some("Charging\n"), Some("Good\n"), Some("-350000\n"));
    assert_eq!(
        fields(&b),
        (87, "Charging".into(), "Good".into(), "Plugged".into(), -350000, "N/A".into())
    );
}

#[test]
fn android_full_counts_as_plugged() {
    let b = android_battery(Some("100"), Some("Full"), None, None);
    assert_eq!(b.plugged, "Plugged");
    assert_eq!(b.health, "N/A");
    assert_eq!(b.current_ua, 0);
}

#[test]
fn android_missing_files_use_defaults() {
    let b = android_battery(None, None, None, None);
    assert_eq!(
        fields(&b),
        (0, "Unknown".into(), "N/A".into(), "Unplugged".into(), 0, "N/A".into())
    );
}

#[test]
fn android_bad_numbers_read_zero() {
    let b = android_battery(Some("300"), Some("Discharging"), Some("Good"), Some("12x"));
    assert_eq!(b.percentage, 0);
    assert_eq!(b.current_ua, 0);
    assert_eq!(b.plugged, "Unplugged");
}

#[test]
fn linux_laptop_battery() {
    let b = linux_battery(Some("55\n"), Some("Discharging\n"));
    assert_eq!(
        fields(&b),
        (55, "Discharging".into(), "Good".into(), "Unplugged".into(), 0, "N/A".into())
    );
    let c = linux_battery(None, Some("Charging"));
    assert_eq!(c.percentage, 0);
    assert_eq!(c.plugged, "Plugged");
}

#[test]
fn mains_power_reading() {
    let b = mains_power();
    assert_eq!(
        fields(&b),
        (100, "AC Mains".into(), "Optimal".into(), "Direct/Wall".into(), 0, "Infinite".into())
    );
}

#[test]
fn wmic_charging() {
    let out = "\r\n\r\nBatteryStatus=6\r\nEstimatedChargeRemaining=74\r\n\r\n\r\n";
    let b = wmic_battery(out).unwrap();
    assert_eq!(
        fields(&b),
        (74, "Charging".into(), "N/A".into(), "Plugged".into(), 0, "N/A".into())
    );
}

#[test]
fn wmic_status_codes() {
    let cases = [
        ("1", "Discharging", "Unplugged"),
        ("2", "AC/Plugged In", "Plugged"),
        ("3", "Fully Charged", "Unplugged"),
        ("4", "Low/Critical", "Unplugged"),
        ("5", "Low/Critical", "Unplugged"),
        ("7", "Charging", "Plugged"),
        ("9", "Charging", "Plugged"),
        ("10", "Unknown", "Unplugged"),
        ("", "Unknown", "Unplugged"),
    ];
    for (code, status, plugged) in cases {
        let out = format!("EstimatedChargeRemaining=50\nBatteryStatus={}\n", code);
        let b = wmic_battery(&out).unwrap();
        assert_eq!(b.status, status, "code {}", code);
        assert_eq!(b.plugged, plugged, "code {}", code);
        assert_eq!(b.percentage, 50);
    }
}

#[test]
fn wmic_later_lines_win_and_bad_numbers_read_zero() {
    let out = "EstimatedChargeRemaining=20\nEstimatedChargeRemaining=abc\nBatteryStatus=2\n";
    let b = wmic_battery(out).unwrap();
    assert_eq!(b.percentage, 0);
    assert_eq!(b.status, "AC/Plugged In");
}

#[test]
fn wmic_without_charge_is_none() {
    assert!(wmic_battery("No Instance(s) Available.\r\n").is_none());
    assert!(wmic_battery("").is_none());
}

#[test]
fn battery_sources_in_order() {
    let a = android_battery(Some("10"), Some("Full"), None, None);
    let w = wmic_battery("EstimatedChargeRemaining=20\n").unwrap();
    let l = linux_battery(Some("30"), None);
    assert_eq!(chosen_battery(Some(a), Some(w), Some(l)).percentage, 10);
    let w = wmic_battery("EstimatedChargeRemaining=20\n").unwrap();
    let l = linux_battery(Some("30"), None);
    assert_eq!(chosen_battery(None, Some(w), Some(l)).percentage, 20);
    let l = linux_battery(Some("30"), None);
    assert_eq!(chosen_battery(None, None, Some(l)).percentage, 30);
    let m = chosen_battery(None, None, None);
    assert_eq!(m.status, "AC Mains");
    assert_eq!(m.percentage, 100);
}
