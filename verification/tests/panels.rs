use oxidroid::app::Tab;
use oxidroid::device::DeviceInfo;
use oxidroid::explorer::FileEntry;
use oxidroid::panels::{
    dots_needed, entry_detail, first_chars, freq_texts, hardware_label, setting_values,
    sidebar_rows, status_tone, swap_text, StatusTone,
};
use oxidroid::settings::Settings;

#[test]
fn hardware_line_upper_cased() {
    let d = DeviceInfo {
        model: "sm-g991b".into(),
        android: "Android 14".into(),
        arch: "arm64".into(),
        manufacturer: "samsung".into(),
        kernel: "5.10".into(),
    };
    assert_eq!(hardware_label(&d), "SAMSUNG SM-G991B");
}

#[test]
fn sidebar_marks_the_current_tab() {
    let rows = sidebar_rows(Tab::Storage);
    let titles: Vec<&str> = rows.iter().map(|r| r.1.as_str()).collect();
    assert_eq!(titles, vec!["OVERVIEW", "CPU", "MEMORY", "STORAGE", "BATTERY", "NETWORK", "PROCESSES", "SETTINGS"]);
    let active: Vec<bool> = rows.iter().map(|r| r.0).collect();
    assert_eq!(active, vec![false, false, false, true, false, false, false, false]);
}

#[test]
fn battery_status_tones() {
    assert_eq!(status_tone("Charging"), StatusTone::Charging);
    assert_eq!(status_tone("Discharging"), StatusTone::Charging);
    assert_eq!(status_tone("Fully Charged"), StatusTone::Charging);
    assert_eq!(status_tone("FULL"), StatusTone::Full);
    assert_eq!(status_tone("Not charging"), StatusTone::Charging);
    assert_eq!(status_tone("Unknown"), StatusTone::Other);
    assert_eq!(status_tone("AC Mains"), StatusTone::Other);
}

#[test]
fn cpu_frequency_summary() {
    assert_eq!(freq_texts(&[1000, 2001]), ("1500 MHz".to_string(), "2001 MHz".to_string()));
    assert_eq!(freq_texts(&[0, 0]), ("0 MHz".to_string(), "0 MHz".to_string()));
    assert_eq!(freq_texts(&[]), ("N/A".to_string(), "N/A".to_string()));
}

#[test]
fn explorer_row_details() {
    let dir = FileEntry { name: "music".into(), path: "/m".into(), is_dir: true, size: 0, count: 12 };
    assert_eq!(entry_detail(&dir), " (12 items)");
    let up = FileEntry { name: "..".into(), path: "/".into(), is_dir: true, size: 0, count: 0 };
    assert_eq!(entry_detail(&up), "");
    let f = FileEntry { name: "a.bin".into(), path: "/a.bin".into(), is_dir: false, size: 1536, count: 0 };
    assert_eq!(entry_detail(&f), " (1.5KB)");
}

#[test]
fn settings_values_text() {
    let s = Settings { refresh_ms: 700, battery_mah: 4500, selected: 0, focused: false };
    assert_eq!(setting_values(&s), ("700 ms".to_string(), "4500 mAh".to_string()));
}

#[test]
fn names_cut_to_length() {
    assert_eq!(first_chars("com.android.systemui.something.long", 28), "com.android.systemui.somethi");
    assert_eq!(first_chars("Run", 10), "Run");
    assert_eq!(first_chars("héllo", 2), "hé");
    assert_eq!(first_chars("", 3), "");
}

#[test]
fn swap_line() {
    assert_eq!(swap_text(1024, 2048), "1.0KB / 2.0KB");
}

#[test]
fn dot_leader_length() {
    assert_eq!(dots_needed(20, "CPU_USAGE", "42.0%"), 4);
    assert_eq!(dots_needed(10, "CPU_USAGE", "42.0%"), 0);
    assert_eq!(dots_needed(30, "·", ""), 26);
}
