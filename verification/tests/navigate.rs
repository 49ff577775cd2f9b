use oxidroid::app::{App, Tab};
use oxidroid::explorer::{sort_listing, FileEntry, FileExplorer};
use oxidroid::input::{handle_key, key_can_be_taken, Key};
use oxidroid::settings::Settings;

fn file(name: &str, is_dir: bool) -> FileEntry {
    FileEntry { name: name.into(), path: format!("/d/{}", name), is_dir, size: 10, count: 2 }
}

fn names(items: &[FileEntry]) -> Vec<String> {
    items.iter().map(|e| e.name.clone()).collect()
}

#[test]
fn listing_sorted_directories_first_case_insensitive() {
    let l = vec![file("b.txt", false), file("Zeta", true), file("A.txt", false), file("alpha", true), file("c", false)];
    let fe = FileExplorer::new("/d", Some(l));
    assert_eq!(names(&fe.items), vec!["..", "alpha", "Zeta", "A.txt", "b.txt", "c"]);
    assert_eq!(fe.selected, 0);
    assert_eq!(fe.offset, 0);
    assert!(!fe.focused);
}

#[test]
fn parent_row_leads_up() {
    let fe = FileExplorer::new("/data/home/docs", None);
    assert_eq!(fe.items.len(), 1);
    assert_eq!(fe.items[0].name, "..");
    assert!(fe.items[0].is_dir);
    assert_eq!(fe.items[0].path, "/data/home");
    assert_eq!(fe.current_path, "/data/home/docs");
}

#[test]
fn parent_row_of_root_stays() {
    let fe = FileExplorer::new("/", None);
    assert_eq!(fe.items[0].path, "/");
}

#[test]
fn parent_rows_of_plain_paths() {
    assert_eq!(FileExplorer::new("/tmp", None).items[0].path, "/");
    assert_eq!(FileExplorer::new("docs/music", None).items[0].path, "docs");
    assert_eq!(FileExplorer::new("docs", None).items[0].path, "");
    assert_eq!(FileExplorer::new("/a/b:c", None).items[0].path, "/a");
    assert_eq!(FileExplorer::new("/a/x:y/z", None).items[0].path, "/a/x:y");
    assert_eq!(FileExplorer::new("/a/b/..", None).items[0].path, "/a/b");
    assert_eq!(FileExplorer::new("/..", None).items[0].path, "/");
}

#[test]
fn entering_then_going_up_returns() {
    let mut fe = FileExplorer::new("/home/u", Some(vec![FileEntry {
        name: "music".into(),
        path: "/home/u/music".into(),
        is_dir: true,
        size: 0,
        count: 0,
    }]));
    fe.down();
    assert!(fe.enter());
    fe.refresh(Some(vec![]));
    assert_eq!(fe.current_path, "/home/u/music");
    assert_eq!(fe.selected, 0);
    assert!(fe.enter());
    assert_eq!(fe.current_path, "/home/u");
}

#[test]
fn sort_keeps_every_entry() {
    let l = vec![file("x", false), file("X", false), file("y", true)];
    let s = sort_listing(l);
    assert_eq!(s.len(), 3);
    assert_eq!(s[0].name, "y");
    let mut rest = names(&s[1..]);
    rest.sort();
    assert_eq!(rest, vec!["X", "x"]);
}

#[test]
fn moving_the_selection_stays_in_the_rows() {
    let mut fe = FileExplorer::new("/d", Some(vec![file("a", false), file("b", false)]));
    fe.up();
    assert_eq!(fe.selected, 0);
    fe.down();
    fe.down();
    fe.down();
    assert_eq!(fe.selected, 2);
    fe.up();
    assert_eq!(fe.selected, 1);
}

#[test]
fn enter_opens_only_directories() {
    let mut fe = FileExplorer::new("/d", Some(vec![file("sub", true), file("f", false)]));
    fe.down();
    fe.down();
    assert_eq!(fe.items[fe.selected].name, "f");
    assert!(!fe.enter());
    assert_eq!(fe.current_path, "/d");
    fe.up();
    assert!(fe.enter());
    assert_eq!(fe.current_path, "/d/sub");
    assert_eq!(fe.selected, 0);
    assert_eq!(fe.offset, 0);
    fe.refresh(Some(vec![]));
    assert_eq!(fe.items[0].path, "/d");
}

#[test]
fn visible_scrolls_to_the_selection() {
    let l: Vec<FileEntry> = (0..10).map(|i| file(&format!("f{}", i), false)).collect();
    let mut fe = FileExplorer::new("/d", Some(l));
    assert_eq!(names(fe.visible(3)), vec!["..", "f0", "f1"]);
    for _ in 0..5 {
        fe.down();
    }
    assert_eq!(names(fe.visible(3)), vec!["f2", "f3", "f4"]);
    assert_eq!(fe.offset, 3);
    fe.up();
    fe.up();
    fe.up();
    fe.up();
    assert_eq!(names(fe.visible(3)), vec!["f0", "f1", "f2"]);
    assert_eq!(fe.offset, 1);
    assert_eq!(names(fe.visible(50)).len(), 10);
}

fn app() -> App {
    App::new(FileExplorer::new("/d", Some(vec![file("sub", true)])))
}

#[test]
fn new_app_defaults() {
    let a = app();
    assert_eq!(a.tab, Tab::Overview);
    assert!(a.running);
    assert_eq!(a.settings.refresh_ms, 500);
    assert_eq!(a.settings.battery_mah, 4000);
    assert_eq!(App::start_dir(true), "/data/data/com.termux/files/home");
    assert_eq!(App::start_dir(false), "/tmp");
}

#[test]
fn tabs_in_order_and_wrapping() {
    let all = Tab::all();
    assert_eq!(all.len(), 8);
    let labels: Vec<&str> = all.iter().map(|t| t.label()).collect();
    assert_eq!(labels, vec!["Overview", "CPU", "Memory", "Storage", "Battery", "Network", "Processes", "Settings"]);
    for (i, t) in all.iter().enumerate() {
        assert_eq!(t.index(), i);
        assert_eq!(Tab::at(i), *t);
    }
    let mut a = app();
    a.prev();
    assert_eq!(a.tab, Tab::Settings);
    a.next();
    assert_eq!(a.tab, Tab::Overview);
    for _ in 0..8 {
        a.next();
    }
    assert_eq!(a.tab, Tab::Overview);
    assert_eq!(a.idx(), 0);
}

#[test]
fn q_quits_and_release_is_ignored() {
    let mut a = app();
    assert!(!handle_key(&mut a, Key::Char('q'), false));
    assert!(a.running);
    handle_key(&mut a, Key::Char('Q'), true);
    assert!(!a.running);
}

#[test]
fn tab_keys_and_arrows_change_tab() {
    let mut a = app();
    handle_key(&mut a, Key::Tab, true);
    assert_eq!(a.tab, Tab::Cpu);
    handle_key(&mut a, Key::BackTab, true);
    assert_eq!(a.tab, Tab::Overview);
    handle_key(&mut a, Key::Up, true);
    assert_eq!(a.tab, Tab::Settings);
    handle_key(&mut a, Key::Down, true);
    assert_eq!(a.tab, Tab::Overview);
}

#[test]
fn storage_enter_focuses_explorer_and_opens_directory() {
    let mut a = app();
    a.tab = Tab::Storage;
    assert!(!handle_key(&mut a, Key::Enter, true));
    assert!(a.explorer.focused);
    handle_key(&mut a, Key::Down, true);
    assert_eq!(a.explorer.selected, 1);
    assert_eq!(a.tab, Tab::Storage);
    assert!(handle_key(&mut a, Key::Enter, true));
    assert_eq!(a.explorer.current_path, "/d/sub");
    handle_key(&mut a, Key::Esc, true);
    assert!(!a.explorer.focused);
}

#[test]
fn settings_keys_adjust_within_range() {
    let mut a = app();
    a.tab = Tab::Settings;
    handle_key(&mut a, Key::Enter, true);
    assert!(a.settings.focused);
    for _ in 0..30 {
        handle_key(&mut a, Key::Right, true);
    }
    assert_eq!(a.settings.refresh_ms, 2000);
    for _ in 0..30 {
        handle_key(&mut a, Key::Left, true);
    }
    assert_eq!(a.settings.refresh_ms, 100);
    handle_key(&mut a, Key::Down, true);
    handle_key(&mut a, Key::Down, true);
    assert_eq!(a.settings.selected, 1);
    for _ in 0..20 {
        handle_key(&mut a, Key::Right, true);
    }
    assert_eq!(a.settings.battery_mah, 10000);
    for _ in 0..30 {
        handle_key(&mut a, Key::Left, true);
    }
    assert_eq!(a.settings.battery_mah, 1000);
    handle_key(&mut a, Key::Char('r'), true);
    assert_eq!(a.settings.battery_mah, 4000);
    assert_eq!(a.settings.refresh_ms, 500);
    assert_eq!(a.settings.selected, 0);
    assert!(a.settings.focused);
    handle_key(&mut a, Key::Esc, true);
    assert!(!a.settings.focused);
    assert_eq!(a.tab, Tab::Settings);
}

#[test]
fn settings_key_out_of_type_range_cannot_be_taken() {
    let mut a = app();
    a.tab = Tab::Settings;
    a.settings = Settings { refresh_ms: 500, battery_mah: 400, selected: 1, focused: true };
    assert!(!key_can_be_taken(&a, Key::Left, true));
    assert!(key_can_be_taken(&a, Key::Left, false));
    assert!(key_can_be_taken(&a, Key::Right, true));
    a.settings.selected = 0;
    a.settings.refresh_ms = u64::MAX;
    assert!(!key_can_be_taken(&a, Key::Right, true));
    assert!(key_can_be_taken(&a, Key::Tab, true));
}

#[test]
fn default_settings() {
    let s = Settings::default();
    assert_eq!((s.refresh_ms, s.battery_mah, s.selected, s.focused), (500, 4000, 0, false));
}
