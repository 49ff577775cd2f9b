//! What a key press does to the application state.
use vstd::prelude::*;
use crate::app::{App, Tab, tab_next, tab_prev, lemma_next_prev_inverse};
use crate::explorer::{FileExplorer, explorer_up, explorer_down, explorer_enter, opens_dir};
use crate::settings::{Settings, default_settings};

verus! {

/// The keys the monitor reacts to; every other key is `Other`.
#[derive(Clone, Copy, PartialEq, Eq, Structural, Debug)]
pub enum Key {
    Char(char),
    Tab,
    BackTab,
    Esc,
    Up,
    Down,
    Left,
    Right,
    Enter,
    Other,
}

/// The settings after a key press while the Settings panel has focus: Up and Down
/// move between the two rows, Right and Left raise and lower the selected value
/// (the refresh interval by 100 ms within 100..2000, the capacity by 500 mAh
/// within 1000..10000), and `r` restores the defaults, keeping the focus.
pub open spec fn settings_after(s: Settings, key: Key) -> Settings {
    match key {
        Key::Up => if s.selected > 0 {
            Settings { selected: (s.selected - 1) as usize, ..s }
        } else {
            s
        },
        Key::Down => if s.selected < 1 {
            Settings { selected: (s.selected + 1) as usize, ..s }
        } else {
            s
        },
        Key::Right => if s.selected == 0 {
            Settings { refresh_ms: vstd::math::min(s.refresh_ms + 100, 2000) as u64, ..s }
        } else if s.selected == 1 {
            Settings { battery_mah: vstd::math::min(s.battery_mah + 500, 10000) as u32, ..s }
        } else {
            s
        },
        Key::Left => if s.selected == 0 {
            Settings { refresh_ms: vstd::math::max(s.refresh_ms - 100, 100) as u64, ..s }
        } else if s.selected == 1 {
            Settings { battery_mah: vstd::math::max(s.battery_mah - 500, 1000) as u32, ..s }
        } else {
            s
        },
        Key::Char(c) => if c == 'r' || c == 'R' {
            Settings { focused: s.focused, ..default_settings() }
        } else {
            s
        },
        _ => s,
    }
}

/// What a key press does, and whether it opened a directory whose listing must
/// now be read. Released keys do nothing. `q` quits, Tab and BackTab change the
/// tab; Esc takes the focus off the explorer, else off the settings. A focused
/// explorer on the Storage tab takes Up, Down and Enter; focused settings on the
/// Settings tab take their keys (`settings_after`). Otherwise Up and Down change
/// the tab and Enter focuses the explorer or the settings on their tab.
pub open spec fn key_step(a: App, key: Key, pressed: bool) -> (App, bool) {
    if !pressed {
        (a, false)
    } else if key == Key::Char('q') || key == Key::Char('Q') {
        (App { running: false, ..a }, false)
    } else if key == Key::Tab {
        (App { tab: tab_next(a.tab), ..a }, false)
    } else if key == Key::BackTab {
        (App { tab: tab_prev(a.tab), ..a }, false)
    } else if key == Key::Esc && a.explorer.focused {
        (App { explorer: FileExplorer { focused: false, ..a.explorer }, ..a }, false)
    } else if key == Key::Esc && a.settings.focused {
        (App { settings: Settings { focused: false, ..a.settings }, ..a }, false)
    } else if a.tab == Tab::Storage && a.explorer.focused {
        match key {
            Key::Up => (App { explorer: explorer_up(a.explorer), ..a }, false),
            Key::Down => (App { explorer: explorer_down(a.explorer), ..a }, false),
            Key::Enter => (App { explorer: explorer_enter(a.explorer), ..a }, opens_dir(a.explorer)),
            _ => (a, false),
        }
    } else if a.tab == Tab::Settings && a.settings.focused {
        (App { settings: settings_after(a.settings, key), ..a }, false)
    } else {
        match key {
            Key::Up => (App { tab: tab_prev(a.tab), ..a }, false),
            Key::Down => (App { tab: tab_next(a.tab), ..a }, false),
            Key::Enter => (
                App {
                    explorer: FileExplorer {
                        focused: a.explorer.focused || a.tab == Tab::Storage,
                        ..a.explorer
                    },
                    settings: Settings {
                        focused: a.settings.focused || a.tab == Tab::Settings,
                        ..a.settings
                    },
                    ..a
                },
                false,
            ),
            _ => (a, false),
        }
    }
}

/// Whether the settings panel can take `key`: a step that would carry the
/// refresh interval or the capacity past the range of its type (raising either
/// beyond its type's largest value, or lowering a capacity under 500 mAh) cannot
/// be taken.
pub open spec fn settings_key_ok(s: Settings, key: Key) -> bool {
    &&& key == Key::Right && s.selected == 0 ==> s.refresh_ms + 100 <= u64::MAX
    &&& key == Key::Right && s.selected == 1 ==> s.battery_mah + 500 <= u32::MAX
    &&& key == Key::Left && s.selected == 1 ==> s.battery_mah >= 500
}

/// Whether a key press reaches the focused settings panel.
pub open spec fn reaches_settings(a: App, key: Key, pressed: bool) -> bool {
    &&& pressed
    &&& key != Key::Char('q') && key != Key::Char('Q') && key != Key::Tab && key != Key::BackTab
    &&& !(key == Key::Esc && (a.explorer.focused || a.settings.focused))
    &&& !(a.tab == Tab::Storage && a.explorer.focused)
    &&& a.tab == Tab::Settings && a.settings.focused
}

/// Whether a key press can be taken: where it reaches the focused settings
/// panel, the panel can take it.
pub open spec fn key_ok(a: App, key: Key, pressed: bool) -> bool {
    reaches_settings(a, key, pressed) ==> settings_key_ok(a.settings, key)
}

/// Whether a key press can be taken (`key_ok`).
pub fn key_can_be_taken(app: &App, key: Key, pressed: bool) -> (b: bool)
    ensures
        b == key_ok(*app, key, pressed),
{
    let reaches = pressed && key != Key::Char('q') && key != Key::Char('Q') && key != Key::Tab
        && key != Key::BackTab && !(key == Key::Esc && (app.explorer.focused || app.settings.focused))
        && !(app.tab == Tab::Storage && app.explorer.focused) && app.tab == Tab::Settings
        && app.settings.focused;
    if !reaches {
        return true;
    }
    let s = &app.settings;
    if key == Key::Right && s.selected == 0 {
        s.refresh_ms <= u64::MAX - 100
    } else if key == Key::Right && s.selected == 1 {
        s.battery_mah <= u32::MAX - 500
    } else if key == Key::Left && s.selected == 1 {
        s.battery_mah >= 500
    } else {
        true
    }
}

/// Applies a key press to the settings panel.
fn settings_key(s: &mut Settings, key: Key)
    requires
        settings_key_ok(*old(s), key),
    ensures
        *final(s) == settings_after(*old(s), key),
{
    match key {
        Key::Up => {
            if s.selected > 0 {
                s.selected -= 1;
            }
        },
        Key::Down => {
            if s.selected < 1 {
                s.selected += 1;
            }
        },
        Key::Right => {
            if s.selected == 0 {
                let v = s.refresh_ms + 100;
                s.refresh_ms = if v > 2000 { 2000 } else { v };
            } else if s.selected == 1 {
                let v = s.battery_mah + 500;
                s.battery_mah = if v > 10000 { 10000 } else { v };
            }
        },
        Key::Left => {
            if s.selected == 0 {
                s.refresh_ms = if s.refresh_ms >= 200 { s.refresh_ms - 100 } else { 100 };
            } else if s.selected == 1 {
                let v = s.battery_mah - 500;
                s.battery_mah = if v < 1000 { 1000 } else { v };
            }
        },
        Key::Char(c) => {
            if c == 'r' || c == 'R' {
                let keep_focus = s.focused;
                *s = Settings::default();
                s.focused = keep_focus;
            }
        },
        _ => {},
    }
}

/// Applies a key press (`pressed` is false for a release or repeat) to the
/// application state. Returns whether the explorer opened a directory, whose
/// listing must then be read and handed to `FileExplorer::refresh`. The press
/// must be one that can be taken (`key_can_be_taken`).
pub fn handle_key(app: &mut App, key: Key, pressed: bool) -> (opened: bool)
    requires
        key_ok(*old(app), key, pressed),
    ensures
        (*final(app), opened) == key_step(*old(app), key, pressed),
{
    if !pressed {
        return false;
    }
    match key {
        Key::Char(c) => {
            if c == 'q' || c == 'Q' {
                app.running = false;
                return false;
            }
        },
        Key::Tab => {
            app.next();
            return false;
        },
        Key::BackTab => {
            app.prev();
            return false;
        },
        _ => {},
    }
    if key == Key::Esc {
        if app.explorer.focused {
            app.explorer.focused = false;
            return false;
        }
        if app.settings.focused {
            app.settings.focused = false;
            return false;
        }
    }
    if app.tab == Tab::Storage && app.explorer.focused {
        return match key {
            Key::Up => {
                app.explorer.up();
                false
            },
            Key::Down => {
                app.explorer.down();
                false
            },
            Key::Enter => app.explorer.enter(),
            _ => false,
        };
    }
    if app.tab == Tab::Settings && app.settings.focused {
        settings_key(&mut app.settings, key);
        return false;
    }
    match key {
        Key::Up => app.prev(),
        Key::Down => app.next(),
        Key::Enter => {
            if app.tab == Tab::Storage {
                app.explorer.focused = true;
            }
            if app.tab == Tab::Settings {
                app.settings.focused = true;
            }
        },
        _ => {},
    }
    false
}


/// No key press takes the settings out of the range the Settings tab keeps.
pub proof fn lemma_key_keeps_settings_in_range(a: App, key: Key, pressed: bool)
    requires
        a.settings.in_range(),
    ensures
        key_step(a, key, pressed).0.settings.in_range(),
{
}

/// No key press changes the rows of the explorer, and none makes the selected row
/// disappear.
pub proof fn lemma_key_keeps_explorer_wf(a: App, key: Key, pressed: bool)
    requires
        a.explorer.wf(),
    ensures
        key_step(a, key, pressed).0.explorer.items == a.explorer.items,
        key_step(a, key, pressed).0.explorer.wf(),
{
}

/// A released key changes nothing.
pub proof fn lemma_release_is_ignored(a: App, key: Key)
    ensures
        key_step(a, key, false) == (a, false),
{
}

/// `q` stops the monitor, and no other key does.
pub proof fn lemma_only_q_quits(a: App, key: Key, pressed: bool)
    ensures
        pressed && (key == Key::Char('q') || key == Key::Char('Q')) ==> !key_step(
            a,
            key,
            pressed,
        ).0.running,
        !(pressed && (key == Key::Char('q') || key == Key::Char('Q'))) ==> key_step(
            a,
            key,
            pressed,
        ).0.running == a.running,
{
}

/// Tab followed by BackTab returns to the same state, whatever has focus.
pub proof fn lemma_tab_backtab(a: App)
    ensures
        key_step(key_step(a, Key::Tab, true).0, Key::BackTab, true).0 == a,
        key_step(key_step(a, Key::BackTab, true).0, Key::Tab, true).0 == a,
{
    lemma_next_prev_inverse(a.tab);
}

/// Esc takes the focus off a focused explorer; pressed again, off focused settings.
pub proof fn lemma_esc_unfocuses(a: App)
    ensures
        a.explorer.focused ==> !key_step(a, Key::Esc, true).0.explorer.focused,
        !key_step(key_step(a, Key::Esc, true).0, Key::Esc, true).0.explorer.focused,
        !a.explorer.focused ==> !key_step(a, Key::Esc, true).0.settings.focused,
{
}

/// Only Enter on a directory row of the focused explorer asks for a new listing.
pub proof fn lemma_listing_only_on_enter(a: App, key: Key, pressed: bool)
    ensures
        key_step(a, key, pressed).1 ==> pressed && key == Key::Enter && a.tab == Tab::Storage
            && a.explorer.focused && opens_dir(a.explorer),
{
}

/// In focused settings, Up selects the row above where there is one, leaving
/// the values alone, and Down then Up from the first row comes back to it.
pub proof fn lemma_settings_up_down(a: App)
    requires
        a.tab == Tab::Settings,
        a.settings.focused,
    ensures
        a.settings.selected > 0 ==> key_step(a, Key::Up, true).0 == (App {
            settings: Settings { selected: (a.settings.selected - 1) as usize, ..a.settings },
            ..a
        }),
        a.settings.selected == 0 ==> key_step(key_step(a, Key::Down, true).0, Key::Up, true).0
            == a,
{
}

/// In focused settings, Right never lowers a value in range and Left never
/// raises one, and away from the ends of the range one step right and one step
/// left undo each other.
pub proof fn lemma_settings_right_left(a: App)
    requires
        a.tab == Tab::Settings,
        a.settings.focused,
    ensures
        a.settings.in_range() ==> key_step(a, Key::Right, true).0.settings.refresh_ms
            >= a.settings.refresh_ms,
        a.settings.in_range() ==> key_step(a, Key::Right, true).0.settings.battery_mah
            >= a.settings.battery_mah,
        a.settings.in_range() ==> key_step(a, Key::Left, true).0.settings.refresh_ms
            <= a.settings.refresh_ms,
        a.settings.in_range() ==> key_step(a, Key::Left, true).0.settings.battery_mah
            <= a.settings.battery_mah,
        a.settings.selected == 0 && 100 <= a.settings.refresh_ms <= 1900 ==> key_step(
            key_step(a, Key::Right, true).0,
            Key::Left,
            true,
        ).0 == a,
        a.settings.selected == 0 && 200 <= a.settings.refresh_ms <= 2000 ==> key_step(
            key_step(a, Key::Left, true).0,
            Key::Right,
            true,
        ).0 == a,
        a.settings.selected == 1 && 1000 <= a.settings.battery_mah <= 9500 ==> key_step(
            key_step(a, Key::Right, true).0,
            Key::Left,
            true,
        ).0 == a,
        a.settings.selected == 1 && 1500 <= a.settings.battery_mah <= 10000 ==> key_step(
            key_step(a, Key::Left, true).0,
            Key::Right,
            true,
        ).0 == a,
{
}

} // verus!
