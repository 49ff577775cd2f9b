//! Battery readings from the Android power-supply files, a Linux laptop's
//! `BAT0`, or Windows' `wmic`, and the reading for a machine without a battery.
use vstd::prelude::*;
use vstd::string::StringExecFns;
use crate::text::{
    chars_of, contains, contains_in, lines, parse_i64, parse_i64_spec, parse_u8, parse_u8_spec,
    same_chars, second_part, second_part_of, split_lines, starts_with, starts_with_in, string_of,
    trim, trimmed, views,
};

verus! {

/// What the monitor shows of the battery, but its temperature.
#[derive(Clone, Debug)]
pub struct BatteryReading {
    pub percentage: u8,
    pub status: String,
    pub health: String,
    pub plugged: String,
    pub current_ua: i64,
    pub time_remaining: String,
}

/// The text of a file that was read, or `default` where it could not be.
pub open spec fn text_or(t: Option<Seq<char>>, default: Seq<char>) -> Seq<char> {
    match t {
        Some(t) => t,
        None => default,
    }
}

/// The view of an optional string slice.
pub open spec fn opt_view(t: Option<&str>) -> Option<Seq<char>> {
    match t {
        Some(t) => Some(t@),
        None => None,
    }
}

/// A percentage file's number, 0 where it holds none.
pub open spec fn percent_of(t: Seq<char>) -> u8 {
    match parse_u8_spec(trim(t)) {
        Some(v) => v,
        None => 0,
    }
}

/// Whether power is connected, from a power-supply status.
pub open spec fn plugged_text(status: Seq<char>) -> Seq<char> {
    if status == "Charging"@ || status == "Full"@ {
        "Plugged"@
    } else {
        "Unplugged"@
    }
}

/// The text of an optional file, trimmed, or `default` where it could not be read.
fn trimmed_or(t: Option<&str>, default: &str) -> (r: String)
    ensures
        r@ == trim(text_or(opt_view(t), default@)),
{
    let cs = match t {
        Some(t) => chars_of(t),
        None => chars_of(default),
    };
    let tr = trimmed(cs.as_slice());
    string_of(tr.as_slice())
}

/// Whether power is connected, from a power-supply status.
fn plugged_for(status: &String) -> (r: String)
    ensures
        r@ == plugged_text(status@),
{
    let s = chars_of(status.as_str());
    let charging = chars_of("Charging");
    let full = chars_of("Full");
    if same_chars(s.as_slice(), charging.as_slice()) || same_chars(s.as_slice(), full.as_slice()) {
        String::from_str("Plugged")
    } else {
        String::from_str("Unplugged")
    }
}

/// The battery from the Android power-supply files (`capacity`, `status`,
/// `health`, `current_now`), each `None` where it could not be read: a missing
/// status reads `Unknown`, a missing health `N/A`, and a missing or unreadable
/// number 0.
pub fn android_battery(
    capacity: Option<&str>,
    status: Option<&str>,
    health: Option<&str>,
    current_now: Option<&str>,
) -> (b: BatteryReading)
    ensures
        b.percentage == percent_of(text_or(opt_view(capacity), seq![])),
        b.status@ == trim(text_or(opt_view(status), "Unknown"@)),
        b.health@ == trim(text_or(opt_view(health), "N/A"@)),
        b.plugged@ == plugged_text(b.status@),
        b.current_ua == match parse_i64_spec(trim(text_or(opt_view(current_now), seq![]))) {
            Some(v) => v,
            None => 0,
        },
        b.time_remaining@ == "N/A"@,
{
    let pct_text = trimmed_or(capacity, "");
    let pct_cs = chars_of(pct_text.as_str());
    proof {
        reveal_strlit("");
        assert(""@ =~= Seq::<char>::empty());
    }
    let percentage = match parse_u8(pct_cs.as_slice()) {
        Some(v) => v,
        None => 0,
    };
    let status = trimmed_or(status, "Unknown");
    let cur_text = trimmed_or(current_now, "");
    let cur_cs = chars_of(cur_text.as_str());
    let current_ua = match parse_i64(cur_cs.as_slice()) {
        Some(v) => v,
        None => 0,
    };
    let plugged = plugged_for(&status);
    BatteryReading {
        percentage,
        status,
        health: trimmed_or(health, "N/A"),
        plugged,
        current_ua,
        time_remaining: String::from_str("N/A"),
    }
}

/// The battery of a Linux laptop from its `BAT0` `capacity` and `status` files.
pub fn linux_battery(capacity: Option<&str>, status: Option<&str>) -> (b: BatteryReading)
    ensures
        b.percentage == percent_of(text_or(opt_view(capacity), seq![])),
        b.status@ == trim(text_or(opt_view(status), "Unknown"@)),
        b.plugged@ == plugged_text(b.status@),
        b.health@ == "Good"@,
        b.current_ua == 0,
        b.time_remaining@ == "N/A"@,
{
    let pct_text = trimmed_or(capacity, "");
    let pct_cs = chars_of(pct_text.as_str());
    proof {
        reveal_strlit("");
        assert(""@ =~= Seq::<char>::empty());
    }
    let percentage = match parse_u8(pct_cs.as_slice()) {
        Some(v) => v,
        None => 0,
    };
    let status = trimmed_or(status, "Unknown");
    let plugged = plugged_for(&status);
    BatteryReading {
        percentage,
        status,
        health: String::from_str("Good"),
        plugged,
        current_ua: 0,
        time_remaining: String::from_str("N/A"),
    }
}

/// The status that a `wmic` `BatteryStatus` code stands for.
pub open spec fn wmic_status(code: Seq<char>) -> Seq<char> {
    if code.len() == 1 {
        let c = code[0];
        if c == '1' {
            "Discharging"@
        } else if c == '2' {
            "AC/Plugged In"@
        } else if c == '3' {
            "Fully Charged"@
        } else if c == '4' || c == '5' {
            "Low/Critical"@
        } else if '6' <= c && c <= '9' {
            "Charging"@
        } else {
            "Unknown"@
        }
    } else {
        "Unknown"@
    }
}

/// The percentage and status after one trimmed line of `wmic` output: a
/// `EstimatedChargeRemaining=` line sets the percentage (0 where its value is no
/// number up to 255), a `BatteryStatus=` line the status, any other line neither.
pub open spec fn wmic_step(st: (u8, Seq<char>), line: Seq<char>) -> (u8, Seq<char>) {
    if starts_with(line, "EstimatedChargeRemaining="@) {
        (
            match parse_u8_spec(second_part(line, "="@)) {
                Some(v) => v,
                None => 0,
            },
            st.1,
        )
    } else if starts_with(line, "BatteryStatus="@) {
        (st.0, wmic_status(second_part(line, "="@)))
    } else {
        st
    }
}

/// The percentage and status after the given lines, read in order from 0 and
/// `Unknown`.
pub open spec fn wmic_fold(ls: Seq<Seq<char>>) -> (u8, Seq<char>)
    decreases ls.len(),
{
    if ls.len() == 0 {
        (0, "Unknown"@)
    } else {
        wmic_step(wmic_fold(ls.drop_last()), trim(ls.last()))
    }
}

/// Whether a `wmic` status means that power is connected.
pub open spec fn wmic_plugged(status: Seq<char>) -> Seq<char> {
    if contains(status, "Charging"@) || contains(status, "AC"@) {
        "Plugged"@
    } else {
        "Unplugged"@
    }
}

/// The status for one `BatteryStatus` code.
fn status_for_code(code: &[char]) -> (r: String)
    ensures
        r@ == wmic_status(code@),
{
    if code.len() == 1 {
        let c = code[0];
        if c == '1' {
            String::from_str("Discharging")
        } else if c == '2' {
            String::from_str("AC/Plugged In")
        } else if c == '3' {
            String::from_str("Fully Charged")
        } else if c == '4' || c == '5' {
            String::from_str("Low/Critical")
        } else if '6' <= c && c <= '9' {
            String::from_str("Charging")
        } else {
            String::from_str("Unknown")
        }
    } else {
        String::from_str("Unknown")
    }
}

/// The battery from the text that `wmic path Win32_Battery get
/// EstimatedChargeRemaining,BatteryStatus /format:list` printed: `None` where
/// it does not mention `EstimatedChargeRemaining`. Health, current and time
/// remaining are not reported there.
pub fn wmic_battery(out: &str) -> (r: Option<BatteryReading>)
    ensures
        r is None <==> !contains(out@, "EstimatedChargeRemaining"@),
        r matches Some(b) ==> {
            let st = wmic_fold(lines(out@));
            &&& b.percentage == st.0
            &&& b.status@ == st.1
            &&& b.plugged@ == wmic_plugged(st.1)
            &&& b.health@ == "N/A"@
            &&& b.current_ua == 0
            &&& b.time_remaining@ == "N/A"@
        },
{
    let text = chars_of(out);
    let key = chars_of("EstimatedChargeRemaining");
    if !contains_in(text.as_slice(), key.as_slice()) {
        return None;
    }
    let pct_key = chars_of("EstimatedChargeRemaining=");
    let status_key = chars_of("BatteryStatus=");
    let eq = chars_of("=");
    let ls = split_lines(text.as_slice());
    let mut pct: u8 = 0;
    let mut status = String::from_str("Unknown");
    let mut i: usize = 0;
    while i < ls.len()
        invariant
            i <= ls@.len(),
            views(ls@) == lines(out@),
            text@ == out@,
            pct_key@ == "EstimatedChargeRemaining="@,
            status_key@ == "BatteryStatus="@,
            eq@ == "="@,
            (pct, status@) == wmic_fold(views(ls@).take(i as int)),
        decreases ls@.len() - i,
    {
        let line = trimmed(ls[i].as_slice());
        if starts_with_in(line.as_slice(), pct_key.as_slice()) {
            let v = second_part_of(line.as_slice(), eq.as_slice());
            pct = match parse_u8(v.as_slice()) {
                Some(x) => x,
                None => 0,
            };
        } else if starts_with_in(line.as_slice(), status_key.as_slice()) {
            let v = second_part_of(line.as_slice(), eq.as_slice());
            status = status_for_code(v.as_slice());
        }
        assert(views(ls@).take(i + 1).drop_last() =~= views(ls@).take(i as int));
        i = i + 1;
    }
    assert(views(ls@).take(ls@.len() as int) =~= views(ls@));
    let s_cs = chars_of(status.as_str());
    let charging = chars_of("Charging");
    let ac = chars_of("AC");
    let plugged = if contains_in(s_cs.as_slice(), charging.as_slice()) || contains_in(
        s_cs.as_slice(),
        ac.as_slice(),
    ) {
        String::from_str("Plugged")
    } else {
        String::from_str("Unplugged")
    };
    Some(
        BatteryReading {
            percentage: pct,
            status,
            health: String::from_str("N/A"),
            plugged,
            current_ua: 0,
            time_remaining: String::from_str("N/A"),
        },
    )
}

/// Whether `b` is the reading for a machine without a battery: full, on mains
/// power, with no end.
pub open spec fn is_mains(b: BatteryReading) -> bool {
    &&& b.percentage == 100
    &&& b.status@ == "AC Mains"@
    &&& b.health@ == "Optimal"@
    &&& b.plugged@ == "Direct/Wall"@
    &&& b.current_ua == 0
    &&& b.time_remaining@ == "Infinite"@
}

/// The reading for a machine without a battery.
pub fn mains_power() -> (b: BatteryReading)
    ensures
        is_mains(b),
{
    BatteryReading {
        percentage: 100,
        status: String::from_str("AC Mains"),
        health: String::from_str("Optimal"),
        plugged: String::from_str("Direct/Wall"),
        current_ua: 0,
        time_remaining: String::from_str("Infinite"),
    }
}

} // verus!
