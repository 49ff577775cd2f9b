//! The text that the panels of the monitor show, apart from the drawing: the
//! sidebar titles, the hardware line, the CPU frequency summary, a battery
//! status's tone, the details of a file row, the settings' values, cut names and
//! the dot leaders between a label and its value.
use vstd::prelude::*;
use vstd::string::{StringExecFns, StringSliceAdditionalSpecFns};
use crate::app::{tab_at, tab_label, Tab, TAB_COUNT};
use crate::device::DeviceInfo;
use crate::explorer::FileEntry;
use crate::settings::Settings;
use crate::text::{
    chars_of, contains, contains_in, decimal, lowercase, push_decimal, same_chars, slice_of, string_of,
    to_lowercase, to_uppercase, uppercase,
};
use crate::utils::{bytes_text, fmt_bytes};

verus! {

/// The line of the hardware panel: the maker and the model, upper-cased and
/// joined by a space.
pub fn hardware_label(d: &DeviceInfo) -> (r: String)
    ensures
        r@ == uppercase(d.manufacturer@) + " "@ + uppercase(d.model@),
{
    let mut r = to_uppercase(d.manufacturer.as_str());
    r.append(" ");
    let m = to_uppercase(d.model.as_str());
    r.append(m.as_str());
    r
}

/// The rows of the sidebar, in tab order: whether the row is the current tab,
/// and its title upper-cased.
pub fn sidebar_rows(current: Tab) -> (rows: Vec<(bool, String)>)
    ensures
        rows@.len() == 8,
        forall|i: int|
            0 <= i < 8 ==> (#[trigger] rows@[i]).0 == (tab_at(i as nat) == current) && rows@[i].1@
                == uppercase(tab_label(tab_at(i as nat))),
{
    let mut rows: Vec<(bool, String)> = Vec::new();
    let mut i: usize = 0;
    while i < TAB_COUNT
        invariant
            i <= 8,
            TAB_COUNT == 8,
            rows@.len() == i,
            forall|j: int|
                0 <= j < i ==> (#[trigger] rows@[j]).0 == (tab_at(j as nat) == current)
                    && rows@[j].1@ == uppercase(tab_label(tab_at(j as nat))),
        decreases 8 - i,
    {
        let t = Tab::at(i);
        let title = to_uppercase(t.label());
        rows.push((t == current, title));
        i = i + 1;
    }
    rows
}

/// How a battery status is coloured: charging, full, or anything else.
#[derive(Clone, Copy, PartialEq, Eq, Structural, Debug)]
pub enum StatusTone {
    Charging,
    Full,
    Other,
}

/// The tone of a status: `Charging` where its lower-cased text holds `charg`,
/// else `Full` where it holds `full`, else `Other`.
pub open spec fn tone_of(status: Seq<char>) -> StatusTone {
    if contains(lowercase(status), "charg"@) {
        StatusTone::Charging
    } else if contains(lowercase(status), "full"@) {
        StatusTone::Full
    } else {
        StatusTone::Other
    }
}

/// The tone in which the battery panel shows a status.
pub fn status_tone(status: &str) -> (t: StatusTone)
    ensures
        t == tone_of(status@),
{
    let low = to_lowercase(status);
    let cs = chars_of(low.as_str());
    let charg = chars_of("charg");
    let full = chars_of("full");
    if contains_in(cs.as_slice(), charg.as_slice()) {
        StatusTone::Charging
    } else if contains_in(cs.as_slice(), full.as_slice()) {
        StatusTone::Full
    } else {
        StatusTone::Other
    }
}

/// The sum of the frequencies.
pub open spec fn freq_sum(f: Seq<u64>) -> int
    decreases f.len(),
{
    if f.len() == 0 {
        0
    } else {
        freq_sum(f.drop_last()) + f.last()
    }
}

/// The highest of the frequencies, 0 for none.
pub open spec fn freq_max(f: Seq<u64>) -> u64
    decreases f.len(),
{
    if f.len() == 0 {
        0
    } else if freq_max(f.drop_last()) < f.last() {
        f.last()
    } else {
        freq_max(f.drop_last())
    }
}

/// `<n> MHz`, or `N/A` where there is no frequency.
pub open spec fn mhz_text(present: bool, n: nat) -> Seq<char> {
    if present {
        decimal(n) + " MHz"@
    } else {
        "N/A"@
    }
}

proof fn lemma_freq_sum_grows(f: Seq<u64>, n: int)
    requires
        0 <= n <= f.len(),
    ensures
        freq_sum(f.take(n)) <= freq_sum(f),
        0 <= freq_sum(f.take(n)),
    decreases f.len() - n,
{
    if n < f.len() {
        lemma_freq_sum_grows(f, n + 1);
        assert(f.take(n + 1).drop_last() =~= f.take(n));
    } else {
        assert(f.take(n) =~= f);
    }
    lemma_freq_sum_nonneg(f.take(n));
}

proof fn lemma_freq_sum_nonneg(f: Seq<u64>)
    ensures
        0 <= freq_sum(f),
    decreases f.len(),
{
    if f.len() > 0 {
        lemma_freq_sum_nonneg(f.drop_last());
    }
}

/// The average and the highest core frequency as the CPU panel shows them:
/// `<n> MHz` (the average rounded down), or `N/A` for both where there is no
/// core. The frequencies must sum to at most `u64::MAX`.
pub fn freq_texts(freqs: &[u64]) -> (r: (String, String))
    requires
        freq_sum(freqs@) <= u64::MAX,
    ensures
        r.0@ == mhz_text(freqs@.len() > 0, if freqs@.len() > 0 {
            (freq_sum(freqs@) / (freqs@.len() as int)) as nat
        } else {
            0
        }),
        r.1@ == mhz_text(freqs@.len() > 0, freq_max(freqs@) as nat),
{
    if freqs.len() == 0 {
        return (String::from_str("N/A"), String::from_str("N/A"));
    }
    let mut sum: u64 = 0;
    let mut max: u64 = 0;
    let mut i: usize = 0;
    while i < freqs.len()
        invariant
            i <= freqs@.len(),
            freq_sum(freqs@) <= u64::MAX,
            sum == freq_sum(freqs@.take(i as int)),
            max == freq_max(freqs@.take(i as int)),
        decreases freqs@.len() - i,
    {
        let ghost f = freqs@;
        assert(f.take(i + 1).drop_last() =~= f.take(i as int));
        assert(f.take(i + 1).last() == f[i as int]);
        proof {
            lemma_freq_sum_grows(f, i + 1);
        }
        sum = sum + freqs[i];
        if max < freqs[i] {
            max = freqs[i];
        }
        i = i + 1;
    }
    assert(freqs@.take(freqs@.len() as int) =~= freqs@);
    let n = freqs.len() as u64;
    let mut avg = String::new();
    push_decimal(&mut avg, sum / n);
    avg.append(" MHz");
    let mut top = String::new();
    push_decimal(&mut top, max);
    top.append(" MHz");
    (avg, top)
}

/// What a row of the file explorer shows after the name: ` (<n> items)` for a
/// directory other than `..`, nothing for `..`, and ` (<size>)` for a file.
pub open spec fn entry_detail_text(e: FileEntry) -> Seq<char> {
    if e.is_dir {
        if e.name@ != ".."@ {
            " ("@ + decimal(e.count as nat) + " items)"@
        } else {
            ""@
        }
    } else {
        " ("@ + bytes_text(e.size as nat) + ")"@
    }
}

/// The details that a row of the file explorer shows after the name.
pub fn entry_detail(e: &FileEntry) -> (r: String)
    ensures
        r@ == entry_detail_text(*e),
{
    if e.is_dir {
        let name = chars_of(e.name.as_str());
        let up = chars_of("..");
        if !same_chars(name.as_slice(), up.as_slice()) {
            let mut r = String::from_str(" (");
            push_decimal(&mut r, e.count as u64);
            r.append(" items)");
            r
        } else {
            proof {
                reveal_strlit("");
            }
            String::from_str("")
        }
    } else {
        let mut r = String::from_str(" (");
        let b = fmt_bytes(e.size);
        r.append(b.as_str());
        r.append(")");
        r
    }
}

/// The values of the two settings rows: `<refresh> ms` and `<capacity> mAh`.
pub fn setting_values(s: &Settings) -> (r: (String, String))
    ensures
        r.0@ == decimal(s.refresh_ms as nat) + " ms"@,
        r.1@ == decimal(s.battery_mah as nat) + " mAh"@,
{
    let mut refresh = String::new();
    push_decimal(&mut refresh, s.refresh_ms);
    refresh.append(" ms");
    let mut cap = String::new();
    push_decimal(&mut cap, s.battery_mah as u64);
    cap.append(" mAh");
    (refresh, cap)
}

/// The first `n` characters of `s` (all of them where it has fewer), as the
/// process table cuts names and states.
pub fn first_chars(s: &str, n: usize) -> (r: String)
    ensures
        r@ == s@.take(if n < s@.len() { n as int } else { s@.len() as int }),
{
    let cs = chars_of(s);
    let k = if n < cs.len() { n } else { cs.len() };
    let part = slice_of(cs.as_slice(), 0, k);
    assert(part@ =~= s@.take(k as int));
    string_of(part.as_slice())
}

/// The swap line of the memory panel: used and total, each as `fmt_bytes`
/// writes it, joined by ` / `.
pub fn swap_text(used: u64, total: u64) -> (r: String)
    ensures
        r@ == bytes_text(used as nat) + " / "@ + bytes_text(total as nat),
{
    let mut r = fmt_bytes(used);
    r.append(" / ");
    let t = fmt_bytes(total);
    r.append(t.as_str());
    r
}

/// The number of dots between a label and its value on a row `width` cells
/// wide: the width less both texts' lengths in bytes and two, or none where
/// they fill it.
pub fn dots_needed(width: u16, label: &str, value: &str) -> (n: usize)
    requires
        label.spec_bytes().len() + value.spec_bytes().len() + 2 <= usize::MAX,
    ensures
        n == (if width as int > label.spec_bytes().len() + value.spec_bytes().len() + 2 {
            width as int - (label.spec_bytes().len() + value.spec_bytes().len() + 2)
        } else {
            0
        }),
{
    let used = label.len() + value.len() + 2;
    (width as usize).saturating_sub(used)
}

} // verus!
