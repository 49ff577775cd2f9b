//! What the monitor shows of the device: from Android's system properties
//! where they can be read, else from the operating system's own report.
use vstd::prelude::*;
use vstd::string::StringExecFns;
use crate::battery::{opt_view, text_or};
use crate::text::{chars_of, string_of, trim, trimmed};

verus! {

/// The device's model, system release, architecture, maker and kernel.
#[derive(Clone, Debug)]
pub struct DeviceInfo {
    pub model: String,
    pub android: String,
    pub arch: String,
    pub manufacturer: String,
    pub kernel: String,
}

/// A string holding `s` without its leading and trailing whitespace.
fn trimmed_string(s: &str) -> (r: String)
    ensures
        r@ == trim(s@),
{
    let cs = chars_of(s);
    let t = trimmed(cs.as_slice());
    string_of(t.as_slice())
}

/// Whether the Android properties `ro.product.manufacturer` and
/// `ro.product.model`, as `getprop` printed them, show an Android device: at
/// least one of them is not blank.
pub fn on_android(manufacturer: &str, model: &str) -> (b: bool)
    ensures
        b == (trim(manufacturer@).len() > 0 || trim(model@).len() > 0),
{
    let m = trimmed_string(manufacturer);
    let d = trimmed_string(model);
    !m.as_str().is_empty() || !d.as_str().is_empty()
}

/// The device from what `getprop` printed for the maker, model, release
/// (`ro.build.version.release`) and ABI (`ro.product.cpu.abi`), and what
/// `uname -r` printed, each trimmed; the release reads `Android <release>`.
pub fn android_device(manufacturer: &str, model: &str, release: &str, abi: &str, uname: &str) -> (d:
    DeviceInfo)
    ensures
        d.manufacturer@ == trim(manufacturer@),
        d.model@ == trim(model@),
        d.android@ == "Android "@ + trim(release@),
        d.arch@ == trim(abi@),
        d.kernel@ == trim(uname@),
{
    let mut android = String::from_str("Android ");
    let rel = trimmed_string(release);
    android.append(rel.as_str());
    DeviceInfo {
        model: trimmed_string(model),
        android,
        arch: trimmed_string(abi),
        manufacturer: trimmed_string(manufacturer),
        kernel: trimmed_string(uname),
    }
}

/// The device of a desktop or server: the system's name (`Unknown` where it
/// has none) and version joined by a space and trimmed, the host name as maker
/// (`Localhost` where there is none), no model, the compiled architecture, and
/// the kernel version (empty where there is none).
pub fn desktop_device(
    os_name: Option<&str>,
    os_version: Option<&str>,
    host: Option<&str>,
    arch: &str,
    kernel: Option<&str>,
) -> (d: DeviceInfo)
    ensures
        d.android@ == trim(text_or(opt_view(os_name), "Unknown"@) + " "@ + text_or(
            opt_view(os_version),
            ""@,
        )),
        d.manufacturer@ == text_or(opt_view(host), "Localhost"@),
        d.model@ == ""@,
        d.arch@ == arch@,
        d.kernel@ == text_or(opt_view(kernel), ""@),
{
    let mut full = match os_name {
        Some(n) => String::from_str(n),
        None => String::from_str("Unknown"),
    };
    full.append(" ");
    match os_version {
        Some(v) => full.append(v),
        None => full.append(""),
    }
    DeviceInfo {
        manufacturer: match host {
            Some(h) => String::from_str(h),
            None => String::from_str("Localhost"),
        },
        model: String::from_str(""),
        android: trimmed_string(full.as_str()),
        arch: String::from_str(arch),
        kernel: match kernel {
            Some(k) => String::from_str(k),
            None => String::from_str(""),
        },
    }
}

/// The device the monitor keeps after a new reading: the first reading with a
/// kernel stays; until then each new one replaces it.
pub fn settle_device(current: &mut DeviceInfo, fresh: DeviceInfo)
    ensures
        old(current).kernel@.len() == 0 ==> *final(current) == fresh,
        old(current).kernel@.len() > 0 ==> *final(current) == *old(current),
{
    if current.kernel.as_str().is_empty() {
        *current = fresh;
    }
}

} // verus!
