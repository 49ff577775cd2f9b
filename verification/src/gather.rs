//! How one round of collection combines its sources: the CPU fallback to the
//! kernel's frequency files, the storage and network totals, the address shown,
//! the uptime fallback and the order in which battery sources are tried.
use vstd::prelude::*;
use vstd::string::StringExecFns;
use crate::battery::BatteryReading;
use crate::collector::Fault;

verus! {

/// What the CPU panel shows but the usage percentages: the number of cores,
/// the model name and each core's frequency in MHz.
#[derive(Clone, Debug)]
pub struct CpuSummary {
    pub count: usize,
    pub model: String,
    pub freq_mhz: Vec<u64>,
}

/// Whether the system's CPU report is blocked: no core, or no frequency that
/// is not zero.
pub open spec fn cpu_blocked(count: usize, freqs: Seq<u64>) -> bool {
    count == 0 || forall|i: int| 0 <= i < freqs.len() ==> freqs[i] == 0
}

/// Whether the system's CPU report is blocked, so that the kernel's frequency
/// files should be read.
pub fn needs_cpu_fallback(cpu: &CpuSummary) -> (b: bool)
    ensures
        b == cpu_blocked(cpu.count, cpu.freq_mhz@),
{
    if cpu.count == 0 {
        return true;
    }
    let mut i: usize = 0;
    while i < cpu.freq_mhz.len()
        invariant
            i <= cpu.freq_mhz@.len(),
            cpu.count != 0,
            forall|j: int| 0 <= j < i ==> cpu.freq_mhz@[j] == 0,
        decreases cpu.freq_mhz@.len() - i,
    {
        if cpu.freq_mhz[i] != 0 {
            assert(cpu.freq_mhz@[i as int] != 0);
            return false;
        }
        i = i + 1;
    }
    true
}

/// Takes the frequencies read from the kernel's files, one per core found
/// there: where any core was found, the count and frequencies become theirs and
/// an empty model is named `ARM CPU (Hardware Fallback)`; where none was,
/// nothing changes. Returns whether the fallback was taken.
pub fn apply_cpu_fallback(cpu: &mut CpuSummary, hw_freqs: Vec<u64>) -> (taken: bool)
    ensures
        taken == (hw_freqs@.len() > 0),
        taken ==> {
            &&& final(cpu).count == hw_freqs@.len()
            &&& final(cpu).freq_mhz@ == hw_freqs@
            &&& final(cpu).model@ == (if old(cpu).model@.len() == 0 {
                "ARM CPU (Hardware Fallback)"@
            } else {
                old(cpu).model@
            })
        },
        !taken ==> *final(cpu) == *old(cpu),
{
    if hw_freqs.len() == 0 {
        return false;
    }
    cpu.count = hw_freqs.len();
    cpu.freq_mhz = hw_freqs;
    if cpu.model.as_str().is_empty() {
        cpu.model = String::from_str("ARM CPU (Hardware Fallback)");
    }
    true
}

/// The total size of the disks `(total, available)` listed first.
pub open spec fn disks_total(ds: Seq<(u64, u64)>) -> int
    decreases ds.len(),
{
    if ds.len() == 0 {
        0
    } else {
        disks_total(ds.drop_last()) + ds.last().0
    }
}

/// The total available space of the disks.
pub open spec fn disks_free(ds: Seq<(u64, u64)>) -> int
    decreases ds.len(),
{
    if ds.len() == 0 {
        0
    } else {
        disks_free(ds.drop_last()) + ds.last().1
    }
}

/// The total used space of the disks: each one's size less its available space.
pub open spec fn disks_used(ds: Seq<(u64, u64)>) -> int
    decreases ds.len(),
{
    if ds.len() == 0 {
        0
    } else {
        disks_used(ds.drop_last()) + (ds.last().0 - ds.last().1)
    }
}

/// Whether some disk reports more space available than it has.
pub open spec fn disk_overfull(ds: Seq<(u64, u64)>) -> bool {
    exists|i: int| 0 <= i < ds.len() && ds[i].1 > ds[i].0
}

/// The storage totals `(total, used, free)` over the disks.
pub open spec fn storage_spec(ds: Seq<(u64, u64)>) -> Result<(u64, u64, u64), Fault> {
    if disk_overfull(ds) || disks_total(ds) > u64::MAX || disks_used(ds) > u64::MAX
        || disks_free(ds) > u64::MAX {
        Err(Fault)
    } else {
        Ok((disks_total(ds) as u64, disks_used(ds) as u64, disks_free(ds) as u64))
    }
}

proof fn lemma_disk_sums_grow(ds: Seq<(u64, u64)>, n: int)
    requires
        0 <= n <= ds.len(),
        !disk_overfull(ds),
    ensures
        disks_total(ds.take(n)) <= disks_total(ds),
        disks_used(ds.take(n)) <= disks_used(ds),
        disks_free(ds.take(n)) <= disks_free(ds),
        0 <= disks_used(ds.take(n)),
    decreases ds.len() - n,
{
    if n < ds.len() {
        lemma_disk_sums_grow(ds, n + 1);
        assert(ds.take(n + 1).drop_last() =~= ds.take(n));
    } else {
        assert(ds.take(n) =~= ds);
    }
    lemma_used_nonneg(ds.take(n), ds);
}

proof fn lemma_used_nonneg(part: Seq<(u64, u64)>, ds: Seq<(u64, u64)>)
    requires
        forall|i: int| 0 <= i < part.len() ==> #[trigger] part[i].1 <= part[i].0,
    ensures
        0 <= disks_used(part),
    decreases part.len(),
{
    if part.len() > 0 {
        lemma_used_nonneg(part.drop_last(), ds);
    }
}

proof fn lemma_used_plus_free(ds: Seq<(u64, u64)>)
    ensures
        disks_used(ds) + disks_free(ds) == disks_total(ds),
    decreases ds.len(),
{
    if ds.len() > 0 {
        lemma_used_plus_free(ds.drop_last());
    }
}

/// Storage totals that can be read add up: the used and the free space make the
/// total, so neither exceeds it.
pub proof fn lemma_storage_adds_up(ds: Seq<(u64, u64)>)
    ensures
        storage_spec(ds) matches Ok((t, u, f)) ==> u + f == t && u <= t && f <= t,
{
    lemma_used_plus_free(ds);
    if !disk_overfull(ds) {
        lemma_used_nonneg(ds, ds);
        lemma_free_nonneg(ds);
    }
}

proof fn lemma_free_nonneg(ds: Seq<(u64, u64)>)
    ensures
        0 <= disks_free(ds),
    decreases ds.len(),
{
    if ds.len() > 0 {
        lemma_free_nonneg(ds.drop_last());
    }
}

/// The storage totals `(total, used, free)` over the disks `(total, available)`:
/// a fault where a disk has more available than in all, or a total overflows.
pub fn storage_totals(disks: &[(u64, u64)]) -> (r: Result<(u64, u64, u64), Fault>)
    ensures
        r == storage_spec(disks@),
{
    let mut t: u64 = 0;
    let mut u: u64 = 0;
    let mut f: u64 = 0;
    let mut i: usize = 0;
    while i < disks.len()
        invariant
            i <= disks@.len(),
            t == disks_total(disks@.take(i as int)),
            u == disks_used(disks@.take(i as int)),
            f == disks_free(disks@.take(i as int)),
            forall|j: int| 0 <= j < i ==> #[trigger] disks@[j].1 <= disks@[j].0,
        decreases disks@.len() - i,
    {
        let (dt, da) = disks[i];
        let ghost ds = disks@;
        assert(ds.take(i + 1).drop_last() =~= ds.take(i as int));
        assert(ds.take(i + 1).last() == ds[i as int]);
        if da > dt {
            assert(disk_overfull(ds));
            return Err(Fault);
        }
        let nt = t.checked_add(dt);
        let nu = u.checked_add(dt - da);
        let nf = f.checked_add(da);
        match (nt, nu, nf) {
            (Some(a), Some(b), Some(c)) => {
                t = a;
                u = b;
                f = c;
            },
            _ => {
                proof {
                    if !disk_overfull(ds) {
                        lemma_disk_sums_grow(ds, i + 1);
                    }
                }
                return Err(Fault);
            },
        }
        i = i + 1;
    }
    assert(disks@.take(disks@.len() as int) =~= disks@);
    assert(!disk_overfull(disks@));
    Ok((t, u, f))
}

/// The bytes sent over the interfaces `(sent, received)`, together.
pub open spec fn sent_total(ns: Seq<(u64, u64)>) -> int
    decreases ns.len(),
{
    if ns.len() == 0 {
        0
    } else {
        sent_total(ns.drop_last()) + ns.last().0
    }
}

/// The bytes received over the interfaces, together.
pub open spec fn received_total(ns: Seq<(u64, u64)>) -> int
    decreases ns.len(),
{
    if ns.len() == 0 {
        0
    } else {
        received_total(ns.drop_last()) + ns.last().1
    }
}

proof fn lemma_net_sums_grow(ns: Seq<(u64, u64)>, n: int)
    requires
        0 <= n <= ns.len(),
    ensures
        sent_total(ns.take(n)) <= sent_total(ns),
        received_total(ns.take(n)) <= received_total(ns),
    decreases ns.len() - n,
{
    if n < ns.len() {
        lemma_net_sums_grow(ns, n + 1);
        assert(ns.take(n + 1).drop_last() =~= ns.take(n));
    } else {
        assert(ns.take(n) =~= ns);
    }
}

/// The bytes `(sent, received)` over all interfaces `(sent, received)`: a fault
/// where a total overflows.
pub fn network_totals(ifaces: &[(u64, u64)]) -> (r: Result<(u64, u64), Fault>)
    ensures
        sent_total(ifaces@) <= u64::MAX && received_total(ifaces@) <= u64::MAX ==> r == Ok::<
            (u64, u64),
            Fault,
        >((sent_total(ifaces@) as u64, received_total(ifaces@) as u64)),
        sent_total(ifaces@) > u64::MAX || received_total(ifaces@) > u64::MAX ==> r is Err,
{
    let mut s: u64 = 0;
    let mut rv: u64 = 0;
    let mut i: usize = 0;
    while i < ifaces.len()
        invariant
            i <= ifaces@.len(),
            s == sent_total(ifaces@.take(i as int)),
            rv == received_total(ifaces@.take(i as int)),
        decreases ifaces@.len() - i,
    {
        let (a, b) = ifaces[i];
        let ghost ns = ifaces@;
        assert(ns.take(i + 1).drop_last() =~= ns.take(i as int));
        assert(ns.take(i + 1).last() == ns[i as int]);
        match (s.checked_add(a), rv.checked_add(b)) {
            (Some(x), Some(y)) => {
                s = x;
                rv = y;
            },
            _ => {
                proof {
                    lemma_net_sums_grow(ns, i + 1);
                }
                return Err(Fault);
            },
        }
        i = i + 1;
    }
    assert(ifaces@.take(ifaces@.len() as int) =~= ifaces@);
    Ok((s, rv))
}

/// Whether counters `(sent, received)` show traffic.
pub open spec fn shows_traffic(t: (u64, u64)) -> bool {
    t.0 > 0 || t.1 > 0
}

/// The counters `(sent, received)` the monitor shows: the system's where they
/// show traffic, else the first of `/proc/net/dev`, `ip -s link` and
/// `ifconfig` (each `None` where it was not read) that shows traffic, else the
/// system's zeros.
pub open spec fn first_traffic(
    sys: (u64, u64),
    dev: Option<(u64, u64)>,
    ip: Option<(u64, u64)>,
    ifc: Option<(u64, u64)>,
) -> (u64, u64) {
    if shows_traffic(sys) {
        sys
    } else if dev matches Some(d) && shows_traffic(d) {
        dev.unwrap()
    } else if ip matches Some(t) && shows_traffic(t) {
        ip.unwrap()
    } else if ifc matches Some(c) && shows_traffic(c) {
        ifc.unwrap()
    } else {
        sys
    }
}

/// The counters the monitor shows, from the system's and the fallback sources
/// tried in order.
pub fn chosen_traffic(
    sys: (u64, u64),
    dev: Option<(u64, u64)>,
    ip: Option<(u64, u64)>,
    ifc: Option<(u64, u64)>,
) -> (r: (u64, u64))
    ensures
        r == first_traffic(sys, dev, ip, ifc),
{
    if sys.0 > 0 || sys.1 > 0 {
        return sys;
    }
    if let Some(d) = dev {
        if d.0 > 0 || d.1 > 0 {
            return d;
        }
    }
    if let Some(t) = ip {
        if t.0 > 0 || t.1 > 0 {
            return t;
        }
    }
    if let Some(c) = ifc {
        if c.0 > 0 || c.1 > 0 {
            return c;
        }
    }
    sys
}

/// One address of a network interface, as the system lists it.
pub struct AddrInfo {
    pub loopback: bool,
    pub ipv4: bool,
    pub text: String,
}

/// The first address that is IPv4 and not loopback, `N/A` where there is none.
pub open spec fn first_public_v4(addrs: Seq<AddrInfo>) -> Seq<char>
    decreases addrs.len(),
{
    if addrs.len() == 0 {
        "N/A"@
    } else if !addrs[0].loopback && addrs[0].ipv4 {
        addrs[0].text@
    } else {
        first_public_v4(addrs.drop_first())
    }
}

/// The address the network panel shows: the Wi-Fi address where Termux
/// reported one, else the first listed address that is IPv4 and not loopback,
/// else `N/A`.
pub fn shown_ip(wifi: Option<String>, addrs: &Vec<AddrInfo>) -> (r: String)
    ensures
        r@ == (match wifi {
            Some(w) => w@,
            None => first_public_v4(addrs@),
        }),
{
    match wifi {
        Some(w) => w,
        None => {
            let mut i: usize = 0;
            assert(addrs@.skip(0) =~= addrs@);
            while i < addrs.len()
                invariant
                    i <= addrs@.len(),
                    wifi is None,
                    first_public_v4(addrs@) == first_public_v4(addrs@.skip(i as int)),
                decreases addrs@.len() - i,
            {
                assert(addrs@.skip(i as int).drop_first() =~= addrs@.skip(i + 1));
                assert(addrs@.skip(i as int)[0] == addrs@[i as int]);
                if !addrs[i].loopback && addrs[i].ipv4 {
                    return addrs[i].text.clone();
                }
                i = i + 1;
            }
            String::from_str("N/A")
        },
    }
}

/// The uptime the monitor shows: the system's where it is not zero, else the
/// one read from `uptime` where that gave one, else zero.
pub fn shown_uptime(reported: u64, fallback: Option<u64>) -> (r: u64)
    ensures
        r == (if reported != 0 {
            reported
        } else {
            match fallback {
                Some(v) => v,
                None => 0,
            }
        }),
{
    if reported != 0 {
        reported
    } else {
        match fallback {
            Some(v) => v,
            None => 0,
        }
    }
}

/// The battery reading the monitor shows, from the sources tried in order: the
/// Android power-supply files, then `wmic`, then a Linux laptop's `BAT0`, and
/// mains power where none gave a reading.
pub fn chosen_battery(
    android: Option<BatteryReading>,
    wmic: Option<BatteryReading>,
    linux: Option<BatteryReading>,
) -> (b: BatteryReading)
    ensures
        android matches Some(a) ==> b == a,
        android is None ==> (wmic matches Some(w) ==> b == w),
        android is None && wmic is None ==> (linux matches Some(l) ==> b == l),
        android is None && wmic is None && linux is None ==> crate::battery::is_mains(b),
{
    match android {
        Some(a) => a,
        None => match wmic {
            Some(w) => w,
            None => match linux {
                Some(l) => l,
                None => crate::battery::mains_power(),
            },
        },
    }
}

} // verus!
