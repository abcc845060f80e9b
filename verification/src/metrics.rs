//! System snapshot assembly: usage percentages with a zero-total guard and
//! disk-space aggregation.
//!
//! Percentages are carried as basis points (hundredths of a percent), so a
//! value of 10000 means 100%. The caller samples raw counters from the OS and
//! hands them in as plain integers; everything computed here is verified.

use vstd::prelude::*;

verus! {

/// Usage as basis points: `used / total * 10000`, rounded down, 0 when
/// `total` is 0, and clamped to 10000 (the quotient exceeds 10000 only when
/// `used > total`, which a consistent sample never shows).
pub open spec fn percent_bp_spec(used: u64, total: u64) -> int {
    if total == 0 {
        0
    } else if used * 10000 / (total as int) > 10000 {
        10000
    } else {
        used * 10000 / (total as int)
    }
}

/// Usage in basis points, with the zero-total guard.
pub fn percent_basis_points(used: u64, total: u64) -> (r: u32)
    ensures
        r == percent_bp_spec(used, total),
        r <= 10000,
        total == 0 ==> r == 0,
{
    if total == 0 {
        0
    } else {
        let q: u128 = (used as u128) * 10000 / (total as u128);
        if q > 10000 {
            10000
        } else {
            q as u32
        }
    }
}

/// One disk's raw counters: total capacity and space still available.
pub struct DiskSample {
    pub total: u64,
    pub avail: u64,
}

/// The space a disk sample reports as used: capacity minus available space,
/// 0 when the probe reports more available than total.
pub open spec fn used_of(d: DiskSample) -> int {
    if d.avail <= d.total {
        d.total - d.avail
    } else {
        0
    }
}

/// Total capacity over a sequence of disk samples, saturating at `u64::MAX`.
pub open spec fn total_disk_spec(disks: Seq<DiskSample>) -> int
    decreases disks.len(),
{
    if disks.len() == 0 {
        0
    } else {
        sat_add_u64(total_disk_spec(disks.drop_last()), disks.last().total as int)
    }
}

/// Used space over a sequence of disk samples, saturating at `u64::MAX`.
pub open spec fn used_disk_spec(disks: Seq<DiskSample>) -> int
    decreases disks.len(),
{
    if disks.len() == 0 {
        0
    } else {
        sat_add_u64(used_disk_spec(disks.drop_last()), used_of(disks.last()))
    }
}

/// Addition on the u64 range that sticks at the maximum instead of wrapping.
pub open spec fn sat_add_u64(a: int, b: int) -> int {
    if a + b > u64::MAX {
        u64::MAX as int
    } else {
        a + b
    }
}

/// One coherent point-in-time view of the host, percentages in basis points.
pub struct SystemSnapshot {
    pub cpu_bp: u32,
    pub total_memory: u64,
    pub used_memory: u64,
    pub memory_bp: u32,
    pub total_disk: u64,
    pub used_disk: u64,
    pub disk_bp: u32,
    pub os_name: String,
    pub host_name: String,
}

/// A snapshot is well formed when every percentage field is within 0–100%.
pub open spec fn snapshot_wf(s: SystemSnapshot) -> bool {
    s.cpu_bp <= 10000 && s.memory_bp <= 10000 && s.disk_bp <= 10000
}

/// Sums capacity and used space over the sampled disks, saturating.
pub fn sum_disks(disks: &Vec<DiskSample>) -> (r: (u64, u64))
    ensures
        r.0 == total_disk_spec(disks@),
        r.1 == used_disk_spec(disks@),
{
    let mut total: u64 = 0;
    let mut used: u64 = 0;
    let mut i: usize = 0;
    while i < disks.len()
        invariant
            i <= disks.len(),
            total == total_disk_spec(disks@.take(i as int)),
            used == used_disk_spec(disks@.take(i as int)),
        decreases disks.len() - i,
    {
        let d_total = disks[i].total;
        let d_used = disks[i].total.saturating_sub(disks[i].avail);
        total = total.saturating_add(d_total);
        used = used.saturating_add(d_used);
        proof {
            assert(disks@.take(i + 1).drop_last() =~= disks@.take(i as int));
            assert(disks@.take(i + 1).last() == disks@[i as int]);
        }
        i = i + 1;
    }
    proof {
        assert(disks@.take(disks@.len() as int) =~= disks@);
    }
    (total, used)
}

/// Builds the snapshot from raw probe readings. Memory and disk percentages
/// are computed here with the zero-total guard; a missing OS or host name
/// degrades to "Unknown" rather than failing.
pub fn build_snapshot(
    cpu_bp: u32,
    total_memory: u64,
    used_memory: u64,
    disks: &Vec<DiskSample>,
    os_name: Option<String>,
    host_name: Option<String>,
) -> (r: SystemSnapshot)
    requires
        cpu_bp <= 10000,
    ensures
        snapshot_wf(r),
        r.cpu_bp == cpu_bp,
        r.total_memory == total_memory,
        r.used_memory == used_memory,
        r.memory_bp == percent_bp_spec(used_memory, total_memory),
        r.total_disk == total_disk_spec(disks@),
        r.used_disk == used_disk_spec(disks@),
        r.disk_bp == percent_bp_spec(r.used_disk, r.total_disk),
        total_memory == 0 ==> r.memory_bp == 0,
        r.os_name@ == (match os_name {
            Some(n) => n@,
            None => "Unknown"@,
        }),
        r.host_name@ == (match host_name {
            Some(n) => n@,
            None => "Unknown"@,
        }),
{
    let (total_disk, used_disk) = sum_disks(disks);
    SystemSnapshot {
        cpu_bp,
        total_memory,
        used_memory,
        memory_bp: percent_basis_points(used_memory, total_memory),
        total_disk,
        used_disk,
        disk_bp: percent_basis_points(used_disk, total_disk),
        os_name: match os_name {
            Some(n) => n,
            None => "Unknown".to_owned(),
        },
        host_name: match host_name {
            Some(n) => n,
            None => "Unknown".to_owned(),
        },
    }
}

} // verus!
