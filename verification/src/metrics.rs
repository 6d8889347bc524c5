//! Turning a container engine's raw stats sample into the backend metrics
//! message the drone reports.

use vstd::prelude::*;

use crate::protocol::BackendMetricsMessage;
use crate::types::BackendName;

verus! {

/// Cgroup v1 memory counters, as plain values.
#[derive(Clone, Copy, Debug, PartialEq, Eq, Structural)]
pub struct MemoryStatsV1 {
    pub total_active_anon: u64,
    pub total_active_file: u64,
    pub total_rss: u64,
    pub total_cache: u64,
    pub total_unevictable: u64,
    pub total_inactive_anon: u64,
    pub total_inactive_file: u64,
}

/// Cgroup v2 memory counters, as plain values.
#[derive(Clone, Copy, Debug, PartialEq, Eq, Structural)]
pub struct MemoryStatsV2 {
    pub active_anon: u64,
    pub active_file: u64,
    pub kernel_stack: u64,
    pub sock: u64,
    pub slab: u64,
    pub file: u64,
    pub anon: u64,
    pub unevictable: u64,
    pub inactive_anon: u64,
    pub inactive_file: u64,
}

/// Which cgroup flavour a sample carries.
#[derive(Clone, Copy, Debug, PartialEq, Eq, Structural)]
pub enum MemoryStatsKind {
    V1(MemoryStatsV1),
    V2(MemoryStatsV2),
}

/// One raw stats sample from the engine, as plain values.
#[derive(Clone, Copy, Debug, PartialEq, Eq, Structural)]
pub struct ContainerStats {
    pub mem_stats: Option<MemoryStatsKind>,
    pub mem_usage: Option<u64>,
    pub mem_limit: Option<u64>,
    pub cpu_total: u64,
    pub precpu_total: u64,
    pub system_cpu: Option<u64>,
    pub pre_system_cpu: Option<u64>,
}

/// Why a sample cannot be turned into a metrics message.
#[derive(Clone, Copy, Debug, PartialEq, Eq, Structural)]
pub enum MetricsError {
    /// No memory counters in the sample.
    MissingMemoryStats,
    /// No memory usage in the sample.
    MissingMemoryUsage,
    /// No memory limit in the sample.
    MissingMemoryLimit,
    /// A cumulative CPU counter moved backwards.
    CpuWentBackwards,
}

/// Whether a sample's memory arithmetic stays within machine bounds; the
/// counters are byte counts, so a sum that overflows a 64-bit word cannot
/// arise on real hardware.
pub open spec fn stats_arith_ok(stats: ContainerStats) -> bool {
    match (stats.mem_stats, stats.mem_usage) {
        (Some(MemoryStatsKind::V1(v1)), Some(usage)) => {
            &&& v1.total_active_anon + v1.total_active_file <= u64::MAX
            &&& v1.total_rss + v1.total_cache <= u64::MAX
            &&& v1.total_inactive_anon + v1.total_inactive_file <= u64::MAX
            &&& v1.total_inactive_file <= usage
        },
        (Some(MemoryStatsKind::V2(v2)), Some(usage)) => {
            &&& v2.active_anon + v2.active_file <= u64::MAX
            &&& v2.kernel_stack + v2.sock + v2.slab <= u64::MAX
            &&& v2.file + v2.anon + v2.kernel_stack + v2.sock + v2.slab <= u64::MAX
            &&& v2.inactive_anon + v2.inactive_file <= u64::MAX
            &&& v2.inactive_file <= usage
        },
        _ => true,
    }
}

/// The `(total, active, inactive, unevictable, used)` tuple a sample's
/// memory counters reduce to.
pub open spec fn spec_memory_tuple(kind: MemoryStatsKind, usage: u64) -> (int, int, int, int, int) {
    match kind {
        MemoryStatsKind::V1(v1) => (
            v1.total_rss + v1.total_cache,
            v1.total_active_anon + v1.total_active_file,
            v1.total_inactive_anon + v1.total_inactive_file,
            v1.total_unevictable as int,
            usage - v1.total_inactive_file,
        ),
        MemoryStatsKind::V2(v2) => (
            v2.file + v2.anon + (v2.kernel_stack + v2.sock + v2.slab),
            v2.active_anon + v2.active_file,
            v2.inactive_anon + v2.inactive_file,
            v2.unevictable as int,
            usage - v2.inactive_file,
        ),
    }
}

/// Reduce one raw stats sample to a metrics message.
///
/// A sample without memory counters, usage or limit is an error; one
/// without (previous) system CPU is silently skipped, as the engine's
/// first sample has none; cumulative CPU counters that move backwards are
/// an error. Otherwise the message carries the memory tuple and the CPU
/// deltas since the previous sample.
pub fn metrics_message_from_container_stats(stats: &ContainerStats, backend_id: BackendName) -> (r:
    Result<Option<BackendMetricsMessage>, MetricsError>)
    requires
        stats_arith_ok(*stats),
    ensures
        match (stats.mem_stats, stats.mem_usage, stats.mem_limit) {
            (None, _, _) => r == Err::<Option<BackendMetricsMessage>, MetricsError>(
                MetricsError::MissingMemoryStats,
            ),
            (Some(_), None, _) => r == Err::<Option<BackendMetricsMessage>, MetricsError>(
                MetricsError::MissingMemoryUsage,
            ),
            (Some(_), Some(_), None) => r == Err::<Option<BackendMetricsMessage>, MetricsError>(
                MetricsError::MissingMemoryLimit,
            ),
            (Some(kind), Some(usage), Some(limit)) => {
                if stats.system_cpu is None || stats.pre_system_cpu is None {
                    r == Ok::<Option<BackendMetricsMessage>, MetricsError>(None)
                } else if stats.cpu_total < stats.precpu_total || stats.system_cpu->0
                    < stats.pre_system_cpu->0 {
                    r == Err::<Option<BackendMetricsMessage>, MetricsError>(
                        MetricsError::CpuWentBackwards,
                    )
                } else {
                    r matches Ok(Some(m)) && {
                        let (total, active, inactive, unevictable, used) = spec_memory_tuple(
                            kind,
                            usage,
                        );
                        &&& m.backend_id == backend_id
                        &&& m.mem_total == total
                        &&& m.mem_active == active
                        &&& m.mem_inactive == inactive
                        &&& m.mem_unevictable == unevictable
                        &&& m.mem_used == used
                        &&& m.mem_limit == limit
                        &&& m.cpu_used == stats.cpu_total - stats.precpu_total
                        &&& m.sys_cpu == stats.system_cpu->0 - stats.pre_system_cpu->0
                    }
                }
            },
        },
{
    let Some(mem_stats) = stats.mem_stats else {
        return Err(MetricsError::MissingMemoryStats);
    };
    let Some(mem_used_total) = stats.mem_usage else {
        return Err(MetricsError::MissingMemoryUsage);
    };
    let Some(mem_limit) = stats.mem_limit else {
        return Err(MetricsError::MissingMemoryLimit);
    };
    let Some(total_system_cpu) = stats.system_cpu else {
        return Ok(None);
    };
    let Some(prev_system_cpu) = stats.pre_system_cpu else {
        return Ok(None);
    };
    if stats.cpu_total < stats.precpu_total || total_system_cpu < prev_system_cpu {
        return Err(MetricsError::CpuWentBackwards);
    }
    let cpu_used = stats.cpu_total - stats.precpu_total;
    let sys_cpu = total_system_cpu - prev_system_cpu;

    let (mem_total, mem_active, mem_inactive, mem_unevictable, mem_used) = match mem_stats {
        MemoryStatsKind::V1(v1) => {
            let active = v1.total_active_anon + v1.total_active_file;
            let total = v1.total_rss + v1.total_cache;
            let unevictable = v1.total_unevictable;
            let inactive = v1.total_inactive_anon + v1.total_inactive_file;
            let used = mem_used_total - v1.total_inactive_file;
            (total, active, inactive, unevictable, used)
        },
        MemoryStatsKind::V2(v2) => {
            let active = v2.active_anon + v2.active_file;
            let kernel = v2.kernel_stack + v2.sock + v2.slab;
            let total = v2.file + v2.anon + kernel;
            let unevictable = v2.unevictable;
            let inactive = v2.inactive_anon + v2.inactive_file;
            let used = mem_used_total - v2.inactive_file;
            (total, active, inactive, unevictable, used)
        },
    };

    Ok(
        Some(
            BackendMetricsMessage {
                backend_id,
                mem_used,
                mem_total,
                mem_active,
                mem_inactive,
                mem_unevictable,
                mem_limit,
                cpu_used,
                sys_cpu,
            },
        ),
    )
}

} // verus!
