use vstd::prelude::*;

verus! {

/// Status of a swap device (file or partition).
#[derive(Debug, Clone, Default)]
pub struct SwapStatus {
    pub active: bool,
    pub path: String,
    pub size_bytes: u64,
    pub used_bytes: u64,
    pub priority: i32,
}

/// A zswap configuration snapshot.
#[derive(Debug, Clone, Default)]
pub struct ZswapConfig {
    pub enabled: bool,
    pub compressor: String,
    pub max_pool_percent: u8,
    pub accept_threshold_percent: u8,
    pub shrinker_enabled: bool,
}

/// Runtime statistics for zswap (from debugfs, only when enabled).
#[derive(Debug, Clone, Default)]
pub struct ZswapStats {
    pub stored_pages: u64,
    pub stored_bytes: u64,
    pub pool_total_size: u64,
    pub pool_limit_hit: u64,
    pub written_back_pages: u64,
    pub rejected_compress_poor: u64,
    pub rejected_kmemcache_fail: u64,
}

/// A zram block device.
#[derive(Debug, Clone, Default)]
pub struct ZramDevice {
    /// Device name, e.g. `zram0`.
    pub name: String,
    pub size_bytes: u64,
    pub used_bytes: u64,
    /// Compressed size in RAM.
    pub compr_data_size: u64,
    /// Original, uncompressed size.
    pub orig_data_size: u64,
    /// Total memory used (metadata and compressed data).
    pub mem_used_total: u64,
    pub comp_algorithm: String,
    pub swap_priority: i32,
}

/// State of the hibernation subsystem.
#[derive(Debug, Clone, Default)]
pub struct HibernationStatus {
    /// `/sys/power/state` lists `disk`.
    pub system_supports: bool,
    /// `/sys/power/disk` does not start with `[disabled]`.
    pub enabled: bool,
    /// `resume=` argument of the kernel command line.
    pub resume_device: Option<String>,
    /// `resume_offset=` argument of the kernel command line (swap file case).
    pub resume_offset: Option<u64>,
    /// `RESUME=` of `/etc/initramfs-tools/conf.d/resume`.
    pub initramfs_resume: Option<String>,
}

/// Memory overview used by the dashboard.
#[derive(Debug, Clone, Default)]
pub struct MemoryOverview {
    pub total_ram_bytes: u64,
    pub available_ram_bytes: u64,
    pub swap_total_bytes: u64,
    pub swap_used_bytes: u64,
    pub zswap_enabled: bool,
    pub zram_devices: Vec<ZramDevice>,
    pub hibernation: HibernationStatus,
}

/// Scene presets for one-click configuration.
#[derive(Debug, Clone, Copy, PartialEq, Eq, Structural)]
pub enum Preset {
    Performance,
    Balanced,
    MemorySaver,
    Custom,
}

/// The swappiness that a preset stands for (`Custom` has none and reads 0).
pub open spec fn preset_swappiness(p: Preset) -> u8 {
    match p {
        Preset::Performance => 1,
        Preset::Balanced => 10,
        Preset::MemorySaver => 60,
        Preset::Custom => 0,
    }
}

/// The preset that a swappiness value matches.
pub open spec fn preset_of_swappiness(v: u8) -> Preset {
    if v == 1 {
        Preset::Performance
    } else if v == 10 {
        Preset::Balanced
    } else if v == 60 {
        Preset::MemorySaver
    } else {
        Preset::Custom
    }
}

impl Preset {
    pub fn swappiness(&self) -> (v: u8)
        ensures
            v == preset_swappiness(*self),
    {
        match self {
            Preset::Performance => 1,
            Preset::Balanced => 10,
            Preset::MemorySaver => 60,
            Preset::Custom => 0,
        }
    }

    pub fn from_swappiness(v: u8) -> (p: Preset)
        ensures
            p == preset_of_swappiness(v),
    {
        match v {
            1 => Preset::Performance,
            10 => Preset::Balanced,
            60 => Preset::MemorySaver,
            _ => Preset::Custom,
        }
    }
}

/// Reading back the swappiness of a preset gives the preset again.
pub proof fn lemma_preset_round_trip(p: Preset)
    ensures
        preset_of_swappiness(preset_swappiness(p)) == p,
{
}

/// A swappiness value that some preset stands for maps back to itself.
pub proof fn lemma_swappiness_round_trip(v: u8)
    requires
        v == 1 || v == 10 || v == 60 || v == 0,
    ensures
        preset_swappiness(preset_of_swappiness(v)) == v,
{
}

} // verus!
