use anduinos_control::swap::advice::{
    apply_ops, batch_outcome, dimm_label, needs_hibernation_warning, read_meminfo,
    recommendation, recommended_swappiness, settings_changed, should_retry_dmidecode,
    swap_size_bounds,
    toggle_swap_decision, zram_size_defaults, zswap_apply_ops, zswap_changed, zswap_recommend,
    MemInfo, Recommendation,
    SwapOp, SwapSettings, SwapToggle, GIB,
};
use anduinos_control::swap::persist::zram_persist_configs;
use anduinos_control::swap::ram_info::{parse_kv, parse_size_to_gb, DimmInfo};
use anduinos_control::swap::sysctl::{read_swappiness, read_sysctl_conf, set_swappiness, SysctlParams};
use anduinos_control::swap::exec::Request;
use anduinos_control::swap::types::{ZramDevice, ZswapConfig};

fn s(x: &str) -> String {
    x.to_string()
}

#[test]
fn swappiness_and_zswap_recommendations() {
    assert_eq!(recommended_swappiness(32 * GIB), 10);
    assert_eq!(recommended_swappiness(16 * GIB), 10);
    assert_eq!(recommended_swappiness(16 * GIB - 1), 30);
    assert_eq!(recommended_swappiness(8 * GIB), 30);
    assert_eq!(recommended_swappiness(4 * GIB), 60);
    assert_eq!(zswap_recommend(4 * GIB), (50, 70));
    assert_eq!(zswap_recommend(4 * GIB + 1), (30, 80));
    assert_eq!(zswap_recommend(16 * GIB), (25, 85));
    assert_eq!(zswap_recommend(64 * GIB), (20, 90));
    assert_eq!(zswap_recommend(128 * GIB), (10, 90));
}

#[test]
fn overview_recommendation() {
    assert_eq!(recommendation(false, true, true), Recommendation::EnableDiskSwap);
    assert_eq!(recommendation(true, false, true), Recommendation::CreateZram);
    assert_eq!(recommendation(true, true, false), Recommendation::EnableZswap);
    assert_eq!(recommendation(true, true, true), Recommendation::Optimal);
    assert_eq!(Recommendation::Optimal.text().0, "Optimal memory configuration");
    assert_eq!(Recommendation::EnableDiskSwap.text().0, "No disk swap detected");
}

#[test]
fn meminfo_overview() {
    let content = "MemTotal:       16000 kB\nMemFree:         1000 kB\nMemAvailable:    8000 kB\nBuffers:          500 kB\nCached:          2500 kB\nSwapCached:        10 kB\n";
    let m = read_meminfo(&Some(s(content)));
    assert_eq!(m, MemInfo { total: 16000 * 1024, used: 12000 * 1024, buffers: 500 * 1024, cached: 2500 * 1024, free: 1000 * 1024 });
    let over = read_meminfo(&Some(s("MemTotal: 1 kB\nMemFree: 5 kB\n")));
    assert_eq!(over.used, 0);
    assert_eq!(read_meminfo(&None), MemInfo { total: 0, used: 0, buffers: 0, cached: 0, free: 0 });
}

#[test]
fn zram_sizes_and_configs() {
    assert_eq!(zram_size_defaults(16 * GIB), (6144, 16384));
    let devices = vec![ZramDevice {
        name: s("zram0"),
        size_bytes: 4 * GIB,
        used_bytes: 0,
        compr_data_size: 0,
        orig_data_size: 0,
        mem_used_total: 0,
        comp_algorithm: s("zstd"),
        swap_priority: 100,
    }];
    assert_eq!(zram_persist_configs(&devices), vec![(4096, s("zstd"), 100)]);
}

fn dimm(size: u32) -> DimmInfo {
    DimmInfo {
        locator: s("DIMM"),
        size_gb: size,
        form_factor: s(""),
        speed_mts: 0,
        manufacturer: s(""),
        part_number: s(""),
    }
}

#[test]
fn dimm_summary_and_dmidecode_fields() {
    assert_eq!(dimm_label(&vec![dimm(0), dimm(16), dimm(16)]), Some(s("2×16GB")));
    assert_eq!(dimm_label(&vec![dimm(0)]), None);
    assert_eq!(parse_kv("Size: 16 GB", "Size:"), Some(s("16 GB")));
    assert_eq!(parse_kv("Size: None", "Size:"), None);
    assert_eq!(parse_kv("Speed:   Unknown ", "Speed:"), None);
    assert_eq!(parse_kv("Locator: DIMM 0", "Size:"), None);
    assert_eq!(parse_size_to_gb("16 GB"), 16);
    assert_eq!(parse_size_to_gb("4096 MB"), 4);
    assert_eq!(parse_size_to_gb("unknown"), 0);
    assert!(should_retry_dmidecode(None, 5));
    assert!(!should_retry_dmidecode(Some(0), 30_000_000_000));
    assert!(should_retry_dmidecode(Some(0), 30_000_000_001));
    assert!(!should_retry_dmidecode(Some(40_000_000_000), 5));
}

fn settings(sw: u8, comp: &str, pool: u8) -> SwapSettings {
    SwapSettings { swappiness: sw, size_gb: 2, compressor: s(comp), pool, threshold: 90, shrinker: true }
}

#[test]
fn applying_swap_settings() {
    let orig = settings(10, "lzo", 20);
    assert!(!settings_changed(&settings(10, "lzo", 20), &orig));
    assert!(settings_changed(&settings(10, "zstd", 20), &orig));
    let ops = apply_ops(&settings(30, "zstd", 20), &orig);
    assert_eq!(ops.len(), 3);
    assert_eq!(ops[0].label(), "Swappiness");
    assert_eq!(ops[1].label(), "Resize");
    match &ops[2] {
        SwapOp::Compressor(c) => assert_eq!(c, "zstd"),
        _ => panic!("expected the compressor change"),
    }
    assert_eq!(batch_outcome(&vec![(s("Pool"), Ok(s("")))]), Ok(()));
    assert_eq!(
        batch_outcome(&vec![(s("Swappiness"), Err(s("denied"))), (s("Resize"), Ok(s(""))), (s("Pool"), Err(s("bad")))]),
        Err(s("Swappiness: denied\nPool: bad"))
    );
    assert_eq!(toggle_swap_decision(true, true, true), SwapToggle::Nothing);
    assert_eq!(toggle_swap_decision(false, true, true), SwapToggle::ConfirmDisable);
    assert_eq!(toggle_swap_decision(false, true, false), SwapToggle::Disable);
    assert_eq!(toggle_swap_decision(true, false, true), SwapToggle::Enable);
    assert!(needs_hibernation_warning(true, 8, 16 * GIB));
    assert!(!needs_hibernation_warning(true, 16, 16 * GIB));
    assert!(!needs_hibernation_warning(false, 1, 16 * GIB));
}

#[test]
fn sysctl_file_round_trip() {
    let mut params = SysctlParams::new();
    params.insert(s("vm.swappiness"), s("10"));
    params.insert(s("vm.vfs_cache_pressure"), s("50"));
    params.insert(s("vm.swappiness"), s("20"));
    let update = set_swappiness(35, params);
    let written = match update.persist {
        Request::WriteFile { value, .. } => value,
        _ => panic!("expected a file write"),
    };
    // The helper writes the text and a newline.
    let back = read_sysctl_conf(Some(format!("{}\n", written)));
    assert_eq!(back.len(), 2);
    assert_eq!(back.get("vm.swappiness"), Some(s("35")));
    assert_eq!(back.get("vm.vfs_cache_pressure"), Some(s("50")));
}

#[test]
fn swappiness_read_back() {
    for n in [0u8, 1, 10, 60, 100, 255] {
        assert_eq!(read_swappiness(Ok(format!("{}\n", n))), Ok(n));
    }
}

fn zswap_cfg(enabled: bool, comp: &str, pool: u8, thr: u8, shrink: bool) -> ZswapConfig {
    ZswapConfig {
        enabled,
        compressor: s(comp),
        max_pool_percent: pool,
        accept_threshold_percent: thr,
        shrinker_enabled: shrink,
    }
}

#[test]
fn zswap_page_changes_and_ops() {
    let orig = zswap_cfg(true, "lzo-rle", 20, 90, true);
    assert!(!zswap_changed(&zswap_cfg(false, "lzo-rle", 20, 90, true), &orig));
    assert!(zswap_changed(&zswap_cfg(true, "zstd", 20, 90, true), &orig));
    assert!(zswap_changed(&zswap_cfg(true, "lzo-rle", 25, 90, true), &orig));
    assert!(zswap_changed(&zswap_cfg(true, "lzo-rle", 20, 80, true), &orig));
    assert!(zswap_changed(&zswap_cfg(true, "lzo-rle", 20, 90, false), &orig));
    let ops = zswap_apply_ops(&zswap_cfg(true, "zstd", 30, 80, false));
    let labels: Vec<&str> = ops.iter().map(|o| o.label()).collect();
    assert_eq!(labels, vec!["Compressor", "Pool", "Threshold", "Shrinker"]);
    match (&ops[0], &ops[1], &ops[2], &ops[3]) {
        (SwapOp::Compressor(c), SwapOp::Pool(30), SwapOp::Threshold(80), SwapOp::Shrinker(false)) => {
            assert_eq!(c, "zstd")
        }
        _ => panic!("unexpected zswap operations"),
    }
}

#[test]
fn swap_size_slider_bounds() {
    assert_eq!(swap_size_bounds(16 * GIB, false), (1, 16, 64));
    assert_eq!(swap_size_bounds(16 * GIB, true), (17, 16, 64));
    assert_eq!(swap_size_bounds(40 * GIB + 5, true), (41, 40, 80));
    assert_eq!(swap_size_bounds(GIB / 2, true), (2, 1, 64));
    assert_eq!(swap_size_bounds(0, false), (1, 1, 64));
    assert_eq!(swap_size_bounds(u64::MAX, false).2, 2 * (u64::MAX / GIB));
}
