use anduinos_control::swap::exec::{
    argv, helper_outcome, plan_advance, run_modprobe, write_outcome, Finish, OnError, Plan,
    Progress, Request,
};
use anduinos_control::swap::hibernation::{check_hibernation, is_hibernation_configured};
use anduinos_control::swap::persist::persist_zram;
use anduinos_control::swap::ram_info::{parse_dmidecode, read_ram_basic, read_ram_info_full};
use anduinos_control::swap::stress::{
    alloc_step, check_params, chunk_done, fill_chunk, finished, hold_step, next_chunk_size,
    AllocStep, StressEvent, CHUNK_SIZE,
};
use anduinos_control::swap::swapfile::{
    create_swapfile, delete_swapfile, is_swap_active, read_swap_status, resize_swapfile,
};
use anduinos_control::swap::sysctl::{
    read_swappiness, read_sysctl_conf, read_sysctl_live, read_total_ram, set_swappiness,
    swappiness_outcome, sysctl_proc_path, write_sysctl_conf, SysctlParams,
};
use anduinos_control::swap::types::Preset;
use anduinos_control::swap::zram::{
    algo_info_for, get_available_algorithms, get_zram_stats, read_zram_devices, ZramEntry,
};
use anduinos_control::swap::zswap::{
    enable_zswap, get_available_compressors, read_zswap_config, set_accept_threshold,
    set_compressor, set_max_pool_percent, set_shrinker, CompressorStep,
};

const PROC_SWAPS_WITH_SWAPFILE: &str = "Filename\t\t\t\tType\t\tSize\t\tUsed\t\tPriority\n\
/swapfile                               file\t\t8388604\t\t1024\t\t-2\n\
/dev/zram0                              partition\t4014076\t\t0\t\t100\n";

const MEMINFO: &str = "MemTotal:       32596664 kB\nMemFree:         1234567 kB\nMemAvailable:   20000000 kB\n";

const CRYPTO: &str = "name         : lzo-rle\ndriver       : lzo-rle-scomp\nmodule       : kernel\n\n\
name         : lzo\ndriver       : lzo-scomp\nmodule       : kernel\n\n\
name         : zstd\ndriver       : zstd-scomp\nmodule       : kernel\n";

fn s(x: &str) -> String {
    x.to_string()
}

#[test]
fn test_check_hibernation() {
    let status = check_hibernation(
        &Some(s("freeze mem disk\n")),
        &Some(s("[disabled] shutdown reboot suspend\n")),
        &Some(s("BOOT_IMAGE=/boot/vmlinuz root=UUID=abcd ro quiet splash\n")),
        &None,
    );
    // This system has hibernation disabled
    assert!(!status.enabled);
    assert!(status.system_supports);
    assert_eq!(status.resume_device, None);
}

#[test]
fn test_is_hibernation_configured() {
    let result = is_hibernation_configured(
        &Some(s("freeze mem disk\n")),
        &Some(s("[disabled] shutdown reboot suspend\n")),
        &Some(s("BOOT_IMAGE=/boot/vmlinuz root=UUID=abcd ro quiet splash\n")),
        &None,
    );
    // Should be false on this system
    assert!(!result);
}

#[test]
fn hibernation_reads_resume_sources() {
    let status = check_hibernation(
        &Some(s("freeze mem\n")),
        &Some(s("[platform] shutdown\n")),
        &Some(s("root=/dev/sda1 resume=UUID=1234 resume_offset=34816 resume=/dev/sda2\n")),
        &Some(s("# comment\nRESUME=\"\"\nRESUME=\"UUID=5678\"\n")),
    );
    assert!(!status.system_supports);
    assert!(status.enabled);
    assert_eq!(status.resume_device, Some(s("/dev/sda2")));
    assert_eq!(status.resume_offset, Some(34816));
    assert_eq!(status.initramfs_resume, Some(s("UUID=5678")));
    assert!(is_hibernation_configured(&None, &None, &Some(s("resume=/dev/sda2")), &None));
    let bad_offset = check_hibernation(&None, &None, &Some(s("resume_offset=abc")), &None);
    assert_eq!(bad_offset.resume_offset, None);
}

#[test]
fn test_read_swap_status() {
    let result = read_swap_status(Ok(s(PROC_SWAPS_WITH_SWAPFILE)), true);
    assert!(result.is_ok());
    let status = result.unwrap();
    // On AnduinOS, /swapfile should exist and be active
    assert!(status.active);
    assert_eq!(status.path, "/swapfile");
    assert_eq!(status.size_bytes, 8388604 * 1024);
    assert_eq!(status.used_bytes, 1024 * 1024);
    assert_eq!(status.priority, -2);
}

#[test]
fn swap_status_edge_cases() {
    let gone = read_swap_status(Ok(s(PROC_SWAPS_WITH_SWAPFILE)), false).unwrap();
    assert!(!gone.active);
    let zram_only = "Filename Type Size Used Priority\n/dev/zram0 partition 100 0 100\n";
    let st = read_swap_status(Ok(s(zram_only)), true).unwrap();
    assert!(!st.active);
    assert_eq!(st.path, "");
    let err = read_swap_status(Err(s("No such file or directory (os error 2)")), true);
    assert_eq!(err.unwrap_err(), "Cannot read /proc/swaps: No such file or directory (os error 2)");
    assert!(is_swap_active(Ok(s(PROC_SWAPS_WITH_SWAPFILE)), true));
    assert!(!is_swap_active(Err(s("denied")), true));
}

#[test]
fn test_read_sysctl_conf() {
    let _params = read_sysctl_conf(None);
    // May be empty if never written, but should not panic
    let params = read_sysctl_conf(Some(s("# header\nvm.swappiness = 10\n\nvm.vfs_cache_pressure=50\nvm.swappiness=20\n")));
    assert_eq!(params.len(), 2);
    assert_eq!(params.get("vm.swappiness"), Some(s("20")));
    assert_eq!(params.get("vm.vfs_cache_pressure"), Some(s("50")));
}

#[test]
fn test_read_sysctl_live() {
    let result = read_sysctl_live("vm.swappiness", Ok(s("10\n")));
    assert!(result.is_ok());
    assert_eq!(result.unwrap(), "10");
    let err = read_sysctl_live("vm.swappiness", Err(s("denied")));
    assert_eq!(err.unwrap_err(), "Cannot read /proc/sys/vm/swappiness: denied");
}

#[test]
fn test_read_swappiness() {
    let result = read_swappiness(Ok(s("10\n")));
    assert!(result.is_ok());
    let val = result.unwrap();
    // AnduinOS desktop default is 10
    assert!(val <= 100);
    assert_eq!(val, 10);
}

#[test]
fn swappiness_errors() {
    assert_eq!(read_swappiness(Ok(s("300"))).unwrap_err(), "Cannot parse swappiness: number too large to fit in target type");
    assert_eq!(read_swappiness(Ok(s("ten"))).unwrap_err(), "Cannot parse swappiness: invalid digit found in string");
    assert_eq!(read_swappiness(Ok(s("\n"))).unwrap_err(), "Cannot parse swappiness: cannot parse integer from empty string");
}

#[test]
fn test_read_total_ram() {
    let result = read_total_ram(Ok(s(MEMINFO)));
    assert!(result.is_ok());
    let ram = result.unwrap();
    assert!(ram > 0);
    assert_eq!(ram, 32596664 * 1024);
    assert_eq!(read_total_ram(Ok(s("MemFree: 1 kB\n"))).unwrap_err(), "MemTotal not found");
}

#[test]
fn sysctl_paths_and_writes() {
    assert_eq!(sysctl_proc_path("vm.swappiness"), "/proc/sys/vm/swappiness");
    let mut params = SysctlParams::new();
    params.insert(s("vm.swappiness"), s("10"));
    let plan = write_sysctl_conf(&params);
    match &plan.steps[0].request {
        Request::WriteFile { path, value } => {
            assert_eq!(path, "/etc/sysctl.d/90-anduinos-swapcontrol.conf");
            assert!(value.ends_with("vm.swappiness = 10\n"));
            assert!(value.starts_with("# AnduinOS Swap Control"));
        },
        _ => panic!("expected a file write"),
    }
    let update = set_swappiness(60, SysctlParams::new());
    assert_eq!(argv(&update.live), vec![
        s("/usr/lib/anduinos-swapcontrol/helper"),
        s("sysctl"),
        s("-w"),
        s("vm.swappiness=60"),
    ]);
    assert_eq!(swappiness_outcome(Err(s("a")), Ok(s(""))), Ok(s("swappiness updated")));
    assert_eq!(swappiness_outcome(Err(s("a")), Err(s("b"))), Err(s("Failed to set swappiness: a / b")));
}

#[test]
fn preset_round_trip() {
    for p in [Preset::Performance, Preset::Balanced, Preset::MemorySaver] {
        assert_eq!(Preset::from_swappiness(p.swappiness()), p);
    }
    assert_eq!(Preset::from_swappiness(35), Preset::Custom);
}

#[test]
fn test_read_zram_devices() {
    let entries = vec![
        ZramEntry {
            name: s("zram0"),
            disksize: Some(s("4110417920\n")),
            mm_stat: Some(s("   12288     1024     8192        0     8192        0        0        0        0\n")),
            comp_algorithm: Some(s("lzo lzo-rle lz4 lz4hc 842 [zstd]\n")),
        },
        ZramEntry { name: s("sda"), disksize: None, mm_stat: None, comp_algorithm: None },
    ];
    let swaps = Some(s("Filename Type Size Used Priority\n/dev/zram0 partition 4014076 12 100\n"));
    let devices = read_zram_devices(&entries, &swaps);
    // May be empty if zram is not loaded
    for dev in &devices {
        assert!(dev.name.starts_with("zram"));
    }
    assert_eq!(devices.len(), 1);
    assert_eq!(devices[0].size_bytes, 4110417920);
    assert_eq!(devices[0].orig_data_size, 12288);
    assert_eq!(devices[0].compr_data_size, 1024);
    assert_eq!(devices[0].mem_used_total, 8192);
    assert_eq!(devices[0].comp_algorithm, "zstd");
    assert_eq!(devices[0].used_bytes, 12 * 1024);
    assert_eq!(devices[0].swap_priority, 100);
    let found = get_zram_stats(&devices, "zram0");
    assert_eq!(found.size_bytes, 4110417920);
    let missing = get_zram_stats(&devices, "zram9");
    assert_eq!(missing.name, "");
}

#[test]
fn test_get_available_algorithms() {
    let algos = get_available_algorithms(None);
    assert!(!algos.is_empty());
    let read = get_available_algorithms(Some(s("lzo [lzo-rle] lz4\n")));
    assert_eq!(read, vec![s("lzo"), s("lzo-rle"), s("lz4")]);
    assert_eq!(get_available_algorithms(Some(s(" \n"))), algos);
    assert_eq!(algos.len(), 7);
    assert_eq!(algo_info_for("lz4"), "⚡⚡ Fastest · ⭐⭐ Good  —  Recommended");
    assert_eq!(algo_info_for("brotli"), "");
}

#[test]
fn test_read_zswap_config() {
    let result = read_zswap_config(Ok(s("Y\n")), Ok(s("zstd\n")), Ok(s("20\n")), Ok(s("90\n")), Ok(s("N\n")));
    assert!(result.is_ok());
    let cfg = result.unwrap();
    assert!(cfg.enabled);
    assert_eq!(cfg.compressor, "zstd");
    assert_eq!(cfg.max_pool_percent, 20);
    assert_eq!(cfg.accept_threshold_percent, 90);
    assert!(!cfg.shrinker_enabled);
}

#[test]
fn test_get_available_compressors() {
    let compressors = get_available_compressors(Some(s(CRYPTO)));
    assert!(!compressors.is_empty());
    assert!(compressors.contains(&"lzo".to_string()));
    assert!(compressors.contains(&"zstd".to_string()));
    assert!(!compressors.contains(&"deflate".to_string()));
    match set_compressor("deflate", &compressors) {
        CompressorStep::LoadModule(r) => {
            assert_eq!(argv(&r), vec![s("/usr/lib/anduinos-swapcontrol/helper"), s("modprobe"), s("deflate")]);
        },
        CompressorStep::Write(_) => panic!("deflate is not available"),
    }
}

#[test]
fn compressors_always_hold_lzo() {
    let zstd_only = "name         : zstd\ndriver       : zstd-generic\nmodule       : zstd\n";
    assert_eq!(get_available_compressors(Some(s(zstd_only))), vec![s("lzo"), s("zstd")]);
    assert_eq!(get_available_compressors(Some(s(""))), vec![s("lzo")]);
    assert_eq!(get_available_compressors(None), vec![s("lzo")]);
    let all = "name         : 842\nname         : deflate\nname         : lz4hc\n\
               driver       : lz4-generic\nname         : zstd\nname         : lzo\n";
    assert_eq!(
        get_available_compressors(Some(s(all))),
        vec![s("842"), s("deflate"), s("lz4"), s("lz4hc"), s("lzo"), s("zstd")]
    );
}

#[test]
fn swapfile_plans() {
    let p = create_swapfile(2);
    assert!(p.steps.len() >= 2);
    let d = delete_swapfile();
    assert!(!d.steps.is_empty());
    let r = resize_swapfile(4);
    assert!(!r.steps.is_empty());
}

#[test]
fn plans_advance_and_outcomes() {
    let plan = Plan {
        steps: vec![
            anduinos_control::swap::exec::Step { request: run_modprobe("zram"), on_error: OnError::Ignore },
            anduinos_control::swap::exec::Step { request: run_modprobe("zstd"), on_error: OnError::Stop },
        ],
        finish: Finish::Message(s("done")),
    };
    match plan_advance(&plan, 0, Err(s("x"))) {
        Progress::Next(1) => {},
        _ => panic!("an ignored failure goes on"),
    }
    match plan_advance(&plan, 1, Err(s("y"))) {
        Progress::Done(Err(e)) => assert_eq!(e, "y"),
        _ => panic!("a stopping failure ends the plan"),
    }
    match plan_advance(&plan, 1, Ok(s("out"))) {
        Progress::Done(Ok(m)) => assert_eq!(m, "done"),
        _ => panic!("the plan ends with its message"),
    }
    assert_eq!(helper_outcome(false, Some(126), s(""), s("")), Err(s("Authentication cancelled")));
    assert_eq!(helper_outcome(false, Some(1), s(" out \n"), s("")), Err(s("out")));
    assert_eq!(helper_outcome(false, Some(1), s("out"), s(" err\n")), Err(s("err")));
    assert_eq!(helper_outcome(true, Some(0), s("ok\n"), s("")), Ok(s("ok\n")));
    assert_eq!(write_outcome(false, Some(2), s(" bad \n")), Err(s("bad")));
}

#[test]
fn persist_zram_unit() {
    let p = persist_zram(&vec![(2048, s("zstd"), 100)]);
    match &p.steps[0].request {
        Request::WriteFile { path, value } => {
            assert_eq!(path, "/etc/systemd/system/anduinos-zram.service");
            assert!(value.contains("# Device 0: 2048 MiB, algo=zstd, priority=100\n"));
            assert!(value.contains("zramctl -f -s 2048M -a zstd) && "));
            assert!(value.contains("swapon -p 100 $DEV'\n"));
            assert!(value.ends_with("\n[Install]\nWantedBy=multi-user.target\n"));
        },
        _ => panic!("expected the unit to be written"),
    }
    assert_eq!(p.steps.len(), 3);
    let removed = persist_zram(&vec![]);
    assert_eq!(removed.steps.len(), 5);
    assert!(removed.steps.iter().all(|st| st.on_error == OnError::Ignore));
    match removed.finish {
        Finish::Message(m) => assert_eq!(m, "Zram persistence removed"),
        _ => panic!("expected a message"),
    }
}

#[test]
fn ram_info_from_meminfo_and_dmidecode() {
    let basic = read_ram_basic(&Some(s(MEMINFO)));
    assert_eq!(basic.total_kb, 32596664);
    assert_eq!(read_ram_basic(&None).total_kb, 0);
    let dmi = "Physical Memory Array\n\tError Correction Type: None\n\tError Correction Type: Single-bit ECC\n\
Memory Device\n\tSize: 16 GB\n\tLocator: DIMM 0\n\tType: DDR5\n\tSpeed: 4800 MT/s\n\tManufacturer: Samsung\n\tPart Number: M425R2GA3BB0-CQKOD\n\tForm Factor: SODIMM\n\
Memory Device\n\tSize: No Module Installed\n\tLocator: DIMM 1\n\
Memory Device\n\tSize: 8192 MB\n\tLocator: DIMM 2\n\tSpeed: 5600 MT/s\n\tManufacturer: Hynix\n";
    let info = read_ram_info_full(&Some(s(MEMINFO)), &Some(s(dmi)));
    assert_eq!(info.total_kb, 32596664);
    assert_eq!(info.error_correction, "Single-bit ECC");
    assert_eq!(info.ram_type, "DDR5");
    assert_eq!(info.speed_mts, 4800);
    assert_eq!(info.manufacturer, "Samsung");
    assert_eq!(info.dimms.len(), 2);
    assert_eq!(info.dimms[0].locator, "DIMM 0");
    assert_eq!(info.dimms[0].size_gb, 16);
    assert_eq!(info.dimms[0].form_factor, "SODIMM");
    assert_eq!(info.dimms[1].size_gb, 8);
    assert_eq!(info.dimms[1].speed_mts, 5600);
    let mut again = read_ram_basic(&None);
    parse_dmidecode(&mut again, "");
    assert!(again.dimms.is_empty());
}

#[test]
fn stress_steps() {
    assert_eq!(check_params(0, 5).unwrap().error, Some(s("Target size is zero")));
    assert_eq!(check_params(10, 0).unwrap().error, Some(s("Growth rate is zero")));
    assert!(check_params(10, 5).is_none());
    assert_eq!(next_chunk_size(0, 100), 100);
    assert_eq!(next_chunk_size(0, 3 * CHUNK_SIZE), CHUNK_SIZE);
    // The chunks fill the target exactly.
    let target = 2 * CHUNK_SIZE + 5;
    let mut total = 0;
    let mut chunks = 0;
    while total < target {
        match alloc_step(target, total, false, 0) {
            AllocStep::Chunk(n) => {
                let (t, ev, pace) = chunk_done(target, total, n, 1);
                match ev {
                    StressEvent::Progress { allocated_bytes, .. } => assert_eq!(allocated_bytes, t),
                    _ => panic!("expected progress"),
                }
                assert_eq!(pace, t < target);
                total = t;
                chunks += 1;
            },
            AllocStep::Stop(_) => panic!("not cancelled"),
        }
    }
    assert_eq!(total, target);
    assert_eq!(chunks, 3);
    match alloc_step(target, 7, true, 42) {
        AllocStep::Stop(r) => {
            assert!(r.cancelled);
            assert_eq!(r.peak_allocated_bytes, 7);
            assert_eq!(r.duration_ms, 42);
        },
        _ => panic!("cancelled"),
    }
    assert!(hold_step(10, 10, false, 5).is_none());
    assert!(hold_step(10, 10, true, 5).unwrap().cancelled);
    let done = finished(10, 10, 99);
    assert!(!done.cancelled && done.error.is_none());
    let chunk = fill_chunk(8193, 258);
    assert_eq!(chunk.len(), 8193);
    assert_eq!(chunk[0], 2);
    assert_eq!(chunk[1], 0);
    assert_eq!(chunk[4096], ((258 + 4096) % 256) as u8);
    assert_eq!(chunk[8192], ((258 + 8192) % 256) as u8);
}

/// What the file holds after the single write of `plan`: the value and a newline.
fn file_after(plan: &Plan) -> Result<String, String> {
    assert_eq!(plan.steps.len(), 1);
    match &plan.steps[0].request {
        Request::WriteFile { value, .. } => Ok(format!("{}\n", value)),
        _ => panic!("expected a file write"),
    }
}

#[test]
fn zswap_settings_read_back() {
    let available = vec![s("lzo"), s("zstd")];
    let comp = match set_compressor("zstd", &available) {
        CompressorStep::Write(p) => p,
        CompressorStep::LoadModule(_) => panic!("zstd is available"),
    };
    for shrink in [true, false] {
        let cfg = read_zswap_config(
            file_after(&enable_zswap()),
            file_after(&comp),
            file_after(&set_max_pool_percent(30)),
            file_after(&set_accept_threshold(80)),
            file_after(&set_shrinker(shrink)),
        )
        .unwrap();
        assert!(cfg.enabled);
        assert_eq!(cfg.compressor, "zstd");
        assert_eq!(cfg.max_pool_percent, 30);
        assert_eq!(cfg.accept_threshold_percent, 80);
        assert_eq!(cfg.shrinker_enabled, shrink);
    }
}
