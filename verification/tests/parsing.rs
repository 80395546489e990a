use mgd::error::MgdError;
use mgd::fixed::{parse_fixed, Fixed};
use mgd::gpu::{get_process_gpu_stats, parse_mem_kb, FdInfo};
use mgd::meminfo::{parse_vmstat_swap, read_available_kb, read_meminfo, read_total_kb, MemInfo};
use mgd::process::{
    find_pid_by_name, is_cgroup_in_user_slice, parse_status_kb, read_proc_stat,
    read_process_cgroup_path, read_start_time,
};
use mgd::psi::{
    cgroup_psi_path, is_usable_psi_file, parse_kv, parse_pressure, pressure_level_with,
    resolve_pressure_source, PressureLevel, PsiThresholds, GLOBAL_PSI,
};
use mgd::text::{line_list, parse_u64, split_list, word_list};
use mgd::types::Kb;
use mgd::zram::{
    device_basename, device_outcome, headroom_safe, is_headroom_safe, is_zram_device_path,
    parse_mem_used_bytes, parse_orig_data_bytes, parse_zram_devices, parse_zram_swaps,
    reclaim_exit_code, refusal_code, swapon_flags, zram_orig_mb_total, zram_used_mb_total,
    DeviceOutcome, HeadroomCheck,
};

fn pct(n: u64) -> Fixed {
    Fixed::whole(n)
}

// ------------------------------------------------------------------ types

#[test]
fn kb_conversions() {
    assert_eq!(Kb(2048).mb_rounded(), 2);
    assert_eq!(Kb(2).bytes(), 2048);
    assert_eq!(Kb(1) + Kb(2), Kb(3));
    assert_eq!(Kb(3) - Kb(1), Kb(2));
    assert_eq!(Kb(u64::MAX).saturating_add(Kb(1)), Kb(u64::MAX));
    assert_eq!(Kb(1).saturating_sub(Kb(2)), Kb(0));
    assert_eq!(Kb::sum(&[Kb(1), Kb(2), Kb(3)]), Kb(6));
}

#[test]
fn megabytes_round_half_to_even() {
    assert_eq!(Kb(512).mb_rounded(), 0);
    assert_eq!(Kb(1536).mb_rounded(), 2);
    assert_eq!(Kb(2560).mb_rounded(), 2);
    assert_eq!(Kb(513).mb_rounded(), 1);
}

// ------------------------------------------------------------------- text

#[test]
fn lines_words_and_pieces() {
    assert_eq!(line_list("a\r\nb\n\nc"), vec!["a", "b", "", "c"]);
    assert_eq!(word_list("  a\tb  c "), vec!["a", "b", "c"]);
    assert_eq!(split_list("a//b", '/'), vec!["a", "", "b"]);
    assert_eq!(parse_u64("+12"), Some(12));
    assert_eq!(parse_u64("18446744073709551616"), None);
    assert_eq!(parse_u64(""), None);
}

#[test]
fn decimals_are_exact() {
    assert_eq!(parse_fixed("0.05"), Some(Fixed(50_000_000)));
    assert_eq!(parse_fixed("12"), Some(Fixed(12_000_000_000)));
    assert_eq!(parse_fixed(".5"), Some(Fixed(500_000_000)));
    assert_eq!(parse_fixed("."), None);
    assert_eq!(parse_fixed("abc"), None);
    assert_eq!(Fixed(2_500_000_000).text(0), "2");
    assert_eq!(Fixed(3_500_000_000).text(0), "4");
    assert_eq!(Fixed(1_249_000_000).text(1), "1.2");
    assert_eq!(Fixed(1_005_000_000).text(3), "1.005");
    assert_eq!(Fixed(1_500_000_000).scale(6000), 9000);
    assert_eq!(Fixed::whole(15).percent_of(16_000_000), 2_400_000);
}

// -------------------------------------------------------------------- GPU

#[test]
fn gpu_test_parse_mem_kb_units() {
    assert_eq!(parse_mem_kb("2247000 KiB"), Some(2_247_000));
    assert_eq!(parse_mem_kb("4 MiB"), Some(4096));
    assert_eq!(parse_mem_kb("1 GiB"), Some(1024 * 1024));
    assert_eq!(parse_mem_kb("2048 B"), Some(2));
    assert_eq!(parse_mem_kb("4096"), Some(4));
    assert_eq!(parse_mem_kb("garbage"), None);
}

#[test]
fn test_parse_mem_kb_units() {
    assert_eq!(parse_mem_kb("2247000 KiB"), Some(2_247_000));
    assert_eq!(parse_mem_kb("4 MiB"), Some(4096));
    assert_eq!(parse_mem_kb("1 GiB"), Some(1024 * 1024));
    assert_eq!(parse_mem_kb("2048 B"), Some(2));
    assert_eq!(parse_mem_kb("4096"), Some(4));
    assert_eq!(parse_mem_kb("garbage"), None);
}

fn fd(number: &str, target: &str, content: &str) -> FdInfo {
    FdInfo {
        fd: number.to_string(),
        target: target.to_string(),
        fdinfo: Some(content.to_string()),
    }
}

#[test]
fn gpu_clients_count_once() {
    let file = "drm-client-id:\t7\ndrm-resident-system0:\t100 KiB\ndrm-shared-system0:\t40 KiB\n";
    let fds = vec![
        fd("3", "/dev/dri/renderD128", file),
        fd("4", "/dev/dri/renderD128", file),
        fd("5", "/tmp/x", file),
        fd("6", "/dev/dri/card0", "pos:\t0\n"),
    ];
    let m = get_process_gpu_stats(&fds).unwrap();
    assert_eq!(m.resident_kb, 100);
    assert_eq!(m.shared_kb, 40);
    assert!(get_process_gpu_stats(&Vec::new()).is_none());
}

// --------------------------------------------------------------- pressure

#[test]
fn test_parse_normal() {
    let input = "some avg10=0.00 avg60=0.00 avg300=0.05 total=133033584\n\
                 full avg10=0.00 avg60=0.00 avg300=0.04 total=124520674\n";
    let p = parse_pressure(input).unwrap();
    assert_eq!(p.some_avg10, Fixed(0));
    assert_eq!(p.some_total, 133033584);
    assert_eq!(p.full_avg300, Fixed(40_000_000));
}

#[test]
fn test_parse_pressure_level_str() {
    assert_eq!(PressureLevel::parse("High"), Some(PressureLevel::High));
    assert_eq!(PressureLevel::parse("  elevated "), Some(PressureLevel::Elevated));
    assert_eq!(PressureLevel::parse("EMERGENCY"), Some(PressureLevel::Emergency));
    assert_eq!(PressureLevel::parse("nonsense"), None);
}

#[test]
fn test_parse_high_pressure() {
    let input = "some avg10=35.00 avg60=20.00 avg300=10.00 total=999\n\
                 full avg10=15.00 avg60=8.00 avg300=4.00 total=888\n";
    let p = parse_pressure(input).unwrap();
    assert_eq!(pressure_level_with(&p, &PsiThresholds::default()), PressureLevel::High);
}

#[test]
fn test_pressure_levels() {
    let t = PsiThresholds::default();
    let mut p = parse_pressure(
        "some avg10=0.00 avg60=0.00 avg300=0.00 total=0\n\
         full avg10=0.00 avg60=0.00 avg300=0.00 total=0\n",
    )
    .unwrap();

    p.some_avg10 = pct(4);
    assert_eq!(pressure_level_with(&p, &t), PressureLevel::Normal);
    p.some_avg10 = pct(5);
    assert_eq!(pressure_level_with(&p, &t), PressureLevel::Elevated);
    p.some_avg10 = pct(30);
    assert_eq!(pressure_level_with(&p, &t), PressureLevel::High);
    p.some_avg10 = pct(60);
    assert_eq!(pressure_level_with(&p, &t), PressureLevel::Critical);
    p.some_avg10 = pct(75);
    assert_eq!(pressure_level_with(&p, &t), PressureLevel::Emergency);
}

#[test]
fn test_custom_thresholds_shift_tiers() {
    let t = PsiThresholds {
        elevated_pct: pct(10),
        high_pct: pct(35),
        critical_pct: pct(60),
        emergency_pct: pct(80),
        full_critical_pct: pct(30),
    };
    let mut p = parse_pressure(
        "some avg10=0.00 avg60=0.00 avg300=0.00 total=0\n\
         full avg10=0.00 avg60=0.00 avg300=0.00 total=0\n",
    )
    .unwrap();

    p.some_avg10 = pct(5);
    assert_eq!(pressure_level_with(&p, &t), PressureLevel::Normal);
    p.some_avg10 = pct(10);
    assert_eq!(pressure_level_with(&p, &t), PressureLevel::Elevated);

    p.full_avg10 = pct(25);
    assert_eq!(pressure_level_with(&p, &t), PressureLevel::Elevated);
    p.full_avg10 = pct(30);
    assert_eq!(pressure_level_with(&p, &t), PressureLevel::Critical);
}

#[test]
fn test_thresholds_validity() {
    assert!(PsiThresholds::default().valid());

    let t = PsiThresholds {
        high_pct: PsiThresholds::default().elevated_pct,
        ..Default::default()
    };
    assert!(!t.valid());

    let t = PsiThresholds { emergency_pct: pct(101), ..Default::default() };
    assert!(!t.valid());

    let t = PsiThresholds { full_critical_pct: pct(0), ..Default::default() };
    assert!(!t.valid());
}

#[test]
fn test_full_avg10_accelerates_to_critical() {
    let t = PsiThresholds::default();
    let mut p = parse_pressure(
        "some avg10=10.00 avg60=0.00 avg300=0.00 total=0\n\
         full avg10=25.00 avg60=0.00 avg300=0.00 total=0\n",
    )
    .unwrap();
    assert_eq!(pressure_level_with(&p, &t), PressureLevel::Critical);

    p.some_avg10 = pct(75);
    assert_eq!(pressure_level_with(&p, &t), PressureLevel::Emergency);
}

#[test]
fn test_usable_psi_file() {
    assert!(!is_usable_psi_file(None));
    assert!(is_usable_psi_file(Some("some avg10=0.00 avg60=0.00 avg300=0.00 total=0\n")));
    assert!(!is_usable_psi_file(Some("not psi output\n")));
}

#[test]
fn test_cgroup_path_shape() {
    let p = cgroup_psi_path(1000);
    assert!(p.starts_with("/sys/fs/cgroup/user.slice/user-"));
    assert!(p.ends_with("/memory.pressure"));
    assert_eq!(
        p,
        "/sys/fs/cgroup/user.slice/user-1000.slice/user@1000.service/memory.pressure"
    );
}

#[test]
fn pressure_is_read_from_the_session_where_it_can_be() {
    assert_eq!(resolve_pressure_source(7, Some("some avg10=0.00")), cgroup_psi_path(7));
    assert_eq!(resolve_pressure_source(7, Some("")), GLOBAL_PSI);
    assert_eq!(resolve_pressure_source(7, None), GLOBAL_PSI);
}

#[test]
fn bad_pressure_lines_are_named() {
    match parse_kv("avg60=1.00", "avg10=") {
        Err(MgdError::Parse(m)) => assert_eq!(m, "expected 'avg10=', got 'avg60=1.00'"),
        other => panic!("{:?}", other),
    }
    assert!(matches!(parse_kv("avg10=x", "avg10="), Err(MgdError::Number(_))));
    assert!(parse_pressure("some avg10=1 avg60=1 avg300=1 total=x").is_err());
    assert!(parse_pressure("too short").is_ok());
}

// ------------------------------------------------------------------- zram

#[test]
fn test_is_zram_device_path() {
    assert!(is_zram_device_path("/dev/zram0"));
    assert!(is_zram_device_path("/dev/zram10"));
    assert!(is_zram_device_path("/dev/zram12"));
    assert!(!is_zram_device_path("/dev/zram"));
    assert!(!is_zram_device_path("/dev/zrama"));
    assert!(!is_zram_device_path("/dev/zram0x"));
    assert!(!is_zram_device_path("/swap/zram-cache"));
    assert!(!is_zram_device_path("/dev/nvme0n1p3"));
}

#[test]
fn test_parse_zram_devices_basic() {
    let swaps = "Filename\t\t\t\tType\t\tSize\t\tUsed\t\tPriority\n\
                 /dev/zram0                              partition\t8388604\t\t1024\t\t100\n";
    assert_eq!(parse_zram_devices(swaps), vec!["zram0"]);
}

#[test]
fn test_parse_zram_devices_skips_disk_swap() {
    let swaps = "Filename\t\t\t\tType\t\tSize\t\tUsed\t\tPriority\n\
                 /dev/nvme0n1p3                          partition\t16777212\t0\t\t-2\n\
                 /dev/zram0                              partition\t8388604\t1024\t100\n";
    assert_eq!(parse_zram_devices(swaps), vec!["zram0"]);
}

#[test]
fn test_parse_zram_devices_multiple() {
    let swaps = "Filename Type Size Used Priority\n\
                 /dev/zram0 partition 100 0 100\n\
                 /dev/zram1 partition 100 0 100\n";
    assert_eq!(parse_zram_devices(swaps), vec!["zram0", "zram1"]);
}

#[test]
fn test_parse_zram_devices_empty() {
    let swaps = "Filename Type Size Used Priority\n";
    assert!(parse_zram_devices(swaps).is_empty());
}

#[test]
fn test_parse_zram_devices_skips_lookalike_swapfile() {
    let swaps = "Filename Type Size Used Priority\n\
                 /swap/zram-cache file 2097152 0 -3\n";
    assert!(parse_zram_devices(swaps).is_empty());
}

#[test]
fn test_parse_mem_used_bytes() {
    let mm_stat = "4194304 1048576 2097152 0 8388608 0 0 0 0\n";
    assert_eq!(parse_mem_used_bytes(mm_stat), Some(2097152));
}

#[test]
fn test_parse_mem_used_bytes_truncated() {
    assert_eq!(parse_mem_used_bytes("4194304 1048576"), None);
}

#[test]
fn test_parse_orig_data_bytes() {
    let mm_stat = "4194304 1048576 2097152 0 8388608 0 0 0 0\n";
    assert_eq!(parse_orig_data_bytes(mm_stat), Some(4194304));
}

#[test]
fn test_parse_orig_data_bytes_empty() {
    assert_eq!(parse_orig_data_bytes(""), None);
}

#[test]
fn parses_zram_swap_with_priority() {
    let swaps = "Filename\t\t\t\tType\t\tSize\t\tUsed\t\tPriority\n\
                 /dev/zram0                              partition\t8388604\t4398892\t100\n";
    let v = parse_zram_swaps(swaps);
    assert_eq!(v.len(), 1);
    assert_eq!(v[0].path, "/dev/zram0");
    assert_eq!(v[0].priority, 100);
}

#[test]
fn skips_real_disk_swap() {
    let swaps = "Filename Type Size Used Priority\n\
                 /dev/nvme0n1p3 partition 16777212 0 -2\n\
                 /dev/zram0 partition 8388604 4398892 100\n";
    let v = parse_zram_swaps(swaps);
    assert_eq!(v.len(), 1);
    assert_eq!(v[0].path, "/dev/zram0");
}

#[test]
fn skips_swapfile() {
    let swaps = "Filename Type Size Used Priority\n\
                 /swapfile file 2097152 0 -3\n";
    assert!(parse_zram_swaps(swaps).is_empty());
}

#[test]
fn skips_zram_lookalike_swapfile() {
    let swaps = "Filename Type Size Used Priority\n\
                 /swap/zram-cache file 2097152 0 -3\n";
    assert!(parse_zram_swaps(swaps).is_empty());
}

#[test]
fn device_basename_extracts_name() {
    assert_eq!(device_basename("/dev/zram0").as_deref(), Some("zram0"));
}

#[test]
fn headroom_safe_only_when_avail_strictly_exceeds() {
    assert!(is_headroom_safe(5000, 4000));
    assert!(!is_headroom_safe(4000, 4000));
    assert!(!is_headroom_safe(3000, 4000));
    assert!(is_headroom_safe(1, 0));
}

#[test]
fn negative_priority_means_no_prefer_flag() {
    assert_eq!(swapon_flags(-1), 0);
}

#[test]
fn positive_priority_sets_prefer_flag() {
    assert_eq!(swapon_flags(100), 0x8000 | 100);
}

#[test]
fn empty_swaps_yields_no_devices() {
    assert!(parse_zram_swaps("Filename Type Size Used Priority\n").is_empty());
}

#[test]
fn totals_skip_what_cannot_be_read() {
    let stats = vec![
        Some("4194304 1048576 2097152".to_string()),
        None,
        Some("garbage".to_string()),
        Some("3145728 0 1048576".to_string()),
    ];
    assert_eq!(zram_orig_mb_total(&stats), 7);
    assert_eq!(zram_used_mb_total(&stats), 3);
}

#[test]
fn headroom_is_compared_with_what_is_available() {
    let stats = vec![Some("104857600 1 1".to_string())];
    let safe = "MemTotal: 1 kB\nMemAvailable:  204800 kB\n";
    let tight = "MemAvailable:  102400 kB\n";
    assert_eq!(headroom_safe(Some(safe), &stats), HeadroomCheck::Safe);
    assert_eq!(
        headroom_safe(Some(tight), &stats),
        HeadroomCheck::Unsafe { avail_mb: 100, decompressed_mb: 100 }
    );
    assert_eq!(headroom_safe(None, &stats), HeadroomCheck::Unknown);
}

#[test]
fn helper_codes_tell_what_became_of_the_devices() {
    assert_eq!(device_outcome(None, true), DeviceOutcome::Reclaimed);
    assert_eq!(reclaim_exit_code(&vec![DeviceOutcome::Reclaimed]), 0);
    assert!(reclaim_exit_code(&vec![device_outcome(Some(true), true)]) == 2);
    assert_eq!(refusal_code(1, HeadroomCheck::Safe), None);
}

// ---------------------------------------------------------------- meminfo

#[test]
fn test_parse_vmstat_swap_normal() {
    let content = "pgfault 12345\npswpin 100\npswpout 200\npgmajfault 5\n";
    assert_eq!(parse_vmstat_swap(content), (100, 200));
}

#[test]
fn test_parse_vmstat_swap_missing_fields() {
    let content = "pgfault 12345\npgmajfault 5\n";
    assert_eq!(parse_vmstat_swap(content), (0, 0));
}

#[test]
fn test_parse_vmstat_swap_partial() {
    let content = "pswpin 42\npgfault 99\n";
    assert_eq!(parse_vmstat_swap(content), (42, 0));
}

#[test]
fn meminfo_fields_are_read() {
    let c = "MemTotal:       16000000 kB\nMemFree: 1 kB\nMemAvailable:    8000000 kB\n\
             SwapTotal:      4000000 kB\nSwapFree:       1000000 kB\n";
    let m = read_meminfo(Some(c));
    assert_eq!(m.total_kb, 16_000_000);
    assert_eq!(m.available_kb, 8_000_000);
    assert_eq!(m.swap_used_pct(), pct(75));
    assert_eq!(read_available_kb(Some(c)), 8_000_000);
    assert_eq!(read_total_kb(Some(c)), 16_000_000);
    assert_eq!(read_available_kb(None), 0);
    let none = MemInfo { available_kb: 0, total_kb: 0, swap_free_kb: 0, swap_total_kb: 0 };
    assert_eq!(none.swap_used_pct(), Fixed(0));
}

// -------------------------------------------------------------- processes

#[test]
fn stat_lines_survive_names_with_brackets() {
    let stat = "42 (we ird) name) S 1 2 3 4 5 6 7 8 99 10 300 200 13 14 15 16 17 18 5555 20 21";
    let (ticks, majflt) = read_proc_stat(Some(stat));
    assert_eq!(ticks, Some(500));
    assert_eq!(majflt, 99);
    assert_eq!(read_start_time(Some(stat)), Some(5555));
    assert_eq!(read_start_time(None), None);
}

#[test]
fn session_processes_are_told_from_others() {
    assert!(is_cgroup_in_user_slice("0::/user.slice/user-1000.slice/app.scope\n"));
    assert!(is_cgroup_in_user_slice("0::/x/user@1000.service/app\n"));
    assert!(!is_cgroup_in_user_slice("0::/system.slice/sshd.service\n"));
    assert_eq!(
        read_process_cgroup_path("1:x:/a\n0::/user.slice/a.scope\n").as_deref(),
        Some("/user.slice/a.scope")
    );
    assert_eq!(read_process_cgroup_path("0::/\n"), None);
}

#[test]
fn status_sizes_are_read() {
    let status = "Name:\tfirefox\nVmRSS:\t  1234 kB\nVmSwap:\t 5 kB\n";
    assert_eq!(parse_status_kb(status, "VmRSS:"), Some(1234));
    assert_eq!(parse_status_kb(status, "VmHWM:"), None);
}

#[test]
fn processes_are_found_by_name_and_owner() {
    let entry = |pid: u32, name: &str, uid: u32| {
        (pid, Some(format!("Name:\t{}\nUid:\t{}\t0\t0\t0\n", name, uid)))
    };
    let entries = vec![entry(1, "a", 0), (2, None), entry(3, "kwin", 5), entry(4, "kwin", 7)];
    assert_eq!(find_pid_by_name(&entries, "kwin", 7), Some(4));
    assert_eq!(find_pid_by_name(&entries, "kwin", 8), None);
}
