use life_of_pi::metrics::cpu::{
    core_count, load_average_fields, parse_cpu_architecture, parse_cpu_frequency,
    parse_cpu_governor,
};
use life_of_pi::metrics::memory::{meminfo_values_fit, parse_memory_breakdown};
use life_of_pi::metrics::network::{
    parsed_addresses, reachable_addresses, route_source_candidates, total_traffic, IpAddress,
};
use life_of_pi::metrics::storage::{root_disk_usage, used_bytes, DiskSpace};
use life_of_pi::metrics::system::{pi_model_from_cpuinfo, pi_model_from_device_tree};
use life_of_pi::metrics::thermal::{
    first_plausible_millicelsius, gpu_temperature_text, is_plausible_millicelsius,
    measured_temperature_text, parse_millicelsius, parse_throttling, thermal_zone_name,
};
use life_of_pi::number::{decimal_string, parse_hex_u32_str, parse_i32_str, parse_u32_str, parse_u64_str};
use life_of_pi::text::{
    contains_str, find_str, first_labelled_value, split_lines, split_once_str, split_words,
    strip_prefix_str, strip_suffix_str, trim_str,
};

#[test]
fn text_trim_and_split() {
    assert_eq!(trim_str("  \t abc def \n"), "abc def");
    assert_eq!(trim_str(" \u{3000}x\u{a0}"), "x");
    assert_eq!(trim_str("   "), "");
    assert_eq!(split_lines("a\nb\r\n\nc"), vec!["a", "b", "", "c"]);
    assert_eq!(split_lines("a\n"), vec!["a"]);
    assert_eq!(split_lines("a\r"), vec!["a\r"]);
    assert!(split_lines("").is_empty());
    assert_eq!(split_words("  1.0  2\t3\n"), vec!["1.0", "2", "3"]);
    assert_eq!(
        split_once_str("Cached:  10 kB", ':'),
        Some(("Cached".to_string(), "  10 kB".to_string()))
    );
    assert_eq!(split_once_str("no colon", ':'), None);
    assert_eq!(strip_prefix_str("temp=40.0'C", "temp="), Some("40.0'C".to_string()));
    assert_eq!(strip_suffix_str("40.0'C", "'C"), Some("40.0".to_string()));
    assert_eq!(strip_prefix_str("x", "temp="), None);
    assert_eq!(find_str("abcabc", "ca"), Some(2));
    assert_eq!(find_str("abc", ""), Some(0));
    assert!(contains_str("model name: ARMv8 Processor", "ARMv8"));
    assert!(!contains_str("x86", "x86_64"));
    assert_eq!(
        first_labelled_value("a: 1\nModel\nModel : Pi 5 \n", "Model"),
        Some("Pi 5".to_string())
    );
}

#[test]
fn numbers_parse_as_std_does() {
    assert_eq!(parse_u64_str("18446744073709551615"), Some(u64::MAX));
    assert_eq!(parse_u64_str("18446744073709551616"), None);
    assert_eq!(parse_u64_str("+7"), Some(7));
    assert_eq!(parse_u64_str("-7"), None);
    assert_eq!(parse_u64_str("+"), None);
    assert_eq!(parse_u64_str(""), None);
    assert_eq!(parse_u64_str("1 2"), None);
    assert_eq!(parse_u32_str("4294967295"), Some(u32::MAX));
    assert_eq!(parse_u32_str("4294967296"), None);
    assert_eq!(parse_i32_str("-2147483648"), Some(i32::MIN));
    assert_eq!(parse_i32_str("2147483647"), Some(i32::MAX));
    assert_eq!(parse_i32_str("2147483648"), None);
    assert_eq!(parse_i32_str("-"), None);
    assert_eq!(parse_i32_str("-45000"), Some(-45000));
    assert_eq!(parse_hex_u32_str("50005"), Some(0x50005));
    assert_eq!(parse_hex_u32_str("fFfF"), Some(0xffff));
    assert_eq!(parse_hex_u32_str("g"), None);
    for n in [0u64, 7, 10, 99, 100, 8080, u64::MAX] {
        assert_eq!(decimal_string(n), n.to_string());
        assert_eq!(parse_u64_str(&decimal_string(n)), Some(n));
    }
}

#[test]
fn cpu_facts() {
    assert_eq!(
        parse_cpu_architecture("processor : 0\narchitecture : armv7l \nfoo"),
        Some("armv7l".to_string())
    );
    assert_eq!(
        parse_cpu_architecture("architecture without colon\nmodel name : ARMv8 Processor"),
        Some("aarch64".to_string())
    );
    assert_eq!(parse_cpu_architecture("CPU implementer: arm thing"), Some("arm".to_string()));
    assert_eq!(parse_cpu_architecture("flags: x86_64 lm"), Some("x86_64".to_string()));
    assert_eq!(parse_cpu_architecture("nothing here"), None);
    assert_eq!(parse_cpu_frequency("1500000\n"), Some(1500));
    assert_eq!(parse_cpu_frequency("999"), Some(0));
    assert_eq!(parse_cpu_frequency("fast"), None);
    assert_eq!(parse_cpu_governor("ondemand\n"), "ondemand");
    assert_eq!(
        load_average_fields("0.52 0.58 0.59 1/123 4567\n"),
        Some(("0.52".to_string(), "0.58".to_string(), "0.59".to_string()))
    );
    assert_eq!(load_average_fields("0.1 0.2"), None);
    assert_eq!(core_count(4).unwrap(), 4);
    assert_eq!(
        core_count(0).unwrap_err().to_display_string(),
        "System error: No CPU information available"
    );
}

#[test]
fn meminfo_breakdown() {
    let text = "MemTotal:        8000000 kB\nBuffers:          100 kB\nCached:  2000 kB\nSwapCached: 5 kB\nShmem: 30 kB\nBuffers: 7 kB\nBad: x kB\n";
    assert!(meminfo_values_fit(text));
    let b = parse_memory_breakdown(text);
    assert_eq!(b.buffers_bytes, 7 * 1024);
    assert_eq!(b.cached_bytes, 2000 * 1024);
    assert_eq!(b.shared_bytes, 30 * 1024);
    let b = parse_memory_breakdown("");
    assert_eq!((b.buffers_bytes, b.cached_bytes, b.shared_bytes), (0, 0, 0));
    assert!(!meminfo_values_fit("Huge: 18446744073709551615 kB"));
}

#[test]
fn thermal_facts() {
    assert_eq!(parse_millicelsius("45123\n"), Some(45123));
    assert_eq!(parse_millicelsius("warm"), None);
    assert_eq!(gpu_temperature_text("temp=42.8'C\n"), Some("42.8".to_string()));
    assert_eq!(gpu_temperature_text("temp=42.8'C"), None);
    assert_eq!(measured_temperature_text("temp=42.8'C\n"), Some("42.8".to_string()));
    assert_eq!(measured_temperature_text("x temp=1'"), Some("1".to_string()));
    assert_eq!(measured_temperature_text("temp=1"), None);
    assert_eq!(parse_throttling("throttled=0x0\n"), Some(false));
    assert_eq!(parse_throttling("throttled=0x50005\n"), Some(true));
    assert_eq!(parse_throttling("throttled=0x1"), Some(false));
    assert_eq!(parse_throttling("throttled=0x8"), Some(true));
    assert_eq!(parse_throttling("other"), None);
    assert_eq!(thermal_zone_name(3), "zone3");
    assert!(is_plausible_millicelsius(1));
    assert!(is_plausible_millicelsius(99_999));
    assert!(!is_plausible_millicelsius(0));
    assert!(!is_plausible_millicelsius(100_000));
    let readings = vec![
        None,
        Some("oops".to_string()),
        Some("0".to_string()),
        Some(" 51234 \n".to_string()),
        Some("40000".to_string()),
    ];
    assert_eq!(first_plausible_millicelsius(&readings), Some(51234));
    assert_eq!(first_plausible_millicelsius(&vec![Some("120000".to_string())]), None);
}

#[test]
fn board_model() {
    assert_eq!(
        pi_model_from_device_tree("Raspberry Pi 5 Model B Rev 1.0\0"),
        Some("Raspberry Pi 5 Model B Rev 1.0".to_string())
    );
    assert_eq!(pi_model_from_device_tree(" \0\0"), None);
    assert_eq!(
        pi_model_from_cpuinfo("Hardware\t: BCM2835\nModel\t\t: Raspberry Pi 4 Model B\n"),
        Some("Raspberry Pi 4 Model B".to_string())
    );
    assert_eq!(pi_model_from_cpuinfo("Hardware: x"), None);
}

#[test]
fn local_addresses() {
    let words = split_words("127.0.0.1 192.168.1.5 169.254.3.4 fe80::1 ::1 :: nope");
    let parsed = vec![
        Some(IpAddress::V4(127, 0, 0, 1)),
        Some(IpAddress::V4(192, 168, 1, 5)),
        Some(IpAddress::V4(169, 254, 3, 4)),
        Some(IpAddress::V6(0xfe80, 0, 0, 0, 0, 0, 0, 1)),
        Some(IpAddress::V6(0, 0, 0, 0, 0, 0, 0, 1)),
        Some(IpAddress::V6(0, 0, 0, 0, 0, 0, 0, 0)),
        None,
    ];
    assert_eq!(reachable_addresses(&words, &parsed), vec!["192.168.1.5", "fe80::1"]);

    let cands = route_source_candidates(
        "8.8.8.8 via 10.0.0.1 dev wlan0 src 10.0.0.7 uid 1000 \n    cache \nsrc nothing",
    );
    assert_eq!(cands, vec!["10.0.0.7"]);
    assert_eq!(
        parsed_addresses(&cands, &vec![Some(IpAddress::V4(10, 0, 0, 7))]),
        vec!["10.0.0.7"]
    );
    assert!(parsed_addresses(&cands, &vec![None]).is_empty());
    assert_eq!(
        life_of_pi::metrics::network::local_ips_or_loopback(Vec::new()),
        vec!["127.0.0.1"]
    );
    assert_eq!(
        life_of_pi::metrics::network::local_ips_or_loopback(vec!["1.2.3.4".to_string()]),
        vec!["1.2.3.4"]
    );
}

#[test]
fn disks_and_traffic() {
    assert_eq!(used_bytes(1000, 300), 700);
    let disks = vec![
        DiskSpace { mount_point: "/boot".to_string(), total_bytes: 10, available_bytes: 5 },
        DiskSpace { mount_point: "/".to_string(), total_bytes: 1000, available_bytes: 250 },
        DiskSpace { mount_point: "/".to_string(), total_bytes: 7, available_bytes: 7 },
    ];
    assert_eq!(root_disk_usage(&disks), (1000, 750));
    assert_eq!(root_disk_usage(&vec![]), (0, 0));
    assert_eq!(total_traffic(&vec![(1, 2), (10, 20), (100, 200)]), (111, 222));
    assert_eq!(total_traffic(&vec![]), (0, 0));
}
