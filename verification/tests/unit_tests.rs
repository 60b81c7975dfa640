use life_of_pi::{
    error::SystemError,
    metrics::data::{MemoryBreakdown, NetworkInfo, SwapInfo, SystemInfo},
    WebConfig,
};

/// Test SystemError creation and formatting
#[test]
fn test_system_error_types() {
    let io_error = SystemError::system_error("Test IO error");
    assert!(io_error.to_display_string().contains("Test IO error"));

    let parse_error = SystemError::parse_error("Failed to parse data");
    assert!(parse_error.to_display_string().contains("Failed to parse data"));

    let network_error = SystemError::network_error("Connection failed");
    assert!(network_error.to_display_string().contains("Connection failed"));

    let web_error = SystemError::web_server_error("Server startup failed");
    assert!(web_error.to_display_string().contains("Server startup failed"));

    let config_error = SystemError::config_error("Invalid configuration");
    assert!(config_error.to_display_string().contains("Invalid configuration"));
}

/// Test WebConfig builder pattern
#[test]
fn test_web_config() {
    let config = WebConfig::default()
        .with_host("127.0.0.1")
        .with_port(9090)
        .with_cors(false)
        .with_max_websocket_connections(50);

    assert_eq!(config.host, "127.0.0.1");
    assert_eq!(config.port, 9090);
    assert_eq!(config.enable_cors, false);
    assert_eq!(config.max_websocket_connections, 50);
    assert_eq!(config.bind_address(), "127.0.0.1:9090");
}

/// Test network interface parsing
#[test]
fn test_network_info() {
    let network = NetworkInfo {
        interface: "wlan0".to_string(),
        is_up: true,
        mac_address: Some("aa:bb:cc:dd:ee:ff".to_string()),
        ipv4_addresses: vec!["192.168.1.100".to_string(), "10.0.0.1".to_string()],
        ipv6_addresses: vec!["fe80::1".to_string()],
        tx_bytes: 1024 * 1024,     // 1MB
        rx_bytes: 2 * 1024 * 1024, // 2MB
        tx_packets: 1000,
        rx_packets: 2000,
        tx_errors: 0,
        rx_errors: 1,
    };

    assert_eq!(network.interface, "wlan0");
    assert!(network.is_up);
    assert_eq!(network.ipv4_addresses.len(), 2);
    assert_eq!(network.ipv6_addresses.len(), 1);
    assert_eq!(network.tx_bytes, 1024 * 1024);
    assert_eq!(network.rx_errors, 1);
}

/// Test default implementations
#[test]
fn test_default_implementations() {
    let system_info = SystemInfo::default();
    assert!(system_info.hostname.is_empty());
    assert_eq!(system_info.process_count, 0);
}

#[test]
fn default_memory_records_are_zero() {
    let swap = SwapInfo::default();
    assert_eq!((swap.total_bytes, swap.used_bytes, swap.free_bytes), (0, 0, 0));
    let b = MemoryBreakdown::default();
    assert_eq!((b.buffers_bytes, b.cached_bytes, b.shared_bytes), (0, 0, 0));
}

#[test]
fn web_config_defaults_and_new() {
    let d = WebConfig::default();
    assert_eq!(d.host, "0.0.0.0");
    assert_eq!(d.port, 8080);
    assert!(d.enable_cors);
    assert_eq!(d.static_path.as_deref(), Some("static"));
    assert_eq!(d.max_websocket_connections, 100);
    assert_eq!(d.bind_address(), "0.0.0.0:8080");

    let c = WebConfig::new("192.168.0.2", 65535).with_static_path(None);
    assert_eq!(c.bind_address(), "192.168.0.2:65535");
    assert_eq!(c.static_path, None);
    assert!(c.enable_cors);
    assert_eq!(WebConfig::new("h", 0).bind_address(), "h:0");
}

#[test]
fn every_error_kind_displays_its_label() {
    assert_eq!(SystemError::system_error("x").to_display_string(), "System error: x");
    assert_eq!(SystemError::parse_error("x").to_display_string(), "Parse error: x");
    assert_eq!(SystemError::network_error("x").to_display_string(), "Network error: x");
    assert_eq!(SystemError::web_server_error("x").to_display_string(), "Web server error: x");
    assert_eq!(SystemError::config_error("x").to_display_string(), "Configuration error: x");
    assert_eq!(SystemError::gpio_error("x").to_display_string(), "GPIO error: x");
}

#[test]
fn network_record_from_counters() {
    let n = NetworkInfo::from_counters("eth0".to_string(), 0, 0, 0, 0, 0, 0);
    assert!(!n.is_up);
    assert!(n.mac_address.is_none());
    let n = NetworkInfo::from_counters("eth0".to_string(), 0, 5, 1, 2, 3, 4);
    assert!(n.is_up);
    assert_eq!((n.tx_packets, n.rx_packets, n.tx_errors, n.rx_errors), (1, 2, 3, 4));
}

#[test]
fn system_info_from_readings() {
    let s = SystemInfo::from_readings(
        Some("pi".to_string()),
        None,
        Some("12".to_string()),
        None,
        100,
        1_000,
        42,
    );
    assert_eq!(s.hostname, "pi");
    assert_eq!(s.os_name, "unknown");
    assert_eq!(s.os_version, "12");
    assert_eq!(s.kernel_version, "unknown");
    assert_eq!(s.uptime_seconds, 100);
    assert_eq!(s.boot_time, 900);
    assert_eq!(s.process_count, 42);
}
