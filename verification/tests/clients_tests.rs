use life_of_pi::web::clients::ClientRegistry;
use life_of_pi::web::health::HealthReport;

#[test]
fn test_connected_client_count() {
    let registry = ClientRegistry::new(100);
    assert!(registry.count() == 0);
    assert!(!registry.has_clients());
}

#[test]
fn test_connected_clients_info() {
    let registry = ClientRegistry::new(100);
    assert!(registry.client_infos(5_000_000_000).is_empty());
}

#[test]
fn connect_and_disconnect_clients() {
    let mut registry = ClientRegistry::new(100);
    assert!(registry.connect("a".to_string(), 1_500_000_000));
    assert!(registry.connect("b".to_string(), 2_000_000_000));
    assert_eq!(registry.count(), 2);
    assert!(registry.has_clients());
    assert!(registry.connect("a".to_string(), 3_000_000_000));
    assert_eq!(registry.count(), 2);

    let mut infos = registry.client_infos(10_999_999_999);
    infos.sort_by(|x, y| x.id.cmp(&y.id));
    assert_eq!(infos[0].id, "a");
    assert_eq!(infos[0].connected_at, 3);
    assert_eq!(infos[0].connected_duration_seconds, 7);
    assert_eq!(infos[1].id, "b");
    assert_eq!(infos[1].connected_at, 2);
    assert_eq!(infos[1].connected_duration_seconds, 8);

    registry.disconnect("a");
    assert_eq!(registry.count(), 1);
    registry.disconnect("missing");
    assert_eq!(registry.count(), 1);
    let infos = registry.client_infos(1_000_000_000);
    assert_eq!(infos[0].connected_duration_seconds, 0);
    registry.disconnect("b");
    assert_eq!(registry.count(), 0);
}

#[test]
fn registered_clients_get_fresh_ids() {
    let mut registry = ClientRegistry::new(100);
    let a = registry.register(1_000_000_000).unwrap();
    let b = registry.register(2_000_000_000).unwrap();
    assert_eq!(a.len(), 36);
    for (i, c) in a.chars().enumerate() {
        if [8, 13, 18, 23].contains(&i) {
            assert_eq!(c, '-');
        } else {
            assert!(c.is_ascii_hexdigit() && !c.is_ascii_uppercase());
        }
    }
    assert_eq!(a.as_bytes()[14], b'4');
    assert!(matches!(a.as_bytes()[19], b'8' | b'9' | b'a' | b'b'));
    assert_ne!(a, b);
    assert_eq!(registry.count(), 2);
    registry.disconnect(&a);
    assert_eq!(registry.count(), 1);
    assert_eq!(registry.client_infos(2_000_000_000)[0].id, b);
}

#[test]
fn health_report_names_the_service() {
    let r = HealthReport::now("1.2.3").unwrap();
    assert_eq!(r.status, "ok");
    assert_eq!(r.service, "life-of-pi");
    assert_eq!(r.version, "1.2.3");
    assert!(r.timestamp.contains('T'));
    let r = HealthReport::at("0.1", 0, 0).unwrap();
    assert_eq!(r.timestamp, "1970-01-01T00:00:00+00:00");
    let r = HealthReport::at("0.1", 1_431_648_000, 500_000_000).unwrap();
    assert_eq!(r.timestamp, "2015-05-15T00:00:00.500+00:00");
    assert!(HealthReport::at("0.1", u64::MAX, 0).is_none());
    assert!(HealthReport::at("0.1", i64::MAX as u64, 0).is_none());
}

#[test]
fn registry_refuses_clients_beyond_its_limit() {
    let mut registry = ClientRegistry::new(2);
    assert_eq!(registry.max_clients(), 2);
    assert!(registry.register(1).is_ok());
    assert!(registry.connect("x".to_string(), 2));
    let err = registry.register(3).unwrap_err();
    assert_eq!(
        err.to_display_string(),
        "Web server error: Maximum number of WebSocket connections reached"
    );
    assert!(!registry.connect("y".to_string(), 4));
    assert!(registry.connect("x".to_string(), 5));
    assert_eq!(registry.count(), 2);
    registry.disconnect("x");
    assert!(registry.connect("y".to_string(), 6));
    registry.set_max_clients(1);
    assert_eq!(registry.count(), 2);
    assert!(registry.register(7).is_err());
}

#[test]
fn test_broadcast_no_clients() {
    let registry = ClientRegistry::new(100);
    assert!(!registry.has_clients());
}
