use prompt_dialog::port::{base_url, extract_port_from_cmdline};

#[test]
fn test_extract_port_space_separated() {
    assert_eq!(
        extract_port_from_cmdline("opencode --port 12345"),
        Some(12345)
    );
}

#[test]
fn test_extract_port_with_other_flags() {
    assert_eq!(
        extract_port_from_cmdline("node opencode.js --port 8080 --other"),
        Some(8080)
    );
}

#[test]
fn test_extract_port_equals_syntax() {
    assert_eq!(
        extract_port_from_cmdline("opencode --port=9999"),
        Some(9999)
    );
}

#[test]
fn test_extract_port_missing() {
    assert_eq!(extract_port_from_cmdline("opencode --other"), None);
}

#[test]
fn test_extract_port_no_value() {
    assert_eq!(extract_port_from_cmdline("opencode --port"), None);
}

#[test]
fn test_extract_port_invalid_value() {
    assert_eq!(extract_port_from_cmdline("opencode --port abc"), None);
}

#[test]
fn extract_port_edge_values() {
    assert_eq!(extract_port_from_cmdline("x --port 65535"), Some(65535));
    assert_eq!(extract_port_from_cmdline("x --port 65536"), None);
    assert_eq!(extract_port_from_cmdline("x --port +80"), Some(80));
    assert_eq!(extract_port_from_cmdline("x --port -80"), None);
    assert_eq!(extract_port_from_cmdline("x --port 0"), Some(0));
    assert_eq!(extract_port_from_cmdline("x --port="), None);
}

#[test]
fn extract_port_first_valid_wins() {
    assert_eq!(
        extract_port_from_cmdline("x --port bad --port=7 --port 8"),
        Some(7)
    );
    assert_eq!(extract_port_from_cmdline("x\t--port\n\n42"), Some(42));
}

#[test]
fn extract_port_round_trips_every_port() {
    for p in 0..=65535u16 {
        assert_eq!(extract_port_from_cmdline(&format!("tool --port {}", p)), Some(p));
        assert_eq!(extract_port_from_cmdline(&format!("tool --port={}", p)), Some(p));
    }
}

#[test]
fn test_base_url() {
    assert_eq!(base_url(12345), "http://localhost:12345");
}

#[test]
fn test_base_url_default_port() {
    assert_eq!(base_url(4096), "http://localhost:4096");
}

#[test]
fn base_url_small_ports() {
    assert_eq!(base_url(0), "http://localhost:0");
    assert_eq!(base_url(65535), "http://localhost:65535");
}
