use visionary::address::{
    gateway_file_port, is_dotted_quad, local_address, plugin_addr, plugin_port,
    DEFAULT_PLUGIN_PORT,
};

#[test]
fn plugin_address_prefers_full_override_then_port_then_gateway_file() {
    assert_eq!(
        plugin_addr(Some("[::1]:3210".to_string()), Some("4321"), None),
        "[::1]:3210"
    );
    // A setting that is no address is not given.
    assert_eq!(
        plugin_addr(None, Some("4321"), None),
        "127.0.0.1:4321"
    );
    assert_eq!(
        plugin_addr(None, None, Some("127.0.0.1:5432\n")),
        "127.0.0.1:5432"
    );
    assert_eq!(
        plugin_addr(None, None, Some("127.0.0.1:65536\n")),
        "127.0.0.1:7878"
    );
    assert_eq!(
        plugin_addr(None, None, Some("not-a-dotted-quad:5432\n")),
        "127.0.0.1:7878"
    );
}

#[test]
fn a_port_is_never_zero() {
    for (setting, file) in [
        (Some("0"), None),
        (Some("0"), Some("127.0.0.1:0")),
        (None, Some("127.0.0.1:0\n")),
        (None, None),
        (Some(""), Some("")),
    ] {
        assert_ne!(plugin_port(setting, file), 0);
    }
    assert_eq!(plugin_port(None, None), DEFAULT_PLUGIN_PORT);
    assert_eq!(plugin_port(Some("65535"), Some("127.0.0.1:1")), 65535);
    assert_eq!(local_address(1), "127.0.0.1:1");
}

#[test]
fn dotted_quads() {
    assert!(is_dotted_quad("127.0.0.1"));
    assert!(is_dotted_quad("255.255.255.255"));
    assert!(is_dotted_quad("256.0.0.1"));
    assert!(!is_dotted_quad("1..2.3"));
    assert!(!is_dotted_quad("1.2.3"));
    assert!(!is_dotted_quad("1.2.3.4.5"));
    assert!(!is_dotted_quad("a.b.c.d"));
    assert!(!is_dotted_quad(""));
}

#[test]
fn gateway_files() {
    assert_eq!(gateway_file_port("192.168.0.2:9000"), Some(9000));
    assert_eq!(gateway_file_port("garbage"), None);
    assert_eq!(gateway_file_port("\n  192.168.0.2  \n"), Some(7878));
    assert_eq!(gateway_file_port("host:1\n10.0.0.1:99999999999\n10.0.0.1:1"), Some(7878));
    assert_eq!(gateway_file_port("host:1\r\n10.0.0.1:+80\r\n"), Some(80));
}
