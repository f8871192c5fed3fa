use scpf::server::{server_addr_text_of, server_config_from_addr, DEFAULT_SERVER_ADDR};

// The second argument is how the address text prints once parsed as a socket
// address; these literals are what the standard parser prints for them.

#[test]
fn server_origin_uses_http_for_ipv4_addresses() {
    let config = server_config_from_addr("127.0.0.1:32145", Some("127.0.0.1:32145"));

    assert_eq!(config.addr, "127.0.0.1:32145");
    assert_eq!(config.origin, "http://127.0.0.1:32145");
}

#[test]
fn server_origin_wraps_ipv6_addresses_correctly() {
    let config = server_config_from_addr("[::1]:4444", Some("[::1]:4444"));

    assert_eq!(config.origin, "http://[::1]:4444");
}

#[test]
fn server_origin_strips_scheme_space_and_slashes_when_not_a_socket_address() {
    let config = server_config_from_addr("  http://localhost:8080//  ", None);
    assert_eq!(config.addr, "  http://localhost:8080//  ");
    assert_eq!(config.origin, "http://localhost:8080");
}

#[test]
fn server_addr_text_strips_repeated_scheme() {
    assert_eq!(server_addr_text_of("http://http://a/"), "a");
    assert_eq!(server_addr_text_of(DEFAULT_SERVER_ADDR), "127.0.0.1:32145");
}
