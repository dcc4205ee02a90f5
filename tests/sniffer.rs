use proxy_server_lib::cryptde::{CryptDE, CryptDENull, CryptdeError};
use proxy_server_lib::factory::ClientRequestPayloadFactory;
use proxy_server_lib::messages::{InboundClientData, StreamKey};
use proxy_server_lib::route::{Component, Route, RouteSegment};
use proxy_server_lib::sniffer::{classify, http_host_name, tls_server_name, ProxyProtocol};

fn hello(session_id: &[u8], ciphers: &[u8], compression: &[u8], extensions: &[u8]) -> Vec<u8> {
    let mut v = vec![0x16, 0x03, 0x01, 0x00, 0x00, 0x01, 0x00, 0x00, 0x00, 0x03, 0x03];
    v.extend_from_slice(&[7u8; 32]);
    v.push(session_id.len() as u8);
    v.extend_from_slice(session_id);
    v.extend_from_slice(&[(ciphers.len() >> 8) as u8, ciphers.len() as u8]);
    v.extend_from_slice(ciphers);
    v.push(compression.len() as u8);
    v.extend_from_slice(compression);
    v.extend_from_slice(&[(extensions.len() >> 8) as u8, extensions.len() as u8]);
    v.extend_from_slice(extensions);
    v
}

fn sni_extension(name: &[u8]) -> Vec<u8> {
    let n = name.len();
    let mut v = vec![0x00, 0x00, ((n + 5) >> 8) as u8, (n + 5) as u8];
    v.extend_from_slice(&[((n + 3) >> 8) as u8, (n + 3) as u8, 0x00, (n >> 8) as u8, n as u8]);
    v.extend_from_slice(name);
    v
}

#[test]
fn client_hello_sni_after_other_extensions() {
    let mut exts = vec![0x00, 0x0A, 0x00, 0x02, 0xAA, 0xBB, 0x00, 0x0B, 0x00, 0x00];
    exts.extend_from_slice(&sni_extension(b"example.com"));
    exts.extend_from_slice(&[0x00, 0x10, 0x00, 0x01, 0x05]);
    let data = hello(&[1, 2, 3], &[0x13, 0x01, 0x13, 0x02], &[0], &exts);

    assert_eq!(tls_server_name(&data), Some(b"example.com".to_vec()));
    assert_eq!(classify(&data), (ProxyProtocol::TLS, Some(String::from("example.com"))));
}

#[test]
fn client_hello_without_sni_has_no_host() {
    let data = hello(&[], &[0x13, 0x01], &[0], &[0x00, 0x0A, 0x00, 0x02, 0xAA, 0xBB]);
    assert_eq!(classify(&data), (ProxyProtocol::TLS, None));
}

#[test]
fn truncated_client_hello_has_no_host() {
    let full = hello(&[], &[], &[], &sni_extension(b"server.com"));
    for cut in 0..full.len() {
        let data = full[..cut].to_vec();
        let expected = if cut == 0 { ProxyProtocol::HTTP } else { ProxyProtocol::TLS };
        assert_eq!(classify(&data), (expected, None), "cut at {}", cut);
    }
    assert_eq!(classify(&full), (ProxyProtocol::TLS, Some(String::from("server.com"))));
}

#[test]
fn extension_longer_than_its_block_has_no_host() {
    let mut exts = sni_extension(b"server.com");
    exts[3] = 0x40;
    let data = hello(&[], &[], &[], &exts);
    assert_eq!(tls_server_name(&data), None);
}

#[test]
fn only_the_first_server_name_entry_is_read() {
    let mut ext = vec![0x00, 0x00, 0x00, 0x0D, 0x00, 0x0B, 0x00, 0x00, 0x01, b'a', 0x00, 0x00, 0x01, b'b'];
    ext[3] = 10;
    ext[5] = 8;
    let data = hello(&[], &[], &[], &ext);
    assert_eq!(classify(&data), (ProxyProtocol::TLS, Some(String::from("a"))));
}

#[test]
fn sni_that_is_not_utf8_has_no_host_text() {
    let data = hello(&[], &[], &[], &sni_extension(&[0xC3, 0x28]));
    assert_eq!(tls_server_name(&data), Some(vec![0xC3, 0x28]));
    assert_eq!(classify(&data), (ProxyProtocol::TLS, None));
}

#[test]
fn http_host_header_is_case_insensitive_and_trimmed() {
    let data = b"GET / HTTP/1.1\r\nAccept: */*\r\nhOsT:   a.example \t\r\n\r\n".to_vec();
    assert_eq!(http_host_name(&data), Some(b"a.example".to_vec()));
    assert_eq!(classify(&data), (ProxyProtocol::HTTP, Some(String::from("a.example"))));
}

#[test]
fn http_first_host_header_wins() {
    let data = b"GET / HTTP/1.1\r\nHost: one\r\nHost: two\r\n\r\n".to_vec();
    assert_eq!(classify(&data), (ProxyProtocol::HTTP, Some(String::from("one"))));
}

#[test]
fn http_host_header_without_line_break_is_not_read() {
    let data = b"GET / HTTP/1.1\r\nHost: partial".to_vec();
    assert_eq!(classify(&data), (ProxyProtocol::HTTP, None));
}

#[test]
fn http_host_tag_inside_a_line_is_not_a_header() {
    let data = b"GET /Host:x HTTP/1.1\r\nX-Host: y\r\n\r\n".to_vec();
    assert_eq!(classify(&data), (ProxyProtocol::HTTP, None));
}

#[test]
fn http_empty_host_value() {
    let data = b"Host:\r\n".to_vec();
    assert_eq!(classify(&data), (ProxyProtocol::HTTP, Some(String::new())));
}

#[test]
fn http_host_value_with_utf8() {
    let data = "GET / HTTP/1.1\r\nHost: bücher.example\r\n\r\n".as_bytes().to_vec();
    assert_eq!(classify(&data), (ProxyProtocol::HTTP, Some(String::from("bücher.example"))));
}

#[test]
fn empty_input_is_http_without_host() {
    assert_eq!(classify(&vec![]), (ProxyProtocol::HTTP, None));
}

fn inbound(origin_port: Option<u16>, data: &[u8]) -> InboundClientData {
    InboundClientData {
        stream_key: StreamKey { ip: vec![0, 0, 0, 0, 0, 0, 0, 0, 0, 0, 0, 0, 0, 0, 0, 1], port: 9 },
        origin_port,
        last_data: false,
        data: data.to_vec(),
    }
}

#[test]
fn factory_uses_listener_port_and_engine_key() {
    let factory = ClientRequestPayloadFactory::new();
    let cryptde = CryptDENull::new(vec![5, 6]);
    let p = factory.make(inbound(Some(8443), &hello(&[], &[], &[], &sni_extension(b"s.io"))), &cryptde).unwrap();
    assert_eq!(p.target_port, 8443);
    assert_eq!(p.protocol, ProxyProtocol::TLS);
    assert_eq!(p.target_hostname, Some(String::from("s.io")));
    assert_eq!(p.originator_public_key, vec![5, 6]);
    assert_eq!(p.stream_key.port, 9);
}

#[test]
fn factory_defaults_port_by_protocol() {
    let factory = ClientRequestPayloadFactory::new();
    let cryptde = CryptDENull::new(vec![5]);
    let http = factory.make(inbound(None, b"GET / HTTP/1.0\r\n\r\n"), &cryptde).unwrap();
    assert_eq!(http.target_port, 80);
    let tls = factory.make(inbound(None, &[0x16, 0, 0]), &cryptde).unwrap();
    assert_eq!(tls.target_port, 443);
    assert_eq!(tls.protocol, ProxyProtocol::TLS);
}

#[test]
fn factory_makes_nothing_of_empty_data() {
    let factory = ClientRequestPayloadFactory::new();
    assert_eq!(factory.make(inbound(Some(80), b""), &CryptDENull::new(vec![5])), None);
}

#[test]
fn factory_without_host_line_still_makes_http_payload() {
    let factory = ClientRequestPayloadFactory::new();
    let p = factory.make(inbound(Some(80), b"abc"), &CryptDENull::new(vec![5])).unwrap();
    assert_eq!(p.protocol, ProxyProtocol::HTTP);
    assert_eq!(p.target_hostname, None);
}

#[test]
fn null_engine_prefixes_the_key() {
    let c = CryptDENull::new(vec![9]);
    assert_eq!(c.encode(&vec![1, 2], &vec![3]), Ok(vec![1, 2, 3]));
    assert_eq!(c.encode(&vec![], &vec![3]), Err(CryptdeError::EmptyKey));
    assert_eq!(c.encode(&vec![1], &vec![]), Err(CryptdeError::EmptyData));
    assert_eq!(c.public_key(), vec![9]);
}

#[test]
fn route_hops_name_next_node_and_component() {
    let c = CryptDENull::new(vec![9]);
    let segments = vec![
        RouteSegment { keys: vec![vec![1], vec![2], vec![3]], recipient: Component::ProxyClient },
        RouteSegment { keys: vec![vec![3], vec![4]], recipient: Component::ProxyServer },
        RouteSegment { keys: vec![vec![4]], recipient: Component::Hopper },
    ];
    let route = Route::new(&segments, &c).unwrap();
    assert_eq!(
        route,
        Route { hops: vec![vec![1, 0, 2], vec![2, 2, 3], vec![3, 1, 4]] }
    );
}

#[test]
fn route_fails_on_the_first_key_the_engine_refuses() {
    let c = CryptDENull::new(vec![9]);
    let segments = vec![RouteSegment { keys: vec![vec![1], vec![], vec![3]], recipient: Component::ProxyClient }];
    assert_eq!(Route::new(&segments, &c), Err(CryptdeError::EmptyKey));
    assert_eq!(Route::new(&vec![], &c), Ok(Route { hops: vec![] }));
}
