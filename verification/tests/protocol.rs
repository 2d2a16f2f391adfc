use tunnel_proxy::protocol::Packet;
use tunnel_proxy::utils::ErrorKind;

#[test]
fn test_initialize_connection() {
    let packet = Packet::InitializeConnection { stream_id: 1 };

    let bytes = packet.serialize().unwrap();
    let parsed = Packet::parse(bytes).unwrap();
    assert_eq!(packet, parsed);
}

#[test]
fn test_close_connection() {
    let packet = Packet::CloseConnection { stream_id: 1 };

    let bytes = packet.serialize().unwrap();
    let parsed = Packet::parse(bytes).unwrap();
    assert_eq!(packet, parsed);
}

#[test]
fn test_request_proxy() {
    let packet_subdomain = Packet::RequestProxy {
        custom_subdomain: Some("foobar".to_string()),
    };

    let packet = Packet::RequestProxy {
        custom_subdomain: None,
    };

    let bytes_subdomain = packet_subdomain.serialize().unwrap();
    let parsed_subdomain = Packet::parse(bytes_subdomain).unwrap();

    let bytes = packet.serialize().unwrap();
    let parsed = Packet::parse(bytes).unwrap();

    assert_eq!(packet_subdomain, parsed_subdomain);
    assert_eq!(packet, parsed);
}

#[test]
fn test_overlayed_packet() {
    let packet = Packet::OverlayedPacket {
        contents: vec![0, 20, 244, 10, 0],
    };

    let bytes = packet.serialize().unwrap();
    let parsed = Packet::parse(bytes).unwrap();
    assert_eq!(packet, parsed);
}

#[test]
fn serialize_request_proxy_layout() {
    let packet = Packet::RequestProxy { custom_subdomain: Some("ab".to_string()) };
    assert_eq!(packet.serialize().unwrap(), vec![0, 1, 0, 0, 0, 0, 0, 0, 0, 2, b'a', b'b']);
    let none = Packet::RequestProxy { custom_subdomain: None };
    assert_eq!(none.serialize().unwrap(), vec![0, 0]);
}

#[test]
fn serialize_stream_id_big_endian() {
    let packet = Packet::InitializeConnection { stream_id: 0x0102030405060708 };
    assert_eq!(packet.serialize().unwrap(), vec![1, 1, 2, 3, 4, 5, 6, 7, 8]);
    let packet = Packet::CloseConnection { stream_id: 258 };
    assert_eq!(packet.serialize().unwrap(), vec![2, 0, 0, 0, 0, 0, 0, 1, 2]);
    let packet = Packet::OverlayedPacket { contents: vec![9, 8] };
    assert_eq!(packet.serialize().unwrap(), vec![3, 9, 8]);
}

#[test]
fn parse_reads_big_endian_stream_id() {
    let parsed = Packet::parse(vec![1, 0, 0, 0, 0, 0, 0, 1, 2]).unwrap();
    assert_eq!(parsed, Packet::InitializeConnection { stream_id: 258 });
    let parsed = Packet::parse(vec![2, 0xff, 0, 0, 0, 0, 0, 0, 0, 77]).unwrap();
    assert_eq!(parsed, Packet::CloseConnection { stream_id: 0xff00000000000000 });
}

#[test]
fn parse_unicode_subdomain_roundtrip() {
    let packet = Packet::RequestProxy { custom_subdomain: Some("héllo-ü".to_string()) };
    let bytes = packet.serialize().unwrap();
    assert_eq!(bytes[9] as usize, "héllo-ü".len());
    assert_eq!(Packet::parse(bytes).unwrap(), packet);
}

#[test]
fn parse_ignores_trailing_bytes() {
    let parsed = Packet::parse(vec![0, 1, 0, 0, 0, 0, 0, 0, 0, 1, b'x', b'y', b'z']).unwrap();
    assert_eq!(parsed, Packet::RequestProxy { custom_subdomain: Some("x".to_string()) });
    let parsed = Packet::parse(vec![0, 7, 1, 2]).unwrap();
    assert_eq!(parsed, Packet::RequestProxy { custom_subdomain: None });
    let parsed = Packet::parse(vec![3]).unwrap();
    assert_eq!(parsed, Packet::OverlayedPacket { contents: vec![] });
}

fn parse_error(bytes: Vec<u8>) -> (ErrorKind, String) {
    let e = Packet::parse(bytes).unwrap_err();
    (e.kind, e.message)
}

#[test]
fn parse_errors() {
    assert_eq!(parse_error(vec![]), (ErrorKind::Other, "could not read packet type".to_string()));
    assert_eq!(
        parse_error(vec![0]),
        (ErrorKind::Other, "could not read contains subdomain".to_string())
    );
    assert_eq!(
        parse_error(vec![0, 1, 0, 0, 0]),
        (ErrorKind::Other, "could not read subdomain length".to_string())
    );
    assert_eq!(
        parse_error(vec![0, 1, 0, 0, 0, 0, 0, 0, 0, 5, b'a']),
        (ErrorKind::UnexpectedEof, "failed to fill whole buffer".to_string())
    );
    assert_eq!(
        parse_error(vec![0, 1, 0, 0, 0, 0, 0, 0, 0, 2, 0xc3, 0x28]),
        (ErrorKind::Other, "could not parse subdomain string".to_string())
    );
    assert_eq!(
        parse_error(vec![1, 0, 0, 0, 0, 0, 0, 0]),
        (ErrorKind::Other, "could not read stream id".to_string())
    );
    assert_eq!(
        parse_error(vec![2, 5]),
        (ErrorKind::Other, "could not read stream id".to_string())
    );
    assert_eq!(parse_error(vec![4, 0, 0]), (ErrorKind::Other, "invalid packet type".to_string()));
}
