use base64::Engine;
use rinova_void::export::decode_base64_payload;
use rinova_void::unsupported_platform::{capture_monitor, capture_virtual_desktop, list_monitors};

#[test]
fn base64_round_trips_through_the_engine() {
    for data in [&b""[..], b"a", b"ab", b"abc", b"\x00\xff\x10\x80"] {
        let text = base64::engine::general_purpose::STANDARD.encode(data);
        assert_eq!(decode_base64_payload(&text).unwrap(), data.to_vec());
    }
    assert!(decode_base64_payload("QQ==").is_ok());
    assert!(decode_base64_payload("QR==").is_err());
}

#[test]
fn unsupported_platform_answers() {
    assert_eq!(list_monitors().unwrap_err(), "当前平台取色暂未支持");
    assert_eq!(capture_virtual_desktop().unwrap_err(), "当前平台取色暂未支持");
    assert_eq!(capture_monitor(0).unwrap_err(), "当前平台取色暂未支持");
}
