use preers::codec::{decode_req, decode_resp, encode_req, encode_resp, UseServiceReq, UseServiceResp};

fn req(host: &[u8], port: u32) -> UseServiceReq {
    UseServiceReq { host: host.to_vec(), port }
}

#[test]
fn req_roundtrip_echo_service() {
    let encoded = encode_req(&req(b"127.0.0.1", 7000));
    let decoded = decode_req(&encoded).expect("round trip");
    assert_eq!(decoded.host, b"127.0.0.1".to_vec());
    assert_eq!(decoded.port, 7000);
}

#[test]
fn req_known_bytes() {
    // tag 10, length 2, "ab", tag 16, varint 5
    let encoded = encode_req(&req(b"ab", 5));
    assert_eq!(encoded, vec![10, 2, b'a', b'b', 16, 5]);
}

#[test]
fn req_two_byte_port_varint() {
    // 8080 = 0x1f90: low seven bits 0x10 with continuation, then 0x3f
    let encoded = encode_req(&req(b"h", 8080));
    assert_eq!(encoded, vec![10, 1, b'h', 16, 0x90, 0x3f]);
    let decoded = decode_req(&encoded).expect("round trip");
    assert_eq!(decoded.port, 8080);
}

#[test]
fn resp_roundtrip_both_values() {
    for allowed in [false, true] {
        let encoded = encode_resp(&UseServiceResp { allowed });
        let decoded = decode_resp(&encoded).expect("round trip");
        assert_eq!(decoded.allowed, allowed);
    }
}

#[test]
fn resp_known_bytes() {
    assert_eq!(encode_resp(&UseServiceResp { allowed: true }), vec![8, 1]);
    assert_eq!(encode_resp(&UseServiceResp { allowed: false }), vec![8, 0]);
}

#[test]
fn unknown_fields_are_skipped() {
    // field 3 wire 2 (tag 26) with two payload bytes, then the host field
    let bytes = vec![26, 2, 0xaa, 0xbb, 10, 3, b'x', b'y', b'z', 16, 9];
    let decoded = decode_req(&bytes).expect("skip unknown");
    assert_eq!(decoded.host, b"xyz".to_vec());
    assert_eq!(decoded.port, 9);
}

#[test]
fn later_field_overwrites_earlier() {
    let bytes = vec![16, 1, 16, 2];
    let decoded = decode_req(&bytes).expect("decode");
    assert_eq!(decoded.port, 2);
}

#[test]
fn empty_message_decodes_to_defaults() {
    let decoded = decode_req(&Vec::new()).expect("empty message");
    assert_eq!(decoded.host, Vec::<u8>::new());
    assert_eq!(decoded.port, 0);
}

#[test]
fn truncated_length_is_rejected() {
    // host field announces 3 bytes but only 1 follows
    let bytes = vec![10, 3, b'a'];
    assert!(decode_req(&bytes).is_none());
}

#[test]
fn dangling_varint_is_rejected() {
    let bytes = vec![0x80];
    assert!(decode_req(&bytes).is_none());
    assert!(decode_resp(&bytes).is_none());
}

#[test]
fn nonzero_resp_value_means_allowed() {
    let bytes = vec![8, 7];
    let decoded = decode_resp(&bytes).expect("decode");
    assert!(decoded.allowed);
}
