use tftpd::packet::{decode, encode, Packet};

fn pairs(ps: &[(&[u8], &[u8])]) -> Vec<(Vec<u8>, Vec<u8>)> {
    ps.iter().map(|(n, v)| (n.to_vec(), v.to_vec())).collect()
}

fn round_trip(bytes: &[u8]) -> Packet {
    let p = decode(bytes).expect("well-formed datagram");
    assert_eq!(encode(&p), bytes, "encode(decode(p)) must restore the datagram");
    p
}

#[test]
fn rrq_round_trip() {
    let bytes = b"\x00\x01hello.txt\x00octet\x00";
    let p = round_trip(bytes);
    assert_eq!(
        p,
        Packet::Rrq {
            filename: b"hello.txt".to_vec(),
            mode: b"octet".to_vec(),
            options: Vec::new(),
        }
    );
}

#[test]
fn rrq_with_options_round_trip() {
    let bytes = b"\x00\x01f\x00octet\x00blksize\x008192\x00tsize\x000\x00";
    let p = round_trip(bytes);
    assert_eq!(
        p,
        Packet::Rrq {
            filename: b"f".to_vec(),
            mode: b"octet".to_vec(),
            options: pairs(&[(b"blksize", b"8192"), (b"tsize", b"0")]),
        }
    );
}

#[test]
fn rrq_preserves_option_case() {
    // Decoding keeps the raw bytes, so re-encoding restores the datagram
    // even when the client used upper case.
    let bytes = b"\x00\x01F\x00OCTET\x00BLKSIZE\x001024\x00";
    round_trip(bytes);
}

#[test]
fn wrq_round_trip() {
    let bytes = b"\x00\x02new.bin\x00octet\x00";
    let p = round_trip(bytes);
    assert_eq!(
        p,
        Packet::Wrq {
            filename: b"new.bin".to_vec(),
            mode: b"octet".to_vec(),
            options: Vec::new(),
        }
    );
}

#[test]
fn data_round_trip() {
    let bytes = b"\x00\x03\x00\x01hi\n";
    let p = round_trip(bytes);
    assert_eq!(p, Packet::Data { block: 1, payload: b"hi\n".to_vec() });
}

#[test]
fn data_empty_payload_round_trip() {
    let bytes = b"\x00\x03\x00\x05";
    let p = round_trip(bytes);
    assert_eq!(p, Packet::Data { block: 5, payload: Vec::new() });
}

#[test]
fn ack_round_trip() {
    let bytes = b"\x00\x04\xff\xff";
    let p = round_trip(bytes);
    assert_eq!(p, Packet::Ack { block: 0xffff });
}

#[test]
fn error_round_trip() {
    let bytes = b"\x00\x05\x00\x02Permission denied\x00";
    let p = round_trip(bytes);
    assert_eq!(p, Packet::Error { code: 2, message: b"Permission denied".to_vec() });
}

#[test]
fn oack_round_trip() {
    let bytes = b"\x00\x06blksize\x001432\x00timeout\x003\x00";
    let p = round_trip(bytes);
    assert_eq!(p, Packet::Oack { options: pairs(&[(b"blksize", b"1432"), (b"timeout", b"3")]) });
}

#[test]
fn encode_produces_wire_layout() {
    let p = Packet::Data { block: 258, payload: b"abc".to_vec() };
    assert_eq!(encode(&p), b"\x00\x03\x01\x02abc");
    let p = Packet::Ack { block: 0 };
    assert_eq!(encode(&p), b"\x00\x04\x00\x00");
    let p = Packet::Error { code: 6, message: b"File already exists".to_vec() };
    assert_eq!(encode(&p), b"\x00\x05\x00\x06File already exists\x00");
}

#[test]
fn decode_rejects_short_header() {
    assert_eq!(decode(b""), None);
    assert_eq!(decode(b"\x00"), None);
    assert_eq!(decode(b"\x00\x03\x00"), None);
    assert_eq!(decode(b"\x00\x05\x00\x00"), None);
}

#[test]
fn decode_rejects_missing_terminator() {
    assert_eq!(decode(b"\x00\x01hello.txt"), None);
    assert_eq!(decode(b"\x00\x01hello.txt\x00octet"), None);
    assert_eq!(decode(b"\x00\x05\x00\x00oops"), None);
}

#[test]
fn decode_rejects_empty_filename() {
    assert_eq!(decode(b"\x00\x01\x00octet\x00"), None);
}

#[test]
fn decode_rejects_dangling_option_fragment() {
    assert_eq!(decode(b"\x00\x01f\x00octet\x00blksize\x00"), None);
    assert_eq!(decode(b"\x00\x06name\x00"), None);
}

#[test]
fn decode_rejects_trailing_bytes() {
    assert_eq!(decode(b"\x00\x04\x00\x01x"), None);
    assert_eq!(decode(b"\x00\x05\x00\x00msg\x00extra"), None);
}

#[test]
fn decode_rejects_unknown_opcode() {
    assert_eq!(decode(b"\x00\x07x\x00"), None);
    assert_eq!(decode(b"\x00\x00ab"), None);
}
