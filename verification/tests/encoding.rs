use protocol_store::encoding::{
    address_bytes, bytes_equal, decimal_bytes, device_prefix_bytes, parse_u32_bytes,
    sender_key_bytes, uuid_bytes, ProtocolAddress, ServiceAddress, Uuid,
};

fn sample_uuid() -> Uuid {
    Uuid {
        bytes: [
            0x67, 0xe5, 0x50, 0x44, 0x10, 0xb1, 0x42, 0x6f, 0x92, 0x47, 0xbb, 0x68, 0x0e, 0x5f,
            0xe0, 0xc8,
        ],
    }
}

#[test]
fn decimal_text_of_numbers() {
    assert_eq!(decimal_bytes(0), b"0".to_vec());
    assert_eq!(decimal_bytes(7), b"7".to_vec());
    assert_eq!(decimal_bytes(1234), b"1234".to_vec());
    assert_eq!(decimal_bytes(u32::MAX), b"4294967295".to_vec());
}

#[test]
fn parse_accepts_what_u32_parse_accepts() {
    assert_eq!(parse_u32_bytes(b"42"), Some(42));
    assert_eq!(parse_u32_bytes(b"+42"), Some(42));
    assert_eq!(parse_u32_bytes(b"0042"), Some(42));
    assert_eq!(parse_u32_bytes(b"4294967295"), Some(u32::MAX));
    assert_eq!(parse_u32_bytes(b"4294967296"), None);
    assert_eq!(parse_u32_bytes(b"99999999999999999999"), None);
    assert_eq!(parse_u32_bytes(b""), None);
    assert_eq!(parse_u32_bytes(b"+"), None);
    assert_eq!(parse_u32_bytes(b"-1"), None);
    assert_eq!(parse_u32_bytes(b"12a"), None);
    assert_eq!(parse_u32_bytes(b"++1"), None);
    for text in ["0", "+5", "00", "65536", "4294967295", "4294967296", "", "x", " 1"] {
        assert_eq!(parse_u32_bytes(text.as_bytes()), text.parse::<u32>().ok());
    }
}

#[test]
fn parse_reads_back_decimal() {
    for n in [0u32, 1, 9, 10, 99, 100, 65535, 1_000_000, u32::MAX] {
        assert_eq!(parse_u32_bytes(&decimal_bytes(n)), Some(n));
    }
}

#[test]
fn uuid_text_is_hyphenated_lower_case() {
    assert_eq!(
        uuid_bytes(&sample_uuid()),
        b"67e55044-10b1-426f-9247-bb680e5fe0c8".to_vec()
    );
    assert_eq!(
        uuid_bytes(&Uuid { bytes: [0u8; 16] }),
        b"00000000-0000-0000-0000-000000000000".to_vec()
    );
    assert_eq!(
        uuid_bytes(&Uuid { bytes: [0xffu8; 16] }),
        b"ffffffff-ffff-ffff-ffff-ffffffffffff".to_vec()
    );
}

#[test]
fn address_and_sender_key_names() {
    let address = ProtocolAddress { name: "alice".to_string(), device_id: 3 };
    assert_eq!(address_bytes(&address), b"alice.3".to_vec());
    assert_eq!(
        sender_key_bytes(&address, &sample_uuid()),
        b"alice.3/67e55044-10b1-426f-9247-bb680e5fe0c8".to_vec()
    );
    let unicode = ProtocolAddress { name: "zoë".to_string(), device_id: 12 };
    assert_eq!(address_bytes(&unicode), "zoë.12".as_bytes().to_vec());
}

#[test]
fn device_prefix_of_an_account() {
    let account = ServiceAddress { uuid: sample_uuid() };
    assert_eq!(
        device_prefix_bytes(&account),
        b"67e55044-10b1-426f-9247-bb680e5fe0c8.".to_vec()
    );
}

#[test]
fn byte_equality() {
    assert!(bytes_equal(b"abc", b"abc"));
    assert!(!bytes_equal(b"abc", b"abd"));
    assert!(!bytes_equal(b"abc", b"ab"));
    assert!(bytes_equal(b"", b""));
}

#[test]
fn duplicate_keeps_the_address() {
    let address = ProtocolAddress { name: "bob".to_string(), device_id: 9 };
    assert_eq!(address.duplicate(), address);
}
