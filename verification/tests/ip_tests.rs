use rsnetstat::ip::{
    encode_ipv4_hex, proc_str_to_ip4, proc_str_to_ip6, str_to_ip4, Address, IpError,
};

#[test]
fn proc_str_to_ip4_test() {
    // 127.0.0.1 in canonical byte order is 0x7F000001.
    assert_eq!(Address::V4(0x7F000001), proc_str_to_ip4("0100007F").unwrap());
    assert_eq!(Address::V4(0x12345678), proc_str_to_ip4("78563412").unwrap());
    assert_eq!(Address::V4(0xFA000000), proc_str_to_ip4("000000FA").unwrap());
    assert_eq!(Address::V4(0x000000FA), proc_str_to_ip4("FA000000").unwrap());
}

#[test]
fn proc_str_to_ip4_worked_example() {
    assert_eq!(Address::V4(0xFF000001), proc_str_to_ip4("010000FF").unwrap());
}

#[test]
fn proc_str_to_ip4_accepts_lowercase() {
    assert_eq!(Address::V4(0x12345678), proc_str_to_ip4("78563412").unwrap());
    assert_eq!(Address::V4(0xFF000001), proc_str_to_ip4("010000ff").unwrap());
}

#[test]
fn proc_str_to_ip4_rejects_wrong_length() {
    assert_eq!(Err(IpError::Format), proc_str_to_ip4("0100007"));
    assert_eq!(Err(IpError::Format), proc_str_to_ip4("0100007F0"));
    assert_eq!(Err(IpError::Format), proc_str_to_ip4(""));
}

#[test]
fn proc_str_to_ip4_rejects_stray_characters() {
    assert_eq!(Err(IpError::ParseInt), proc_str_to_ip4("0100007G"));
    assert_eq!(Err(IpError::ParseInt), proc_str_to_ip4("01 0007F"));
}

#[test]
fn proc_str_to_ip6_test() {
    // Groups 3254:7698:0000:0000:7856:3412:0000:0001.
    assert_eq!(
        Address::V6(0x32547698, 0x00000000, 0x78563412, 0x00000001),
        proc_str_to_ip6("98765432000000001234567801000000").unwrap()
    );
}

#[test]
fn proc_str_to_ip6_rejects_wrong_length() {
    assert_eq!(Err(IpError::Format), proc_str_to_ip6("9876543200000000123456780100000"));
    assert_eq!(Err(IpError::Format), proc_str_to_ip6("987654320000000012345678010000000"));
    assert_eq!(Err(IpError::Format), proc_str_to_ip6(""));
}

#[test]
fn proc_str_to_ip6_rejects_stray_characters() {
    assert_eq!(Err(IpError::ParseInt), proc_str_to_ip6("9876543200000000123456780100000Z"));
}

#[test]
fn str_to_ip4_test() {
    assert_eq!(Address::V4(0x7F000001), str_to_ip4("localhost").unwrap());
    assert_eq!(Address::V4(0x7F000001), str_to_ip4("127.0.0.1").unwrap());
    assert_eq!(Address::V4(0x00000000), str_to_ip4("0.0.0.0").unwrap());
    assert_eq!(Address::V4(0xFFFFFFFF), str_to_ip4("255.255.255.255").unwrap());
}

#[test]
fn str_to_ip4_rejects_malformed() {
    assert_eq!(Err(IpError::Format), str_to_ip4("127.0.0"));
    assert_eq!(Err(IpError::Format), str_to_ip4("127.0.0.1.2"));
    assert_eq!(Err(IpError::ParseInt), str_to_ip4("256.0.0.1"));
    assert_eq!(Err(IpError::ParseInt), str_to_ip4("127.0.0.x"));
    assert_eq!(Err(IpError::ParseInt), str_to_ip4("127..0.1"));
}

#[test]
fn encode_ipv4_hex_test() {
    assert_eq!("010000FF", encode_ipv4_hex(0xFF000001).as_str());
    assert_eq!("0100007F", encode_ipv4_hex(0x7F000001).as_str());
    assert_eq!("00000000", encode_ipv4_hex(0x00000000).as_str());
}

#[test]
fn ipv4_round_trip_test() {
    // Decoding a token, re-encoding the address, and decoding again gives
    // the address the token decoded to: the byte swap undoes itself.
    for token in ["010000FF", "78563412", "000000FA", "FA000000", "DEADBEEF"] {
        let first = proc_str_to_ip4(token).unwrap();
        let addr = match first {
            Address::V4(v) => v,
            _ => panic!("expected a V4 address"),
        };
        let encoded = encode_ipv4_hex(addr);
        assert_eq!(first, proc_str_to_ip4(encoded.as_str()).unwrap());
    }
}
