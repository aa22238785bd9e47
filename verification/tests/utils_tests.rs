use mqtt_broker::packets::utils::{
    decode_length, encode_length, unpack_string, unpack_u16, unpack_u32,
};

#[test]
fn test_encode_single_byte() {
    let len: usize = 0x1e;
    let mut bytes: Vec<u8> = Vec::new();
    encode_length(len, &mut bytes);

    assert_eq!(bytes.len(), 1);
    assert_eq!(bytes[0], 30);
}

#[test]
fn test_encode_two_bytes() {
    let len: usize = 321;

    let mut bytes: Vec<u8> = Vec::new();

    encode_length(len, &mut bytes);

    assert_eq!(bytes.len(), 2);
    assert_eq!(bytes[0], 193);
    assert_eq!(bytes[1], 2);
}

#[test]
fn test_decode_single_byte() {
    let byte: [u8; 1] = [0x1e];

    let (value, len) = decode_length(&byte, 0).expect("Failed to decode");

    assert_eq!(value, 30);
    assert_eq!(len, 1);
}

#[test]
fn test_decode_two_bytes() {
    let bytes: [u8; 2] = [193, 2];

    let (value, len) = decode_length(&bytes, 0).unwrap();
    assert_eq!(value, 321);
    assert_eq!(len, 2);
}

#[test]
fn test_decode_two_bytes_with_extra() {
    let bytes: [u8; 3] = [193, 2, 123];

    let (value, len) = decode_length(&bytes, 0).unwrap();
    assert_eq!(value, 321);
    assert_eq!(len, 2);
}

#[test]
fn test_unpack_u32() {
    let input: [u8; 4] = [0x00, 0x01, 0xD9, 0xF6];

    let (result, _) = unpack_u32(&input, 0).unwrap();

    assert_eq!(result, 121334)
}

#[test]
fn test_unpack_u16() {
    let input: [u8; 2] = [0x00, 0xC];

    let (result, _) = unpack_u16(&input, 0).unwrap();

    assert_eq!(result, 12)
}

#[test]
fn test_unpack_a() {
    let input: [u8; 2] = [0x00, 0x0a];

    let (result, _) = unpack_u16(&input, 0).expect("Failed to parse");

    assert_eq!(result, 10)
}

#[test]
fn test_unpack_error() {
    let input: [u8; 1] = [0xC];

    unpack_u16(&input, 0).expect_err("Testing Expect Error");
}

#[test]
fn test_unpack_string() {
    //  'Hello, World' UTF8 string with u16 length header, in big endian order
    let input: [u8; 14] = [
        0x00, 0xC, 0x48, 0x65, 0x6c, 0x6c, 0x6f, 0x2c, 0x20, 0x57, 0x6f, 0x72, 0x6c, 0x64,
    ];

    let (result, consumed) = unpack_string(&input, 0).unwrap();

    assert_eq!(result, "Hello, World".to_string());
    assert_eq!(consumed, 14);
}
