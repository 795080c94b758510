use b64codec::decode;
use b64codec::encode;
use b64codec::decoder::DecodeError;

#[test]
fn test_top_level_vectors() {
    assert_eq!(encode("a".as_bytes()), String::from("YQ=="));
    assert_eq!(decode("YQ=="), Ok("a".as_bytes().to_vec()));
    assert_eq!(encode("abc".as_bytes()), String::from("YWJj"));
    assert_eq!(decode("YWJj"), Ok("abc".as_bytes().to_vec()));
    assert_eq!(encode("crusty0gphr".as_bytes()), String::from("Y3J1c3R5MGdwaHI="));
    assert_eq!(decode("Y3J1c3R5MGdwaHI="), Ok("crusty0gphr".as_bytes().to_vec()));
    assert_eq!(encode("".as_bytes()), String::from(""));
    assert_eq!(decode("YQ="), Err(DecodeError::InvalidInput));
}

#[test]
fn test_round_trip() {
    // decode(encode(B)) == B, over every group shape and byte value
    let samples: Vec<Vec<u8>> = vec![
        Vec::new(),
        vec![0x00],
        vec![0x00, 0x00],
        vec![0xFF],
        vec![0xFF, 0x00, 0xFF, 0x00],
        "hello, world".as_bytes().to_vec(),
        (0u8..=255).collect(),
        (0u8..=255).rev().collect(),
    ];
    for bytes in samples {
        let encoded = encode(&bytes);
        assert_eq!(decode(&encoded), Ok(bytes));
    }
    let long: Vec<u8> = (0u8..=255).cycle().take(1000).collect();
    for n in 990..1000 {
        let encoded = encode(&long[..n]);
        assert_eq!(decode(&encoded), Ok(long[..n].to_vec()));
    }
}
