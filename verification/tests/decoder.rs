use b64codec::decoder::decode;
use b64codec::decoder::DecodeError;

#[test]
fn test_decode() {
    {
        let res = decode("YQ==");
        let exp = "a".as_bytes().to_vec();
        assert_eq!(res, Ok(exp));
    }

    {
        let res = decode("YWJj");
        let exp = "abc".as_bytes().to_vec();
        assert_eq!(res, Ok(exp));
    }

    {
        let res = decode("Y3J1c3R5MGdwaHI=");
        let exp = "crusty0gphr".as_bytes().to_vec();
        assert_eq!(res, Ok(exp));
    }
}

#[test]
fn test_decode_empty() {
    assert_eq!(decode(""), Ok(Vec::new()));
}

#[test]
fn test_decode_rejects_bad_length() {
    // length not a multiple of four
    assert_eq!(decode("YQ="), Err(DecodeError::InvalidInput));
    assert_eq!(decode("Y"), Err(DecodeError::InvalidInput));
    assert_eq!(decode("YWJ"), Err(DecodeError::InvalidInput));
    assert_eq!(decode("YWJjY"), Err(DecodeError::InvalidInput));
}

#[test]
fn test_decode_rejects_foreign_chars() {
    // characters outside the alphabet and padding set
    assert_eq!(decode("Y~Jj"), Err(DecodeError::InvalidInput));
    assert_eq!(decode("YWJ "), Err(DecodeError::InvalidInput));
    assert_eq!(decode("YW,j"), Err(DecodeError::InvalidInput));
    assert_eq!(decode("YWJé"), Err(DecodeError::InvalidInput));
}

#[test]
fn test_decode_rejects_misplaced_padding() {
    // padding anywhere but as a suffix of the final group
    assert_eq!(decode("=WJj"), Err(DecodeError::InvalidInput));
    assert_eq!(decode("Y=Jj"), Err(DecodeError::InvalidInput));
    assert_eq!(decode("YW=j"), Err(DecodeError::InvalidInput));
    assert_eq!(decode("YQ==YWJj"), Err(DecodeError::InvalidInput));
    assert_eq!(decode("YWJ=YWJj"), Err(DecodeError::InvalidInput));
    // three or four paddings leave too little data in the group
    assert_eq!(decode("Y==="), Err(DecodeError::InvalidInput));
    assert_eq!(decode("===="), Err(DecodeError::InvalidInput));
}

#[test]
fn test_decode_keeps_zero_bytes() {
    // a recovered byte is kept by its position, not by its value:
    // legitimately-zero data bytes must survive
    assert_eq!(decode("AAAA"), Ok(vec![0x00, 0x00, 0x00]));
    assert_eq!(decode("AA=="), Ok(vec![0x00]));
    assert_eq!(decode("AAA="), Ok(vec![0x00, 0x00]));
    assert_eq!(decode("YQBh"), Ok(vec![0x61, 0x00, 0x61]));
}

#[test]
fn test_decode_non_canonical_low_bits() {
    // unused low-order bits in the last data character carry no data but
    // do not make the text ill-formed
    assert_eq!(decode("YR=="), Ok(vec![0x61]));
}
