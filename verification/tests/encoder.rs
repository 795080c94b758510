use b64codec::encoder::encode;

#[test]
fn test_encode() {
    {
        let res = encode("a".as_bytes());
        let exp = String::from("YQ==");
        assert_eq!(res, exp);
    }

    {
        let res = encode("abc".as_bytes());
        let exp = String::from("YWJj");
        assert_eq!(res, exp);
    }

    {
        let res = encode("crusty0gphr".as_bytes());
        let exp = String::from("Y3J1c3R5MGdwaHI=");
        assert_eq!(res, exp);
    }
}

#[test]
fn test_shift_bytes() {}

#[test]
fn test_encode_empty() {
    assert_eq!(encode("".as_bytes()), String::from(""));
}

#[test]
fn test_encode_length_law() {
    // len(encode(B)) == 4 * ceil(len(B) / 3), over every group shape
    for n in 0usize..10 {
        let input = vec![0x5Au8; n];
        let encoded = encode(&input);
        assert_eq!(encoded.len(), 4 * ((n + 2) / 3));
    }
}

#[test]
fn test_encode_alphabet_closure() {
    // every output character is an alphabet character or padding
    let input: Vec<u8> = (0u8..=255).collect();
    for n in 0..input.len() {
        let encoded = encode(&input[..n]);
        for ch in encoded.chars() {
            let in_alphabet = ('A'..='Z').contains(&ch)
                || ('a'..='z').contains(&ch)
                || ('0'..='9').contains(&ch)
                || ch == '+'
                || ch == '/';
            assert!(in_alphabet || ch == '=');
        }
    }
}

#[test]
fn test_encode_padding_bound() {
    // at most two padding characters, and only at the very end
    for n in 0usize..10 {
        let input = vec![0xFFu8; n];
        let encoded = encode(&input);
        let pad_positions: Vec<usize> = encoded
            .chars()
            .enumerate()
            .filter(|(_, ch)| *ch == '=')
            .map(|(i, _)| i)
            .collect();
        assert!(pad_positions.len() <= 2);
        for p in pad_positions {
            assert!(p + 2 >= encoded.len());
        }
    }
}

#[test]
fn test_encode_binary_input() {
    // encoding is binary-safe: every byte value is representable
    assert_eq!(encode(&[0x00]), String::from("AA=="));
    assert_eq!(encode(&[0x00, 0x00, 0x00]), String::from("AAAA"));
    assert_eq!(encode(&[0xFF, 0xFF, 0xFF]), String::from("////"));
    assert_eq!(encode(&[0xFB, 0xEF, 0xBE]), String::from("++++"));
}
