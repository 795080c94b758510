use b64codec::lookup_table::Lookup;
use b64codec::lookup_table::LookupTable;

#[test]
fn test_get_b64_char() {
    // upper case chars
    {
        let i: u8 = 12;
        let exp: char = (i + 65) as char;

        let res = LookupTable.get_b64_char(i);
        assert_eq!(res.unwrap(), exp);
    }

    // lower case chars
    {
        let i: u8 = 44;
        let exp: char = (i + 71) as char;

        let res = LookupTable.get_b64_char(i);
        assert_eq!(res.unwrap(), exp);
    }

    // None
    {
        let i: u8 = 127;

        let res = LookupTable.get_b64_char(i);
        assert_eq!(res, None);
    }
}

#[test]
fn test_get_b64_index() {
    // upper case chars
    {
        let ch: char = 'E';
        let exp: u8 = ch as u8 - 65;

        let res = LookupTable.get_b64_index(ch);
        assert_eq!(res.unwrap(), exp);
    }

    // lower case chars
    {
        let ch: char = 'o';
        let exp: u8 = ch as u8 - 71;

        let res = LookupTable.get_b64_index(ch);
        assert_eq!(res.unwrap(), exp);
    }

    // None
    {
        let ch: char = '~';

        let res = LookupTable.get_b64_index(ch);
        assert_eq!(res, None);
    }
}

#[test]
fn test_get_padding() {
    let res = LookupTable.get_padding();
    assert_eq!(res, '=')
}

#[test]
fn test_lookup_table_whole_alphabet() {
    let expected: Vec<char> =
        "ABCDEFGHIJKLMNOPQRSTUVWXYZabcdefghijklmnopqrstuvwxyz0123456789+/"
            .chars()
            .collect();
    for i in 0u8..64 {
        let ch = LookupTable.get_b64_char(i).unwrap();
        assert_eq!(ch, expected[i as usize]);
        assert_eq!(LookupTable.get_b64_index(ch), Some(i));
    }
    assert_eq!(LookupTable.get_b64_char(64), None);
    assert_eq!(LookupTable.get_b64_index('='), None);
    assert_eq!(LookupTable.get_b64_index(' '), None);
    assert_eq!(LookupTable.get_b64_index('é'), None);
}
