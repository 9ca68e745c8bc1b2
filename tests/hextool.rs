use cipher_chat::hexdump::{dump_line, printable_byte};
use cipher_chat::hexedit::{
    format_hex_spaced, hex_digits_to_bytes, hex_string_to_bytes, parse_offset, parse_unsigned,
    patch_bytes,
    HexError,
};

#[test]
fn hex_spaced_formatting() {
    assert_eq!(format_hex_spaced(0xD87FA3E291B4C7F3), "D87F A3E2 91B4 C7F3");
    assert_eq!(format_hex_spaced(0), "0000 0000 0000 0000");
    assert_eq!(format_hex_spaced(0xab), "0000 0000 0000 00AB");
    assert_eq!(format_hex_spaced(u64::MAX), "FFFF FFFF FFFF FFFF");
}

#[test]
fn offsets_parse() {
    assert_eq!(parse_offset("0x10"), 16);
    assert_eq!(parse_offset("0X1f"), 31);
    assert_eq!(parse_offset("42"), 42);
    assert_eq!(parse_offset("+5"), 5);
    assert_eq!(parse_offset("abc"), 0);
    assert_eq!(parse_offset("0x"), 0);
    assert_eq!(parse_offset("0xzz"), 0);
    assert_eq!(parse_offset(""), 0);
    assert_eq!(parse_offset("+"), 0);
    assert_eq!(parse_offset("-3"), 0);
    assert_eq!(parse_offset(" 7"), 0);
    assert_eq!(parse_offset("99999999999999999999999"), 0);
    assert_eq!(parse_offset("18446744073709551615"), usize::MAX);
}

#[test]
fn unsigned_parsing_matches_std() {
    for s in ["0", "17", "+9", "ff", "FF", "z", "+", "-1", "", "12a", "0x1"] {
        for radix in [2usize, 10, 16, 36] {
            let std = usize::from_str_radix(s, radix as u32).ok();
            assert_eq!(parse_unsigned(s.as_bytes(), radix), std, "{} in base {}", s, radix);
        }
    }
}

#[test]
fn hex_strings_decode() {
    assert_eq!(hex_string_to_bytes("0aff10"), Ok(vec![0x0a, 0xff, 0x10]));
    assert_eq!(hex_string_to_bytes("  DEadBEef \n"), Ok(vec![0xde, 0xad, 0xbe, 0xef]));
    assert_eq!(hex_string_to_bytes(""), Ok(vec![]));
    assert_eq!(hex_string_to_bytes("+f"), Ok(vec![0x0f]));
    assert_eq!(hex_digits_to_bytes(" 0a"), Err(HexError::OddLength));
}

#[test]
fn hex_string_errors() {
    assert_eq!(hex_string_to_bytes("abc"), Err(HexError::OddLength));
    assert_eq!(
        hex_string_to_bytes("00zz11"),
        Err(HexError::InvalidPair { high: b'z', low: b'z' })
    );
    assert_eq!(
        hex_string_to_bytes("-1"),
        Err(HexError::InvalidPair { high: b'-', low: b'1' })
    );
}

#[test]
fn patching_overwrites_and_extends() {
    let mut buf = vec![1u8, 2, 3, 4, 5];
    patch_bytes(&mut buf, &[9, 9], 1);
    assert_eq!(buf, vec![1, 9, 9, 4, 5]);
    patch_bytes(&mut buf, &[7, 7, 7], 4);
    assert_eq!(buf, vec![1, 9, 9, 4, 7, 7, 7]);
    patch_bytes(&mut buf, &[6], 7);
    assert_eq!(buf, vec![1, 9, 9, 4, 7, 7, 7, 6]);
    let mut fresh = vec![0u8; 3 + 2];
    patch_bytes(&mut fresh, &[0xaa, 0xbb], 3);
    assert_eq!(fresh, vec![0, 0, 0, 0xaa, 0xbb]);
}

#[test]
fn hex_strings_trim_unicode_white_space() {
    assert_eq!(hex_string_to_bytes("\u{3000}\u{a0}0a\u{85}\t"), Ok(vec![0x0a]));
    assert_eq!(hex_string_to_bytes("\u{2028}ff\u{202f}"), Ok(vec![0xff]));
    assert_eq!(
        hex_string_to_bytes(" 0a 0b "),
        Err(HexError::OddLength)
    );
}

#[test]
fn dump_lines_match_layout() {
    let full: Vec<u8> = (0x41u8..0x51).collect();
    assert_eq!(
        dump_line(0x10, &full),
        "00000010: 41 42 43 44 45 46 47 48 49 4a 4b 4c 4d 4e 4f 50  |ABCDEFGHIJKLMNOP|"
    );
    assert_eq!(
        dump_line(0, &[0x00, 0x7f, b'a']),
        format!("00000000: 00 7f 61 {} |..a|", " ".repeat(39))
    );
    assert_eq!(
        dump_line(0x1_2345_6789, &[]),
        format!("123456789: {} ||", " ".repeat(48))
    );
    assert_eq!(printable_byte(0x1f, b'?'), b'?');
    assert_eq!(printable_byte(b'~', b'?'), b'~');
}
